use archidoc::health::aggregate_health;
use archidoc::types::{C4Level, FileEntry, HealthStatus, ModuleDoc, PatternStatus};

fn catalog_entry(file: &str, pattern: &str, responsibility: &str, maturity: HealthStatus) -> FileEntry {
    FileEntry {
        name: file.to_string(),
        pattern: pattern.to_string(),
        pattern_status: PatternStatus::Planned,
        purpose: responsibility.to_string(),
        health: maturity,
    }
}

fn container(name: &str, purpose: &str, pattern: &str, files: Vec<FileEntry>) -> ModuleDoc {
    ModuleDoc {
        mod_path: name.to_string(),
        content: format!("# {} <<container>>\n\n{}\n", name, purpose),
        source_file: format!("src/{}/mod.rs", name),
        c4_level: C4Level::Container,
        pattern: pattern.to_string(),
        pattern_status: PatternStatus::Planned,
        description: purpose.to_string(),
        parent_container: None,
        relationships: vec![],
        files,
    }
}

#[test]
fn health_report_counts_files_by_maturity() {
    let docs = vec![container(
        "bus",
        "Central messaging backbone",
        "Mediator",
        vec![
            catalog_entry("lanes.rs", "Observer", "Event routing", HealthStatus::Active),
            catalog_entry("store.rs", "Repository", "Lock-free cache", HealthStatus::Stable),
            catalog_entry("future.rs", "--", "Future feature", HealthStatus::Planned),
        ],
    )];
    let report = aggregate_health(&docs);
    assert_eq!(report.total_files, 3);
    assert_eq!(report.files_planned, 1);
    assert_eq!(report.files_active, 1);
    assert_eq!(report.files_stable, 1);
}

#[test]
fn health_report_counts_patterns_by_confidence() {
    let mut bus = container("bus", "Central messaging backbone", "Mediator", vec![]);
    bus.pattern_status = PatternStatus::Verified;
    let engine = container("engine", "Trade execution engine", "Facade", vec![]);
    let store = container("store", "Data persistence", "--", vec![]);
    let docs = vec![bus, engine, store];
    let report = aggregate_health(&docs);
    assert_eq!(report.patterns_verified, 1);
    assert_eq!(report.patterns_planned, 1);
    assert_eq!(report.patterns_total, 2);
}

#[test]
fn health_report_aggregates_across_multiple_elements() {
    let docs = vec![
        container(
            "bus",
            "Central messaging backbone",
            "Mediator",
            vec![
                catalog_entry("lanes.rs", "--", "Event routing", HealthStatus::Stable),
                catalog_entry("calc.rs", "--", "Calculations", HealthStatus::Active),
            ],
        ),
        container(
            "engine",
            "Trade execution engine",
            "Facade",
            vec![
                catalog_entry("runner.rs", "--", "Trade execution", HealthStatus::Stable),
                catalog_entry("planner.rs", "--", "Trade planning", HealthStatus::Planned),
            ],
        ),
    ];
    let report = aggregate_health(&docs);
    assert_eq!(report.total_files, 4);
    assert_eq!(report.files_planned, 1);
    assert_eq!(report.files_active, 1);
    assert_eq!(report.files_stable, 2);
}

#[test]
fn file_catalog_tracks_element_composition() {
    let docs = vec![container(
        "bus",
        "Central messaging backbone",
        "Mediator",
        vec![
            catalog_entry("lanes.rs", "Observer", "Event routing", HealthStatus::Active),
            catalog_entry("calc.rs", "Strategy", "Indicator calculations", HealthStatus::Stable),
        ],
    )];
    let lanes = docs[0].files.iter().find(|f| f.name == "lanes.rs").unwrap();
    assert_eq!(lanes.pattern, "Observer");
    assert_eq!(lanes.purpose, "Event routing");
    assert_eq!(lanes.health.token(), "active");
    let calc = docs[0].files.iter().find(|f| f.name == "calc.rs").unwrap();
    assert_eq!(calc.pattern, "Strategy");
    assert_eq!(calc.purpose, "Indicator calculations");
    assert_eq!(calc.health.token(), "stable");
    assert_eq!(docs[0].files.len(), 2);
}

#[test]
fn pattern_confidence_distinguishes_planned_from_verified() {
    let mut bus = container("bus", "Central messaging backbone", "Mediator", vec![]);
    bus.pattern_status = PatternStatus::Verified;
    let engine = container("engine", "Trade execution engine", "Facade", vec![]);
    let docs = vec![bus, engine];
    assert_eq!(docs[0].pattern_status.token(), "verified");
    assert_eq!(docs[1].pattern_status.token(), "planned");
}

#[test]
fn health_maturity_reflects_implementation_progress() {
    let docs = vec![container(
        "bus",
        "Central messaging backbone",
        "--",
        vec![
            catalog_entry("planned_feature.rs", "--", "Future work", HealthStatus::Planned),
            catalog_entry("active_work.rs", "--", "In development", HealthStatus::Active),
            catalog_entry("stable_core.rs", "--", "Core logic", HealthStatus::Stable),
        ],
    )];
    let by_name = |n: &str| docs[0].files.iter().find(|f| f.name == n).unwrap();
    assert_eq!(by_name("planned_feature.rs").health.token(), "planned");
    assert_eq!(by_name("active_work.rs").health.token(), "active");
    assert_eq!(by_name("stable_core.rs").health.token(), "stable");
}

#[test]
fn catalog_entries_can_include_pattern_confidence() {
    let mut entry = catalog_entry("lanes.rs", "Observer", "Event routing", HealthStatus::Stable);
    entry.pattern_status = PatternStatus::Verified;
    let docs = vec![container("bus", "Central messaging backbone", "--", vec![entry])];
    let lanes = docs[0].files.iter().find(|f| f.name == "lanes.rs").unwrap();
    assert_eq!(format!("{} ({})", lanes.pattern, lanes.pattern_status.token()), "Observer (verified)");
    assert_eq!(lanes.purpose, "Event routing");
    assert_eq!(lanes.health.token(), "stable");
}

#[test]
fn per_element_rows_follow_the_documents() {
    let docs = vec![
        container("bus", "Central messaging backbone", "Mediator", vec![]),
        container("engine", "Trade execution engine", "--", vec![]),
    ];
    let report = aggregate_health(&docs);
    assert_eq!(report.total_elements, 2);
    assert_eq!(report.container_count, 2);
    assert_eq!(report.component_count, 0);
    assert_eq!(report.per_element.len(), 2);
    assert_eq!(report.per_element[0].name, "bus");
    assert_eq!(report.per_element[0].c4_level, "container");
    assert_eq!(report.per_element[1].name, "engine");
}
