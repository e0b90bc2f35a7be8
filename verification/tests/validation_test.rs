use archidoc::types::{C4Level, FileEntry, HealthStatus, ModuleDoc, PatternStatus};
use archidoc::validate::validate_file_tables;

fn catalog_entry(file: &str, pattern: &str, responsibility: &str, maturity: HealthStatus) -> FileEntry {
    FileEntry {
        name: file.to_string(),
        pattern: pattern.to_string(),
        pattern_status: PatternStatus::Planned,
        purpose: responsibility.to_string(),
        health: maturity,
    }
}

fn container(name: &str, purpose: &str, pattern: &str, files: Vec<FileEntry>) -> ModuleDoc {
    ModuleDoc {
        mod_path: name.to_string(),
        content: format!("# {} <<container>>\n\n{}\n", name, purpose),
        source_file: format!("src/{}/mod.rs", name),
        c4_level: C4Level::Container,
        pattern: pattern.to_string(),
        pattern_status: PatternStatus::Planned,
        description: purpose.to_string(),
        parent_container: None,
        relationships: vec![],
        files,
    }
}

fn listing(names: &[&str]) -> Vec<String> {
    names.iter().map(|n| n.to_string()).collect()
}

#[test]
fn clean_architecture_passes_validation() {
    let docs = vec![container("bus", "Central messaging backbone", "Mediator", vec![])];
    let listings = vec![listing(&["mod.rs"])];
    let report = validate_file_tables(&docs, &listings);
    assert!(report.is_clean());
}

#[test]
fn ghost_detected_when_cataloged_file_is_missing() {
    let docs = vec![container(
        "bus",
        "Central messaging backbone",
        "Mediator",
        vec![catalog_entry("lanes.rs", "Observer", "Event routing", HealthStatus::Active)],
    )];
    // The catalog names lanes.rs, but the directory only holds the entry file.
    let listings = vec![listing(&["mod.rs"])];
    let report = validate_file_tables(&docs, &listings);
    let found = report.ghosts.iter().any(|g| g.element == "bus" && g.filename == "lanes.rs");
    assert!(found);
}

#[test]
fn ghost_detected_when_file_removed_after_cataloging() {
    let docs = vec![container(
        "bus",
        "Central messaging backbone",
        "--",
        vec![catalog_entry("temp.rs", "--", "Temporary work", HealthStatus::Planned)],
    )];
    // temp.rs was on disk once; after its removal the listing no longer has it.
    let listings = vec![listing(&["mod.rs"])];
    let report = validate_file_tables(&docs, &listings);
    let found = report.ghosts.iter().any(|g| g.element == "bus" && g.filename == "temp.rs");
    assert!(found);
}

#[test]
fn orphan_detected_when_uncataloged_file_exists() {
    let docs = vec![container(
        "bus",
        "Central messaging backbone",
        "--",
        vec![catalog_entry("lanes.rs", "--", "Event routing", HealthStatus::Active)],
    )];
    // lanes.rs is cataloged and on disk; analytics.rs is on disk only.
    let listings = vec![listing(&["mod.rs", "lanes.rs", "analytics.rs"])];
    let report = validate_file_tables(&docs, &listings);
    let found = report.orphans.iter().any(|o| o.element == "bus" && o.filename == "analytics.rs");
    assert!(found);
    assert!(!report.ghosts.iter().any(|g| g.filename == "lanes.rs"));
}

#[test]
fn detects_both_ghosts_and_orphans_simultaneously() {
    let docs = vec![container(
        "bus",
        "Central messaging backbone",
        "--",
        vec![
            catalog_entry("lanes.rs", "--", "Event routing", HealthStatus::Active),
            catalog_entry("deleted.rs", "--", "Was removed", HealthStatus::Planned),
        ],
    )];
    let listings = vec![listing(&["mod.rs", "lanes.rs", "extra.rs"])];
    let report = validate_file_tables(&docs, &listings);
    assert!(report.ghosts.iter().any(|g| g.element == "bus" && g.filename == "deleted.rs"));
    assert!(report.orphans.iter().any(|o| o.element == "bus" && o.filename == "extra.rs"));
}

#[test]
fn structural_files_are_never_orphans() {
    let docs = vec![container(
        "bus",
        "Central messaging backbone",
        "--",
        vec![catalog_entry("lanes.rs", "--", "Event routing", HealthStatus::Active)],
    )];
    let listings = vec![listing(&["mod.rs", "lib.rs", "main.rs", "lanes.rs", "notes.txt"])];
    let report = validate_file_tables(&docs, &listings);
    assert!(report.is_clean());
}

#[test]
fn empty_catalog_is_skipped_even_with_loose_files() {
    let docs = vec![container("bus", "Central messaging backbone", "--", vec![])];
    let listings = vec![listing(&["mod.rs", "stray.rs"])];
    let report = validate_file_tables(&docs, &listings);
    assert!(report.is_clean());
}
