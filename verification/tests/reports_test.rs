use archidoc::fitness::{format_fitness_result, run_fitness, FitnessResult};
use archidoc::health::{aggregate_health, format_health_report};
use archidoc::heuristics::check_module_pattern;
use archidoc::types::{C4Level, FileEntry, HealthStatus, ModuleDoc, PatternStatus};
use archidoc::validate::{format_validation_report, validate_file_tables};

#[test]
fn test_cli_builds_successfully() {
    assert!(true);
}

fn container(name: &str, purpose: &str, pattern: &str, files: Vec<FileEntry>) -> ModuleDoc {
    ModuleDoc {
        mod_path: name.to_string(),
        content: format!("# {} <<container>>\n\n{}\n", name, purpose),
        source_file: format!("src/{}/mod.rs", name),
        c4_level: C4Level::Container,
        pattern: pattern.to_string(),
        pattern_status: PatternStatus::Planned,
        description: purpose.to_string(),
        parent_container: None,
        relationships: vec![],
        files,
    }
}

#[test]
fn enum_tokens_round_trip_through_parse() {
    assert_eq!(C4Level::parse("container"), C4Level::Container);
    assert_eq!(C4Level::parse(" Component "), C4Level::Component);
    assert_eq!(C4Level::parse("system"), C4Level::Unknown);
    assert_eq!(PatternStatus::parse("verified"), PatternStatus::Verified);
    assert_eq!(PatternStatus::parse("anything"), PatternStatus::Planned);
    assert_eq!(HealthStatus::parse("ACTIVE"), HealthStatus::Active);
    assert_eq!(HealthStatus::parse("stable"), HealthStatus::Stable);
    assert_eq!(HealthStatus::parse("???"), HealthStatus::Planned);
    assert_eq!(C4Level::Container.token(), "container");
    assert_eq!(PatternStatus::Verified.token(), "verified");
    assert_eq!(HealthStatus::Planned.token(), "planned");
}

#[test]
fn health_report_text_shows_counts_and_percentages() {
    let docs = vec![container(
        "bus",
        "Central messaging backbone",
        "Mediator",
        vec![
            FileEntry {
                name: "lanes.rs".to_string(),
                pattern: "--".to_string(),
                pattern_status: PatternStatus::Planned,
                purpose: "Event routing".to_string(),
                health: HealthStatus::Active,
            },
            FileEntry {
                name: "store.rs".to_string(),
                pattern: "--".to_string(),
                pattern_status: PatternStatus::Planned,
                purpose: "Cache".to_string(),
                health: HealthStatus::Stable,
            },
        ],
    )];
    let report = aggregate_health(&docs);
    let text = format_health_report(&report);
    assert!(text.contains("Architecture Health Report"));
    assert!(text.contains("Elements:    1 total (1 containers, 0 components)"));
    assert!(text.contains("Files:       2 total"));
    assert!(text.contains("  active:    1 (50.0%)"));
    assert!(text.contains("  stable:    1 (50.0%)"));
    assert!(text.contains("Patterns:    1 assigned"));
}

#[test]
fn validation_report_text_names_findings() {
    let docs = vec![container(
        "bus",
        "Central messaging backbone",
        "--",
        vec![FileEntry {
            name: "ghost.rs".to_string(),
            pattern: "--".to_string(),
            pattern_status: PatternStatus::Planned,
            purpose: "Gone".to_string(),
            health: HealthStatus::Planned,
        }],
    )];
    let listings = vec![vec!["mod.rs".to_string(), "stray.rs".to_string()]];
    let report = validate_file_tables(&docs, &listings);
    let text = format_validation_report(&report);
    assert!(text.contains("Ghost entries (1 found):"));
    assert!(text.contains("bus \u{2014} 'ghost.rs' listed in catalog but not found on disk"));
    assert!(text.contains("Orphan files (1 found):"));
    assert!(text.contains("bus \u{2014} 'stray.rs' exists on disk but not in catalog"));
}

#[test]
fn clean_validation_report_text() {
    let docs = vec![container("bus", "Central messaging backbone", "--", vec![])];
    let listings = vec![vec!["mod.rs".to_string()]];
    let report = validate_file_tables(&docs, &listings);
    assert_eq!(format_validation_report(&report), "File validation: all clear\n");
}

#[test]
fn fitness_result_text_for_pass_and_fail() {
    let docs = vec![container("bus", "Central messaging backbone", "Strategy", vec![])];
    let sources = vec![vec![(
        "algo.rs".to_string(),
        "pub trait Algo { fn run(&self); }".to_string(),
    )]];
    let passing: FitnessResult =
        run_fitness("all_strategy_modules_define_a_trait", &docs, &sources).unwrap();
    let text = format_fitness_result("all_strategy_modules_define_a_trait", &passing);
    assert_eq!(
        text,
        "PASS: all_strategy_modules_define_a_trait \u{2014} checked 1 module(s)\n"
    );

    let bare_sources = vec![vec![("algo.rs".to_string(), "pub fn f() {}".to_string())]];
    let failing = run_fitness("all_strategy_modules_define_a_trait", &docs, &bare_sources).unwrap();
    let text = format_fitness_result("all_strategy_modules_define_a_trait", &failing);
    assert!(text.starts_with("FAIL: all_strategy_modules_define_a_trait \u{2014} 1/1 module(s) failed\n"));
    assert!(text.contains("bus (src/bus/mod.rs): no trait definition found"));
}

#[test]
fn module_scan_is_existential_over_files() {
    let sources = vec![
        ("helpers.rs".to_string(), "pub fn add(a: u8, b: u8) -> u8 { a + b }".to_string()),
        ("algo.rs".to_string(), "pub trait Algo { fn run(&self); }".to_string()),
        ("extra.rs".to_string(), "pub struct Nothing;".to_string()),
    ];
    assert!(check_module_pattern("Strategy", &sources));
    assert!(!check_module_pattern("Observer", &sources));
    assert!(!check_module_pattern("NoSuchPattern", &sources));
}

#[test]
fn unparsable_source_yields_no_evidence() {
    let sources = vec![("broken.rs".to_string(), "this is not rust at all {{{".to_string())];
    assert!(!check_module_pattern("Strategy", &sources));
    assert!(!check_module_pattern("Adapter", &sources));
}
