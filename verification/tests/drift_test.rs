use archidoc::check::{check_drift, format_drift_report};
use archidoc::ir::serialize;
use archidoc::types::{C4Level, ModuleDoc, PatternStatus};

fn container(name: &str, purpose: &str, pattern: &str) -> ModuleDoc {
    ModuleDoc {
        mod_path: name.to_string(),
        content: format!("# {} <<container>>\n\n{}\n", name, purpose),
        source_file: format!("src/{}/mod.rs", name),
        c4_level: C4Level::Container,
        pattern: pattern.to_string(),
        pattern_status: PatternStatus::Planned,
        description: purpose.to_string(),
        parent_container: None,
        relationships: vec![],
        files: vec![],
    }
}

/// The one canonical artifact derived from an IR set.
fn render_tree(docs: &Vec<ModuleDoc>) -> Vec<(String, String)> {
    vec![("architecture-ir.json".to_string(), serialize(docs))]
}

#[test]
fn no_drift_when_documentation_is_current() {
    let docs = vec![container("bus", "Central messaging backbone", "Mediator")];
    let persisted = render_tree(&docs);
    let fresh = render_tree(&docs);
    let report = check_drift(&fresh, &persisted);
    assert!(!report.has_drift());
}

#[test]
fn drift_detected_when_source_changes_after_compilation() {
    let docs = vec![container("bus", "Central messaging backbone", "Mediator")];
    let persisted = render_tree(&docs);
    let changed = vec![container(
        "bus",
        "CHANGED description that differs from compiled docs",
        "Mediator",
    )];
    let fresh = render_tree(&changed);
    let report = check_drift(&fresh, &persisted);
    assert!(report.has_drift());
    assert_eq!(report.drifted_files.len(), 1);
    assert_eq!(report.drifted_files[0].path, "architecture-ir.json");
}

#[test]
fn drift_detected_across_multiple_elements() {
    let docs = vec![
        container("bus", "Central messaging backbone", "--"),
        container("engine", "Trade execution engine", "--"),
    ];
    let persisted = render_tree(&docs);
    let changed = vec![
        container("bus", "Central messaging backbone", "--"),
        container("engine", "Completely rewritten engine purpose", "--"),
    ];
    let fresh = render_tree(&changed);
    let report = check_drift(&fresh, &persisted);
    assert!(report.has_drift());
}

#[test]
fn missing_and_extra_files_are_reported() {
    let fresh = vec![
        ("a.md".to_string(), "alpha\n".to_string()),
        ("b.md".to_string(), "beta\n".to_string()),
    ];
    let persisted = vec![
        ("b.md".to_string(), "beta\n".to_string()),
        ("c.md".to_string(), "gamma\n".to_string()),
    ];
    let report = check_drift(&fresh, &persisted);
    assert_eq!(report.missing_files, vec!["a.md".to_string()]);
    assert_eq!(report.extra_files, vec!["c.md".to_string()]);
    assert!(report.drifted_files.is_empty());
}

#[test]
fn drifted_line_counts_follow_the_contents() {
    let fresh = vec![("doc.md".to_string(), "one\ntwo\nthree".to_string())];
    let persisted = vec![("doc.md".to_string(), "one\n".to_string())];
    let report = check_drift(&fresh, &persisted);
    assert_eq!(report.drifted_files.len(), 1);
    assert_eq!(report.drifted_files[0].expected_lines, 3);
    assert_eq!(report.drifted_files[0].actual_lines, 1);
}

#[test]
fn checking_twice_against_unchanged_inputs_is_stable() {
    let fresh = vec![("doc.md".to_string(), "one\n".to_string())];
    let persisted = vec![("doc.md".to_string(), "two\n".to_string())];
    let first = check_drift(&fresh, &persisted);
    let second = check_drift(&fresh, &persisted);
    assert_eq!(format_drift_report(&first), format_drift_report(&second));
    assert_eq!(first.drifted_files.len(), second.drifted_files.len());
}

#[test]
fn up_to_date_report_text() {
    let fresh: Vec<(String, String)> = vec![];
    let persisted: Vec<(String, String)> = vec![];
    let report = check_drift(&fresh, &persisted);
    assert_eq!(format_drift_report(&report), "Documentation is up to date.\n");
}
