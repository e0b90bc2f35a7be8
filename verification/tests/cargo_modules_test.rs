use archidoc::cargo_modules::{
    crate_path_to_module, detect_orphans, extract_quoted, parse_dot_output,
    validate_relationships, ImportGraph, WarningKind,
};
use archidoc::types::{C4Level, ModuleDoc, PatternStatus, Relationship};

fn make_doc(path: &str, rels: Vec<Relationship>) -> ModuleDoc {
    ModuleDoc {
        mod_path: path.to_string(),
        content: "test".to_string(),
        source_file: "test.rs".to_string(),
        c4_level: C4Level::Component,
        pattern: "--".to_string(),
        pattern_status: PatternStatus::Planned,
        description: "test".to_string(),
        parent_container: None,
        relationships: rels,
        files: vec![],
    }
}

#[test]
fn test_extract_quoted() {
    assert_eq!(extract_quoted(r#""my_crate::core""#).unwrap(), "my_crate::core");
    assert_eq!(extract_quoted(r#"  "module"  "#).unwrap(), "module");
}

#[test]
fn test_import_graph_operations() {
    let mut graph = ImportGraph::default();
    graph.nodes.push("core".to_string());
    graph.nodes.push("utils".to_string());
    graph.edges.push(("core".to_string(), "utils".to_string()));

    assert!(graph.has_dependency("core", "utils"));
    assert!(!graph.has_dependency("utils", "core"));

    let deps = graph.get_dependencies("core");
    assert_eq!(deps, vec!["utils"]);
}

#[test]
fn test_validate_relationships_no_import() {
    let docs = vec![make_doc(
        "core",
        vec![Relationship {
            target: "utils".to_string(),
            label: "test".to_string(),
            protocol: "Rust".to_string(),
        }],
    )];

    let graph = ImportGraph::default();

    let warnings = validate_relationships(&docs, &graph);
    assert_eq!(warnings.len(), 1);
    assert_eq!(warnings[0].module, "core");
    assert_eq!(warnings[0].target, "utils");
    assert!(matches!(warnings[0].kind, WarningKind::NoImport));
}

#[test]
fn test_detect_orphans() {
    let docs = vec![make_doc("core", vec![])];

    let mut graph = ImportGraph::default();
    graph.nodes.push("core".to_string());
    graph.nodes.push("utils".to_string());
    graph.nodes.push("database".to_string());

    let orphans = detect_orphans(&docs, &graph);
    assert_eq!(orphans.len(), 2);
    assert!(orphans.contains(&"utils".to_string()));
    assert!(orphans.contains(&"database".to_string()));
}

#[test]
fn test_crate_path_to_module() {
    assert_eq!(crate_path_to_module("my_crate"), "my_crate");
    assert_eq!(crate_path_to_module("my_crate::core"), "core");
    assert_eq!(crate_path_to_module("my_crate::core::types"), "core.types");
}

#[test]
fn test_parse_dot_output() {
    let dot = r#"
digraph {
  "my_crate" -> "my_crate::core"
  "my_crate::core" -> "my_crate::utils"
}
"#;

    let graph = parse_dot_output(dot).unwrap();
    assert!(graph.nodes.iter().any(|n| n == "core"));
    assert!(graph.nodes.iter().any(|n| n == "utils"));
    assert!(graph.has_dependency("core", "utils"));
}

#[test]
fn dot_line_without_complete_quotes_is_rejected() {
    let dot = "\"my_crate -> \"my_crate::core\"\n";
    assert!(parse_dot_output(dot).is_err());
}
