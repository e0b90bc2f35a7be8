use archidoc::parser::{
    extract_c4_level, extract_description, extract_file_table, extract_parent_container,
    extract_pattern, extract_pattern_status, extract_relationships,
};
use archidoc::types::{C4Level, HealthStatus, PatternStatus};
use archidoc::walker::{extract_all_docs, extract_doc_comments};

fn tree(files: &[(&str, &str)]) -> Vec<(String, String)> {
    files.iter().map(|(p, c)| (p.to_string(), c.to_string())).collect()
}

#[test]
fn flat_module_with_at_c4_syntax() {
    let files = tree(&[(
        "/tree/router.rs",
        "//! @c4 container\n//!\n//! # Router\n//!\n//! HTTP request router\n",
    )]);
    let docs = extract_all_docs(&files, "/tree");
    assert_eq!(docs.len(), 1);
    assert_eq!(docs[0].mod_path, "router");
}

#[test]
fn nested_flat_module() {
    let files = tree(&[(
        "/tree/bus/events.rs",
        "//! @c4 component\n//!\n//! # Events\n//!\n//! Event handling for bus\n",
    )]);
    let docs = extract_all_docs(&files, "/tree");
    assert_eq!(docs.len(), 1);
    assert_eq!(docs[0].mod_path, "bus.events");
    assert_eq!(docs[0].parent_container, Some("bus".to_string()));
}

#[test]
fn mod_rs_takes_priority_over_flat_module() {
    let files = tree(&[
        (
            "/tree/foo/mod.rs",
            "//! @c4 container\n//!\n//! # Foo Mod\n//!\n//! This should be used\n",
        ),
        (
            "/tree/foo.rs",
            "//! @c4 container\n//!\n//! # Foo Flat\n//!\n//! This should be ignored\n",
        ),
    ]);
    let docs = extract_all_docs(&files, "/tree");
    assert_eq!(docs.len(), 1);
    assert_eq!(docs[0].mod_path, "foo");
    assert!(docs[0].content.contains("Foo Mod"));
}

#[test]
fn flat_module_without_c4_marker_is_skipped() {
    let files = tree(&[(
        "/tree/helper.rs",
        "//! Just a helper module\n//!\n//! No architecture markers here\n",
    )]);
    let docs = extract_all_docs(&files, "/tree");
    assert_eq!(docs.len(), 0);
}

#[test]
fn mixed_traditional_and_flat_modules() {
    let files = tree(&[
        ("/tree/lib.rs", "//! @c4 container\n//!\n//! # Crate Root\n//!\n//! Top-level module\n"),
        ("/tree/bus/mod.rs", "//! @c4 container\n//!\n//! # Bus\n//!\n//! Message bus\n"),
        ("/tree/router.rs", "//! @c4 component\n//!\n//! # Router\n//!\n//! Request router\n"),
        ("/tree/bus/calc.rs", "//! @c4 component\n//!\n//! # Calc\n//!\n//! Calculations\n"),
    ]);
    let docs = extract_all_docs(&files, "/tree");
    assert_eq!(docs.len(), 4);
    let paths: Vec<&str> = docs.iter().map(|d| d.mod_path.as_str()).collect();
    assert_eq!(paths, vec!["_lib", "bus", "bus.calc", "router"]);
}

#[test]
fn target_directories_are_skipped() {
    let files = tree(&[(
        "/tree/target/debug/build.rs",
        "//! @c4 container\n//!\n//! # Build artifact\n//!\n//! Should not appear\n",
    )]);
    let docs = extract_all_docs(&files, "/tree");
    assert_eq!(docs.len(), 0);
}

#[test]
fn doc_comment_block_is_lifted_and_prefixes_stripped() {
    let content = "//! # Title\n//!\n//! Body line\nfn main() {}\n//! trailing ignored\n";
    let doc = extract_doc_comments(content).unwrap();
    assert_eq!(doc, "# Title\n\nBody line");
    assert_eq!(extract_doc_comments("fn main() {}\n"), None);
}

#[test]
fn annotation_fields_are_extracted() {
    let content = "# Bus <<container>>\n\nCentral messaging backbone\n\nGoF: Mediator (verified)\n\n<<uses: agents, \"Routes data\", \"crossbeam\">>\n\n| File | Pattern | Purpose | Health |\n|------|---------|---------|--------|\n| `lanes.rs` | Observer (verified) | Event routing | active |\n| `store.rs` | -- | Cache | stable |\n";
    assert_eq!(extract_c4_level(content), C4Level::Container);
    assert_eq!(extract_pattern(content), "Mediator");
    assert_eq!(extract_pattern_status(content), PatternStatus::Verified);
    assert_eq!(extract_description(content), "Central messaging backbone");
    let rels = extract_relationships(content);
    assert_eq!(rels.len(), 1);
    assert_eq!(rels[0].target, "agents");
    assert_eq!(rels[0].label, "Routes data");
    assert_eq!(rels[0].protocol, "crossbeam");
    let files = extract_file_table(content);
    assert_eq!(files.len(), 2);
    assert_eq!(files[0].name, "lanes.rs");
    assert_eq!(files[0].pattern, "Observer");
    assert_eq!(files[0].pattern_status, PatternStatus::Verified);
    assert_eq!(files[0].purpose, "Event routing");
    assert_eq!(files[0].health, HealthStatus::Active);
    assert_eq!(files[1].name, "store.rs");
    assert_eq!(files[1].health, HealthStatus::Stable);
}

#[test]
fn description_falls_back_when_no_summary_line() {
    let content = "# Heading only <<container>>\n\n| File | Pattern | Purpose | Health |\n";
    assert_eq!(extract_description(content), "*No description*");
}

#[test]
fn parent_container_derivation() {
    assert_eq!(extract_parent_container("bus.calc.indicators"), Some("bus".to_string()));
    assert_eq!(extract_parent_container("bus"), None);
}
