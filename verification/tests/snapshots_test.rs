use archidoc::ir::{deserialize, serialize};
use archidoc::merge::merge_ir;
use archidoc::types::{C4Level, ModuleDoc, PatternStatus, Relationship};

fn container(name: &str, purpose: &str) -> ModuleDoc {
    ModuleDoc {
        mod_path: name.to_string(),
        content: format!("# {} <<container>>\n\n{}\n", name, purpose),
        source_file: format!("src/{}/mod.rs", name),
        c4_level: C4Level::Container,
        pattern: "--".to_string(),
        pattern_status: PatternStatus::Planned,
        description: purpose.to_string(),
        parent_container: None,
        relationships: vec![],
        files: vec![],
    }
}

#[test]
fn merge_combines_ir_from_separate_snapshots() {
    let set_a = serialize(&vec![container("api", "REST API gateway")]);
    let set_b = serialize(&vec![
        container("api", "REST API gateway"),
        container("events", "Event processing"),
    ]);

    let merged = merge_ir(vec![
        deserialize(&set_a).unwrap(),
        deserialize(&set_b).unwrap(),
    ])
    .unwrap();

    assert!(merged.iter().any(|d| d.mod_path == "api" && d.c4_level == C4Level::Container));
    assert!(merged.iter().any(|d| d.mod_path == "events" && d.c4_level == C4Level::Container));
}

#[test]
fn merge_deduplicates_by_module_path() {
    let original = serialize(&vec![container("api", "REST API gateway")]);
    let duplicate = original.clone();

    let merged = merge_ir(vec![
        deserialize(&original).unwrap(),
        deserialize(&duplicate).unwrap(),
    ])
    .unwrap();

    assert_eq!(merged.len(), 1);
}

#[test]
fn merge_preserves_all_relationships() {
    let mut api = container("api", "REST API gateway");
    api.relationships = vec![Relationship {
        target: "database".to_string(),
        label: "Persists data".to_string(),
        protocol: "sqlx".to_string(),
    }];
    let database = container("database", "Persistence");
    let with_deps = serialize(&vec![api, database]);
    let copy = with_deps.clone();

    let merged = merge_ir(vec![
        deserialize(&with_deps).unwrap(),
        deserialize(&copy).unwrap(),
    ])
    .unwrap();

    assert!(merged.iter().any(|d| d.mod_path == "api" && d.c4_level == C4Level::Container));
    assert!(merged.iter().any(|d| d.mod_path == "database" && d.c4_level == C4Level::Container));
    let api_doc = merged.iter().find(|d| d.mod_path == "api").unwrap();
    assert_eq!(api_doc.relationships.len(), 1);
    assert_eq!(api_doc.relationships[0].target, "database");
}
