use archidoc::merge::merge_ir;
use archidoc::types::{C4Level, ModuleDoc, PatternStatus, Relationship};

fn make_doc(path: &str, level: C4Level) -> ModuleDoc {
    ModuleDoc {
        mod_path: path.to_string(),
        content: String::new(),
        source_file: format!("src/{}/mod.rs", path),
        c4_level: level,
        pattern: "--".to_string(),
        pattern_status: PatternStatus::Planned,
        description: format!("Module {}", path),
        parent_container: None,
        relationships: vec![],
        files: vec![],
    }
}

#[test]
fn merge_combines_disjoint_sets() {
    let set1 = vec![make_doc("api", C4Level::Container), make_doc("core", C4Level::Container)];
    let set2 = vec![make_doc("database", C4Level::Component), make_doc("ui", C4Level::Component)];

    let result = merge_ir(vec![set1, set2]).unwrap();

    assert_eq!(result.len(), 4);
    assert_eq!(result[0].mod_path, "api");
    assert_eq!(result[1].mod_path, "core");
    assert_eq!(result[2].mod_path, "database");
    assert_eq!(result[3].mod_path, "ui");
}

#[test]
fn merge_deduplicates_same_level() {
    let set1 = vec![make_doc("api", C4Level::Container)];
    let mut set2 = vec![make_doc("api", C4Level::Container)];
    set2[0].description = "Updated API module".to_string();

    let result = merge_ir(vec![set1, set2]).unwrap();

    assert_eq!(result.len(), 1);
    assert_eq!(result[0].mod_path, "api");
    assert_eq!(result[0].description, "Updated API module");
}

#[test]
fn merge_rejects_conflicting_c4_levels() {
    let set1 = vec![make_doc("api", C4Level::Container)];
    let set2 = vec![make_doc("api", C4Level::Component)];

    let result = merge_ir(vec![set1, set2]);

    assert!(result.is_err());
    let err = result.unwrap_err();
    assert_eq!(err.mod_path, "api");
    assert!(err.message.contains("conflicting C4 levels"));
    assert!(err.message.contains("container"));
    assert!(err.message.contains("component"));
}

#[test]
fn merge_sorts_by_module_path() {
    let set1 = vec![make_doc("zebra", C4Level::Container), make_doc("alpha", C4Level::Container)];
    let set2 = vec![make_doc("middle", C4Level::Component)];

    let result = merge_ir(vec![set1, set2]).unwrap();

    assert_eq!(result.len(), 3);
    assert_eq!(result[0].mod_path, "alpha");
    assert_eq!(result[1].mod_path, "middle");
    assert_eq!(result[2].mod_path, "zebra");
}

#[test]
fn merge_empty_inputs_returns_empty() {
    let result1 = merge_ir(vec![]).unwrap();
    assert_eq!(result1.len(), 0);

    let result2 = merge_ir(vec![vec![], vec![]]).unwrap();
    assert_eq!(result2.len(), 0);
}

#[test]
fn merge_preserves_relationships() {
    let mut doc1 = make_doc("api", C4Level::Container);
    doc1.relationships = vec![Relationship {
        target: "database".to_string(),
        label: "Persists data".to_string(),
        protocol: "sqlx".to_string(),
    }];

    let mut doc2 = make_doc("database", C4Level::Component);
    doc2.relationships = vec![Relationship {
        target: "storage".to_string(),
        label: "Writes files".to_string(),
        protocol: "fs".to_string(),
    }];

    let result = merge_ir(vec![vec![doc1], vec![doc2]]).unwrap();

    assert_eq!(result.len(), 2);

    let api_doc = result.iter().find(|d| d.mod_path == "api").unwrap();
    assert_eq!(api_doc.relationships.len(), 1);
    assert_eq!(api_doc.relationships[0].target, "database");

    let db_doc = result.iter().find(|d| d.mod_path == "database").unwrap();
    assert_eq!(db_doc.relationships.len(), 1);
    assert_eq!(db_doc.relationships[0].target, "storage");
}

#[test]
fn merge_same_inputs_twice_yields_identical_output() {
    let build = || {
        vec![
            vec![make_doc("zeta", C4Level::Container), make_doc("api", C4Level::Container)],
            vec![make_doc("api", C4Level::Container)],
        ]
    };
    let first = merge_ir(build()).unwrap();
    let second = merge_ir(build()).unwrap();
    assert_eq!(first, second);
}
