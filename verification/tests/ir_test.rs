use archidoc::ir::{deserialize, serialize, validate};
use archidoc::types::{C4Level, FileEntry, HealthStatus, ModuleDoc, PatternStatus, Relationship};

fn container(path: &str, desc: &str, pattern: &str) -> ModuleDoc {
    ModuleDoc {
        mod_path: path.to_string(),
        content: format!("# {} <<container>>\n\n{}", path, desc),
        source_file: format!("src/{}/mod.rs", path),
        c4_level: C4Level::Container,
        pattern: pattern.to_string(),
        pattern_status: PatternStatus::Planned,
        description: desc.to_string(),
        parent_container: None,
        relationships: vec![],
        files: vec![],
    }
}

fn component(path: &str, desc: &str, pattern: &str) -> ModuleDoc {
    let parent = path.split('.').next().unwrap().to_string();
    ModuleDoc {
        mod_path: path.to_string(),
        content: format!("# {} <<component>>\n\n{}", path, desc),
        source_file: format!("src/{}/mod.rs", path.replace('.', "/")),
        c4_level: C4Level::Component,
        pattern: pattern.to_string(),
        pattern_status: PatternStatus::Planned,
        description: desc.to_string(),
        parent_container: Some(parent),
        relationships: vec![],
        files: vec![],
    }
}

#[test]
fn rejects_invalid_json() {
    assert!(validate("this is not json at all").is_err());
}

#[test]
fn rejects_empty_string() {
    assert!(validate("").is_err());
}

#[test]
fn rejects_json_object_instead_of_array() {
    assert!(validate(r#"{"module_path": "bus"}"#).is_err());
}

#[test]
fn rejects_json_string_instead_of_array() {
    assert!(validate(r#""just a string""#).is_err());
}

#[test]
fn rejects_module_missing_module_path() {
    assert!(validate(
        r#"[{
        "content": "some content",
        "source_file": "bus/mod.rs",
        "c4_level": "container",
        "pattern": "Mediator",
        "pattern_status": "planned",
        "description": "Central messaging backbone",
        "parent_container": null,
        "relationships": [],
        "files": []
    }]"#
    )
    .is_err());
}

#[test]
fn rejects_module_missing_c4_level() {
    assert!(validate(
        r#"[{
        "module_path": "bus",
        "content": "some content",
        "source_file": "bus/mod.rs",
        "pattern": "Mediator",
        "pattern_status": "planned",
        "description": "Central messaging backbone",
        "parent_container": null,
        "relationships": [],
        "files": []
    }]"#
    )
    .is_err());
}

#[test]
fn rejects_module_missing_relationships() {
    assert!(validate(
        r#"[{
        "module_path": "bus",
        "content": "some content",
        "source_file": "bus/mod.rs",
        "c4_level": "container",
        "pattern": "Mediator",
        "pattern_status": "planned",
        "description": "Central messaging backbone",
        "parent_container": null,
        "files": []
    }]"#
    )
    .is_err());
}

#[test]
fn rejects_module_missing_files() {
    assert!(validate(
        r#"[{
        "module_path": "bus",
        "content": "some content",
        "source_file": "bus/mod.rs",
        "c4_level": "container",
        "pattern": "Mediator",
        "pattern_status": "planned",
        "description": "Central messaging backbone",
        "parent_container": null,
        "relationships": []
    }]"#
    )
    .is_err());
}

#[test]
fn rejects_invalid_c4_level() {
    assert!(validate(
        r#"[{
        "module_path": "bus",
        "content": "some content",
        "source_file": "bus/mod.rs",
        "c4_level": "system",
        "pattern": "Mediator",
        "pattern_status": "planned",
        "description": "Central messaging backbone",
        "parent_container": null,
        "relationships": [],
        "files": []
    }]"#
    )
    .is_err());
}

#[test]
fn rejects_invalid_pattern_status() {
    assert!(validate(
        r#"[{
        "module_path": "bus",
        "content": "some content",
        "source_file": "bus/mod.rs",
        "c4_level": "container",
        "pattern": "Mediator",
        "pattern_status": "confirmed",
        "description": "Central messaging backbone",
        "parent_container": null,
        "relationships": [],
        "files": []
    }]"#
    )
    .is_err());
}

#[test]
fn rejects_invalid_health_status_in_file_entry() {
    assert!(validate(
        r#"[{
        "module_path": "bus",
        "content": "some content",
        "source_file": "bus/mod.rs",
        "c4_level": "container",
        "pattern": "Mediator",
        "pattern_status": "planned",
        "description": "Central messaging backbone",
        "parent_container": null,
        "relationships": [],
        "files": [{
            "name": "lanes.rs",
            "pattern": "Observer",
            "pattern_status": "planned",
            "purpose": "Event routing",
            "health": "deprecated"
        }]
    }]"#
    )
    .is_err());
}

#[test]
fn rejects_c4_level_as_number() {
    assert!(validate(
        r#"[{
        "module_path": "bus",
        "content": "some content",
        "source_file": "bus/mod.rs",
        "c4_level": 1,
        "pattern": "Mediator",
        "pattern_status": "planned",
        "description": "Central messaging backbone",
        "parent_container": null,
        "relationships": [],
        "files": []
    }]"#
    )
    .is_err());
}

#[test]
fn rejects_relationships_as_string() {
    assert!(validate(
        r#"[{
        "module_path": "bus",
        "content": "some content",
        "source_file": "bus/mod.rs",
        "c4_level": "container",
        "pattern": "Mediator",
        "pattern_status": "planned",
        "description": "Central messaging backbone",
        "parent_container": null,
        "relationships": "not an array",
        "files": []
    }]"#
    )
    .is_err());
}

#[test]
fn single_container_ir_is_idempotent() {
    let docs = vec![container("bus", "Central messaging backbone", "Mediator")];
    let first_ir = serialize(&docs);
    let round = deserialize(&first_ir).unwrap();
    let second_ir = serialize(&round);
    assert_eq!(first_ir, second_ir);
}

#[test]
fn complex_architecture_ir_is_idempotent() {
    let mut bus = container("bus", "Central messaging backbone", "Mediator");
    bus.relationships = vec![Relationship {
        target: "agents".to_string(),
        label: "Routes processed data".to_string(),
        protocol: "crossbeam".to_string(),
    }];
    bus.files = vec![FileEntry {
        name: "lanes.rs".to_string(),
        pattern: "Observer".to_string(),
        pattern_status: PatternStatus::Planned,
        purpose: "Event routing".to_string(),
        health: HealthStatus::Active,
    }];
    let mut calc = component("bus.calc", "Indicator calculations", "Strategy");
    calc.files = vec![FileEntry {
        name: "indicators.rs".to_string(),
        pattern: "Strategy".to_string(),
        pattern_status: PatternStatus::Planned,
        purpose: "Technical indicators".to_string(),
        health: HealthStatus::Stable,
    }];
    let agents = container("agents", "Agent execution framework", "Observer");
    let docs = vec![bus, calc, agents];
    let first_ir = serialize(&docs);
    let round = deserialize(&first_ir).unwrap();
    let second_ir = serialize(&round);
    assert_eq!(first_ir, second_ir);
}

#[test]
fn minimal_architecture_ir_is_idempotent() {
    let docs = vec![container("core", "Core domain logic", "--")];
    let first_ir = serialize(&docs);
    let round = deserialize(&first_ir).unwrap();
    let second_ir = serialize(&round);
    assert_eq!(first_ir, second_ir);
}

#[test]
fn compiled_architecture_produces_portable_ir() {
    let docs = vec![container("bus", "Central messaging backbone", "Mediator")];
    let ir = serialize(&docs);
    let parsed = deserialize(&ir).unwrap();
    let found = parsed
        .iter()
        .any(|d| d.mod_path == "bus" && d.c4_level == C4Level::Container);
    assert!(found);
}

#[test]
fn portable_ir_preserves_architecture_fidelity() {
    let mut bus = container("bus", "Central messaging backbone", "Mediator");
    bus.relationships = vec![Relationship {
        target: "agents".to_string(),
        label: "Routes processed data".to_string(),
        protocol: "crossbeam".to_string(),
    }];
    bus.files = vec![FileEntry {
        name: "lanes.rs".to_string(),
        pattern: "Observer".to_string(),
        pattern_status: PatternStatus::Planned,
        purpose: "Event routing".to_string(),
        health: HealthStatus::Active,
    }];
    let calc = component("bus.calc", "Indicator calculations", "Strategy");
    let docs = vec![bus, calc];
    let ir = serialize(&docs);
    let round_tripped = deserialize(&ir).unwrap();
    assert_eq!(docs.len(), round_tripped.len());
    for (original, restored) in docs.iter().zip(round_tripped.iter()) {
        assert_eq!(original, restored);
    }
}

#[test]
fn well_formed_ir_passes_schema_validation() {
    let docs = vec![container("bus", "Central messaging backbone", "Mediator")];
    let ir = serialize(&docs);
    assert!(validate(&ir).is_ok());
}

#[test]
fn serialized_text_escapes_special_characters() {
    let mut doc = container("bus", "says \"hi\"", "--");
    doc.content = "line one\nline two\ttabbed".to_string();
    let ir = serialize(&docs_of(doc));
    assert!(ir.contains("\\n"));
    assert!(ir.contains("\\t"));
    assert!(ir.contains("\\\"hi\\\""));
    let round = deserialize(&ir).unwrap();
    assert_eq!(round[0].content, "line one\nline two\ttabbed");
    assert_eq!(round[0].description, "says \"hi\"");
}

fn docs_of(d: ModuleDoc) -> Vec<ModuleDoc> {
    vec![d]
}

#[test]
fn empty_ir_round_trips() {
    let docs: Vec<ModuleDoc> = vec![];
    let ir = serialize(&docs);
    assert_eq!(ir, "[]");
    let round = deserialize(&ir).unwrap();
    assert_eq!(round.len(), 0);
}

#[test]
fn whitespace_between_tokens_is_accepted() {
    let docs = vec![container("bus", "Central messaging backbone", "--")];
    let ir = serialize(&docs);
    let spaced = ir.replace(",\"content\"", " ,\n  \"content\"");
    let round = deserialize(&spaced).unwrap();
    assert_eq!(round[0].mod_path, "bus");
}
