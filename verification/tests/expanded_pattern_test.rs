use archidoc::promote::auto_promote;
use archidoc::types::{C4Level, ModuleDoc, PatternStatus};

fn component(name: &str, purpose: &str, pattern: &str) -> ModuleDoc {
    ModuleDoc {
        mod_path: name.to_string(),
        content: format!("# {} <<component>>\n\n{}\n\nGoF: {}\n", name, purpose, pattern),
        source_file: format!("src/{}/mod.rs", name.replace('.', "/")),
        c4_level: C4Level::Component,
        pattern: pattern.to_string(),
        pattern_status: PatternStatus::Planned,
        description: purpose.to_string(),
        parent_container: Some(name.split('.').next().unwrap().to_string()),
        relationships: vec![],
        files: vec![],
    }
}

fn promote_with(doc: ModuleDoc, filename: &str, code: &str) -> PatternStatus {
    let mut docs = vec![doc];
    let sources = vec![vec![(filename.to_string(), code.to_string())]];
    auto_promote(&mut docs, &sources);
    docs[0].pattern_status
}

#[test]
fn should_verify_builder_pattern_when_fluent_interface_found() {
    let code = r#"
            pub struct Config { name: String, port: u16 }
            impl Config {
                pub fn new() -> Self { Config { name: String::new(), port: 0 } }
                pub fn name(mut self, name: &str) -> Self { self.name = name.to_string(); self }
                pub fn port(mut self, port: u16) -> Self { self.port = port; self }
                pub fn build(self) -> Config { self }
            }
        "#;
    let status = promote_with(
        component("bus.config", "Configuration assembly", "Builder"),
        "settings.rs",
        code,
    );
    assert_eq!(status, PatternStatus::Verified);
}

#[test]
fn should_keep_builder_planned_when_no_fluent_interface() {
    let code = r#"
            pub struct Config { name: String }
            impl Config {
                pub fn name(&self) -> &str { &self.name }
            }
        "#;
    let status =
        promote_with(component("bus.config", "Configuration", "Builder"), "settings.rs", code);
    assert_eq!(status, PatternStatus::Planned);
}

#[test]
fn should_verify_factory_pattern_when_trait_object_returned() {
    let code = r#"
            pub trait Shape { fn area(&self) -> f64; }
            pub fn create(kind: &str) -> Box<dyn Shape> {
                todo!()
            }
        "#;
    let status =
        promote_with(component("bus.shapes", "Shape creation", "Factory"), "creator.rs", code);
    assert_eq!(status, PatternStatus::Verified);
}

#[test]
fn should_keep_factory_planned_when_only_concrete_returns() {
    let code = r#"
            pub struct Circle { radius: f64 }
            impl Circle {
                pub fn new(radius: f64) -> Circle { Circle { radius } }
            }
        "#;
    let status =
        promote_with(component("bus.shapes", "Shape creation", "Factory"), "creator.rs", code);
    assert_eq!(status, PatternStatus::Planned);
}

#[test]
fn should_verify_adapter_pattern_when_wrapper_implements_trait() {
    let code = r#"
            pub trait Logger { fn log(&self, msg: &str); }
            pub struct FileLogger { inner: std::fs::File }
            impl Logger for FileLogger {
                fn log(&self, msg: &str) { }
            }
        "#;
    let status = promote_with(
        component("bus.logging", "Log output adaptation", "Adapter"),
        "file_adapter.rs",
        code,
    );
    assert_eq!(status, PatternStatus::Verified);
}

#[test]
fn should_keep_adapter_planned_when_no_trait_implementation() {
    let code = r#"
            pub struct FileLogger { path: String, level: u8, buffer: Vec<u8> }
        "#;
    let status =
        promote_with(component("bus.logging", "Logging utilities", "Adapter"), "helpers.rs", code);
    assert_eq!(status, PatternStatus::Planned);
}

#[test]
fn should_verify_decorator_pattern_when_wrapping_trait_object() {
    let code = r#"
            pub trait Logger { fn log(&self, msg: &str); }
            pub struct TimestampLogger { inner: Box<dyn Logger> }
            impl Logger for TimestampLogger {
                fn log(&self, msg: &str) { self.inner.log(msg); }
            }
        "#;
    let status = promote_with(
        component("bus.middleware", "Request processing decoration", "Decorator"),
        "timestamp.rs",
        code,
    );
    assert_eq!(status, PatternStatus::Verified);
}

#[test]
fn should_keep_decorator_planned_when_no_trait_wrapping() {
    let code = r#"
            pub struct Wrapper { data: Vec<u8> }
            impl Wrapper {
                pub fn wrap(data: Vec<u8>) -> Self { Wrapper { data } }
            }
        "#;
    let status = promote_with(
        component("bus.middleware", "Request utilities", "Decorator"),
        "wrapper.rs",
        code,
    );
    assert_eq!(status, PatternStatus::Planned);
}

#[test]
fn should_verify_singleton_pattern_when_static_initialization_found() {
    let code = r#"
            use std::sync::OnceLock;
            static INSTANCE: OnceLock<String> = OnceLock::new();
            pub fn get_instance() -> &'static str {
                INSTANCE.get_or_init(|| String::from("pool"))
            }
        "#;
    let status = promote_with(
        component("bus.pool", "Connection pool management", "Singleton"),
        "instance.rs",
        code,
    );
    assert_eq!(status, PatternStatus::Verified);
}

#[test]
fn should_keep_singleton_planned_when_no_static_initialization() {
    let code = r#"
            pub struct Config { port: u16 }
            impl Config {
                pub fn new(port: u16) -> Self { Config { port } }
            }
        "#;
    let status =
        promote_with(component("bus.pool", "Pool management", "Singleton"), "manager.rs", code);
    assert_eq!(status, PatternStatus::Planned);
}

#[test]
fn should_verify_command_pattern_when_execute_trait_found() {
    let code = r#"
            pub trait Command {
                fn execute(&self);
                fn undo(&self);
            }
        "#;
    let status =
        promote_with(component("bus.actions", "Undoable operations", "Command"), "commands.rs", code);
    assert_eq!(status, PatternStatus::Verified);
}

#[test]
fn should_keep_command_planned_when_no_execute_method() {
    let code = r#"
            pub trait Calculator {
                fn calculate(&self, values: &[f64]) -> f64;
            }
        "#;
    let status =
        promote_with(component("bus.actions", "Calculations", "Command"), "calc.rs", code);
    assert_eq!(status, PatternStatus::Planned);
}
