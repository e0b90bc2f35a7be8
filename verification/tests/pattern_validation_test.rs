use archidoc::fitness::run_fitness;
use archidoc::promote::auto_promote;
use archidoc::types::{C4Level, ModuleDoc, PatternStatus};

fn annotation(name: &str, level: &str, purpose: &str, pattern: &str) -> String {
    let title = name.split('.').last().unwrap_or(name);
    let mut content = format!("# {} <<{}>>\n\n{}\n\n", title, level, purpose);
    if !pattern.is_empty() {
        content.push_str(&format!("GoF: {}\n\n", pattern));
    }
    content
}

fn wrap_doc(content: &str) -> String {
    content
        .lines()
        .map(|line| {
            if line.is_empty() {
                "//!".to_string()
            } else {
                format!("//! {}", line)
            }
        })
        .collect::<Vec<_>>()
        .join("\n")
}

fn component(name: &str, purpose: &str, pattern: &str) -> ModuleDoc {
    let parent = if name.contains('.') {
        Some(name.split('.').next().unwrap().to_string())
    } else {
        None
    };
    ModuleDoc {
        mod_path: name.to_string(),
        content: annotation(name, "component", purpose, pattern),
        source_file: format!("src/{}/mod.rs", name.replace('.', "/")),
        c4_level: C4Level::Component,
        pattern: pattern.to_string(),
        pattern_status: PatternStatus::Planned,
        description: purpose.to_string(),
        parent_container: parent,
        relationships: vec![],
        files: vec![],
    }
}

fn sources_for(doc: &ModuleDoc, code_files: &[(&str, &str)]) -> Vec<(String, String)> {
    let mut v = vec![("mod.rs".to_string(), wrap_doc(&doc.content))];
    for (name, code) in code_files {
        v.push((name.to_string(), code.to_string()));
    }
    v
}

fn confidence(docs: &[ModuleDoc], name: &str) -> PatternStatus {
    docs.iter().find(|d| d.mod_path == name).unwrap().pattern_status
}

#[test]
fn should_verify_strategy_pattern_when_trait_found() {
    let mut docs = vec![component("bus.calc", "Pluggable indicator calculations", "Strategy")];
    let sources = vec![sources_for(
        &docs[0],
        &[("indicators.rs", "pub trait IndicatorCalc { fn calculate(&self, prices: &[f64]) -> f64; }")],
    )];
    assert_eq!(confidence(&docs, "bus.calc"), PatternStatus::Planned);
    auto_promote(&mut docs, &sources);
    assert_eq!(confidence(&docs, "bus.calc"), PatternStatus::Verified);
}

#[test]
fn should_keep_strategy_planned_when_no_trait() {
    let mut docs = vec![component("bus.calc", "Indicator calculations", "Strategy")];
    let sources = vec![sources_for(
        &docs[0],
        &[("indicators.rs", "pub struct SimpleCalc;\nimpl SimpleCalc { pub fn calc(&self) -> f64 { 0.0 } }")],
    )];
    auto_promote(&mut docs, &sources);
    assert_eq!(confidence(&docs, "bus.calc"), PatternStatus::Planned);
}

#[test]
fn should_verify_facade_pattern_when_pub_use_found() {
    let mut docs = vec![component("bus.api", "Public API surface", "Facade")];
    let sources = vec![sources_for(
        &docs[0],
        &[("surface.rs", "pub use crate::calc::Calculator;\npub use crate::store::DataStore;")],
    )];
    auto_promote(&mut docs, &sources);
    assert_eq!(confidence(&docs, "bus.api"), PatternStatus::Verified);
}

#[test]
fn should_keep_facade_planned_when_no_reexports() {
    let mut docs = vec![component("bus.api", "Public API", "Facade")];
    let sources = vec![sources_for(&docs[0], &[("surface.rs", "struct Internal { data: Vec<u8> }")])];
    auto_promote(&mut docs, &sources);
    assert_eq!(confidence(&docs, "bus.api"), PatternStatus::Planned);
}

#[test]
fn should_verify_observer_pattern_when_channel_found() {
    let mut docs = vec![component("bus.events", "Event distribution", "Observer")];
    let sources = vec![sources_for(
        &docs[0],
        &[("dispatcher.rs", "use std::sync::mpsc::Sender;\nuse std::sync::mpsc::Receiver;\npub fn create() -> (mpsc::Sender<i32>, mpsc::Receiver<i32>) { std::sync::mpsc::channel() }")],
    )];
    auto_promote(&mut docs, &sources);
    assert_eq!(confidence(&docs, "bus.events"), PatternStatus::Verified);
}

#[test]
fn should_verify_observer_pattern_when_callback_trait_found() {
    let mut docs = vec![component("bus.events", "Event distribution", "Observer")];
    let sources = vec![sources_for(
        &docs[0],
        &[("bus.rs", "pub trait EventBus {\n    fn subscribe(&mut self, handler: Box<dyn Fn(i32)>);\n    fn notify(&self, event: i32);\n}")],
    )];
    auto_promote(&mut docs, &sources);
    assert_eq!(confidence(&docs, "bus.events"), PatternStatus::Verified);
}

#[test]
fn should_keep_observer_planned_when_no_channels_or_callbacks() {
    let mut docs = vec![component("bus.events", "Event distribution", "Observer")];
    let sources = vec![sources_for(
        &docs[0],
        &[("logger.rs", "pub struct Logger { path: String }\nimpl Logger { pub fn log(&self, msg: &str) { println!(\"{}\", msg); } }")],
    )];
    auto_promote(&mut docs, &sources);
    assert_eq!(confidence(&docs, "bus.events"), PatternStatus::Planned);
}

#[test]
fn should_not_re_verify_already_verified_pattern() {
    let mut docs = vec![component("bus.calc", "Calculations", "Strategy")];
    docs[0].pattern_status = PatternStatus::Verified;
    let sources = vec![sources_for(&docs[0], &[("traits.rs", "pub trait Algo { fn run(&self); }")])];
    assert_eq!(confidence(&docs, "bus.calc"), PatternStatus::Verified);
    auto_promote(&mut docs, &sources);
    assert_eq!(confidence(&docs, "bus.calc"), PatternStatus::Verified);
}

#[test]
fn should_skip_patterns_without_heuristics() {
    let mut docs = vec![component("bus.core", "Core orchestration", "Mediator")];
    let sources = vec![sources_for(&docs[0], &[])];
    auto_promote(&mut docs, &sources);
    assert_eq!(confidence(&docs, "bus.core"), PatternStatus::Planned);
}

#[test]
fn fitness_should_pass_when_all_strategy_modules_have_traits() {
    let docs = vec![
        component("bus.calc", "Calculations", "Strategy"),
        component("bus.routing", "Message routing", "Strategy"),
    ];
    let sources = vec![
        sources_for(&docs[0], &[("algo.rs", "pub trait CalcAlgorithm { fn compute(&self) -> f64; }")]),
        sources_for(&docs[1], &[("router.rs", "pub trait Router { fn route(&self, msg: &str) -> String; }")]),
    ];
    let result = run_fitness("all_strategy_modules_define_a_trait", &docs, &sources).unwrap();
    assert!(result.passed);
}

#[test]
fn fitness_should_fail_when_strategy_module_lacks_trait() {
    let docs = vec![component("bus.calc", "Calculations", "Strategy")];
    let sources = vec![sources_for(
        &docs[0],
        &[("algo.rs", "pub struct HardcodedCalc;\nimpl HardcodedCalc { pub fn compute(&self) -> f64 { 42.0 } }")],
    )];
    let result = run_fitness("all_strategy_modules_define_a_trait", &docs, &sources).unwrap();
    assert!(!result.passed);
    assert!(result.failures.iter().any(|f| f.mod_path == "bus.calc"));
}

#[test]
fn fitness_should_pass_when_all_facade_modules_reexport() {
    let docs = vec![component("bus.api", "Public API", "Facade")];
    let sources = vec![sources_for(
        &docs[0],
        &[("exports.rs", "pub use crate::internal::Widget;\npub use crate::internal::Config;")],
    )];
    let result = run_fitness("all_facade_modules_reexport_submodules", &docs, &sources).unwrap();
    assert!(result.passed);
}

#[test]
fn fitness_should_fail_when_facade_module_has_no_reexports() {
    let docs = vec![component("bus.api", "Public API", "Facade")];
    let sources = vec![sources_for(&docs[0], &[("internal.rs", "struct Private { data: i32 }")])];
    let result = run_fitness("all_facade_modules_reexport_submodules", &docs, &sources).unwrap();
    assert!(!result.passed);
    assert!(result.failures.iter().any(|f| f.mod_path == "bus.api"));
}

#[test]
fn fitness_should_pass_when_all_observer_modules_have_channels() {
    let docs = vec![component("bus.events", "Event system", "Observer")];
    let sources = vec![sources_for(
        &docs[0],
        &[("channels.rs", "use std::sync::mpsc::Sender;\nuse std::sync::mpsc::Receiver;")],
    )];
    let result =
        run_fitness("all_observer_modules_have_channels_or_callbacks", &docs, &sources).unwrap();
    assert!(result.passed);
}

#[test]
fn fitness_should_fail_when_observer_module_has_no_channels() {
    let docs = vec![component("bus.events", "Event system", "Observer")];
    let sources = vec![sources_for(
        &docs[0],
        &[("plain.rs", "pub fn process(data: &[u8]) -> Vec<u8> { data.to_vec() }")],
    )];
    let result =
        run_fitness("all_observer_modules_have_channels_or_callbacks", &docs, &sources).unwrap();
    assert!(!result.passed);
    assert!(result.failures.iter().any(|f| f.mod_path == "bus.events"));
}

#[test]
fn unknown_fitness_name_is_not_found() {
    let docs = vec![component("bus.api", "Public API", "Facade")];
    let sources = vec![sources_for(&docs[0], &[])];
    assert!(run_fitness("all_modules_are_beautiful", &docs, &sources).is_none());
}

#[test]
fn should_verify_when_only_one_of_multiple_files_has_evidence() {
    let mut docs = vec![component("bus.calc", "Pluggable calculations", "Strategy")];
    let sources = vec![sources_for(
        &docs[0],
        &[
            ("helpers.rs", "pub fn add(a: f64, b: f64) -> f64 { a + b }"),
            ("constants.rs", "pub const PI: f64 = 3.14159;"),
            ("algo.rs", "pub trait CalcAlgorithm { fn compute(&self, values: &[f64]) -> f64; }"),
        ],
    )];
    auto_promote(&mut docs, &sources);
    assert_eq!(confidence(&docs, "bus.calc"), PatternStatus::Verified);
}

#[test]
fn should_stay_planned_when_module_directory_has_no_rs_files() {
    let mut docs = vec![component("bus.calc", "Calculations", "Strategy")];
    let sources = vec![sources_for(&docs[0], &[])];
    auto_promote(&mut docs, &sources);
    assert_eq!(confidence(&docs, "bus.calc"), PatternStatus::Planned);
}

#[test]
fn should_verify_facade_with_pub_mod_only_no_pub_use() {
    let mut docs = vec![component("bus.api", "Public API surface", "Facade")];
    let sources = vec![sources_for(
        &docs[0],
        &[("entry.rs", "pub mod calc;\npub mod store;\npub mod config;")],
    )];
    auto_promote(&mut docs, &sources);
    assert_eq!(confidence(&docs, "bus.api"), PatternStatus::Verified);
}

#[test]
fn should_not_verify_facade_with_single_pub_mod() {
    let mut docs = vec![component("bus.api", "Public API", "Facade")];
    let sources = vec![sources_for(&docs[0], &[("entry.rs", "pub mod internal;")])];
    auto_promote(&mut docs, &sources);
    assert_eq!(confidence(&docs, "bus.api"), PatternStatus::Planned);
}
