use archidoc::heuristics::{check_facade, check_observer, check_pattern, check_strategy};

#[test]
fn strategy_detects_trait() {
    let source = r#"
        pub trait Calculator {
            fn calculate(&self, prices: &[f64]) -> f64;
        }
    "#;
    assert!(check_strategy(source));
}

#[test]
fn strategy_rejects_no_trait() {
    let source = r#"
        pub struct SimpleCalc;
        impl SimpleCalc {
            pub fn calculate(&self, prices: &[f64]) -> f64 {
                prices.iter().sum()
            }
        }
    "#;
    assert!(!check_strategy(source));
}

#[test]
fn facade_detects_pub_use() {
    let source = r#"
        pub use crate::calc::Calculator;
        pub use crate::store::DataStore;
    "#;
    assert!(check_facade(source));
}

#[test]
fn facade_detects_pub_mod() {
    let source = r#"
        pub mod calc;
        pub mod store;
    "#;
    assert!(check_facade(source));
}

#[test]
fn facade_rejects_private_mods() {
    let source = r#"
        mod calc;
        mod store;
    "#;
    assert!(!check_facade(source));
}

#[test]
fn observer_detects_channel() {
    let source = r#"
        use std::sync::mpsc::Sender;
        use std::sync::mpsc::Receiver;
        pub fn create_bus() -> (mpsc::Sender<Event>, mpsc::Receiver<Event>) {
            std::sync::mpsc::channel()
        }
    "#;
    assert!(check_observer(source));
}

#[test]
fn observer_detects_callback_trait() {
    let source = r#"
        pub trait EventBus {
            fn subscribe(&mut self, handler: Box<dyn Fn(Event)>);
            fn notify(&self, event: Event);
        }
    "#;
    assert!(check_observer(source));
}

#[test]
fn observer_rejects_plain_struct() {
    let source = r#"
        pub struct Logger {
            path: String,
        }
        impl Logger {
            pub fn log(&self, msg: &str) {
                println!("{}", msg);
            }
        }
    "#;
    assert!(!check_observer(source));
}

#[test]
fn check_pattern_dispatches_correctly() {
    let strategy_src = "pub trait Algo { fn run(&self); }";
    assert!(check_pattern("Strategy", strategy_src));
    assert!(!check_pattern("Observer", strategy_src));
    assert!(!check_pattern("UnknownPattern", strategy_src));
}
