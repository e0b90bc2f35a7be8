use archidoc::path_resolver::path_to_module_name;

#[test]
fn test_mod_rs_at_root() {
    assert_eq!(path_to_module_name("/src/bus/mod.rs", "/src", "mod.rs"), "bus");
}

#[test]
fn test_nested_mod_rs() {
    assert_eq!(
        path_to_module_name("/src/bus/calc/indicators/mod.rs", "/src", "mod.rs"),
        "bus.calc.indicators"
    );
}

#[test]
fn test_lib_rs() {
    assert_eq!(path_to_module_name("/src/lib.rs", "/src", "lib.rs"), "_lib");
}

#[test]
fn test_flat_module_at_root() {
    assert_eq!(path_to_module_name("/src/router.rs", "/src", "router.rs"), "router");
}

#[test]
fn test_flat_module_nested() {
    assert_eq!(path_to_module_name("/src/bus/events.rs", "/src", "events.rs"), "bus.events");
}

#[test]
fn test_flat_module_deeply_nested() {
    assert_eq!(
        path_to_module_name("/src/bus/calc/indicators.rs", "/src", "indicators.rs"),
        "bus.calc.indicators"
    );
}
