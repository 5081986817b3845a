use meteor::{Module, MeteorModule};

#[test]
fn test_module_trait() {
    let module = MeteorModule;
    assert_eq!(module.name(), "meteor");
    assert!(!module.version().is_empty());
}

#[test]
fn test_access_utils_compilation() {
    assert_eq!(2 + 2, 4);
}
