use meteor::context::Context;

#[test]
fn context_test_context_creation() {
    let ctx = Context::new("app");
    assert_eq!(ctx.name(), "app");
    let system = Context::system();
    assert!(system.is_privileged());
    let app = Context::app();
    assert!(!app.is_privileged());
}

#[test]
fn test_context_from_str() {
    let ctx = Context::from_str("user").unwrap();
    assert_eq!(ctx.name(), "user");
    assert!(ctx.is_privileged());
    assert!(Context::from_str("").is_err());
}

#[test]
fn context_empty_name_error_text() {
    assert_eq!(Context::from_str("").unwrap_err(), "Context name cannot be empty");
    assert_eq!(Context::default().name(), "app");
}
