use meteor::config::{
    config_profile, config_summary, enable_command_audit_trail, enforce_reserved_words, prevent_runtime_tampering,
    validate_namespace_characters, MAX_COMMAND_HISTORY, MAX_NAMESPACE_PART_LENGTH, NAMESPACE_ERROR_DEPTH,
    NAMESPACE_WARNING_DEPTH,
};

#[test]
fn config_defaults() {
    assert_eq!(config_profile(), "default");
    assert!(prevent_runtime_tampering());
    assert!(validate_namespace_characters());
    assert!(enforce_reserved_words());
    assert!(enable_command_audit_trail());
    assert_eq!(MAX_NAMESPACE_PART_LENGTH, 64);
    assert_eq!(NAMESPACE_WARNING_DEPTH, 5);
    assert_eq!(NAMESPACE_ERROR_DEPTH, 6);
    assert_eq!(MAX_COMMAND_HISTORY, 1000);
    assert!(config_summary().contains("default"));
}
