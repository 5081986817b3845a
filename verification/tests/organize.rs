use meteor::organize::{
    create_context_switch, create_contextual_token, group_by_namespace, organize_contextual_tokens,
    organize_namespaced_tokens, organize_tokens, validate_token_organization,
};

#[test]
fn test_organize_tokens() {
    let tokens = vec![("key1".to_string(), "value1".to_string()), ("key2".to_string(), "value2".to_string())];
    let bucket = organize_tokens(tokens).unwrap();
    assert_eq!(bucket.get("", "key1"), Some("value1"));
    assert_eq!(bucket.get("", "key2"), Some("value2"));
}

#[test]
fn test_organize_namespaced_tokens() {
    let tokens = vec![
        ("".to_string(), "key1".to_string(), "value1".to_string()),
        ("ui".to_string(), "button".to_string(), "click".to_string()),
    ];
    let bucket = organize_namespaced_tokens(tokens).unwrap();
    assert_eq!(bucket.get("", "key1"), Some("value1"));
    assert_eq!(bucket.get("ui", "button"), Some("click"));
}

#[test]
fn test_organize_contextual_tokens() {
    let tokens = vec![
        create_contextual_token("", "key1", "value1"),
        create_context_switch("user"),
        create_contextual_token("ui", "button", "save"),
    ];
    let bucket = organize_contextual_tokens(tokens).unwrap();
    assert_eq!(bucket.context().name(), "user");
    assert_eq!(bucket.get("ui", "button"), Some("save"));
}

#[test]
fn test_group_by_namespace() {
    let tokens = vec![
        ("".to_string(), "key1".to_string(), "value1".to_string()),
        ("ui".to_string(), "button".to_string(), "click".to_string()),
        ("ui".to_string(), "label".to_string(), "text".to_string()),
    ];
    let groups = group_by_namespace(tokens);
    let get = |ns: &str| groups.iter().find(|g| g.0 == ns).map(|g| &g.1);
    assert_eq!(groups.len(), 2);
    assert_eq!(get("").unwrap().len(), 1);
    assert_eq!(get("ui").unwrap().len(), 2);
}

#[test]
fn test_validate_token_organization() {
    let valid_tokens = vec![create_contextual_token("ui", "button", "click"), create_context_switch("user")];
    assert!(validate_token_organization(&valid_tokens).is_ok());
    let invalid_tokens = vec![create_contextual_token("ui", "", "click")];
    assert!(validate_token_organization(&invalid_tokens).is_err());
}

#[test]
fn test_namespace_depth_validation() {
    let deep_tokens = vec![("ui.widgets.buttons.primary".to_string(), "key".to_string(), "value".to_string())];
    let result = organize_namespaced_tokens(deep_tokens);
    assert!(result.is_err());
}

#[test]
fn organize_error_texts() {
    let e = validate_token_organization(&[create_context_switch("")]).unwrap_err();
    assert_eq!(e.to_string(), "Empty input for context name");
    let e = organize_contextual_tokens(vec![create_context_switch("")]).unwrap_err();
    assert_eq!(e.to_string(), "Parse error at position 0: Context name cannot be empty");
}
