use meteor::error::MeteorError;

#[test]
fn test_error_display() {
    let err = MeteorError::parse(10, "unexpected character");
    assert_eq!(err.to_string(), "Parse error at position 10: unexpected character");
    let err = MeteorError::namespace_too_deep("ui.widgets.buttons.primary.icon", 5);
    assert!(err.to_string().contains("too deep"));
    let err = MeteorError::invalid_bracket("list[", "unclosed bracket");
    assert!(err.to_string().contains("Invalid bracket"));
}

#[test]
fn error_texts_exact() {
    assert_eq!(
        MeteorError::namespace_too_deep("a.b.c.d", 4).to_string(),
        "Namespace 'a.b.c.d' too deep (4 levels, max 3)"
    );
    assert_eq!(MeteorError::empty_tokens().to_string(), "Cannot create meteor with empty token list");
    assert_eq!(MeteorError::other("plain").to_string(), "plain");
    assert_eq!(
        MeteorError::invalid_token("k", "bad").to_string(),
        "Invalid token 'k': bad"
    );
}
