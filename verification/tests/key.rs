use meteor::key::{BracketNotation, TokenKey};

#[test]
fn test_token_key_creation() {
    let simple = TokenKey::new("button");
    assert_eq!(simple.base(), "button");
    assert!(!simple.has_brackets());

    let bracket = TokenKey::new("list[0]");
    assert_eq!(bracket.base(), "list[0]");
    assert!(bracket.has_brackets());
    assert_eq!(bracket.transformed(), "list__i_0");
}

#[test]
fn test_token_key_from_str() {
    let key = TokenKey::from_str("test").unwrap();
    assert_eq!(key.base(), "test");
    assert!(TokenKey::from_str("").is_err());
}

#[test]
fn test_string_bracket_notation() {
    let original = "list[0]";
    assert!(original.has_brackets());
    let flat = "list__i_0";
    assert!(!flat.has_brackets());
    assert_eq!(flat.to_bracket(), "list[0]");
}

#[test]
fn test_string_no_brackets() {
    let simple = "button";
    assert!(!simple.has_brackets());
    assert_eq!(simple.to_bracket(), "button");
}

#[test]
fn key_refused_brackets_are_kept_as_written() {
    let k = TokenKey::new("list[");
    assert_eq!(k.transformed(), "list[");
    assert_eq!(k.to_string(), "list[");
}
