use meteor::escape::{has_unescaped_quotes, parse_escaped_value, strip_quotes, validate_escapes};

#[test]
fn test_basic_escapes() {
    assert_eq!(parse_escaped_value(r#"Hello \"world\""#).unwrap(), "Hello \"world\"");
    assert_eq!(parse_escaped_value(r#"Line 1\nLine 2"#).unwrap(), "Line 1\nLine 2");
    assert_eq!(parse_escaped_value(r#"Tab\there"#).unwrap(), "Tab\there");
    assert_eq!(parse_escaped_value(r#"Back\\slash"#).unwrap(), "Back\\slash");
}

#[test]
fn test_unicode_escapes() {
    assert_eq!(parse_escaped_value(r#"\u0041"#).unwrap(), "A");
    assert_eq!(parse_escaped_value(r#"Hello \u4e16\u754c"#).unwrap(), "Hello 世界");
}

#[test]
fn test_invalid_escapes() {
    assert!(parse_escaped_value(r#"\x20"#).is_err());
    assert!(parse_escaped_value(r#"\q"#).is_err());
    assert!(parse_escaped_value(r#"\"#).is_err());
}

#[test]
fn test_validate_escapes() {
    assert!(validate_escapes(r#"Valid \"escape\""#).is_ok());
    assert!(validate_escapes(r#"Invalid \x escape"#).is_err());
    assert!(validate_escapes(r#"Unicode \u0041"#).is_ok());
    assert!(validate_escapes(r#"Bad unicode \uGGGG"#).is_err());
}

#[test]
fn test_strip_quotes() {
    assert_eq!(strip_quotes(r#""quoted""#).unwrap(), "quoted");
    assert_eq!(strip_quotes(r#"unquoted"#).unwrap(), "unquoted");
    assert_eq!(strip_quotes(r#""with \"escapes\"""#).unwrap(), "with \"escapes\"");
}

#[test]
fn test_unescaped_quotes() {
    assert!(has_unescaped_quotes(r#"has " quote"#));
    assert!(!has_unescaped_quotes(r#"escaped \" quote"#));
    assert!(!has_unescaped_quotes("no quotes"));
}

#[test]
fn escape_round_trip_law_example() {
    // a value that unescapes also validates
    let v = r#"a\tb\u0041"#;
    assert!(parse_escaped_value(v).is_ok());
    assert!(validate_escapes(v).is_ok());
    assert_eq!(parse_escaped_value(v).unwrap(), "a\tbA");
}

#[test]
fn valid_escapes_unescape_except_surrogates() {
    assert!(validate_escapes("a\\u0041\\n").is_ok());
    assert_eq!(parse_escaped_value("a\\u0041\\n").unwrap(), "aA\n");
    assert!(validate_escapes("\\uD800").is_ok());
    assert!(parse_escaped_value("\\uD800").is_err());
}
