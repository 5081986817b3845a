use meteor::parse::parse_token_stream;
use meteor::primary::Context;

#[test]
fn test_parse_basic_token() {
    let result = parse_token_stream("key=value");
    assert!(result.is_ok());

    let bucket = result.unwrap();
    assert_eq!(bucket.get("", "key"), Some("value"));
}

#[test]
fn test_parse_multiple_tokens() {
    let result = parse_token_stream("key1=value1; key2=value2");
    assert!(result.is_ok());

    let bucket = result.unwrap();
    assert_eq!(bucket.get("", "key1"), Some("value1"));
    assert_eq!(bucket.get("", "key2"), Some("value2"));
}

#[test]
fn test_parse_namespaced_token() {
    let result = parse_token_stream("ui:button=click");
    assert!(result.is_ok());

    let bucket = result.unwrap();
    assert_eq!(bucket.get("ui", "button"), Some("click"));
}

#[test]
fn test_parse_context_switch() {
    let result = parse_token_stream("ctx=user; key=uservalue; ctx=app; key=appvalue");
    assert!(result.is_ok());

    let mut bucket = result.unwrap();

    // Current context should be app (last switched)
    assert_eq!(bucket.context().name(), "app");
    assert_eq!(bucket.get("", "key"), Some("appvalue"));

    // Switch to user context to see user data
    bucket.switch_context(Context::user());
    assert_eq!(bucket.get("", "key"), Some("uservalue"));
}

#[test]
fn test_parse_empty_input() {
    let result = parse_token_stream("");
    assert!(result.is_err());

    let result = parse_token_stream("   ");
    assert!(result.is_err());
}

#[test]
fn test_parse_invalid_token() {
    let result = parse_token_stream("invalid");
    assert!(result.is_err());

    let result = parse_token_stream("=value");
    assert!(result.is_err());
}

#[test]
fn test_namespace_depth_check() {
    // This should work (3 levels - at warning threshold)
    let result = parse_token_stream("ui.widgets.buttons:primary=click");
    assert!(result.is_ok());

    // This should fail (4+ levels)
    let result = parse_token_stream("ui.widgets.buttons.primary:icon=arrow");
    assert!(result.is_err());
}

#[test]
fn test_value_parsing_quotes() {
    // Double quoted values
    let result = parse_token_stream("message=\"hello world\"");
    assert!(result.is_ok());
    let bucket = result.unwrap();
    assert_eq!(bucket.get("", "message"), Some("hello world"));

    // Single quoted values
    let result = parse_token_stream("name='John Doe'");
    assert!(result.is_ok());
    let bucket = result.unwrap();
    assert_eq!(bucket.get("", "name"), Some("John Doe"));

    // Unquoted values
    let result = parse_token_stream("simple=value");
    assert!(result.is_ok());
    let bucket = result.unwrap();
    assert_eq!(bucket.get("", "simple"), Some("value"));
}

#[test]
fn test_value_parsing_escapes() {
    // Escaped quotes
    let result = parse_token_stream("text=\"She said \\\"hello\\\"\"");
    assert!(result.is_ok());
    let bucket = result.unwrap();
    assert_eq!(bucket.get("", "text"), Some("She said \"hello\""));

    // Escaped backslashes
    let result = parse_token_stream("path=\"C:\\\\Program Files\\\\\"");
    assert!(result.is_ok());
    let bucket = result.unwrap();
    assert_eq!(bucket.get("", "path"), Some("C:\\Program Files\\"));

    // Newlines and tabs
    let result = parse_token_stream("multiline=\"line1\\nline2\\tindented\"");
    assert!(result.is_ok());
    let bucket = result.unwrap();
    assert_eq!(bucket.get("", "multiline"), Some("line1\nline2\tindented"));
}

#[test]
fn test_value_parsing_errors() {
    // Incomplete escape sequence (properly quoted)
    let result = parse_token_stream("bad=\"incomplete\\\"");
    assert!(result.is_err());

    // Unescaped quote inside string
    let result = parse_token_stream("bad=\"quote\"inside\"");
    assert!(result.is_err());

    // Mismatched quotes
    let result = parse_token_stream("bad=\"mismatched'");
    assert!(result.is_ok()); // This actually parses as unquoted value - that's RSB string-biased behavior
}

#[test]
fn test_full_meteor_spec_support() {
    // Full format: context:namespace:key=value
    let result = parse_token_stream("user:settings:theme=dark");
    assert!(result.is_ok());
    let bucket = result.unwrap();

    // Should be in user context now
    assert_eq!(bucket.context().name(), "user");
    assert_eq!(bucket.get("settings", "theme"), Some("dark"));

    // Multiple full format tokens
    let result = parse_token_stream("app:ui.widgets:button=click; system:env:PATH=/usr/bin");
    assert!(result.is_ok());
    let bucket = result.unwrap();

    // Should be in system context (last one parsed)
    assert_eq!(bucket.context().name(), "system");
    assert_eq!(bucket.get("env", "PATH"), Some("/usr/bin"));

    // Mixed format - full and namespace-only
    let result = parse_token_stream("user:settings:theme=dark; ui:button=click");
    assert!(result.is_ok());
    let mut bucket = result.unwrap();

    // Should be in user context
    assert_eq!(bucket.context().name(), "user");
    assert_eq!(bucket.get("settings", "theme"), Some("dark"));
    assert_eq!(bucket.get("ui", "button"), Some("click"));
}

#[test]
fn test_default_app_context() {
    // No context specified should default to app
    let result = parse_token_stream("ui:button=click; key=value");
    assert!(result.is_ok());
    let bucket = result.unwrap();

    // Should be in app context (default)
    assert_eq!(bucket.context().name(), "app");
    assert_eq!(bucket.get("ui", "button"), Some("click"));
    assert_eq!(bucket.get("", "key"), Some("value"));
}


#[test]
fn parse_error_details() {
    let e = parse_token_stream("a=1; ctx=").unwrap_err();
    assert_eq!(e.to_string(), "Parse error at position 4: Context name cannot be empty");
    let e = parse_token_stream("bad=\"x\"y\"").unwrap_err();
    assert_eq!(e.to_string(), "Invalid character '\"' at position 3 in unescaped \" inside quoted value");
    let e = parse_token_stream("a:b:c:d=1").unwrap_err();
    assert_eq!(e.to_string(), "Invalid token 'a:b:c:d': too many colons in address");
    let b = parse_token_stream("list[0]='x\\qy'").unwrap();
    assert_eq!(b.get("", "list__i_0"), Some("x\\qy"));
}
