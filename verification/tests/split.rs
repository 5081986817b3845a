use meteor::split::{smart_split, smart_split_borrowed, smart_split_multi_char, smart_split_semicolons, SplitConfig};

#[test]
fn test_basic_semicolon_split() {
    let config = SplitConfig::semicolon_tokens();
    let result = smart_split("key=value;theme=dark;lang=en", config);
    assert_eq!(result, vec!["key=value", "theme=dark", "lang=en"]);
}

#[test]
fn test_quoted_semicolon_split() {
    let config = SplitConfig::semicolon_tokens();
    let result = smart_split("key=value; message=\"hello; world\"; theme=dark", config);
    assert_eq!(result, vec!["key=value", " message=\"hello; world\"", " theme=dark"]);
}

#[test]
fn test_escaped_quotes_token_style() {
    let config = SplitConfig::general_parsing(';');
    let result = smart_split("key=\"value with \\\"quotes\\\"\"; theme=dark", config);
    assert_eq!(result, vec!["key=\"value with \\\"quotes\\\"\"", "theme=dark"]);
}

#[test]
fn test_escaped_quotes_meteor_style() {
    let config = SplitConfig::meteor_streams(';');
    let result = smart_split("key=\"value with \\\"quotes\\\"\"; theme=dark", config);
    assert_eq!(result, vec!["key=\"value with \\\"quotes\\\"\"", "theme=dark"]);
}

#[test]
fn test_multi_char_delimiter() {
    let config = SplitConfig::meteor_delimiter();
    let result = smart_split_multi_char("app:ui:button=click :;: user:main:profile=admin", ":;:", config);
    assert_eq!(result, vec!["app:ui:button=click", "user:main:profile=admin"]);
}

#[test]
fn test_multi_char_delimiter_with_quotes() {
    let config = SplitConfig::meteor_delimiter();
    let result = smart_split_multi_char(
        "app:ui:button=click :;: user:main:profile=\"admin :;: test\"",
        ":;:",
        config,
    );
    assert_eq!(result, vec!["app:ui:button=click", "user:main:profile=\"admin :;: test\""]);
}

#[test]
fn test_control_tokens() {
    let config = SplitConfig::general_parsing(';');
    let result = smart_split("button=click; ns=ui; ctl:delete=app:main:test", config);
    assert_eq!(result, vec!["button=click", "ns=ui", "ctl:delete=app:main:test"]);
}

#[test]
fn test_bracket_notation() {
    let config = SplitConfig::general_parsing(';');
    let result = smart_split("list[0]=first; grid[1,2]=cell; config[debug]=true", config);
    assert_eq!(result, vec!["list[0]=first", "grid[1,2]=cell", "config[debug]=true"]);
}

#[test]
fn test_empty_segments() {
    let config = SplitConfig::general_parsing(';');
    let result = smart_split("key=value;; theme=dark; ", config);
    assert_eq!(result, vec!["key=value", "theme=dark"]);
}

#[test]
fn test_semicolon_compatibility() {
    let result = smart_split_semicolons("key=value; message=\"hello; world\"; theme=dark").unwrap();
    assert_eq!(result, vec!["key=value", " message=\"hello; world\"", " theme=dark"]);
}

#[test]
fn test_unclosed_quotes() {
    let result = smart_split_semicolons("key=\"unclosed quote");
    assert!(result.is_none());
}

#[test]
fn test_complex_escaping() {
    let config = SplitConfig::general_parsing(';');
    let result = smart_split(
        "path=\"/usr/bin\"; message=\"Hello\\nWorld\"; escaped=\"quote\\\"here\"",
        config,
    );
    assert_eq!(
        result,
        vec!["path=\"/usr/bin\"", "message=\"Hello\\nWorld\"", "escaped=\"quote\\\"here\""]
    );
}

#[test]
fn test_borrowed_vs_owned() {
    let input = "key=value; theme=dark";
    let config = SplitConfig::semicolon_tokens();
    let borrowed = smart_split_borrowed(input, config.clone());
    let owned = smart_split(input, config);
    assert_eq!(borrowed.len(), owned.len());
    for (b, o) in borrowed.iter().zip(owned.iter()) {
        assert_eq!(*b, o);
    }
}

#[test]
fn split_escapes_only_inside_quotes_for_meteor_streams() {
    // outside quotes a backslash does not escape the delimiter in meteor streams
    let result = smart_split("a=1\\;b=2", SplitConfig::meteor_streams(';'));
    assert_eq!(result, vec!["a=1\\", "b=2"]);
    // general parsing escapes everywhere
    let result = smart_split("a=1\\;b=2", SplitConfig::general_parsing(';'));
    assert_eq!(result, vec!["a=1\\;b=2"]);
}

#[test]
fn multi_char_split_finds_whole_delimiter_after_partial_match() {
    let parts = smart_split_multi_char("a::;:b", ":;:", SplitConfig::meteor_delimiter());
    assert_eq!(parts, vec!["a:".to_string(), "b".to_string()]);
    let quoted = smart_split_multi_char("x=\"1 :;: 2\" :;: y=3", ":;:", SplitConfig::meteor_delimiter());
    assert_eq!(quoted, vec!["x=\"1 :;: 2\"".to_string(), "y=3".to_string()]);
}

#[test]
fn plain_text_splits_like_str_split() {
    let config = SplitConfig::semicolon_tokens();
    let input = " a=1 ;; b=2;c=3 ";
    let expected: Vec<&str> = input
        .split(';')
        .map(|s| if config.trim_results { s.trim() } else { s })
        .filter(|s| !s.is_empty())
        .collect();
    assert_eq!(smart_split_borrowed(input, config), expected);
}

#[test]
fn multi_char_split_of_nothing_is_empty_even_without_delimiter() {
    let parts = smart_split_multi_char("", "", SplitConfig::meteor_delimiter());
    assert!(parts.is_empty());
}
