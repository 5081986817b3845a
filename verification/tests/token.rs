use meteor::token::Token;

#[test]
fn test_token_creation() {
    let simple = Token::new("button", "submit");
    assert_eq!(simple.key_notation(), "button");
    assert_eq!(simple.value(), "submit");
    assert!(!simple.has_brackets());
}

#[test]
fn test_token_parse() {
    let tokens = Token::parse("theme=dark").unwrap();
    assert_eq!(tokens.len(), 1);
    assert_eq!(tokens[0].key_notation(), "theme");
    assert_eq!(tokens[0].value(), "dark");
    let tokens = Token::parse("theme=dark; lang=en").unwrap();
    assert_eq!(tokens.len(), 2);
    assert_eq!(tokens[0].key_notation(), "theme");
    assert_eq!(tokens[1].key_notation(), "lang");
    assert!(Token::parse("invalid").is_err());
}

#[test]
fn test_token_first() {
    let token = Token::first("theme=dark").unwrap();
    assert_eq!(token.key_notation(), "theme");
    assert_eq!(token.value(), "dark");
    let token = Token::first("theme=dark; lang=en").unwrap();
    assert_eq!(token.key_notation(), "theme");
    assert_eq!(token.value(), "dark");
    assert!(Token::first("invalid").is_err());
}

#[test]
fn test_token_with_brackets() {
    let bracket = Token::new("list[0]", "item");
    assert_eq!(bracket.key_notation(), "list[0]");
    assert!(bracket.has_brackets());
}

#[test]
fn test_token_parse_with_quoted_semicolon() {
    let tokens = Token::parse("message=\"Hello; World\"").unwrap();
    assert_eq!(tokens.len(), 1);
    assert_eq!(tokens[0].key_notation(), "message");
    assert_eq!(tokens[0].value(), "\"Hello; World\"");
}

#[test]
fn test_token_parse_unbalanced_quotes() {
    assert!(Token::parse("message=\"Hello; World").is_err());
}

#[test]
fn token_display_and_errors() {
    let t = Token::first("ui:list[0]=x").unwrap();
    assert_eq!(t.to_string(), "ui:list__i_0=x");
    assert_eq!(t.namespace().unwrap().to_string(), "ui");
    assert_eq!(Token::parse("invalid").unwrap_err(), "Invalid token format: invalid");
    assert_eq!(Token::parse("  ;  ").unwrap_err(), "No valid tokens found");
    assert_eq!(Token::parse("a=\"x").unwrap_err(), "Unbalanced quotes in token string");
}
