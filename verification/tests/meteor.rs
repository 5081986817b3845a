use meteor::context::Context;
use meteor::meteor::Meteor;
use meteor::namespace::Namespace;
use meteor::token::Token;

#[test]
fn test_meteor_parse_full() {
    let meteors = Meteor::parse("app:ui.widgets:button=submit").unwrap();
    assert_eq!(meteors.len(), 1);
    let meteor = &meteors[0];
    assert_eq!(meteor.context().name(), "app");
    assert_eq!(meteor.namespace().to_string(), "ui.widgets");
    assert_eq!(meteor.token().key_notation(), "button");
    assert_eq!(meteor.token().value(), "submit");
}

#[test]
fn test_meteor_parse_no_context() {
    let meteors = Meteor::parse("ui.widgets:button=submit").unwrap();
    assert_eq!(meteors.len(), 1);
    let meteor = &meteors[0];
    assert_eq!(meteor.context().name(), "app");
    assert_eq!(meteor.namespace().to_string(), "ui.widgets");
}

#[test]
fn test_meteor_parse_mismatched_namespace() {
    let result = Meteor::parse("app:ui.widgets:button=submit;profile:user=name");
    assert!(result.is_err());
}

#[test]
fn test_meteor_parse_minimal() {
    let meteors = Meteor::parse("button=submit").unwrap();
    assert_eq!(meteors.len(), 1);
    let meteor = &meteors[0];
    assert_eq!(meteor.context().name(), "app");
    assert_eq!(meteor.namespace().to_string(), "main");
    assert_eq!(meteor.token().key_notation(), "button");
}

#[test]
fn test_meteor_first() {
    let meteor = Meteor::first("app:ui.widgets:button=submit").unwrap();
    assert_eq!(meteor.context().name(), "app");
    assert_eq!(meteor.namespace().to_string(), "ui.widgets");
    assert_eq!(meteor.token().key_notation(), "button");
    assert_eq!(meteor.token().value(), "submit");
    let meteor = Meteor::first("button=submit").unwrap();
    assert_eq!(meteor.context().name(), "app");
    assert_eq!(meteor.namespace().to_string(), "main");
    assert_eq!(meteor.token().key_notation(), "button");
}

#[test]
fn test_meteor_display() {
    let meteor = Meteor::new(Context::user(), Namespace::from_string("settings"), Token::new("theme", "dark"));
    assert_eq!(meteor.to_string(), "user:settings:theme=dark");
}

#[test]
fn test_meteor_parse_with_quoted_semicolon() {
    let meteors = Meteor::parse("app:ui.widgets:message=\"Hello; World\"").unwrap();
    assert_eq!(meteors.len(), 1);
    let meteor = &meteors[0];
    assert_eq!(meteor.namespace().to_string(), "ui.widgets");
    assert_eq!(meteor.tokens().len(), 1);
    assert_eq!(meteor.tokens()[0].value(), "\"Hello; World\"");
}

#[test]
fn test_meteor_parse_unbalanced_quotes() {
    let result = Meteor::parse("app:ui.widgets:message=\"Hello; World");
    assert!(result.is_err());
}

#[test]
fn meteor_strict_constructor_refuses_other_namespace() {
    let tok = Token::new_with_namespace(Namespace::from_string("other"), "k", "v");
    let r = Meteor::try_new(Context::app(), Namespace::from_string("ui"), tok);
    assert!(r.is_err());
    assert!(Meteor::try_new_with_tokens(Context::app(), Namespace::from_string("ui"), Vec::new()).is_err());
    let ok = Meteor::try_new(Context::app(), Namespace::from_string("ui"), Token::new("k", "v")).unwrap();
    assert_eq!(ok.to_string(), "app:ui:k=v");
}
