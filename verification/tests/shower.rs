use meteor::context::Context;
use meteor::meteor::Meteor;
use meteor::namespace::Namespace;
use meteor::shower::MeteorShower;
use meteor::token::Token;

#[test]
fn test_meteor_shower_creation() {
    let mut shower = MeteorShower::new();
    let meteor = Meteor::new(Context::app(), Namespace::from_string("ui.widgets"), Token::new("button", "submit"));
    shower.add(meteor);
    assert_eq!(shower.len(), 1);
    assert!(!shower.is_empty());
}

#[test]
fn test_meteor_shower_lookup() {
    let mut shower = MeteorShower::new();
    let meteor = Meteor::new(Context::user(), Namespace::from_string("settings"), Token::new("theme", "dark"));
    shower.add(meteor);
    let found = shower.find("user", "settings", "theme");
    assert!(found.is_some());
    assert_eq!(found.unwrap().token().value(), "dark");
}

#[test]
fn test_meteor_shower_parse() {
    let shower = MeteorShower::parse("app:ui:button=click; user:settings:theme=dark").unwrap();
    assert_eq!(shower.len(), 2);
    assert_eq!(shower.contexts().len(), 2);
    let app_meteors = shower.by_context("app");
    assert_eq!(app_meteors.len(), 1);
    assert_eq!(app_meteors[0].token().value(), "click");
}

#[test]
fn shower_parse_through_crate_root() {
    let shower = meteor::parse_shower("app:ui.widgets:button=submit; user:settings:theme=dark").unwrap();
    assert_eq!(shower.len(), 2);
    assert_eq!(shower.namespaces_in_context("user"), vec!["settings".to_string()]);
}
