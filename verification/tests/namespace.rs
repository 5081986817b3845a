use meteor::config::MAX_NAMESPACE_PART_LENGTH;
use meteor::namespace::{parse_dot_path, Namespace};

#[test]
fn namespace_test_namespace_depth() {
    let root = Namespace::root();
    assert_eq!(root.depth(), 0);
    assert!(!root.should_warn());
    let shallow = Namespace::from_string("ui.widgets");
    assert_eq!(shallow.depth(), 2);
    assert!(!shallow.should_warn());
    let deep = Namespace::from_string("ui.widgets.buttons.primary");
    assert_eq!(deep.depth(), 4);
    assert!(!deep.should_warn());
    assert!(!deep.is_too_deep());
    let warning_deep = Namespace::from_string("ui.widgets.buttons.primary.active");
    assert_eq!(warning_deep.depth(), 5);
    assert!(warning_deep.should_warn());
    assert!(!warning_deep.is_too_deep());
}

#[test]
fn test_namespace_parent_of() {
    let parent = Namespace::from_string("ui");
    let child = Namespace::from_string("ui.widgets");
    assert!(parent.is_parent_of(&child));
    assert!(!child.is_parent_of(&parent));
}

#[test]
fn test_namespace_validation_success() {
    assert!(Namespace::try_from_string("ui").is_ok());
    assert!(Namespace::try_from_string("ui.widgets").is_ok());
    assert!(Namespace::try_from_string("_private").is_ok());
    assert!(Namespace::try_from_string("api-v2").is_ok());
    assert!(Namespace::try_from_string("").is_ok());
}

#[test]
fn test_namespace_validation_failures() {
    assert!(Namespace::try_from_string("ui..widgets").is_err());
    assert!(Namespace::try_from_string(".ui").is_err());
    assert!(Namespace::try_from_string("ui.").is_err());
    assert!(Namespace::try_from_string("ui widgets").is_err());
    assert!(Namespace::try_from_string("ui/widgets").is_err());
    assert!(Namespace::try_from_string("2ui").is_err());
    assert!(Namespace::try_from_string("global").is_err());
    assert!(Namespace::try_from_string("ui.ctl").is_err());
    assert!(Namespace::try_from_string("root").is_err());
    assert!(Namespace::try_from_string("a.b.c.d.e.f").is_err());
    let long_part = "a".repeat(MAX_NAMESPACE_PART_LENGTH + 1);
    assert!(Namespace::try_from_string(&long_part).is_err());
}

#[test]
fn test_depth_thresholds() {
    let clear_ns = Namespace::try_from_string("a.b.c.d").unwrap();
    assert_eq!(clear_ns.depth(), 4);
    assert!(!clear_ns.should_warn());
    assert!(!clear_ns.is_too_deep());
    let warning_ns = Namespace::try_from_string("a.b.c.d.e").unwrap();
    assert_eq!(warning_ns.depth(), 5);
    assert!(warning_ns.should_warn());
    assert!(!warning_ns.is_too_deep());
    assert!(Namespace::try_from_string("a.b.c.d.e.f").is_err());
}

#[test]
fn test_from_str_uses_validation() {
    assert!(Namespace::from_str("ui").is_ok());
    assert!(Namespace::from_str("main").is_ok());
    assert!(Namespace::from_str("global").is_err());
    assert!(Namespace::from_str("ui..widgets").is_err());
}

#[test]
fn test_dot_path_parsing() {
    assert_eq!(parse_dot_path("app").unwrap(), ("app".to_string(), "".to_string(), "".to_string()));
    assert_eq!(parse_dot_path("app.ui").unwrap(), ("app".to_string(), "ui".to_string(), "".to_string()));
    assert_eq!(
        parse_dot_path("app.ui.button").unwrap(),
        ("app".to_string(), "ui".to_string(), "button".to_string())
    );
    assert_eq!(
        parse_dot_path("app.ui.complex.key.name").unwrap(),
        ("app".to_string(), "ui".to_string(), "complex.key.name".to_string())
    );
}

#[test]
fn test_dot_path_errors() {
    assert!(parse_dot_path("").is_err());
}

#[test]
fn namespace_round_trip_and_root() {
    let ns = Namespace::from_string("ui.widgets.buttons");
    assert_eq!(ns.to_string(), "ui.widgets.buttons");
    assert_eq!(Namespace::from_string(&ns.to_string()).parts().len(), 3);
    assert_eq!(Namespace::from_string("").depth(), 0);
}

#[test]
fn namespace_dotted_text_parses_back() {
    let ns = Namespace::from_string("ui.widgets.buttons");
    assert_eq!(ns.to_string(), "ui.widgets.buttons");
    let again = Namespace::from_string(&ns.to_string());
    assert_eq!(again.parts(), ns.parts());
    assert_eq!(again.depth(), 3);
}

#[test]
fn namespace_text_joins_back() {
    for text in ["a.b.c", "", "a..b", ".x"] {
        assert_eq!(Namespace::from_string(text).to_string(), text);
    }
}
