use meteor::primary::{Context, Key, Namespace};

#[test]
fn primary_test_context_creation() {
    let ctx = Context::new("app");
    assert_eq!(ctx.name(), "app");
    let system = Context::system();
    assert!(system.is_privileged());
    let app = Context::app();
    assert!(!app.is_privileged());
}

#[test]
fn primary_test_namespace_depth() {
    let root = Namespace::root();
    assert_eq!(root.depth(), 0);
    assert!(!root.should_warn());
    let shallow = Namespace::from_string("ui.widgets");
    assert_eq!(shallow.depth(), 2);
    assert!(!shallow.should_warn());
    let deep = Namespace::from_string("ui.widgets.buttons.primary");
    assert_eq!(deep.depth(), 4);
    assert!(deep.should_warn());
    assert!(deep.is_too_deep());
}

#[test]
fn test_key_creation() {
    let simple = Key::new("button");
    assert_eq!(simple.base(), "button");
    assert!(!simple.has_brackets());
    let bracket = Key::new("list[0]");
    assert_eq!(bracket.base(), "list[0]");
    assert!(bracket.has_brackets());
}

#[test]
fn primary_key_and_namespace_text() {
    assert_eq!(Key::new("grid[1,2]").to_string(), "grid__i_1_2");
    assert_eq!(Key::from_str("").unwrap_err(), "Key cannot be empty");
    assert_eq!(Namespace::from_str("a.b").unwrap().to_string(), "a.b");
    assert!(Namespace::from_string("ui").is_parent_of(&Namespace::from_string("ui.x")));
}
