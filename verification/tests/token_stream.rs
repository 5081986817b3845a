use meteor::engine::MeteorEngine;
use meteor::token_stream::TokenStreamParser;

#[test]
fn test_token_stream_processing() {
    let mut engine = MeteorEngine::new();
    TokenStreamParser::process(&mut engine, "button=click; ns=ui; theme=dark").unwrap();
    assert_eq!(engine.get("app:main:button"), Some("click"));
    assert_eq!(engine.get("app:ui:theme"), Some("dark"));
    assert_eq!(engine.current_namespace.to_string(), "ui");
}

#[test]
fn token_stream_test_context_switching() {
    let mut engine = MeteorEngine::new();
    TokenStreamParser::process(&mut engine, "ctx=user; profile=admin; ns=settings; theme=dark").unwrap();
    assert_eq!(engine.get("user:main:profile"), Some("admin"));
    assert_eq!(engine.get("user:settings:theme"), Some("dark"));
    assert_eq!(engine.current_context.to_string(), "user");
}

#[test]
fn token_stream_test_control_commands() {
    let mut engine = MeteorEngine::new();
    engine.set("app.ui.button", "click").unwrap();
    TokenStreamParser::process(&mut engine, "ctl:delete=app.ui.button").unwrap();
    let history = engine.command_history();
    assert!(history.iter().any(|cmd| cmd.command_type == "delete" && cmd.target == "app.ui.button"));
}

#[test]
fn token_stream_test_validation() {
    assert!(TokenStreamParser::validate("key=value; ns=ui").is_ok());
    assert!(TokenStreamParser::validate("invalid format").is_err());
    assert!(TokenStreamParser::validate("key=\"value with; semicolons\"").is_ok());
}

#[test]
fn token_stream_errors_and_brackets() {
    let mut engine = MeteorEngine::new();
    assert_eq!(
        TokenStreamParser::process(&mut engine, "a=1; bogus; b=2").unwrap_err(),
        "Invalid token format: bogus"
    );
    // the part before the error stays stored, the part after is not run
    assert_eq!(engine.get("app:main:a"), Some("1"));
    assert_eq!(engine.get("app:main:b"), None);
    assert_eq!(
        TokenStreamParser::process(&mut engine, "ctx=").unwrap_err(),
        "Invalid context '': Context name cannot be empty"
    );
    assert_eq!(
        TokenStreamParser::process(&mut engine, "ctl:nothing").unwrap_err(),
        "Invalid control command format: ctl:nothing"
    );
    TokenStreamParser::process(&mut engine, "list[0]=first").unwrap();
    assert_eq!(engine.get("app:main:list__i_0"), Some("first"));
}

#[test]
fn token_stream_aggregation() {
    let mut engine = MeteorEngine::new();
    TokenStreamParser::process_with_aggregation(&mut engine, "button=click; ns=ui; theme=dark; ctx=user; name=bob")
        .unwrap();
    assert_eq!(engine.get("app:main:button"), Some("click"));
    assert_eq!(engine.get("app:ui:theme"), Some("dark"));
    assert_eq!(engine.get("user:ui:name"), Some("bob"));
    assert_eq!(engine.current_context.name(), "user");
    assert_eq!(engine.current_namespace.to_string(), "ui");
    // a token that names another namespace than its group's is refused
    let mut engine = MeteorEngine::new();
    assert!(TokenStreamParser::process_with_aggregation(&mut engine, "other:key=v").is_err());
    assert_eq!(engine.get("app:main:key"), None);
}
