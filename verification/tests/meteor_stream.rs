use meteor::engine::MeteorEngine;
use meteor::meteor_stream::MeteorStreamParser;

#[test]
fn test_meteor_stream_processing() {
    let mut engine = MeteorEngine::new();
    MeteorStreamParser::process(&mut engine, "app:ui:button=click :;: user:main:profile=admin").unwrap();
    assert_eq!(engine.get("app:ui:button"), Some("click"));
    assert_eq!(engine.get("user:main:profile"), Some("admin"));
    assert_eq!(engine.current_context.to_string(), "app");
    assert_eq!(engine.current_namespace.to_string(), "main");
}

#[test]
fn meteor_stream_test_control_commands() {
    let mut engine = MeteorEngine::new();
    engine.set("app:ui:button", "click").unwrap();
    MeteorStreamParser::process(&mut engine, "ctl:reset=cursor :;: app:ui:theme=dark").unwrap();
    let history = engine.command_history();
    assert!(history.iter().any(|cmd| cmd.command_type == "reset" && cmd.target == "cursor"));
    assert_eq!(engine.get("app:ui:theme"), Some("dark"));
}

#[test]
fn meteor_stream_test_validation() {
    assert!(MeteorStreamParser::validate("app:ui:key=value").is_ok());
    assert!(MeteorStreamParser::validate("app:ui:key=value :;: user:main:profile=admin").is_ok());
    assert!(MeteorStreamParser::validate("invalid format").is_err());
    let simple_token_result = MeteorStreamParser::validate("key=value");
    if simple_token_result.is_ok() {
    } else {
        assert!(simple_token_result.is_err(), "Simple key=value should be invalid for meteor format");
    }
}

#[test]
fn test_smart_split() {
    let parts = MeteorStreamParser::smart_split("app:ui:button=click :;: user:main:profile=\"admin :;: test\"");
    assert_eq!(parts.len(), 2);
    assert_eq!(parts[0], "app:ui:button=click");
    assert_eq!(parts[1], "user:main:profile=\"admin :;: test\"");
}

#[test]
fn meteor_stream_errors_and_groups() {
    let mut engine = MeteorEngine::new();
    assert_eq!(
        MeteorStreamParser::process(&mut engine, "button=click").unwrap_err(),
        "Invalid meteor format: 'button=click' - expected context:namespace:key=value"
    );
    assert_eq!(
        MeteorStreamParser::process(&mut engine, "app:ui:button").unwrap_err(),
        "Invalid meteor format: 'app:ui:button' - missing value assignment"
    );
    assert_eq!(
        MeteorStreamParser::process(&mut engine, ":ui:k=v").unwrap_err(),
        "Invalid context '': Context name cannot be empty"
    );
    MeteorStreamParser::process(&mut engine, "app:ui:list[0]=a; app:ui:b=c :;: ns=deep :;: ctx=user").unwrap();
    assert_eq!(engine.get("app:ui:list[0]"), Some("a"));
    assert_eq!(engine.get("app:ui:b"), Some("c"));
    assert_eq!(engine.current_context.name(), "app");
    assert_eq!(engine.current_namespace.to_string(), "main");
    assert!(MeteorStreamParser::process_with_aggregation(&mut engine, "app:x:k=v").is_ok());
    assert_eq!(engine.get("app:x:k"), Some("v"));
}

#[test]
fn stream_cursor_parts_leave_the_cursor() {
    let mut engine = MeteorEngine::new();
    MeteorStreamParser::process(&mut engine, "ns=ui :;: app:ui:button=click").unwrap();
    assert_eq!(engine.get("app:ui:button"), Some("click"));
    assert_eq!(engine.current_context.name(), "app");
    assert_eq!(engine.current_namespace.to_string(), "main");
    MeteorStreamParser::process(&mut engine, "ctx=user :;: app:ui:theme=dark").unwrap();
    assert_eq!(engine.current_context.name(), "app");
    assert!(MeteorStreamParser::process(&mut engine, "ctx=").is_err());
}
