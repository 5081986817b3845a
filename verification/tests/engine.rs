use meteor::context::Context;
use meteor::engine::MeteorEngine;
use meteor::namespace::Namespace;

#[test]
fn test_meteor_engine_creation() {
    let engine = MeteorEngine::new();
    assert_eq!(engine.current_context.name(), "app");
    assert_eq!(engine.current_namespace.to_string(), "main");
    assert!(engine.command_history().is_empty());
}

#[test]
fn test_cursor_state_changes() {
    let mut engine = MeteorEngine::new();

    // Switch context
    engine.switch_context(Context::user());
    assert_eq!(engine.current_context.name(), "user");

    // Switch namespace
    engine.switch_namespace(Namespace::from_string("settings"));
    assert_eq!(engine.current_namespace.to_string(), "settings");

    // Reset cursor
    engine.reset_cursor();
    assert_eq!(engine.current_context.name(), "app");
    assert_eq!(engine.current_namespace.to_string(), "main");
}

#[test]
fn test_token_storage() {
    let mut engine = MeteorEngine::new();

    // Store token using cursor
    engine.store_token("button", "click");
    assert_eq!(engine.get("app:main:button"), Some("click"));

    // Store with explicit addressing
    engine.store_token_at("user", "settings", "theme", "dark");
    assert_eq!(engine.get("user:settings:theme"), Some("dark"));
}

#[test]
fn engine_test_control_commands() {
    let mut engine = MeteorEngine::new();

    // Store some data
    engine.store_token("button", "click");

    // Execute control command
    engine.execute_control_command("reset", "cursor").unwrap();

    // Check command history
    assert_eq!(engine.command_history().len(), 1);
    assert_eq!(engine.last_command().unwrap().command_type, "reset");
    assert!(engine.last_command().unwrap().success);
}

#[test]
fn test_stream_continuity() {
    let mut engine = MeteorEngine::new();

    // First stream: app:main context
    engine.store_token("host", "localhost");
    engine.switch_namespace(Namespace::from_string("db"));
    engine.store_token("user", "admin");

    // Cursor state should persist
    assert_eq!(engine.current_context.name(), "app");
    assert_eq!(engine.current_namespace.to_string(), "db");

    // Second stream: continues from app:db
    engine.store_token("password", "secret");
    engine.switch_context(Context::user());
    engine.store_token("name", "John");

    // Verify data stored correctly
    assert_eq!(engine.get("app:main:host"), Some("localhost"));
    assert_eq!(engine.get("app:db:user"), Some("admin"));
    assert_eq!(engine.get("app:db:password"), Some("secret"));
    assert_eq!(engine.get("user:db:name"), Some("John"));
}

#[test]
fn test_control_command_audit_trail() {
    let mut engine = MeteorEngine::new();

    // Store test data
    engine.set("app:ui:button", "click").unwrap();
    engine.set("app:ui:theme", "dark").unwrap();
    engine.set("user:profile:name", "Alice").unwrap();

    // Execute various control commands
    let _ = engine.execute_control_command("delete", "app:ui:button"); // May succeed or fail due to StorageData limitations
    engine.execute_control_command("reset", "cursor").unwrap();
    engine
        .execute_control_command("invalid", "command")
        .unwrap_err();

    // Check audit trail
    let history = engine.command_history();
    assert_eq!(history.len(), 3);

    // First command: delete button (should succeed)
    assert_eq!(history[0].command_type, "delete");
    assert_eq!(history[0].target, "app:ui:button");
    // Note: delete might not actually work due to StorageData limitations

    // Second command: reset cursor (should succeed)
    assert_eq!(history[1].command_type, "reset");
    assert_eq!(history[1].target, "cursor");
    assert!(history[1].success);

    // Third command: invalid command (should fail)
    assert_eq!(history[2].command_type, "invalid");
    assert_eq!(history[2].target, "command");
    assert!(!history[2].success);
    assert!(history[2].error_message.is_some());
}

#[test]
fn test_explicit_vs_cursor_addressing() {
    let mut engine = MeteorEngine::new();

    // Set cursor to user:settings
    engine.switch_context(Context::user());
    engine.switch_namespace(Namespace::from_string("settings"));

    // Store using cursor
    engine.store_token("theme", "dark");

    // Store with explicit addressing (overrides cursor)
    engine.store_token_at("app", "ui", "button", "click");

    // Verify both stored correctly
    assert_eq!(engine.get("user:settings:theme"), Some("dark"));
    assert_eq!(engine.get("app:ui:button"), Some("click"));

    // Cursor should be unchanged
    assert_eq!(engine.current_context.name(), "user");
    assert_eq!(engine.current_namespace.to_string(), "settings");
}

#[test]
fn test_complex_dot_paths() {
    let mut engine = MeteorEngine::new();

    // Test various path formats
    engine.set("app:ui.forms.login:username", "alice").unwrap();
    engine
        .set("system:logs.error.network:timeout", "30s")
        .unwrap();

    // Verify complex paths work
    assert_eq!(engine.get("app:ui.forms.login:username"), Some("alice"));
    assert_eq!(engine.get("system:logs.error.network:timeout"), Some("30s"));

    // Test existence checks
    assert!(engine.exists_at("app:ui.forms.login:username"));
    assert!(engine.exists_at("system:logs.error.network:timeout"));
    assert!(!engine.exists_at("nonexistent:path"));
}

#[test]
fn test_command_history_filtering() {
    let mut engine = MeteorEngine::new();

    // Execute mix of successful and failed commands
    engine.execute_control_command("reset", "cursor").unwrap();
    engine
        .execute_control_command("invalid", "command")
        .unwrap_err();
    engine.execute_control_command("reset", "storage").unwrap();
    engine
        .execute_control_command("unknown", "target")
        .unwrap_err();

    // Test history filtering
    let all_commands = engine.command_history();
    assert_eq!(all_commands.len(), 4);

    let failed_commands = engine.failed_commands();
    assert_eq!(failed_commands.len(), 2);
    assert_eq!(failed_commands[0].command_type, "invalid");
    assert_eq!(failed_commands[1].command_type, "unknown");

    // Test last command
    assert_eq!(engine.last_command().unwrap().command_type, "unknown");
    assert!(!engine.last_command().unwrap().success);
}

#[test]
fn test_reset_operations() {
    let mut engine = MeteorEngine::new();

    // Set up initial state
    engine.switch_context(Context::user());
    engine.switch_namespace(Namespace::from_string("profile"));
    engine.store_token("name", "Bob");
    engine.set("app:ui:theme", "light").unwrap();

    // Test cursor reset
    engine.reset_cursor();
    assert_eq!(engine.current_context.name(), "app");
    assert_eq!(engine.current_namespace.to_string(), "main");

    // Data should still exist
    assert_eq!(engine.get("user:profile:name"), Some("Bob"));
    assert_eq!(engine.get("app:ui:theme"), Some("light"));

    // Test storage reset
    engine.clear_storage();
    assert!(engine.get("user:profile:name").is_none());
    assert!(engine.get("app:ui:theme").is_none());

    // Test reset all
    engine.switch_context(Context::system());
    engine.store_token("test", "value");
    engine.reset_all();

    assert_eq!(engine.current_context.name(), "app");
    assert_eq!(engine.current_namespace.to_string(), "main");
    assert!(engine.get("system:main:test").is_none());
}


#[test]
fn engine_set_get_delete_law_examples() {
    let mut engine = MeteorEngine::new();
    engine.set("app:ui:button", "click").unwrap();
    assert_eq!(engine.get("app:ui:button"), Some("click"));
    engine.set("app:ui:button", "press").unwrap();
    assert_eq!(engine.get("app:ui:button"), Some("press"));
    assert_eq!(engine.delete("app:ui:button").unwrap(), true);
    assert_eq!(engine.get("app:ui:button"), None);
    assert_eq!(engine.delete("app:ui:button").unwrap(), false);
    assert!(engine.set("a:b:c:d", "x").is_err());
    assert_eq!(
        engine.set("", "x").unwrap_err(),
        "Path cannot be empty"
    );
}

#[test]
fn engine_control_command_errors() {
    let mut engine = MeteorEngine::new();
    assert_eq!(
        engine.execute_control_command("reset", "everything").unwrap_err(),
        "Unknown reset target: everything"
    );
    assert_eq!(
        engine.execute_control_command("explode", "x").unwrap_err(),
        "Unknown control command: explode"
    );
    assert_eq!(engine.failed_commands().len(), 2);
}
