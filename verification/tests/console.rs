use meteor::console::{
    cli_contexts, cli_delete, cli_get, cli_history, cli_list, cli_namespaces, cli_parse, cli_reset,
    cli_set, cli_token, cli_validate, render_engine_json, render_engine_text, render_tokens_json,
    render_tokens_text, resolve_format, OutputFormat,
};
use meteor::engine::MeteorEngine;
use meteor::token::Token;

fn engine_with(paths: &[(&str, &str)]) -> MeteorEngine {
    let mut engine = MeteorEngine::new();
    for (path, value) in paths {
        engine.set(path, value).unwrap();
    }
    engine
}

#[test]
fn console_resolve_format_ignores_case() {
    assert_eq!(resolve_format("JSON"), OutputFormat::Json);
    assert_eq!(resolve_format("json"), OutputFormat::Json);
    assert_eq!(resolve_format("Debug"), OutputFormat::Debug);
    assert_eq!(resolve_format("yaml"), OutputFormat::Text);
    assert_eq!(resolve_format(""), OutputFormat::Text);
}

#[test]
fn console_engine_text_lists_each_value() {
    let engine = engine_with(&[("app:ui:button", "click"), ("user:theme", "dark")]);
    let text = render_engine_text(&engine, "ignored", false);
    let expected = "Current cursor: app:main\n\
\n\
=== Parsed Data ===\n\
Meteor 1:\n  Context: app\n  Namespace: ui\n  Key: button\n  Value: click\n\n\
Meteor 2:\n  Context: user\n  Namespace: main\n  Key: theme\n  Value: dark\n\n\
Total: 2 meteors across 2 contexts\n";
    assert_eq!(text, expected);
}

#[test]
fn console_engine_text_verbose_and_empty() {
    let engine = MeteorEngine::new();
    let text = render_engine_text(&engine, "x=1", true);
    assert_eq!(
        text,
        "=== Meteor Parse Results ===\nInput: x=1\n\nCurrent cursor: app:main\nNo meteors parsed\n"
    );
}

#[test]
fn console_engine_json() {
    let engine = engine_with(&[("app:ui:button", "click")]);
    let json = render_engine_json(&engine);
    let expected = "{\n  \"cursor\": {\n    \"context\": \"app\",\n    \"namespace\": \"main\"\n  },\n  \"contexts\": 1,\n  \"meteors\": [\n    {\n      \"context\": \"app\",\n      \"namespace\": \"ui\",\n      \"key\": \"button\",\n      \"value\": \"click\"\n    }\n  ]\n}\n";
    assert_eq!(json, expected);
    let empty = render_engine_json(&MeteorEngine::new());
    assert!(empty.contains("\"meteors\": [\n  ]\n}\n"));
}

#[test]
fn console_tokens_text_and_json() {
    let tokens = Token::parse("ui:list[0]=a;b=2").unwrap();
    let text = render_tokens_text(&tokens, false);
    assert_eq!(
        text,
        "Token 1:\n  Namespace: ui\n  Key: list__i_0\n  Value: a\n\nToken 2:\n  Namespace: (none)\n  Key: b\n  Value: 2\n"
    );
    let one = Token::parse("k=v").unwrap();
    assert_eq!(
        render_tokens_text(&one, false),
        "Parsed Token:\n  Namespace: (none)\n  Key: k\n  Value: v\n"
    );
    let json = render_tokens_json(&one);
    assert_eq!(
        json,
        "[\n  {\n    \"namespace\": null,\n    \"key\": \"k\",\n    \"key_transformed\": \"k\",\n    \"value\": \"v\"\n  }\n]\n"
    );
}

#[test]
fn console_parse_command() {
    let mut engine = MeteorEngine::new();
    let r = cli_parse(&mut engine, "", false, OutputFormat::Text);
    assert_eq!(r.code, 1);
    assert!(r.err.starts_with("Error: No input provided\n"));

    let r = cli_parse(&mut engine, "app:ui:button=click", true, OutputFormat::Text);
    assert_eq!(r.code, 0);
    assert_eq!(r.err, "Parsing input: app:ui:button=click\nOutput format: text\n");
    assert!(r.out.contains("Meteor 1:\n  Context: app\n  Namespace: ui\n  Key: button\n  Value: click\n"));
    assert_eq!(engine.get("app:ui:button"), Some("click"));
}

#[test]
fn console_validate_command() {
    let ok = cli_validate("app:ui:button=click", false);
    assert_eq!((ok.code, ok.out.as_str()), (0, "✅ Valid meteor format\n"));
    let bad = cli_validate("novalue", false);
    assert_eq!((bad.code, bad.out.as_str()), (1, "❌ Invalid meteor format\n"));
    let empty = cli_validate("", false);
    assert_eq!(empty.code, 1);
    assert!(empty.err.starts_with("Error: No input provided\n"));
}

#[test]
fn console_token_command() {
    let r = cli_token("a=1", false, OutputFormat::Text);
    assert_eq!(r.code, 0);
    assert_eq!(r.out, "Parsed Token:\n  Namespace: (none)\n  Key: a\n  Value: 1\n");
    let bad = cli_token("novalue", false, OutputFormat::Text);
    assert_eq!(bad.code, 1);
    assert!(bad.err.starts_with("Parse error: "));
}

#[test]
fn console_get_command() {
    let engine = engine_with(&[("app:ui:button", "click")]);
    let r = cli_get(&engine, "app:ui:button", OutputFormat::Text);
    assert_eq!((r.code, r.out.as_str()), (0, "app:ui:button = click\n"));
    let r = cli_get(&engine, "app:ui:missing", OutputFormat::Text);
    assert_eq!((r.code, r.err.as_str()), (1, "app:ui:missing not found\n"));
    let r = cli_get(&engine, "app:ui:missing", OutputFormat::Json);
    assert_eq!(
        (r.code, r.out.as_str()),
        (1, "{\n  \"path\": \"app:ui:missing\",\n  \"found\": false\n}\n")
    );
}

#[test]
fn console_contexts_and_namespaces() {
    let engine = engine_with(&[("app:ui:button", "click"), ("user:theme", "dark")]);
    let r = cli_contexts(&engine, OutputFormat::Text);
    assert_eq!(r.out, "Contexts:\n  app\n  user\n");
    let r = cli_contexts(&engine, OutputFormat::Json);
    assert_eq!(r.out, "[\n  \"app\",\n  \"user\"\n]\n");
    let r = cli_contexts(&MeteorEngine::new(), OutputFormat::Text);
    assert_eq!(r.out, "No contexts\n");

    let r = cli_namespaces(&engine, "user", OutputFormat::Text);
    assert_eq!(r.out, "Namespaces in 'user':\n  main\n");
    let r = cli_namespaces(&engine, "none", OutputFormat::Text);
    assert_eq!(r.out, "No namespaces in context 'none'\n");
}

#[test]
fn console_list_command() {
    let engine = engine_with(&[("app:ui:b", "2"), ("app:ui:a", "1")]);
    let r = cli_list(&engine, "app ui", OutputFormat::Text);
    assert_eq!(r.out, "Entries in 'app:ui':\n  a = 1\n  b = 2\n");
    let r = cli_list(&engine, "app", OutputFormat::Text);
    assert_eq!(r.out, "No entries in context 'app'\n");
    let r = cli_list(&engine, "app ui", OutputFormat::Json);
    assert_eq!(
        r.out,
        "{\n  \"context\": \"app\",\n  \"namespace\": \"ui\",\n  \"entries\": [\n    {\n      \"key\": \"a\",\n      \"value\": \"1\"\n    },\n    {\n      \"key\": \"b\",\n      \"value\": \"2\"\n    }\n  ]\n}\n"
    );
}

#[test]
fn console_set_and_delete_commands() {
    let mut engine = MeteorEngine::new();
    let r = cli_set(&mut engine, "app:ui:button", OutputFormat::Text, false);
    assert_eq!(r.code, 1);
    assert!(r.err.starts_with("Error: Missing path or value\n"));

    let r = cli_set(&mut engine, "app:ui:button click me", OutputFormat::Text, true);
    assert_eq!(r.out, "[DRY RUN] Would set: app:ui:button = click me\n");
    assert_eq!(engine.get("app:ui:button"), None);

    let r = cli_set(&mut engine, "app:ui:button click me", OutputFormat::Text, false);
    assert_eq!((r.code, r.out.as_str()), (0, "Set: app:ui:button = click me\n"));
    assert_eq!(engine.get("app:ui:button"), Some("click me"));

    let r = cli_delete(&mut engine, "app:ui:button", OutputFormat::Text, false);
    assert_eq!((r.code, r.out.as_str()), (0, "Deleted: app:ui:button\n"));
    let r = cli_delete(&mut engine, "app:ui:button", OutputFormat::Json, false);
    assert_eq!(
        (r.code, r.out.as_str()),
        (1, "{\n  \"success\": true,\n  \"deleted\": false,\n  \"path\": \"app:ui:button\"\n}\n")
    );
}

#[test]
fn console_history_command() {
    let mut engine = MeteorEngine::new();
    let r = cli_history(engine.command_history(), None, OutputFormat::Text);
    assert_eq!(r.out, "No command history\n");
    let _ = engine.execute_control_command("reset", "cursor");
    let _ = engine.execute_control_command("reset", "bogus");
    let r = cli_history(engine.command_history(), Some(1), OutputFormat::Text);
    let ts = engine.command_history()[1].timestamp;
    assert_eq!(
        r.out,
        format!("✗ [{}] reset bogus - Error: Unknown reset target: bogus\n", ts)
    );
    let r = cli_history(engine.command_history(), None, OutputFormat::Json);
    assert!(r.out.starts_with("[\n  {\n"));
    assert!(r.out.contains("    \"success\": true\n  },\n"));
    assert!(r.out.ends_with("    ,\"error\": \"Unknown reset target: bogus\"\n  }\n]\n"));
}

#[test]
fn console_reset_command() {
    let mut engine = engine_with(&[("app:ui:button", "click")]);
    let r = cli_reset(&mut engine, "missing", OutputFormat::Text);
    assert_eq!((r.code, r.err.as_str()), (1, "Reset error: Context 'missing' not found\n"));
    let r = cli_reset(&mut engine, "app", OutputFormat::Text);
    assert_eq!((r.code, r.out.as_str()), (0, "Context 'app' deleted\n"));
    assert!(engine.contexts().is_empty());
    let r = cli_reset(&mut engine, "app::", OutputFormat::Text);
    assert_eq!((r.code, r.err.as_str()), (1, "Reset error: Context 'app::' not found\n"));
    let r = cli_reset(&mut engine, "cursor", OutputFormat::Json);
    assert_eq!(r.out, "{\n  \"success\": true,\n  \"target\": \"cursor\"\n}\n");
    let r = cli_reset(&mut engine, "", OutputFormat::Text);
    assert_eq!(r.code, 1);
}
