use meteor::engine::MeteorEngine;
use meteor::shell::{
    handle_list, handle_mem, handle_set, handle_validate, mem_slot_name, render_engine, shell_step,
    split_name_value, ShellInput, ShellState,
};

fn step(engine: &mut MeteorEngine, state: ShellState, line: &str) -> (String, ShellState, bool) {
    let r = shell_step(engine, state, ShellInput::Line(line.to_string()));
    (r.out, r.state, r.quit)
}

#[test]
fn shell_empty_engine_and_quit() {
    let mut engine = MeteorEngine::new();
    let (out, state, quit) = step(&mut engine, ShellState::Ready, "show\n");
    assert_eq!(out, "(engine empty)\n");
    assert!(matches!(state, ShellState::Ready));
    assert!(!quit);
    let (out, _, quit) = step(&mut engine, ShellState::Ready, "   \n");
    assert_eq!((out.as_str(), quit), ("", false));
    let (out, _, quit) = step(&mut engine, ShellState::Ready, "quit\n");
    assert_eq!((out.as_str(), quit), ("bye\n", true));
    let r = shell_step(&mut engine, ShellState::Ready, ShellInput::End);
    assert_eq!((r.out.as_str(), r.quit), ("bye\n", true));
}

#[test]
fn shell_parse_then_show() {
    let mut engine = MeteorEngine::new();
    let (out, _, _) = step(&mut engine, ShellState::Ready, "parse app:ui:button=click\n");
    assert!(out.starts_with("Parsed 1 segment(s)\n=== Meteor Engine State ===\n"));
    let (out, _, _) = step(&mut engine, ShellState::Ready, "get app:ui:button");
    assert_eq!(out, "app:ui:button = click\n");
    let shown = render_engine(&engine);
    assert!(shown.contains("Context: app\n  Namespace: ui\n    button = click\n\n"));
}

#[test]
fn shell_set_get_delete() {
    let mut engine = MeteorEngine::new();
    assert_eq!(handle_set(&mut engine, "app:ui:x"), "Usage: set <context:namespace:key> <value>\n");
    assert_eq!(handle_set(&mut engine, "app:ui:x 42"), "Stored 'app:ui:x'.\n");
    let (out, _, _) = step(&mut engine, ShellState::Ready, "get app:ui:x");
    assert_eq!(out, "app:ui:x = 42\n");
    let (out, _, _) = step(&mut engine, ShellState::Ready, "delete app:ui:x");
    assert_eq!(out, "Removed app:ui:x\n");
    let (out, _, _) = step(&mut engine, ShellState::Ready, "delete app:ui:x");
    assert_eq!(out, "Nothing removed\n");
    let (out, _, _) = step(&mut engine, ShellState::Ready, "frobnicate now");
    assert_eq!(out, "Unknown command 'frobnicate'. Try 'help'.\n");
}

#[test]
fn shell_validate_and_list() {
    assert_eq!(handle_validate("a=1 :;: b=2"), "✅ Valid meteor stream (2 segments)\n");
    assert_eq!(handle_validate("a=1"), "✅ Valid meteor stream (1 segment)\n");
    let mut engine = MeteorEngine::new();
    engine.set("app:ui:b", "2").unwrap();
    assert_eq!(handle_list(&engine, "app ui"), "Entries for app:ui:\n  b = 2\n");
    assert_eq!(handle_list(&engine, "app"), "No entries for app:(root)\n");
    assert_eq!(handle_list(&engine, ""), "Usage: list <context> [namespace]\n");
}

#[test]
fn shell_mem_slots() {
    assert_eq!(mem_slot_name("  $$my name "), Some("my_name".to_string()));
    assert_eq!(mem_slot_name("$$$"), None);
    assert_eq!(split_name_value(" note  hello world"), Some(("note", "hello world")));
    assert_eq!(split_name_value("note"), None);

    let mut engine = MeteorEngine::new();
    let (out, _) = handle_mem(&mut engine, "set $note hello");
    assert_eq!(out, "Stored $note\n");
    let (out, _) = handle_mem(&mut engine, "get note");
    assert_eq!(out, "$note = hello\n");
    let (out, _) = handle_mem(&mut engine, "list");
    assert_eq!(out, "Scratch entries:\n  $note = hello\n");
    let (out, _) = handle_mem(&mut engine, "delete note");
    assert_eq!(out, "Removed $note\n");
    let (out, _) = handle_mem(&mut engine, "get note");
    assert_eq!(out, "$note is empty\n");
    let (out, _) = handle_mem(&mut engine, "frob x");
    assert_eq!(out, "Unknown mem subcommand 'frob'. Try 'mem help'.\n");
}

#[test]
fn shell_edit_dialog() {
    let mut engine = MeteorEngine::new();
    let (out, state, _) = step(&mut engine, ShellState::Ready, "load note\n");
    assert_eq!(
        out,
        "Editing $note (current value: )\nEnter new value (leave blank to keep): "
    );
    let (out, state, _) = step(&mut engine, state, "draft  \n");
    assert_eq!(out, "Save to $note? [y/N]: ");
    let (out, state, _) = step(&mut engine, state, "YES\n");
    assert_eq!(out, "Saved $note\n");
    assert!(matches!(state, ShellState::Ready));
    assert_eq!(engine.get("_mem:scratch:note"), Some("draft"));

    let (_, state, _) = step(&mut engine, ShellState::Ready, "mem edit note");
    let (out, state, _) = step(&mut engine, state, "other\n");
    assert_eq!(out, "Save to $note? [y/N]: ");
    let r = shell_step(&mut engine, state, ShellInput::End);
    assert_eq!(r.out, "Discarded\n");
    assert_eq!(engine.get("_mem:scratch:note"), Some("draft"));

    let (_, state, _) = step(&mut engine, ShellState::Ready, "load note");
    let (out, state, _) = step(&mut engine, state, "\n");
    assert_eq!(out, "No change\n");
    assert!(matches!(state, ShellState::Ready));
}

#[test]
fn shell_show_marks_scratch_context() {
    let mut engine = MeteorEngine::new();
    let (out, _) = handle_mem(&mut engine, "set a 1");
    assert_eq!(out, "Stored $a\n");
    let shown = render_engine(&engine);
    assert_eq!(
        shown,
        "=== Meteor Engine State ===\nCursor: app:main\n\nContext: _mem (scratch)\n  Namespace: scratch\n    a = 1\n\n"
    );
}

#[test]
fn shell_reset_and_history() {
    let mut engine = MeteorEngine::new();
    engine.set("app:ui:x", "1").unwrap();
    let (out, _, _) = step(&mut engine, ShellState::Ready, "reset cursor\n");
    assert_eq!(out, "Cursor reset to default (app:main)\n");
    let (out, _, _) = step(&mut engine, ShellState::Ready, "history\n");
    let ts = engine.command_history()[0].timestamp;
    assert_eq!(out, format!("✓ [{}] reset cursor\n", ts));
    let (out, _, _) = step(&mut engine, ShellState::Ready, "reset app\n");
    assert_eq!(out, "Context 'app' deleted\n");
    assert_eq!(engine.get("app:ui:x"), None);
    let (out, _, _) = step(&mut engine, ShellState::Ready, "reset nothing\n");
    assert_eq!(out, "Reset error: Context 'nothing' not found\n");
}
