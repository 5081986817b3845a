use meteor::context::Context;
use meteor::engine::MeteorEngine;
use meteor::export::{ExportData, ExportFormat};

#[test]
fn engine_cursor_accessor() {
    let mut engine = MeteorEngine::new();
    {
        let mut cursor = engine.cursor();
        assert_eq!(cursor.context().name(), "app");
        assert_eq!(cursor.namespace().to_string(), "main");
        cursor.set_context("user");
        cursor.set_namespace("settings");
        assert_eq!(cursor.position(), "user:settings");
    }
    assert_eq!(engine.current_context.name(), "user");
    assert_eq!(engine.current_namespace.to_string(), "settings");
}

#[test]
fn engine_cursor_guard_restores() {
    let mut engine = MeteorEngine::new();
    let guard = engine.cursor_guard();
    engine.switch_context(Context::user());
    guard.restore(&mut engine);
    assert_eq!(engine.current_context.name(), "app");
    assert_eq!(engine.current_namespace.to_string(), "main");
}

#[test]
fn engine_namespace_view_and_meteor_for() {
    let mut engine = MeteorEngine::new();
    engine.set("doc:guides.install:intro", "Welcome").unwrap();
    engine.set("doc:guides.install:setup", "Step 1...").unwrap();
    engine.set("doc:guides.install:.index", "default").unwrap();
    let view = engine.namespace_view("doc", "guides.install").unwrap();
    assert_eq!(view.entry_count, 3);
    assert!(view.has_default);
    assert_eq!(view.entries().len(), 3);
    assert_eq!(view.get("intro"), Some("Welcome".to_string()));
    assert!(engine.namespace_view("doc", "missing").is_none());

    let mut engine = MeteorEngine::new();
    engine.set("app:ui:button", "click").unwrap();
    engine.set("app:ui:theme", "dark").unwrap();
    let meteor = engine.meteor_for("app", "ui").unwrap();
    assert_eq!(meteor.context().name(), "app");
    assert_eq!(meteor.namespace().to_string(), "ui");
    assert_eq!(meteor.tokens().len(), 2);
}

#[test]
fn engine_iterators() {
    let mut engine = MeteorEngine::new();
    engine.set("app:ui:button", "click").unwrap();
    engine.set("app:ui:theme", "dark").unwrap();
    engine.set("user:main:name", "bob").unwrap();
    let mut entries = engine.iter_entries();
    let mut n = 0;
    while let Some((c, ns, k, v)) = entries.next() {
        assert!(!c.is_empty() && !ns.is_empty() && !k.is_empty() && !v.is_empty());
        n += 1;
    }
    assert_eq!(n, 3);
    let mut meteors = engine.meteors();
    let mut m = 0;
    while let Some(_) = meteors.next() {
        m += 1;
    }
    assert_eq!(m, 2);
}

#[test]
fn engine_export_then_import() {
    let mut engine = MeteorEngine::new();
    engine.set("doc:guide:section[intro]", "Welcome").unwrap();
    engine.set("doc:guide:section[body]", "Content").unwrap();
    let export = engine.export_namespace("doc", "guide", ExportFormat::Text).unwrap();
    assert_eq!(export.tokens.len(), 2);
    assert!(!export.metadata.checksum.is_empty());

    let mut engine = MeteorEngine::new();
    engine.set("doc:guide:section[intro]", "Welcome").unwrap();
    let export = engine.export_namespace("doc", "guide", ExportFormat::Text).unwrap();
    let mut engine2 = MeteorEngine::new();
    let result = engine2.import_namespace(export).unwrap();
    assert!(result.success);
    assert_eq!(result.tokens_added, 1);
    assert!(result.checksum_valid);
    assert_eq!(engine2.get("doc:guide:section[intro]"), Some("Welcome"));
}

#[test]
fn engine_scratch_slot_guard() {
    let mut engine = MeteorEngine::new();
    let slot = engine.scratch_slot("temp_vars");
    slot.set(&mut engine, "user_id", "12345");
    slot.set(&mut engine, "session", "abc123");
    assert_eq!(slot.get(&engine, "user_id"), Some("12345"));
    assert!(engine.has_scratch_slot("temp_vars"));
    slot.release(&mut engine);
    assert!(!engine.has_scratch_slot("temp_vars"));
}

#[test]
fn engine_find_and_paths() {
    let mut engine = MeteorEngine::new();
    engine.set("app:ui:button", "click").unwrap();
    engine.set("app:ui:theme", "dark").unwrap();
    engine.set("user:main:name", "bob").unwrap();
    let found = engine.find("app:ui:*");
    assert_eq!(found.len(), 2);
    assert!(engine.is_file("app:ui:button"));
    assert!(engine.is_directory("app:ui"));
    assert_eq!(engine.contexts().len(), 2);
    assert_eq!(engine.namespaces_in_context("app"), vec!["ui".to_string()]);
}

#[test]
fn engine_default_values() {
    let mut engine = MeteorEngine::new();
    engine.set("app:ui:index", "home").unwrap();
    assert!(engine.has_default("app:ui"));
    assert_eq!(engine.get_default("app:ui"), Some("home"));
}

#[test]
fn import_result_displays_counts_and_diff() {
    let mut result = meteor::export::ImportResult::new();
    result.success = true;
    result.tokens_added = 1;
    result.tokens_unchanged = 2;
    result.diff.push(meteor::export::ImportDiff::Added {
        key: "a".to_string(),
        value: "1".to_string(),
    });
    assert_eq!(
        result.to_string(),
        "Import Result:\n  Success: true\n  Checksum Valid: false\n  Added: 1\n  Updated: 0\n  Unchanged: 2\n  Total Changes: 1\n\nDiff:\n  + a: 1\n"
    );
    let empty = meteor::export::ImportResult::new();
    assert!(empty.to_string().ends_with("  Total Changes: 0\n"));
}

#[test]
fn export_text_reads_back_and_import_counts() {
    let mut engine = MeteorEngine::new();
    engine.set("app:ui:a", "1").unwrap();
    engine.set("app:ui:b", "two words").unwrap();
    let data = engine.export_namespace("app", "ui", ExportFormat::Text).unwrap();
    let back = meteor::export::ExportData::from_text(&data.to_text()).unwrap();
    assert_eq!(back.context, data.context);
    assert_eq!(back.namespace, data.namespace);
    assert_eq!(back.tokens, data.tokens);
    assert_eq!(back.metadata.checksum, data.metadata.checksum);
    assert_eq!(back.metadata.timestamp, data.metadata.timestamp);

    let mut target = MeteorEngine::new();
    target.set("app:ui:a", "1").unwrap();
    target.set("app:ui:b", "old").unwrap();
    let mut more = back;
    more.tokens.push(("c".to_string(), "3".to_string()));
    let result = target.import_namespace(more).unwrap();
    assert_eq!(result.tokens_unchanged, 1);
    assert_eq!(result.tokens_updated, 1);
    assert_eq!(result.tokens_added, 1);
    assert_eq!(result.diff.len(), 3);
    assert_eq!(target.get("app:ui:b"), Some("two words"));
    assert_eq!(target.get("app:ui:c"), Some("3"));
}

#[test]
fn entries_come_once_in_order_with_stored_values() {
    let mut engine = MeteorEngine::new();
    engine.set("user:main:name", "bob").unwrap();
    engine.set("app:ui:theme", "dark").unwrap();
    engine.set("app:ui:button", "click").unwrap();
    engine.set("app:ui:button", "press").unwrap();
    let mut entries = engine.iter_entries();
    let mut seen: Vec<(String, String, String, String)> = Vec::new();
    while let Some((c, ns, k, v)) = entries.next() {
        seen.push((c.to_string(), ns.to_string(), k.to_string(), v.to_string()));
    }
    let expected = vec![
        ("app".to_string(), "ui".to_string(), "theme".to_string(), "dark".to_string()),
        ("app".to_string(), "ui".to_string(), "button".to_string(), "press".to_string()),
        ("user".to_string(), "main".to_string(), "name".to_string(), "bob".to_string()),
    ];
    assert_eq!(seen, expected);
}

#[test]
fn export_checksum_is_eleven_base64_digits() {
    let mut engine = MeteorEngine::new();
    engine.set("doc:guide:intro", "Welcome").unwrap();
    let export = engine.export_namespace("doc", "guide", ExportFormat::Text).unwrap();
    let digits = "ABCDEFGHIJKLMNOPQRSTUVWXYZabcdefghijklmnopqrstuvwxyz0123456789+/";
    let sum = export.metadata.checksum.clone();
    assert_eq!(sum.chars().count(), 11);
    assert!(sum.chars().all(|ch| digits.contains(ch)));
    let last = sum.chars().last().unwrap();
    let value = digits.find(last).unwrap();
    assert_eq!(value % 4, 0);
}

#[test]
fn find_lists_sorted_paths_of_matching_keys() {
    let mut engine = MeteorEngine::new();
    engine.set("app:ui:zeta", "1").unwrap();
    engine.set("app:ui:alphabet", "2").unwrap();
    engine.set("app:ui:alpha", "3").unwrap();
    engine.set("app:ui:beta", "4").unwrap();
    engine.set("other:ui:alpha", "5").unwrap();
    let found = engine.find("app:ui:al*");
    assert_eq!(found, vec!["app:ui:alpha".to_string(), "app:ui:alphabet".to_string()]);
    let all = engine.find("app:ui:*");
    assert_eq!(
        all,
        vec![
            "app:ui:alpha".to_string(),
            "app:ui:alphabet".to_string(),
            "app:ui:beta".to_string(),
            "app:ui:zeta".to_string()
        ]
    );
}

#[test]
fn json_without_context_is_refused_before_the_tokens_array() {
    match ExportData::from_json("{ \"tokens\": ] [ }") {
        Err(e) => assert_eq!(e, "Missing field: context"),
        Ok(_) => panic!("accepted"),
    }
}
