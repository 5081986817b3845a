use meteor::workspace::EngineWorkspace;

#[test]
fn test_workspace_creation() {
    let workspace = EngineWorkspace::new();
    assert_eq!(workspace.namespace_count(), 0);
    assert_eq!(workspace.scratch_slot_count(), 0);
}

#[test]
fn test_namespace_workspace_lifecycle() {
    let mut workspace = EngineWorkspace::new();
    workspace.get_or_create_namespace("app", "main");
    workspace.add_key("app", "main", "button");
    workspace.add_key("app", "main", "theme");
    let ns = workspace.get_namespace("app", "main").unwrap();
    assert_eq!(ns.key_order().len(), 2);
    assert!(ns.key_order().contains(&"button".to_string()));
    assert!(ns.key_order().contains(&"theme".to_string()));
    workspace.remove_key("app", "main", "button");
    let ns = workspace.get_namespace("app", "main").unwrap();
    assert_eq!(ns.key_order().len(), 1);
    assert!(!ns.key_order().contains(&"button".to_string()));
}

#[test]
fn test_namespace_cache_invalidation() {
    let mut workspace = EngineWorkspace::new();
    workspace.get_or_create_namespace("app", "ui");
    workspace.cache_query("app", "ui", "pattern1", vec!["key1".to_string()]);
    assert_eq!(workspace.get_namespace("app", "ui").unwrap().cached_query_count(), 1);
    workspace.invalidate_namespace("app", "ui");
    let ns = workspace.get_namespace("app", "ui").unwrap();
    assert_eq!(ns.cached_query_count(), 0);
}

#[test]
fn test_context_invalidation() {
    let mut workspace = EngineWorkspace::new();
    workspace.cache_query("app", "main", "q1", vec![]);
    workspace.cache_query("app", "ui", "q2", vec![]);
    workspace.cache_query("user", "settings", "q3", vec![]);
    workspace.invalidate_context("app");
    assert_eq!(workspace.get_namespace("app", "main").unwrap().cached_query_count(), 0);
    assert_eq!(workspace.get_namespace("app", "ui").unwrap().cached_query_count(), 0);
    assert_eq!(workspace.get_namespace("user", "settings").unwrap().cached_query_count(), 1);
}

#[test]
fn test_scratch_slot_reservation() {
    let mut workspace = EngineWorkspace::new();
    workspace.reserve_scratch_slot("temp1");
    workspace.set_scratch("temp1", "key1", "value1");
    assert_eq!(workspace.scratch_slot_count(), 1);
    assert_eq!(workspace.get_scratch_slot("temp1").unwrap().get("key1").unwrap(), "value1");
    workspace.reserve_scratch_slot("temp1");
    assert_eq!(workspace.scratch_slot_count(), 1);
}

#[test]
fn test_scratch_slot_operations() {
    let mut workspace = EngineWorkspace::new();
    workspace.reserve_scratch_slot("repl_scratch");
    workspace.set_scratch("repl_scratch", "var1", "hello");
    workspace.set_scratch("repl_scratch", "var2", "world");
    let slot = workspace.get_scratch_slot("repl_scratch").unwrap();
    assert_eq!(slot.size(), 2);
    assert_eq!(slot.get("var1").unwrap(), "hello");
    workspace.clear_scratch_slot("repl_scratch");
    let slot = workspace.get_scratch_slot("repl_scratch").unwrap();
    assert_eq!(slot.size(), 0);
    assert!(slot.get("var1").is_none());
}

#[test]
fn test_scratch_slot_removal() {
    let mut workspace = EngineWorkspace::new();
    workspace.reserve_scratch_slot("slot1");
    workspace.reserve_scratch_slot("slot2");
    assert_eq!(workspace.scratch_slot_count(), 2);
    assert!(workspace.remove_scratch_slot("slot1"));
    assert_eq!(workspace.scratch_slot_count(), 1);
    assert!(!workspace.remove_scratch_slot("nonexistent"));
    workspace.clear_all_scratch();
    assert_eq!(workspace.scratch_slot_count(), 0);
}

#[test]
fn test_namespace_removal() {
    let mut workspace = EngineWorkspace::new();
    workspace.get_or_create_namespace("app", "main");
    workspace.get_or_create_namespace("app", "ui");
    workspace.get_or_create_namespace("user", "profile");
    workspace.remove_namespace("app", "main");
    assert!(workspace.get_namespace("app", "main").is_none());
    assert!(workspace.get_namespace("app", "ui").is_some());
}

#[test]
fn test_context_removal() {
    let mut workspace = EngineWorkspace::new();
    workspace.get_or_create_namespace("app", "main");
    workspace.get_or_create_namespace("app", "ui");
    workspace.get_or_create_namespace("user", "profile");
    workspace.remove_context("app");
    assert!(workspace.get_namespace("app", "main").is_none());
    assert!(workspace.get_namespace("app", "ui").is_none());
    assert!(workspace.get_namespace("user", "profile").is_some());
}

#[test]
fn test_workspace_clear() {
    let mut workspace = EngineWorkspace::new();
    workspace.add_key("app", "main", "key1");
    workspace.add_key("app", "ui", "key2");
    workspace.reserve_scratch_slot("scratch1");
    assert_eq!(workspace.namespace_count(), 2);
    assert_eq!(workspace.scratch_slot_count(), 1);
    workspace.clear();
    assert_eq!(workspace.namespace_count(), 0);
    assert_eq!(workspace.scratch_slot_count(), 0);
    assert!(workspace.get_namespace("app", "main").is_none());
}

#[test]
fn test_workspace_status_debug_only() {
    let mut workspace = EngineWorkspace::new();
    workspace.add_key("app", "main", "key1");
    workspace.cache_query("app", "ui", "q1", vec![]);
    workspace.reserve_scratch_slot("scratch1");
    let status = workspace.workspace_status();
    assert_eq!(status.namespace_count, 2);
    assert_eq!(status.scratch_slot_count, 1);
    assert_eq!(status.total_cached_queries, 1);
    assert_eq!(status.total_ordered_keys, 1);
}

#[test]
fn scratch_slots_are_isolated() {
    let mut workspace = EngineWorkspace::new();
    workspace.reserve_scratch_slot("a");
    workspace.reserve_scratch_slot("b");
    workspace.set_scratch("b", "k", "kept");
    workspace.set_scratch("a", "k", "written");
    assert_eq!(workspace.get_scratch_slot("a").unwrap().get("k"), Some("written"));
    assert_eq!(workspace.get_scratch_slot("b").unwrap().get("k"), Some("kept"));
    assert_eq!(workspace.get_scratch_slot("b").unwrap().size(), 1);
}

#[test]
fn workspace_status_adds_up_caches_and_key_orders() {
    let mut workspace = EngineWorkspace::new();
    workspace.add_key("app", "main", "key1");
    workspace.get_or_create_namespace("app", "ui");
    workspace.cache_query("app", "ui", "q1", vec![]);
    workspace.reserve_scratch_slot("scratch1");
    let status = workspace.workspace_status();
    assert_eq!(status.namespace_count, 2);
    assert_eq!(status.scratch_slot_count, 1);
    assert_eq!(status.total_cached_queries, 1);
    assert_eq!(status.total_ordered_keys, 1);
}

#[test]
fn engine_workspace_status_counts_keys() {
    let mut engine = meteor::engine::MeteorEngine::new();
    engine.set("app:ui:button", "click").unwrap();
    engine.set("app:ui:theme", "dark").unwrap();
    let status = engine.workspace_status();
    assert_eq!(status.namespace_count, 1);
    assert_eq!(status.total_ordered_keys, 2);
    assert_eq!(status.total_cached_queries, 0);
    assert_eq!(status.scratch_slot_count, 0);
}
