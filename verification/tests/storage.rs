use meteor::storage::{StorageData, TreeNode};

#[test]
fn storage_set_get_delete() {
    let mut s = StorageData::new();
    s.set("app", "ui.widgets", "button", "click");
    assert_eq!(s.get("app", "ui.widgets", "button"), Some("click"));
    assert_eq!(s.get("app", "ui", "button"), None);
    assert!(s.is_file("app", "ui.widgets", "button"));
    assert!(s.is_directory("app", "ui.widgets", ""));
    assert!(s.namespace_exists("app", "ui.widgets"));
    assert!(s.delete_key("app", "ui.widgets", "button"));
    assert_eq!(s.get("app", "ui.widgets", "button"), None);
    assert!(!s.delete_key("app", "ui.widgets", "button"));
}

#[test]
fn storage_contexts_are_isolated() {
    let mut s = StorageData::new();
    s.set("app", "main", "k", "a");
    s.set("user", "main", "k", "u");
    assert_eq!(s.get("app", "main", "k"), Some("a"));
    assert_eq!(s.get("user", "main", "k"), Some("u"));
    assert!(s.delete_context("user"));
    assert_eq!(s.get("app", "main", "k"), Some("a"));
    assert_eq!(s.contexts(), vec!["app".to_string()]);
}

#[test]
fn storage_find_keys_sorted() {
    let mut s = StorageData::new();
    s.set("app", "ui", "b", "2");
    s.set("app", "ui", "a", "1");
    s.set("app", "ui", "c", "3");
    assert_eq!(s.find_keys("app", "ui", "*"), vec!["a".to_string(), "b".to_string(), "c".to_string()]);
    assert!(s.delete_namespace("app", "ui"));
    assert!(s.find_keys("app", "ui", "*").is_empty());
}

#[test]
fn tree_node_kinds() {
    assert!(TreeNode::new_directory().is_directory());
    let f = TreeNode::new_file("ui:button");
    assert!(f.is_file());
    assert_eq!(f.canonical_key(), Some("ui:button"));
}

#[test]
fn storage_flat_stream_lists_each_value() {
    let mut storage = StorageData::new();
    storage.set("user", "main", "theme", "dark");
    storage.set("app", "ui", "button", "click");
    storage.set("app", "ui", "alpha", "1");
    assert_eq!(
        storage.to_string(),
        "app:ui:alpha=1; app:ui:button=click; user:main:theme=dark"
    );
    assert_eq!(StorageData::new().to_string(), "");
}
