use meteor::bucket::TokenBucket;
use meteor::primary::Context;
use meteor::token::Token;

#[test]
fn bucket_test_bucket_basic_operations() {
    let mut bucket = TokenBucket::new();
    bucket.set("", "key", "value".to_string());
    assert_eq!(bucket.get("", "key"), Some("value"));
    bucket.set("ui", "button", "click".to_string());
    assert_eq!(bucket.get("ui", "button"), Some("click"));
    assert_eq!(bucket.get("ui", "missing"), None);
}

#[test]
fn bucket_test_bucket_context_isolation() {
    let mut bucket = TokenBucket::new();
    bucket.set("", "key", "app_value".to_string());
    bucket.switch_context(Context::user());
    assert_eq!(bucket.get("", "key"), None);
    bucket.set("", "key", "user_value".to_string());
    assert_eq!(bucket.get("", "key"), Some("user_value"));
    bucket.switch_context(Context::app());
    assert_eq!(bucket.get("", "key"), Some("app_value"));
}

#[test]
fn bucket_test_bucket_iteration() {
    let mut bucket = TokenBucket::new();
    bucket.set("", "key1", "value1".to_string());
    bucket.set("ui", "button", "click".to_string());
    bucket.set("ui", "label", "text".to_string());
    let tokens: Vec<_> = bucket.iter();
    assert_eq!(tokens.len(), 3);
}

#[test]
fn test_namespace_folding() {
    let tokens = vec![
        Token::new("item", "val1"),
        Token::new("ns", "ui"),
        Token::new("button", "click"),
        Token::new("theme", "dark"),
    ];
    let bucket = TokenBucket::from_tokens(&tokens);
    assert_eq!(bucket.get("main", "item"), Some("val1"));
    assert_eq!(bucket.get("ui", "button"), Some("click"));
    assert_eq!(bucket.get("ui", "theme"), Some("dark"));
    assert_eq!(bucket.get("main", "ns"), None);
    assert_eq!(bucket.get("ui", "ns"), None);
}

#[test]
fn bucket_test_context_switching() {
    let tokens = vec![Token::new("item", "val1"), Token::new("ctx", "user"), Token::new("profile", "admin")];
    let bucket = TokenBucket::from_tokens(&tokens);
    assert_eq!(bucket.context().name(), "user");
    assert_eq!(bucket.get("main", "profile"), Some("admin"));
    assert_eq!(bucket.get("main", "ctx"), None);
}

#[test]
fn bucket_listing_and_emptiness() {
    let mut bucket = TokenBucket::default();
    assert!(bucket.is_empty());
    bucket.set("ui", "a", "1".to_string());
    bucket.set("", "b", "2".to_string());
    bucket.set("ui", "c", "3".to_string());
    bucket.set("ui", "a", "4".to_string());
    assert_eq!(bucket.len(), 3);
    assert_eq!(bucket.get("ui", "a"), Some("4"));
    assert_eq!(bucket.namespaces(), vec!["ui".to_string(), "".to_string()]);
    assert_eq!(bucket.keys_in_namespace("ui"), vec!["a".to_string(), "c".to_string()]);
    bucket.switch_context(Context::system());
    assert_eq!(bucket.len(), 0);
    assert!(!bucket.is_empty());
}

#[test]
fn bucket_switch_back_after_sets_in_between() {
    let mut bucket = TokenBucket::new();
    bucket.set("ui", "button", "click".to_string());
    bucket.switch_context(Context::new("user"));
    bucket.set("main", "theme", "dark".to_string());
    bucket.set("main", "lang", "en".to_string());
    bucket.switch_context(Context::new("app"));
    assert_eq!(bucket.get("ui", "button"), Some("click"));
    assert_eq!(bucket.get("main", "theme"), None);
}

#[test]
fn bucket_switch_back_after_sets_restores_entries() {
    let mut bucket = TokenBucket::new();
    bucket.set("ui", "button", "click".to_string());
    bucket.switch_context(Context::new("user"));
    bucket.set("main", "name", "bob".to_string());
    bucket.switch_context(Context::new("app"));
    bucket.switch_context(Context::new("user"));
    assert_eq!(bucket.get("main", "name"), Some("bob"));
    bucket.switch_context(Context::new("app"));
    assert_eq!(bucket.get("ui", "button"), Some("click"));
    assert_eq!(bucket.get("main", "name"), None);
}
