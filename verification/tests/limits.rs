use meteor::config::{
    MAX_COMMAND_HISTORY, MAX_CONTEXTS, MAX_METEORS_PER_SHOWER, MAX_TOKEN_KEY_LENGTH, MAX_TOKEN_VALUE_LENGTH,
};
use meteor::context::Context;
use meteor::engine::MeteorEngine;
use meteor::meteor::Meteor;
use meteor::namespace::Namespace;
use meteor::shower::MeteorShower;
use meteor::storage::StorageData;
use meteor::token::Token;

#[test]
fn command_history_keeps_the_latest_entries() {
    let mut engine = MeteorEngine::new();
    for _ in 0..MAX_COMMAND_HISTORY {
        engine.execute_control_command("reset", "cursor").unwrap();
    }
    let _ = engine.execute_control_command("reset", "bogus");
    let history = engine.command_history();
    assert_eq!(history.len(), MAX_COMMAND_HISTORY);
    assert_eq!(history[history.len() - 1].target, "bogus");
}

#[test]
fn contexts_stay_within_their_maximum() {
    let mut engine = MeteorEngine::new();
    for i in 0..MAX_CONTEXTS {
        engine.set(&format!("c{}:main:k", i), "v").unwrap();
    }
    assert_eq!(
        engine.set("extra:main:k", "v"),
        Err("Cannot create more than 100 contexts".to_string())
    );
    assert_eq!(engine.get("extra:main:k"), None);
    assert_eq!(engine.contexts().len(), MAX_CONTEXTS);
    engine.set("c0:main:other", "w").unwrap();
    assert_eq!(engine.get("c0:main:other"), Some("w"));

    let mut storage = StorageData::new();
    for i in 0..MAX_CONTEXTS + 1 {
        storage.set(&format!("c{}", i), "main", "k", "v");
    }
    assert_eq!(storage.contexts().len(), MAX_CONTEXTS);
}

#[test]
fn shower_stays_within_its_maximum() {
    let mut shower = MeteorShower::new();
    for i in 0..MAX_METEORS_PER_SHOWER + 1 {
        let token = Token::new(&format!("k{}", i), "v");
        shower.add(Meteor::new(Context::new("app"), Namespace::from_string("ui"), token));
    }
    assert_eq!(shower.len(), MAX_METEORS_PER_SHOWER);
}

#[test]
fn token_keys_and_values_stay_within_their_lengths() {
    let mut engine = MeteorEngine::new();
    let long_key = "k".repeat(MAX_TOKEN_KEY_LENGTH + 1);
    let key = "k".repeat(MAX_TOKEN_KEY_LENGTH);
    let long_value = "v".repeat(MAX_TOKEN_VALUE_LENGTH + 1);
    let value = "v".repeat(MAX_TOKEN_VALUE_LENGTH);
    assert_eq!(
        engine.set(&format!("app:main:{}", long_key), "v"),
        Err("Token key exceeds 128 characters".to_string())
    );
    assert_eq!(
        engine.set("app:main:k", &long_value),
        Err("Token value exceeds 2048 characters".to_string())
    );
    assert_eq!(engine.get("app:main:k"), None);
    assert!(engine.contexts().is_empty());
    engine.set(&format!("app:main:{}", key), &value).unwrap();
    assert_eq!(engine.get(&format!("app:main:{}", key)), Some(value.as_str()));

    engine.store_token(&long_key, "v");
    assert_eq!(engine.get(&format!("app:main:{}", long_key)), None);
    engine.store_token("short", &long_value);
    assert_eq!(engine.get("app:main:short"), None);

    let mut storage = StorageData::new();
    storage.set("app", "main", &long_key, "v");
    storage.set("app", "main", "k", &long_value);
    assert!(storage.contexts().is_empty());
    storage.set("app", "main", "k", "v");
    assert_eq!(storage.contexts().len(), 1);
}
