//! The resource cache: get, set, and the persisted document.

use dgg_chat::cache::JsonCache;
use dgg_chat::json::JsonValue;

#[test]
fn get_before_set_is_empty() {
    let mut cache = JsonCache::new();
    assert_eq!(cache.get("k".to_string()), None);
}

#[test]
fn set_then_get_returns_value() {
    let mut cache = JsonCache::new();
    let v = JsonValue::Arr(vec![JsonValue::Num("7".to_string()), JsonValue::Bool(true)]);
    assert_eq!(cache.set("k".to_string(), v.clone()), None);
    assert_eq!(cache.get("k".to_string()), Some(v));
}

#[test]
fn set_returns_previous_value() {
    let mut cache = JsonCache::new();
    cache.set("k".to_string(), JsonValue::Num("1".to_string()));
    let old = cache.set("k".to_string(), JsonValue::Num("2".to_string()));
    assert_eq!(old, Some(JsonValue::Num("1".to_string())));
    assert_eq!(cache.get("k".to_string()), Some(JsonValue::Num("2".to_string())));
}

#[test]
fn reload_reproduces_the_document() {
    let mut cache = JsonCache::new();
    let v = JsonValue::Obj(vec![
        ("x".to_string(), JsonValue::Num("1".to_string())),
        ("y".to_string(), JsonValue::Str("two".to_string())),
    ]);
    cache.set("k".to_string(), v.clone());
    cache.set("other".to_string(), JsonValue::Null);
    let text = cache.save_text();
    // The persisted document is pretty-printed: one key per indented line.
    assert!(text.starts_with("{\n  \""));
    assert!(text.ends_with("\n}"));
    assert_eq!(text.matches("\n  \"").count(), 2);
    let mut reloaded = JsonCache::load_text(&text).unwrap();
    assert_eq!(reloaded.get("k".to_string()), Some(v));
    assert_eq!(reloaded.get("other".to_string()), Some(JsonValue::Null));
    assert_eq!(reloaded.get("missing".to_string()), None);
}

#[test]
fn corrupt_document_is_fatal() {
    assert!(JsonCache::load_text("{ not json").is_err());
    assert!(JsonCache::load_text("[1,2]").is_err());
}
