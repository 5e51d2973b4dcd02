//! Tests for the schema cache.

use nitro_enc_svc::cache::SchemaCache;
use nitro_enc_svc::schema::Document;

fn make_empty_api() -> Document {
    Document { schemas: Vec::new() }
}

#[test]
fn initially_empty() {
    let cache = SchemaCache::new();
    assert!(cache.is_empty());
    assert_eq!(cache.len(), 0);
}

#[test]
fn unknown_schema_returns_error() {
    let cache = SchemaCache::new();
    assert!(cache.get("nonexistent").is_err());
}

#[test]
fn replace_all_and_get() {
    let mut cache = SchemaCache::new();
    let map = vec![("payments-v1".to_string(), make_empty_api())];
    cache.replace_all(map);
    assert_eq!(cache.len(), 1);
    assert!(cache.get("payments-v1").is_ok());
    assert!(cache.get("other").is_err());
}

#[test]
fn replace_all_is_atomic() {
    let mut cache = SchemaCache::new();
    let map1 = vec![("schema-a".to_string(), make_empty_api())];
    cache.replace_all(map1);

    let map2 = vec![("schema-b".to_string(), make_empty_api())];
    cache.replace_all(map2);

    // Only schema-b should be present after the second replace.
    assert!(cache.get("schema-a").is_err());
    assert!(cache.get("schema-b").is_ok());
}

#[test]
fn later_duplicate_wins() {
    let mut cache = SchemaCache::new();
    let map = vec![
        ("dup".to_string(), make_empty_api()),
        ("dup".to_string(), make_empty_api()),
    ];
    cache.replace_all(map);
    assert_eq!(cache.len(), 1);
    assert!(cache.get("dup").is_ok());
}
