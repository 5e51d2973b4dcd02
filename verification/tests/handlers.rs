//! Tests for the encryption pipeline and the endpoint decisions.

use nitro_enc_svc::cache::SchemaCache;
use nitro_enc_svc::cipher::KEY_LEN;
use nitro_enc_svc::dek::DekStore;
use nitro_enc_svc::pipeline::{
    encrypt_pii_fields, error_response, health_status, not_found, parse_path, process_encrypt,
    JsonValue, PathSegment, SchemaHeader,
};
use nitro_enc_svc::schema::{Document, PiiFieldPaths};

fn get_member<'a>(v: &'a JsonValue, key: &str) -> &'a JsonValue {
    match v {
        JsonValue::Object(entries) => {
            for (name, member) in entries {
                if name == key {
                    return member;
                }
            }
            panic!("no member named {key}");
        }
        _ => panic!("not an object"),
    }
}

fn as_str(v: &JsonValue) -> &str {
    match v {
        JsonValue::String(s) => s.as_str(),
        _ => panic!("not a string"),
    }
}

#[test]
fn parse_path_flat() {
    let segs = parse_path("ssn");
    assert!(matches!(segs[0], PathSegment::Key(ref k) if k == "ssn"));
    assert_eq!(segs.len(), 1);
}

#[test]
fn parse_path_nested() {
    let segs = parse_path("user.address.zip");
    assert_eq!(segs.len(), 3);
}

#[test]
fn parse_path_array() {
    let segs = parse_path("orders[].card_number");
    assert_eq!(segs.len(), 3);
    assert!(matches!(segs[1], PathSegment::ArrayItem));
}

#[test]
fn encrypt_flat_field() {
    let dek = vec![0x42u8; KEY_LEN];
    let mut val = JsonValue::Object(vec![
        ("ssn".to_string(), JsonValue::String("123-45-6789".to_string())),
        ("name".to_string(), JsonValue::String("Alice".to_string())),
    ]);
    let mut paths = PiiFieldPaths::new();
    paths.insert("ssn".into());
    encrypt_pii_fields(&mut val, &paths, &dek).unwrap();
    let ssn = as_str(get_member(&val, "ssn"));
    assert!(ssn.starts_with("v1."), "expected v1. prefix, got: {ssn}");
    assert_eq!(as_str(get_member(&val, "name")), "Alice");
}

#[test]
fn encrypt_nested_field() {
    let dek = vec![0x42u8; KEY_LEN];
    let mut val = JsonValue::Object(vec![(
        "user".to_string(),
        JsonValue::Object(vec![(
            "address".to_string(),
            JsonValue::Object(vec![(
                "zip".to_string(),
                JsonValue::String("90210".to_string()),
            )]),
        )]),
    )]);
    let mut paths = PiiFieldPaths::new();
    paths.insert("user.address.zip".into());
    encrypt_pii_fields(&mut val, &paths, &dek).unwrap();
    let zip = as_str(get_member(get_member(get_member(&val, "user"), "address"), "zip"));
    assert!(zip.starts_with("v1."));
}

#[test]
fn encrypt_array_field() {
    let dek = vec![0x42u8; KEY_LEN];
    let mut val = JsonValue::Object(vec![(
        "orders".to_string(),
        JsonValue::Array(vec![
            JsonValue::Object(vec![(
                "card_number".to_string(),
                JsonValue::String("4111111111111111".to_string()),
            )]),
            JsonValue::Object(vec![(
                "card_number".to_string(),
                JsonValue::String("5500000000000004".to_string()),
            )]),
        ]),
    )]);
    let mut paths = PiiFieldPaths::new();
    paths.insert("orders[].card_number".into());
    encrypt_pii_fields(&mut val, &paths, &dek).unwrap();
    match get_member(&val, "orders") {
        JsonValue::Array(orders) => {
            for order in orders {
                let cn = as_str(get_member(order, "card_number"));
                assert!(cn.starts_with("v1."), "expected encrypted, got: {cn}");
            }
        }
        _ => panic!("orders is not an array"),
    }
}

#[test]
fn missing_field_is_noop() {
    let dek = vec![0x42u8; KEY_LEN];
    let mut val = JsonValue::Object(vec![(
        "name".to_string(),
        JsonValue::String("Bob".to_string()),
    )]);
    let mut paths = PiiFieldPaths::new();
    paths.insert("ssn".into());
    encrypt_pii_fields(&mut val, &paths, &dek).unwrap();
    // no panic, "name" untouched
    assert_eq!(as_str(get_member(&val, "name")), "Bob");
}

#[test]
fn encrypt_array_of_pii_strings() {
    let dek = vec![0x42u8; KEY_LEN];
    let mut val = JsonValue::Object(vec![
        (
            "AddressLine".to_string(),
            JsonValue::Array(vec![
                JsonValue::String("1 Main St".to_string()),
                JsonValue::String("Apt 5".to_string()),
            ]),
        ),
        ("Country".to_string(), JsonValue::String("US".to_string())),
    ]);
    let mut paths = PiiFieldPaths::new();
    paths.insert("AddressLine[]".into());
    encrypt_pii_fields(&mut val, &paths, &dek).unwrap();
    match get_member(&val, "AddressLine") {
        JsonValue::Array(lines) => {
            for line in lines {
                assert!(as_str(line).starts_with("v1."));
            }
        }
        _ => panic!("AddressLine is not an array"),
    }
    assert_eq!(as_str(get_member(&val, "Country")), "US");
}

#[test]
fn non_string_leaves_left_untouched() {
    let dek = vec![0x42u8; KEY_LEN];
    let mut val = JsonValue::Object(vec![
        ("age".to_string(), JsonValue::Number("42".to_string())),
        ("active".to_string(), JsonValue::Bool(true)),
        ("note".to_string(), JsonValue::Null),
    ]);
    let mut paths = PiiFieldPaths::new();
    paths.insert("age".into());
    paths.insert("active".into());
    paths.insert("note".into());
    encrypt_pii_fields(&mut val, &paths, &dek).unwrap();
    assert_eq!(get_member(&val, "age"), &JsonValue::Number("42".to_string()));
    assert_eq!(get_member(&val, "active"), &JsonValue::Bool(true));
    assert_eq!(get_member(&val, "note"), &JsonValue::Null);
}

#[test]
fn missing_schema_header_is_bad_request() {
    let cache = SchemaCache::new();
    let store = DekStore::new();
    let r = process_encrypt(
        "X-Schema-Name",
        SchemaHeader::Missing,
        &cache,
        &store,
        JsonValue::Null,
    );
    let e = r.err().unwrap();
    assert_eq!(e.http_status(), 400);
    let (status, body) = error_response(&e);
    assert_eq!(status, 400);
    assert_eq!(body.code, "bad_request");
    assert!(body.message.contains("X-Schema-Name"));
}

#[test]
fn unknown_schema_is_bad_request() {
    let cache = SchemaCache::new();
    let mut store = DekStore::new();
    store.store(&[0x42u8; KEY_LEN]).unwrap();
    let r = process_encrypt(
        "X-Schema-Name",
        SchemaHeader::Value("payments-v1".to_string()),
        &cache,
        &store,
        JsonValue::Null,
    );
    let e = r.err().unwrap();
    assert_eq!(e.http_status(), 400);
    let (_, body) = error_response(&e);
    assert_eq!(body.code, "bad_request");
    assert!(body.message.contains("payments-v1"));
}

#[test]
fn dek_not_ready_is_service_unavailable() {
    let mut cache = SchemaCache::new();
    cache.replace_all(vec![("payments-v1".to_string(), Document { schemas: Vec::new() })]);
    let store = DekStore::new();
    let r = process_encrypt(
        "X-Schema-Name",
        SchemaHeader::Value("payments-v1".to_string()),
        &cache,
        &store,
        JsonValue::Null,
    );
    let e = r.err().unwrap();
    assert_eq!(e.http_status(), 503);
    let (status, body) = error_response(&e);
    assert_eq!(status, 503);
    assert_eq!(body.code, "service_unavailable");
}

#[test]
fn non_ascii_header_is_bad_request() {
    let cache = SchemaCache::new();
    let store = DekStore::new();
    let r = process_encrypt(
        "X-Schema-Name",
        SchemaHeader::NonAscii,
        &cache,
        &store,
        JsonValue::Null,
    );
    let e = r.err().unwrap();
    assert_eq!(e.http_status(), 400);
    let (_, body) = error_response(&e);
    assert_eq!(body.code, "bad_request");
    assert!(body.message.contains("non-ASCII"));
}

#[test]
fn no_matching_path_returns_payload_unchanged() {
    let mut cache = SchemaCache::new();
    cache.replace_all(vec![("payments-v1".to_string(), Document { schemas: Vec::new() })]);
    let mut store = DekStore::new();
    store.store(&[0x42u8; KEY_LEN]).unwrap();
    let payload = JsonValue::Object(vec![(
        "name".to_string(),
        JsonValue::String("Bob".to_string()),
    )]);
    let out = process_encrypt(
        "X-Schema-Name",
        SchemaHeader::Value("payments-v1".to_string()),
        &cache,
        &store,
        payload,
    )
    .unwrap();
    let expected = JsonValue::Object(vec![(
        "name".to_string(),
        JsonValue::String("Bob".to_string()),
    )]);
    assert_eq!(out, expected);
}

#[test]
fn health_degraded_without_schemas() {
    let (status, body) = health_status(false, 0);
    assert_eq!(status, 503);
    assert_eq!(body.status, "degraded");
    assert_eq!(body.schemas_loaded, 0);
    assert!(!body.dek_ready);
}

#[test]
fn health_ok_when_ready() {
    let (status, body) = health_status(true, 3);
    assert_eq!(status, 200);
    assert_eq!(body.status, "ok");
    assert!(body.dek_ready);
    assert_eq!(body.schemas_loaded, 3);
}

#[test]
fn not_found_body() {
    let (status, body) = not_found();
    assert_eq!(status, 404);
    assert_eq!(body.code, "not_found");
}
