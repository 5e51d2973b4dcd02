//! Tests for the PII path resolver, driven by OpenAPI documents in YAML.

use nitro_enc_svc::cache::SchemaCache;
use nitro_enc_svc::dek::DekStore;
use nitro_enc_svc::pipeline::{process_encrypt, JsonValue, SchemaHeader};
use nitro_enc_svc::schema::{
    resolve_pii_paths, Document, PiiFieldPaths, Schema, SchemaNode, SchemaRef,
};

fn convert_schema(s: &openapiv3::Schema) -> Schema {
    let pii = s
        .schema_data
        .extensions
        .get("x-pii")
        .and_then(|v| v.as_bool())
        .unwrap_or(false);
    let node = match &s.schema_kind {
        openapiv3::SchemaKind::Type(openapiv3::Type::Object(obj)) => {
            let mut props = Vec::new();
            for (name, prop) in &obj.properties {
                props.push((name.clone(), convert_boxed_ref(prop)));
            }
            SchemaNode::Object(props)
        }
        openapiv3::SchemaKind::Type(openapiv3::Type::Array(arr)) => {
            SchemaNode::Array(arr.items.as_ref().map(convert_boxed_ref))
        }
        _ => SchemaNode::Other,
    };
    Schema { pii, node }
}

fn convert_boxed_ref(r: &openapiv3::ReferenceOr<Box<openapiv3::Schema>>) -> SchemaRef {
    match r {
        openapiv3::ReferenceOr::Item(s) => SchemaRef::Inline(Box::new(convert_schema(s))),
        openapiv3::ReferenceOr::Reference { reference } => {
            SchemaRef::Reference(reference.clone())
        }
    }
}

fn to_document(api: &openapiv3::OpenAPI) -> Document {
    let mut schemas = Vec::new();
    if let Some(components) = &api.components {
        for (name, entry) in &components.schemas {
            let converted = match entry {
                openapiv3::ReferenceOr::Item(s) => {
                    SchemaRef::Inline(Box::new(convert_schema(s)))
                }
                openapiv3::ReferenceOr::Reference { reference } => {
                    SchemaRef::Reference(reference.clone())
                }
            };
            schemas.push((name.clone(), converted));
        }
    }
    Document { schemas }
}

fn parse_api(yaml: &str) -> Document {
    let api: openapiv3::OpenAPI = serde_yaml::from_str(yaml).expect("valid YAML");
    to_document(&api)
}

fn paths_debug(paths: &PiiFieldPaths) -> Vec<String> {
    let mut out = Vec::new();
    for i in 0..paths.count() {
        out.push(paths.get(i).clone());
    }
    out
}

#[test]
fn flat_pii_field_detected() {
    let yaml = r#"
openapi: "3.0.0"
info:
  title: test
  version: "1"
paths: {}
components:
  schemas:
    Person:
      type: object
      properties:
        name:
          type: string
        ssn:
          type: string
          x-pii: true
"#;
    let api = parse_api(yaml);
    let paths = resolve_pii_paths(&api);
    assert!(
        paths.contains("ssn"),
        "expected 'ssn' in {:?}",
        paths_debug(&paths)
    );
    assert!(
        !paths.contains("name"),
        "unexpected 'name' in {:?}",
        paths_debug(&paths)
    );
}

#[test]
fn nested_pii_field_detected() {
    let yaml = r#"
openapi: "3.0.0"
info:
  title: test
  version: "1"
paths: {}
components:
  schemas:
    User:
      type: object
      properties:
        address:
          type: object
          properties:
            zip:
              type: string
              x-pii: true
            city:
              type: string
"#;
    let api = parse_api(yaml);
    let paths = resolve_pii_paths(&api);
    assert!(paths.contains("address.zip"), "{:?}", paths_debug(&paths));
    assert!(!paths.contains("address.city"), "{:?}", paths_debug(&paths));
}

#[test]
fn no_components_returns_empty() {
    let yaml = r#"
openapi: "3.0.0"
info:
  title: test
  version: "1"
paths: {}
"#;
    let api = parse_api(yaml);
    let paths = resolve_pii_paths(&api);
    assert!(paths.is_empty());
}

#[test]
fn ref_property_pii_paths_resolved() {
    let yaml = r#"
openapi: "3.0.0"
info:
  title: test
  version: "1"
paths: {}
components:
  schemas:
    Address:
      type: object
      properties:
        street:
          type: string
          x-pii: true
        country:
          type: string
    Payment:
      type: object
      properties:
        amount:
          type: number
        creditorAddress:
          $ref: '#/components/schemas/Address'
"#;
    let api = parse_api(yaml);
    let paths = resolve_pii_paths(&api);
    assert!(
        paths.contains("creditorAddress.street"),
        "{:?}",
        paths_debug(&paths)
    );
    assert!(
        !paths.contains("creditorAddress.country"),
        "{:?}",
        paths_debug(&paths)
    );
    assert!(!paths.contains("amount"), "{:?}", paths_debug(&paths));
}

#[test]
fn array_of_pii_strings_emits_array_path() {
    let yaml = r#"
openapi: "3.0.0"
info:
  title: test
  version: "1"
paths: {}
components:
  schemas:
    Addr:
      type: object
      properties:
        AddressLine:
          type: array
          items:
            type: string
            x-pii: true
        Country:
          type: string
"#;
    let api = parse_api(yaml);
    let paths = resolve_pii_paths(&api);
    assert!(paths.contains("AddressLine[]"), "{:?}", paths_debug(&paths));
    assert!(!paths.contains("Country"), "{:?}", paths_debug(&paths));
    // The bare property name without [] must not appear.
    assert!(!paths.contains("AddressLine"), "{:?}", paths_debug(&paths));
}

#[test]
fn array_of_ref_objects_pii_resolved() {
    let yaml = r#"
openapi: "3.0.0"
info:
  title: test
  version: "1"
paths: {}
components:
  schemas:
    Account:
      type: object
      properties:
        Identification:
          type: string
          x-pii: true
        Currency:
          type: string
    Payment:
      type: object
      properties:
        accounts:
          type: array
          items:
            $ref: '#/components/schemas/Account'
"#;
    let api = parse_api(yaml);
    let paths = resolve_pii_paths(&api);
    assert!(
        paths.contains("accounts[].Identification"),
        "{:?}",
        paths_debug(&paths)
    );
    assert!(
        !paths.contains("accounts[].Currency"),
        "{:?}",
        paths_debug(&paths)
    );
}

#[test]
fn double_nested_array_paths() {
    let yaml = r#"
openapi: "3.0.0"
info:
  title: test
  version: "1"
paths: {}
components:
  schemas:
    DocRef:
      type: object
      properties:
        Number:
          type: string
          x-pii: true
    Remittance:
      type: object
      properties:
        Structured:
          type: array
          items:
            type: object
            properties:
              ReferredDocumentInformation:
                type: array
                items:
                  $ref: '#/components/schemas/DocRef'
"#;
    let api = parse_api(yaml);
    let paths = resolve_pii_paths(&api);
    assert!(
        paths.contains("Structured[].ReferredDocumentInformation[].Number"),
        "{:?}",
        paths_debug(&paths)
    );
}

#[test]
fn cyclic_refs_terminate() {
    let yaml = r#"
openapi: "3.0.0"
info:
  title: test
  version: "1"
paths: {}
components:
  schemas:
    Node:
      type: object
      properties:
        value:
          type: string
          x-pii: true
        next:
          $ref: '#/components/schemas/Node'
"#;
    let api = parse_api(yaml);
    let paths = resolve_pii_paths(&api);
    assert!(paths.contains("value"), "{:?}", paths_debug(&paths));
    assert!(paths.contains("next.value"), "{:?}", paths_debug(&paths));
    // The descent into a name already on the stack is skipped.
    assert!(
        !paths.contains("next.next.value"),
        "{:?}",
        paths_debug(&paths)
    );
}

#[test]
fn repeated_resolution_yields_equal_sets() {
    let yaml = r#"
openapi: "3.0.0"
info:
  title: test
  version: "1"
paths: {}
components:
  schemas:
    Person:
      type: object
      properties:
        ssn:
          type: string
          x-pii: true
        pets:
          type: array
          items:
            type: string
            x-pii: true
"#;
    let api = parse_api(yaml);
    let first = resolve_pii_paths(&api);
    let second = resolve_pii_paths(&api);
    assert_eq!(first.count(), second.count());
    for i in 0..first.count() {
        assert!(second.contains(first.get(i).as_str()));
    }
    for i in 0..second.count() {
        assert!(first.contains(second.get(i).as_str()));
    }
}

#[test]
fn chained_refs_are_skipped() {
    let yaml = r#"
openapi: "3.0.0"
info:
  title: test
  version: "1"
paths: {}
components:
  schemas:
    Alias:
      $ref: '#/components/schemas/Real'
    Real:
      type: object
      properties:
        secret:
          type: string
          x-pii: true
    Holder:
      type: object
      properties:
        via:
          $ref: '#/components/schemas/Alias'
"#;
    let api = parse_api(yaml);
    let paths = resolve_pii_paths(&api);
    // The direct walk of Real still finds its field.
    assert!(paths.contains("secret"), "{:?}", paths_debug(&paths));
    // A reference that resolves to another reference is not followed.
    assert!(!paths.contains("via.secret"), "{:?}", paths_debug(&paths));
}

#[test]
fn resolved_schema_drives_the_pipeline_end_to_end() {
    let yaml = r#"
openapi: "3.0.0"
info:
  title: test
  version: "1"
paths: {}
components:
  schemas:
    Account:
      type: object
      properties:
        Identification:
          type: string
          x-pii: true
        Currency:
          type: string
    Payment:
      type: object
      properties:
        accounts:
          type: array
          items:
            $ref: '#/components/schemas/Account'
"#;
    let doc = parse_api(yaml);
    let mut cache = SchemaCache::new();
    cache.replace_all(vec![("payments-v1".to_string(), doc)]);
    let mut store = DekStore::new();
    store.store(&[0x42u8; 32]).unwrap();

    let payload = JsonValue::Object(vec![(
        "accounts".to_string(),
        JsonValue::Array(vec![
            JsonValue::Object(vec![
                ("Identification".to_string(), JsonValue::String("ACC1".to_string())),
                ("Currency".to_string(), JsonValue::String("USD".to_string())),
            ]),
            JsonValue::Object(vec![
                ("Identification".to_string(), JsonValue::String("ACC2".to_string())),
                ("Currency".to_string(), JsonValue::String("EUR".to_string())),
            ]),
        ]),
    )]);
    let out = process_encrypt(
        "X-Schema-Name",
        SchemaHeader::Value("payments-v1".to_string()),
        &cache,
        &store,
        payload,
    )
    .unwrap();

    let accounts = match &out {
        JsonValue::Object(entries) => match &entries[0].1 {
            JsonValue::Array(items) => items,
            _ => panic!("accounts is not an array"),
        },
        _ => panic!("payload is not an object"),
    };
    let currencies = ["USD", "EUR"];
    for (i, account) in accounts.iter().enumerate() {
        match account {
            JsonValue::Object(members) => {
                for (name, member) in members {
                    match member {
                        JsonValue::String(text) => {
                            if name == "Identification" {
                                assert!(text.starts_with("v1."), "got: {text}");
                            } else {
                                assert_eq!(text, currencies[i]);
                            }
                        }
                        _ => panic!("unexpected member shape"),
                    }
                }
            }
            _ => panic!("account is not an object"),
        }
    }
}
