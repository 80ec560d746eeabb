use search_engine::domain::{
    CollectionSchema, Document, DocumentId, DomainError, FieldDefinition, FieldType,
};
use search_engine::value::{DocValue, JsonMap, JsonNumber, JsonValue};

/// The order key of a number: its `f64` bits arranged so that unsigned
/// comparison follows numeric order.
fn order_key(x: f64) -> u64 {
    let x = if x == 0.0 { 0.0 } else { x };
    let bits = x.to_bits();
    if bits >> 63 == 1 {
        !bits
    } else {
        bits | (1u64 << 63)
    }
}

fn from_order_key(k: u64) -> f64 {
    let bits = if k >> 63 == 1 { k & !(1u64 << 63) } else { !k };
    f64::from_bits(bits)
}

fn close(d: f64, f: f64) -> bool {
    (d - f).abs() < f64::EPSILON
}

/// The order keys of the least and the greatest numbers close to `f`.
fn near_bounds(f: f64) -> (u64, u64) {
    let key = order_key(f);
    let (mut outside, mut inside) = (order_key(f64::NEG_INFINITY), key);
    while inside - outside > 1 {
        let mid = outside + (inside - outside) / 2;
        if close(from_order_key(mid), f) {
            inside = mid;
        } else {
            outside = mid;
        }
    }
    let low = inside;
    let (mut inside, mut outside) = (key, order_key(f64::INFINITY));
    while outside - inside > 1 {
        let mid = inside + (outside - inside) / 2;
        if close(from_order_key(mid), f) {
            inside = mid;
        } else {
            outside = mid;
        }
    }
    (low, inside)
}

fn json_number(x: f64, integer: Option<i64>, text: &str) -> JsonNumber {
    let (near_low, near_high) = near_bounds(x);
    JsonNumber { order_key: order_key(x), near_low, near_high, integer, text: text.to_string() }
}

fn number(x: f64, text: &str) -> JsonValue {
    let integer = if x.fract() == 0.0 && !text.contains('.') { Some(x as i64) } else { None };
    JsonValue::Number(json_number(x, integer, text))
}

fn string(s: &str) -> JsonValue {
    JsonValue::String(s.to_string())
}

fn field(name: &str, field_type: FieldType, index: bool, optional: bool) -> FieldDefinition {
    FieldDefinition { name: name.to_string(), field_type, index, optional }
}

fn object(pairs: Vec<(&str, JsonValue)>) -> JsonMap {
    let mut m = JsonMap::new();
    for (k, v) in pairs {
        m.insert(k.to_string(), v);
    }
    m
}

fn create_test_schema() -> CollectionSchema {
    CollectionSchema::new(
        "products".to_string(),
        vec![
            field("name", FieldType::Text, true, false),
            field("description", FieldType::Text, true, true),
            field("price", FieldType::Number, true, false),
            field("stock", FieldType::Number, false, true),
        ],
    )
    .build()
    .expect("Failed to build test schema")
}

#[test]
fn schema_build_success() {
    let schema = create_test_schema();
    assert_eq!(schema.name, "products");
    assert!(schema.get_field("name").is_some());
    assert!(schema.get_field("price").is_some());
    assert!(schema.get_field("nonexistent").is_none());
    assert_eq!(schema.get_field("name").unwrap().field_type, FieldType::Text);
    assert!(schema.get_field("name").unwrap().index);
    assert!(!schema.get_field("stock").unwrap().index);
    assert!(!schema.get_field("name").unwrap().optional);
    assert!(schema.get_field("description").unwrap().optional);
}

#[test]
fn schema_build_fails_duplicate_field() {
    let result = CollectionSchema::new(
        "test".to_string(),
        vec![
            field("field1", FieldType::Text, true, false),
            field("field1", FieldType::Number, false, false),
        ],
    )
    .build();
    assert!(
        matches!(result, Err(DomainError::InvalidSchema(msg)) if msg.contains("Duplicate field name"))
    );
}

#[test]
fn schema_build_fails_invalid_name() {
    let result = CollectionSchema::new("invalid-name!".to_string(), vec![]).build();
    assert!(matches!(result, Err(DomainError::InvalidSchema(msg)) if msg.contains("Collection name")));
}

#[test]
fn schema_build_fails_reserved_id_field() {
    let result = CollectionSchema::new(
        "test".to_string(),
        vec![field("id", FieldType::Text, true, false)],
    )
    .build();
    assert!(
        matches!(result, Err(DomainError::InvalidSchema(msg)) if msg.contains("'id' is a reserved"))
    );
}

#[test]
fn document_creation_success() {
    let schema = create_test_schema();
    let id = DocumentId::new("prod1".to_string());
    let fields = object(vec![
        ("name", string("Test Product")),
        ("description", string("A great product")),
        ("price", number(99.99, "99.99")),
    ]);
    let doc_result = Document::new(id.clone(), fields, &schema);
    assert!(doc_result.is_ok());
    let doc = doc_result.unwrap();
    assert_eq!(doc.id(), &id);
    assert_eq!(doc.fields().len(), 3);
    assert_eq!(
        doc.get_field_value("name").unwrap(),
        &DocValue::Text("Test Product".to_string())
    );
}

#[test]
fn document_creation_fails_missing_required_field() {
    let schema = create_test_schema();
    let id = DocumentId::new("prod2".to_string());
    let fields = object(vec![("name", string("Another Product"))]);
    let doc_result = Document::new(id, fields, &schema);
    assert!(matches!(doc_result, Err(DomainError::MissingField(field)) if field == "price"));
}

#[test]
fn document_creation_fails_wrong_field_type() {
    let schema = create_test_schema();
    let id = DocumentId::new("prod3".to_string());
    let fields = object(vec![("name", string("Product 3")), ("price", string("expensive"))]);
    let doc_result = Document::new(id, fields, &schema);
    assert!(
        matches!(doc_result, Err(DomainError::InvalidFieldValue { field, .. }) if field == "price")
    );
}

#[test]
fn document_creation_fails_field_not_in_schema() {
    let schema = create_test_schema();
    let id = DocumentId::new("prod4".to_string());
    let fields = object(vec![
        ("name", string("Product 4")),
        ("price", number(10.0, "10.0")),
        ("extra_field", string("not allowed")),
    ]);
    let doc_result = Document::new(id, fields, &schema);
    assert!(
        matches!(doc_result, Err(DomainError::FieldNotFound(field)) if field == "extra_field")
    );
}

#[test]
fn schema_build_fails_without_fields() {
    let result = CollectionSchema::new("empty".to_string(), vec![]).build();
    match result {
        Err(DomainError::InvalidSchema(msg)) => {
            assert_eq!(msg, "Schema must contain at least one field.")
        }
        _ => panic!("expected an invalid schema"),
    }
}

#[test]
fn schema_build_fails_blank_field_name() {
    let result = CollectionSchema::new(
        "blank".to_string(),
        vec![field("  ", FieldType::Text, true, false)],
    )
    .build();
    match result {
        Err(DomainError::InvalidSchema(msg)) => assert_eq!(msg, "Field names cannot be empty."),
        _ => panic!("expected an invalid schema"),
    }
}

#[test]
fn schema_duplicate_message_names_the_field() {
    let result = CollectionSchema::new(
        "dup".to_string(),
        vec![field("a", FieldType::Text, true, false), field("a", FieldType::Text, true, false)],
    )
    .build();
    match result {
        Err(DomainError::InvalidSchema(msg)) => {
            assert_eq!(msg, "Duplicate field name found: 'a'")
        }
        _ => panic!("expected an invalid schema"),
    }
}

#[test]
fn unbuilt_schema_has_no_fields_to_look_up() {
    let schema = CollectionSchema::new("x".to_string(), vec![field("a", FieldType::Text, true, false)]);
    assert!(schema.get_field("a").is_none());
    let default = CollectionSchema::default();
    assert!(default.name.is_empty());
    assert!(default.get_field("a").is_none());
}

#[test]
fn wrong_type_reason_shows_the_value() {
    let schema = create_test_schema();
    let fields = object(vec![("name", number(5.0, "5")), ("price", number(1.0, "1"))]);
    match Document::new(DocumentId::new("p".to_string()), fields, &schema) {
        Err(DomainError::InvalidFieldValue { field, reason }) => {
            assert_eq!(field, "name");
            assert_eq!(reason, "Expected a text string, got Number(5)");
        }
        _ => panic!("expected an invalid field value"),
    }
    let fields = object(vec![("name", string("n")), ("price", string("cheap"))]);
    match Document::new(DocumentId::new("p".to_string()), fields, &schema) {
        Err(DomainError::InvalidFieldValue { reason, .. }) => {
            assert_eq!(reason, "Expected a number, got String(\"cheap\")");
        }
        _ => panic!("expected an invalid field value"),
    }
    let nested = JsonValue::Array(vec![JsonValue::Bool(true), JsonValue::Null]);
    let fields = object(vec![("name", nested), ("price", number(1.0, "1"))]);
    match Document::new(DocumentId::new("p".to_string()), fields, &schema) {
        Err(DomainError::InvalidFieldValue { reason, .. }) => {
            assert_eq!(reason, "Expected a text string, got Array [Bool(true), Null]");
        }
        _ => panic!("expected an invalid field value"),
    }
}

#[test]
fn domain_error_messages() {
    assert_eq!(DomainError::FieldNotFound("x".to_string()).message(), "Field 'x' not found in schema");
    assert_eq!(DomainError::MissingField("y".to_string()).message(), "Missing required field 'y'");
    assert_eq!(DomainError::InvalidSchema("bad".to_string()).message(), "Invalid schema: bad");
    assert_eq!(
        DomainError::InvalidFieldValue { field: "f".to_string(), reason: "r".to_string() }.message(),
        "Invalid field value for field 'f': r"
    );
}

#[test]
fn document_id_round_trip() {
    let id = DocumentId::new("abc".to_string());
    assert_eq!(id.as_str(), "abc");
    assert_eq!(id.into_string(), "abc".to_string());
}

#[test]
fn document_id_converts_from_and_into_string() {
    let id = DocumentId::from("doc-7".to_string());
    assert_eq!(id, DocumentId::new("doc-7".to_string()));
    let back: String = id.into();
    assert_eq!(back, "doc-7");
}
