use schema_rs::json::{json_equal, JsonNumber, JsonValue};
use schema_rs::runtime::SchemaRuntime;
use schema_rs::validate::DefaultValidator;

fn conv(v: &serde_json::Value) -> JsonValue {
    match v {
        serde_json::Value::Null => JsonValue::Null,
        serde_json::Value::Bool(b) => JsonValue::Bool(*b),
        serde_json::Value::Number(n) => {
            if let Some(u) = n.as_u64() {
                JsonValue::Number(JsonNumber::PosInt(u))
            } else if let Some(i) = n.as_i64() {
                JsonValue::Number(JsonNumber::NegInt(i))
            } else {
                JsonValue::Number(JsonNumber::Float(n.as_f64().unwrap().to_bits()))
            }
        }
        serde_json::Value::String(s) => JsonValue::String(s.clone()),
        serde_json::Value::Array(a) => JsonValue::Array(a.iter().map(conv).collect()),
        serde_json::Value::Object(m) => {
            JsonValue::Object(m.iter().map(|(k, x)| (k.clone(), conv(x))).collect())
        }
    }
}

/// A document from its JSON text.
fn j(text: &str) -> JsonValue {
    conv(&serde_json::from_str(text).unwrap())
}

/// Whether a looked-up value is present and equal to `expected`.
fn is_json(found: Option<&JsonValue>, expected: JsonValue) -> bool {
    match found {
        Some(x) => json_equal(x, &expected),
        None => false,
    }
}

fn new_runtime(schema: JsonValue, value: JsonValue) -> SchemaRuntime<DefaultValidator> {
    SchemaRuntime::new(DefaultValidator::new(), schema, value)
}

// ── Initialization priority: const > default > required?(nullable?null:zero):removed ──

#[test]
fn init_required_string_gets_zero_value() {
    let rt = new_runtime(
        j(r#"{
            "type": "object",
            "properties": { "name": { "type": "string" } },
            "required": ["name"]
        }"#),
        j(r#"{}"#),
    );
    assert!(is_json(rt.get_value("/name"), j(r#""""#)));
}

#[test]
fn init_optional_string_is_absent() {
    let rt = new_runtime(
        j(r#"{
            "type": "object",
            "properties": { "name": { "type": "string" } }
        }"#),
        j(r#"{}"#),
    );
    assert!(rt.get_value("/name").is_none());
}

#[test]
fn init_required_nullable_string_gets_null() {
    let rt = new_runtime(
        j(r#"{
            "type": "object",
            "properties": { "name": { "type": ["string", "null"] } },
            "required": ["name"]
        }"#),
        j(r#"{}"#),
    );
    assert!(is_json(rt.get_value("/name"), j(r#"null"#)));
}

#[test]
fn init_required_number_gets_zero() {
    let rt = new_runtime(
        j(r#"{
            "type": "object",
            "properties": { "age": { "type": "integer" } },
            "required": ["age"]
        }"#),
        j(r#"{}"#),
    );
    assert!(is_json(rt.get_value("/age"), j(r#"0"#)));
}

#[test]
fn init_required_boolean_gets_false() {
    let rt = new_runtime(
        j(r#"{
            "type": "object",
            "properties": { "active": { "type": "boolean" } },
            "required": ["active"]
        }"#),
        j(r#"{}"#),
    );
    assert!(is_json(rt.get_value("/active"), j(r#"false"#)));
}

#[test]
fn init_default_overrides_zero() {
    let rt = new_runtime(
        j(r#"{
            "type": "object",
            "properties": { "count": { "type": "integer", "default": 42 } },
            "required": ["count"]
        }"#),
        j(r#"{}"#),
    );
    assert!(is_json(rt.get_value("/count"), j(r#"42"#)));
}

#[test]
fn init_const_overrides_default() {
    let rt = new_runtime(
        j(r#"{
            "type": "object",
            "properties": { "version": { "type": "string", "const": "v1", "default": "v0" } },
            "required": ["version"]
        }"#),
        j(r#"{}"#),
    );
    assert!(is_json(rt.get_value("/version"), j(r#""v1""#)));
}

#[test]
fn init_optional_with_explicit_default_gets_filled() {
    let rt = new_runtime(
        j(r#"{
            "type": "object",
            "properties": { "theme": { "type": "string", "default": "dark" } }
        }"#),
        j(r#"{}"#),
    );
    assert!(is_json(rt.get_value("/theme"), j(r#""dark""#)));
}

// ── Const auto-fills from empty value (playground scenario) ──

#[test]
fn init_optional_const_fills_from_empty_value() {
    let rt = new_runtime(
        j(r#"{
            "type": "object",
            "required": ["theme"],
            "properties": {
                "theme": { "type": "string", "enum": ["light", "dark", "auto"] },
                "language": { "type": "string", "default": "en" },
                "version": { "type": "string", "const": "1.0.0" },
                "notifications": { "type": "boolean", "default": true }
            }
        }"#),
        j(r#"{}"#),
    );
    // required enum without default → zero value
    assert!(is_json(rt.get_value("/theme"), j(r#""""#)));
    // optional with default → filled
    assert!(is_json(rt.get_value("/language"), j(r#""en""#)));
    // optional const → always filled
    assert!(is_json(rt.get_value("/version"), j(r#""1.0.0""#)));
    // optional bool with default → filled
    assert!(is_json(rt.get_value("/notifications"), j(r#"true"#)));
}

// ── clear_value: required→null, optional→remove ──

#[test]
fn clear_required_field_sets_null() {
    let mut rt = new_runtime(
        j(r#"{
            "type": "object",
            "properties": { "name": { "type": "string" } },
            "required": ["name"]
        }"#),
        j(r#"{ "name": "hello" }"#),
    );
    rt.clear_value("/name");
    assert!(is_json(rt.get_value("/name"), j(r#"null"#)));
}

#[test]
fn clear_optional_field_removes_it() {
    let mut rt = new_runtime(
        j(r#"{
            "type": "object",
            "properties": { "name": { "type": "string" } }
        }"#),
        j(r#"{ "name": "hello" }"#),
    );
    rt.clear_value("/name");
    assert!(rt.get_value("/name").is_none());
}

// ── remove_value: always removes regardless of required ──

#[test]
fn remove_required_field_deletes_it() {
    let mut rt = new_runtime(
        j(r#"{
            "type": "object",
            "properties": { "name": { "type": "string" } },
            "required": ["name"]
        }"#),
        j(r#"{ "name": "hello" }"#),
    );
    rt.remove_value("/name");
    assert!(rt.get_value("/name").is_none());
}

// ── set_value null on optional → remove ──

#[test]
fn set_null_on_optional_removes_value() {
    let mut rt = new_runtime(
        j(r#"{
            "type": "object",
            "properties": { "tag": { "type": "string" } }
        }"#),
        j(r#"{ "tag": "a" }"#),
    );
    rt.set_value("/tag", j(r#"null"#));
    assert!(rt.get_value("/tag").is_none());
}

// ── Nested object defaults ──

#[test]
fn init_nested_object_required_props() {
    let rt = new_runtime(
        j(r#"{
            "type": "object",
            "properties": {
                "config": {
                    "type": "object",
                    "properties": {
                        "host": { "type": "string" },
                        "port": { "type": "integer" }
                    },
                    "required": ["host", "port"]
                }
            },
            "required": ["config"]
        }"#),
        j(r#"{}"#),
    );
    assert!(is_json(rt.get_value("/config/host"), j(r#""""#)));
    assert!(is_json(rt.get_value("/config/port"), j(r#"0"#)));
}

// ── Array prefixItems defaults ──

#[test]
fn init_array_prefix_items_filled() {
    let rt = new_runtime(
        j(r#"{
            "type": "object",
            "properties": {
                "pair": {
                    "type": "array",
                    "prefixItems": [
                        { "type": "string" },
                        { "type": "integer" }
                    ]
                }
            },
            "required": ["pair"]
        }"#),
        j(r#"{}"#),
    );
    assert!(is_json(rt.get_value("/pair/0"), j(r#""""#)));
    assert!(is_json(rt.get_value("/pair/1"), j(r#"0"#)));
}
