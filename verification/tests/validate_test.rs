use schema_rs::decode::schema_from_json;
use schema_rs::json::{json_equal, JsonNumber, JsonValue};
use schema_rs::validate::{DefaultValidator, ValidationOutput, Validator, ValidatorOptions};

fn conv(v: &serde_json::Value) -> JsonValue {
    match v {
        serde_json::Value::Null => JsonValue::Null,
        serde_json::Value::Bool(b) => JsonValue::Bool(*b),
        serde_json::Value::Number(n) => {
            if let Some(u) = n.as_u64() {
                JsonValue::Number(JsonNumber::PosInt(u))
            } else if let Some(i) = n.as_i64() {
                JsonValue::Number(JsonNumber::NegInt(i))
            } else {
                JsonValue::Number(JsonNumber::Float(n.as_f64().unwrap().to_bits()))
            }
        }
        serde_json::Value::String(s) => JsonValue::String(s.clone()),
        serde_json::Value::Array(a) => JsonValue::Array(a.iter().map(conv).collect()),
        serde_json::Value::Object(m) => {
            JsonValue::Object(m.iter().map(|(k, x)| (k.clone(), conv(x))).collect())
        }
    }
}

/// A document from its JSON text.
fn j(text: &str) -> JsonValue {
    conv(&serde_json::from_str(text).unwrap())
}

/// Whether a looked-up value is present and equal to `expected`.
fn is_json(found: Option<&JsonValue>, expected: JsonValue) -> bool {
    match found {
        Some(x) => json_equal(x, &expected),
        None => false,
    }
}

fn validate_value(schema: JsonValue, value: JsonValue) -> ValidationOutput {
    let parsed = schema_from_json(&schema).unwrap();
    let validator = DefaultValidator::new();
    validator.validate(&parsed, &value, "#", "#", &ValidatorOptions::default())
}

fn error_keys(output: &ValidationOutput) -> Vec<String> {
    output
        .errors
        .iter()
        .filter_map(|e| e.error.as_ref().map(|err| err.key.clone()))
        .collect()
}

fn first_error_params(output: &ValidationOutput) -> Vec<(String, JsonValue)> {
    output
        .errors
        .first()
        .and_then(|e| e.error.as_ref())
        .map(|err| err.params.iter().map(|(k, v)| (k.clone(), v.clone())).collect())
        .unwrap_or_default()
}

/// The parameter named `key`.
fn param<'a>(params: &'a [(String, JsonValue)], key: &str) -> Option<&'a JsonValue> {
    params.iter().find(|(k, _)| k == key).map(|(_, v)| v)
}

/// The text of a string value.
fn text_of(v: &JsonValue) -> Option<&str> {
    match v {
        JsonValue::String(s) => Some(s.as_str()),
        _ => None,
    }
}

// ── Format validation ──

#[test]
fn format_email_valid() {
    let out = validate_value(
        j(r#"{"type": "string", "format": "email"}"#),
        j(r#""user@example.com""#),
    );
    assert!(out.valid);
}

#[test]
fn format_email_invalid() {
    let out = validate_value(
        j(r#"{"type": "string", "format": "email"}"#),
        j(r#""not-an-email""#),
    );
    assert!(!out.valid);
    assert_eq!(error_keys(&out), vec!["format"]);
}

#[test]
fn format_empty_string_skips_validation() {
    let out = validate_value(j(r#"{"type": "string", "format": "email"}"#), j(r#""""#));
    assert!(out.valid);
}

#[test]
fn format_date_valid() {
    let out = validate_value(
        j(r#"{"type": "string", "format": "date"}"#),
        j(r#""2024-02-29""#),
    );
    assert!(out.valid); // 2024 is leap year
}

#[test]
fn format_date_invalid_day() {
    let out = validate_value(
        j(r#"{"type": "string", "format": "date"}"#),
        j(r#""2023-02-29""#),
    );
    assert!(!out.valid); // 2023 is not leap year
}

#[test]
fn format_date_time_valid() {
    let out = validate_value(
        j(r#"{"type": "string", "format": "date-time"}"#),
        j(r#""2024-01-15T10:30:00Z""#),
    );
    assert!(out.valid);
}

#[test]
fn format_date_time_invalid() {
    let out = validate_value(
        j(r#"{"type": "string", "format": "date-time"}"#),
        j(r#""2024-01-15 10:30:00""#),
    );
    assert!(!out.valid);
}

#[test]
fn format_ipv4_valid() {
    let out = validate_value(
        j(r#"{"type": "string", "format": "ipv4"}"#),
        j(r#""192.168.1.1""#),
    );
    assert!(out.valid);
}

#[test]
fn format_ipv4_invalid() {
    let out = validate_value(
        j(r#"{"type": "string", "format": "ipv4"}"#),
        j(r#""999.999.999.999""#),
    );
    assert!(!out.valid);
}

#[test]
fn format_ipv6_valid() {
    let out = validate_value(j(r#"{"type": "string", "format": "ipv6"}"#), j(r#""::1""#));
    assert!(out.valid);
}

#[test]
fn format_ipv6_invalid() {
    let out = validate_value(
        j(r#"{"type": "string", "format": "ipv6"}"#),
        j(r#""not-ipv6""#),
    );
    assert!(!out.valid);
}

#[test]
fn format_uri_valid() {
    let out = validate_value(
        j(r#"{"type": "string", "format": "uri"}"#),
        j(r#""https://example.com""#),
    );
    assert!(out.valid);
}

#[test]
fn format_uri_invalid() {
    let out = validate_value(
        j(r#"{"type": "string", "format": "uri"}"#),
        j(r#""not a uri""#),
    );
    assert!(!out.valid);
}

#[test]
fn format_uuid_valid() {
    let out = validate_value(
        j(r#"{"type": "string", "format": "uuid"}"#),
        j(r#""550e8400-e29b-41d4-a716-446655440000""#),
    );
    assert!(out.valid);
}

#[test]
fn format_uuid_invalid() {
    let out = validate_value(
        j(r#"{"type": "string", "format": "uuid"}"#),
        j(r#""not-a-uuid""#),
    );
    assert!(!out.valid);
}

#[test]
fn format_duration_valid() {
    let out = validate_value(
        j(r#"{"type": "string", "format": "duration"}"#),
        j(r#""P1Y2M3DT4H5M6S""#),
    );
    assert!(out.valid);
}

#[test]
fn format_duration_invalid_bare_p() {
    let out = validate_value(j(r#"{"type": "string", "format": "duration"}"#), j(r#""P""#));
    assert!(!out.valid);
}

#[test]
fn format_unknown_passes() {
    let out = validate_value(
        j(r#"{"type": "string", "format": "custom-format"}"#),
        j(r#""anything""#),
    );
    assert!(out.valid);
}

// ── multipleOf ──

#[test]
fn multiple_of_integer() {
    let out = validate_value(j(r#"{"type": "number", "multipleOf": 3}"#), j(r#"9"#));
    assert!(out.valid);
}

#[test]
fn multiple_of_fails() {
    let out = validate_value(j(r#"{"type": "number", "multipleOf": 3}"#), j(r#"10"#));
    assert!(!out.valid);
    assert_eq!(error_keys(&out), vec!["multipleOf"]);
}

// ── contains / minContains / maxContains ──

#[test]
fn contains_passes_when_item_matches() {
    let out = validate_value(
        j(r#"{
            "type": "array",
            "contains": { "type": "number" }
        }"#),
        j(r#"["a", "b", 42]"#),
    );
    assert!(out.valid);
}

#[test]
fn contains_fails_when_no_item_matches() {
    let out = validate_value(
        j(r#"{
            "type": "array",
            "contains": { "type": "number" }
        }"#),
        j(r#"["a", "b", "c"]"#),
    );
    assert!(!out.valid);
    assert_eq!(error_keys(&out), vec!["contains"]);
}

#[test]
fn min_contains_passes() {
    let out = validate_value(
        j(r#"{
            "type": "array",
            "contains": { "type": "number" },
            "minContains": 2
        }"#),
        j(r#"["a", 1, 2]"#),
    );
    assert!(out.valid);
}

#[test]
fn min_contains_fails() {
    let out = validate_value(
        j(r#"{
            "type": "array",
            "contains": { "type": "number" },
            "minContains": 3
        }"#),
        j(r#"["a", 1, 2]"#),
    );
    assert!(!out.valid);
    assert_eq!(error_keys(&out), vec!["minContains"]);
}

#[test]
fn max_contains_passes() {
    let out = validate_value(
        j(r#"{
            "type": "array",
            "contains": { "type": "number" },
            "maxContains": 2
        }"#),
        j(r#"["a", 1, 2]"#),
    );
    assert!(out.valid);
}

#[test]
fn max_contains_fails() {
    let out = validate_value(
        j(r#"{
            "type": "array",
            "contains": { "type": "number" },
            "maxContains": 1
        }"#),
        j(r#"["a", 1, 2]"#),
    );
    assert!(!out.valid);
    assert_eq!(error_keys(&out), vec!["maxContains"]);
}

// ── propertyNames ──

#[test]
fn property_names_passes() {
    let out = validate_value(
        j(r#"{
            "type": "object",
            "propertyNames": { "maxLength": 3 }
        }"#),
        j(r#"{"ab": 1, "cd": 2}"#),
    );
    assert!(out.valid);
}

#[test]
fn property_names_fails() {
    let out = validate_value(
        j(r#"{
            "type": "object",
            "propertyNames": { "maxLength": 3 }
        }"#),
        j(r#"{"ab": 1, "toolong": 2}"#),
    );
    assert!(!out.valid);
}

// ── dependentRequired error params ──

#[test]
fn dependent_required_error_has_source_target() {
    let out = validate_value(
        j(r#"{
            "type": "object",
            "properties": {
                "credit_card": { "type": "string" },
                "billing_address": { "type": "string" }
            },
            "dependentRequired": {
                "credit_card": ["billing_address"]
            }
        }"#),
        j(r#"{"credit_card": "1234"}"#),
    );
    assert!(!out.valid);
    assert_eq!(error_keys(&out), vec!["dependentRequired"]);
    let params = first_error_params(&out);
    assert!(is_json(param(&params, "source"), j(r#""credit_card""#)));
    assert!(is_json(param(&params, "target"), j(r#""billing_address""#)));
}

// ── additionalProperties error params ──

#[test]
fn additional_properties_error_lists_all_keys() {
    let out = validate_value(
        j(r#"{
            "type": "object",
            "properties": { "name": { "type": "string" } },
            "additionalProperties": false
        }"#),
        j(r#"{"name": "ok", "extra1": 1, "extra2": 2}"#),
    );
    assert!(!out.valid);
    assert_eq!(error_keys(&out), vec!["additionalProperties"]);
    let params = first_error_params(&out);
    let props = text_of(param(&params, "properties").unwrap()).unwrap();
    assert!(props.contains("extra1"));
    assert!(props.contains("extra2"));
}

// ── oneOf error params ──

#[test]
fn one_of_error_has_count() {
    let out = validate_value(
        j(r#"{
            "oneOf": [
                { "type": "string" },
                { "type": "number" }
            ]
        }"#),
        j(r#"true"#),
    );
    assert!(!out.valid);
    assert_eq!(error_keys(&out), vec!["oneOf"]);
    let params = first_error_params(&out);
    assert!(is_json(param(&params, "count"), j(r#"0"#)));
}

#[test]
fn one_of_error_count_multiple_matches() {
    let out = validate_value(
        j(r#"{
            "oneOf": [
                { "type": "number" },
                { "minimum": 0 }
            ]
        }"#),
        j(r#"5"#),
    );
    assert!(!out.valid);
    let params = first_error_params(&out);
    assert!(is_json(param(&params, "count"), j(r#"2"#)));
}
