use schema_rs::decode::schema_from_json;
use schema_rs::default::apply_defaults;
use schema_rs::dependency::{collect_dependencies, extract_referenced_paths};
use schema_rs::display::{format_hint, path_last_segment};
use schema_rs::effective::{merge_schema, merge_strings, merge_type};
use schema_rs::json::{get_json_pointer, remove_json_pointer, set_json_pointer};
use schema_rs::normalize::{normalize_schema, DraftNormalizer, Normalizer};
use schema_rs::pointer::{
    get_json_pointer_parent, json_pointer_escape, json_pointer_join, json_pointer_unescape,
    parse_json_pointer, resolve_absolute_path,
};
use schema_rs::resolve::{parse_type_str, resolve_effective_schema};
use schema_rs::runtime::SchemaRuntime;
use schema_rs::schema::{Schema, SchemaType, SchemaTypeValue};
use schema_rs::util::safe_regex_test;
use schema_rs::json::{json_equal, JsonNumber, JsonValue};
use schema_rs::validate::{DefaultValidator, ValidationOutput, Validator, ValidatorOptions};

fn conv(v: &serde_json::Value) -> JsonValue {
    match v {
        serde_json::Value::Null => JsonValue::Null,
        serde_json::Value::Bool(b) => JsonValue::Bool(*b),
        serde_json::Value::Number(n) => {
            if let Some(u) = n.as_u64() {
                JsonValue::Number(JsonNumber::PosInt(u))
            } else if let Some(i) = n.as_i64() {
                JsonValue::Number(JsonNumber::NegInt(i))
            } else {
                JsonValue::Number(JsonNumber::Float(n.as_f64().unwrap().to_bits()))
            }
        }
        serde_json::Value::String(s) => JsonValue::String(s.clone()),
        serde_json::Value::Array(a) => JsonValue::Array(a.iter().map(conv).collect()),
        serde_json::Value::Object(m) => {
            JsonValue::Object(m.iter().map(|(k, x)| (k.clone(), conv(x))).collect())
        }
    }
}

/// A document from its JSON text.
fn j(text: &str) -> JsonValue {
    conv(&serde_json::from_str(text).unwrap())
}

/// Whether a looked-up value is present and equal to `expected`.
fn is_json(found: Option<&JsonValue>, expected: JsonValue) -> bool {
    match found {
        Some(x) => json_equal(x, &expected),
        None => false,
    }
}

fn validate_value(schema: JsonValue, value: JsonValue) -> ValidationOutput {
    let parsed = schema_from_json(&schema).unwrap();
    let validator = DefaultValidator::new();
    validator.validate(&parsed, &value, "#", "#", &ValidatorOptions::default())
}

fn error_keys(output: &ValidationOutput) -> Vec<String> {
    output
        .errors
        .iter()
        .filter_map(|e| e.error.as_ref().map(|err| err.key.clone()))
        .collect()
}

fn first_error_params(output: &ValidationOutput) -> Vec<(String, JsonValue)> {
    output
        .errors
        .first()
        .and_then(|e| e.error.as_ref())
        .map(|err| err.params.iter().map(|(k, v)| (k.clone(), v.clone())).collect())
        .unwrap_or_default()
}

/// The parameter named `key`.
fn param<'a>(params: &'a [(String, JsonValue)], key: &str) -> Option<&'a JsonValue> {
    params.iter().find(|(k, _)| k == key).map(|(_, v)| v)
}

/// The text of a string value.
fn text_of(v: &JsonValue) -> Option<&str> {
    match v {
        JsonValue::String(s) => Some(s.as_str()),
        _ => None,
    }
}


fn schema(text: &str) -> Schema {
    schema_from_json(&j(text)).unwrap()
}

// ── JSON Pointer ──

#[test]
fn pointer_parse_splits_and_unescapes() {
    assert_eq!(parse_json_pointer(""), Vec::<String>::new());
    assert_eq!(parse_json_pointer("/a/b~1c/d~0e"), vec!["a", "b/c", "d~e"]);
    assert_eq!(parse_json_pointer("/"), vec![""]);
    assert_eq!(parse_json_pointer("a/b"), vec!["a", "b"]);
}

#[test]
fn pointer_escape_and_unescape() {
    assert_eq!(json_pointer_escape("a/b~c"), "a~1b~0c");
    assert_eq!(json_pointer_unescape("a~1b~0c"), "a/b~c");
    assert_eq!(json_pointer_unescape("~01"), "~1");
}

#[test]
fn law_unescape_undoes_escape_on_samples() {
    for s in ["", "plain", "a/b", "~", "~1", "/~0/", "x~y/z"] {
        assert_eq!(json_pointer_unescape(&json_pointer_escape(s)), s);
    }
}

#[test]
fn pointer_join_parent_and_absolute() {
    assert_eq!(json_pointer_join("/a", "b/c"), "/a/b~1c");
    assert_eq!(json_pointer_join("", "x"), "/x");
    assert_eq!(get_json_pointer_parent("/a/b"), "/a");
    assert_eq!(get_json_pointer_parent("/a"), "");
    assert_eq!(get_json_pointer_parent(""), "");
    assert_eq!(resolve_absolute_path("/user", "/name"), "/user/name");
    assert_eq!(resolve_absolute_path("", "/a~1b"), "/a~1b");
    assert_eq!(resolve_absolute_path("/x", "rel"), "rel");
}

#[test]
fn law_parent_of_join_on_samples() {
    for (b, t) in [("", "a"), ("/a", "b"), ("/a/b", "c/d"), ("/x", "~")] {
        assert_eq!(get_json_pointer_parent(&json_pointer_join(b, t)), b);
    }
}

#[test]
fn law_parse_of_join_on_samples() {
    let joined = json_pointer_join("/a/b~1c", "d/e");
    assert_eq!(parse_json_pointer(&joined), vec!["a", "b/c", "d/e"]);
    assert_eq!(parse_json_pointer(&json_pointer_join("", "x~y")), vec!["x~y"]);
    assert_eq!(parse_json_pointer(&json_pointer_join("a", "b")), vec!["a", "b"]);
}

#[test]
fn law_get_after_set_on_samples() {
    let mut doc = j(r#"{"a": {"b": 1}, "list": [1, 2]}"#);
    assert!(set_json_pointer(&mut doc, "/a/c", j(r#""x""#)));
    assert!(is_json(get_json_pointer(&doc, "/a/c"), j(r#""x""#)));
    assert!(is_json(get_json_pointer(&doc, "/a/b"), j("1")));
    assert!(set_json_pointer(&mut doc, "/list/4", j("true")));
    assert!(is_json(get_json_pointer(&doc, "/list"), j("[1, 2, null, null, true]")));
    assert!(set_json_pointer(&mut doc, "/new/deep", j("3")));
    assert!(is_json(get_json_pointer(&doc, "/new"), j(r#"{"deep": 3}"#)));
}

#[test]
fn pointer_remove_reports_presence() {
    let mut doc = j(r#"{"a": {"b": 1}, "list": [1, 2, 3]}"#);
    assert!(remove_json_pointer(&mut doc, "/list/1"));
    assert!(is_json(get_json_pointer(&doc, "/list"), j("[1, 3]")));
    assert!(!remove_json_pointer(&mut doc, "/missing"));
    assert!(remove_json_pointer(&mut doc, "/a/b"));
    assert!(is_json(Some(&doc), j(r#"{"a": {}, "list": [1, 3]}"#)));
}

// ── Reading a schema ──

#[test]
fn read_schema_keywords_and_extensions() {
    let s = schema(r#"{"type": ["string", "null"], "title": "T", "maxLength": 5, "x-extra": {"k": 1}, "minimum": -2}"#);
    assert_eq!(s.title, Some("T".to_string()));
    assert_eq!(s.max_length, Some(5));
    assert!(matches!(&s.type_, Some(SchemaTypeValue::Array(v)) if v == &vec!["string".to_string(), "null".to_string()]));
    assert_eq!(s.minimum, Some((-2.0f64).to_bits()));
    assert_eq!(s.extensions.len(), 1);
    assert_eq!(s.extensions[0].0, "x-extra");
}

#[test]
fn read_schema_null_member_is_absent_but_default_null_is_kept() {
    let s = schema(r#"{"title": null, "default": null, "const": null}"#);
    assert!(s.title.is_none());
    assert!(is_json(s.default.as_ref(), j("null")));
    assert!(is_json(s.const_.as_ref(), j("null")));
}

#[test]
fn read_schema_rejects_wrong_kinds() {
    assert!(schema_from_json(&j(r#"{"maxLength": -1}"#)).is_none());
    assert!(schema_from_json(&j(r#"{"maxLength": 1.5}"#)).is_none());
    assert!(schema_from_json(&j(r#"{"type": 5}"#)).is_none());
    assert!(schema_from_json(&j(r#"{"properties": {"a": {"title": 3}}}"#)).is_none());
    assert!(schema_from_json(&j(r#"{"items": 5}"#)).is_none());
    assert!(schema_from_json(&j(r#"{"exclusiveMaximum": "x"}"#)).is_none());
    let kept = schema_from_json(&j(r#"{"items": [{"type": "string"}], "exclusiveMinimum": true}"#)).unwrap();
    assert!(kept.items.is_none());
    assert!(kept.exclusive_minimum.is_none());
    assert_eq!(kept.extensions.len(), 2);
    assert!(schema_from_json(&j(r#"{"additionalProperties": "no"}"#)).is_none());
    assert!(schema_from_json(&j("true")).is_none());
    assert!(schema_from_json(&j("[]")).is_none());
}

#[test]
fn read_schema_nested_and_additional_properties() {
    let s = schema(r#"{"properties": {"b": {"type": "integer"}, "a": {}}, "additionalProperties": false, "allOf": [{"required": ["a"]}]}"#);
    let props = s.properties.as_ref().unwrap();
    assert_eq!(props.len(), 2);
    assert_eq!(props[0].0, "a");
    assert_eq!(props[1].0, "b");
    assert!(matches!(s.additional_properties, Some(schema_rs::schema::AdditionalProperties::Bool(false))));
    assert_eq!(s.all_of.as_ref().unwrap()[0].required, Some(vec!["a".to_string()]));
}

// ── Normalization ──

#[test]
fn normalize_draft4_id_nullable_example() {
    let s = DraftNormalizer.normalize(&j(r#"{"id": "urn:x", "type": "string", "nullable": true, "example": "hi", "title": "t"}"#));
    assert_eq!(s.id, Some("urn:x".to_string()));
    assert!(matches!(&s.type_, Some(SchemaTypeValue::Array(v)) if v == &vec!["string".to_string(), "null".to_string()]));
    let ex = s.examples.as_ref().unwrap();
    assert_eq!(ex.len(), 1);
    assert!(is_json(Some(&ex[0]), j(r#""hi""#)));
    assert!(s.extensions.is_empty());
}

#[test]
fn normalize_keeps_existing_id_and_null_type() {
    let s = DraftNormalizer.normalize(&j(r#"{"$id": "keep", "id": "drop", "type": "null", "nullable": true}"#));
    assert_eq!(s.id, Some("keep".to_string()));
    assert!(matches!(&s.type_, Some(SchemaTypeValue::Single(t)) if t == "null"));
    assert!(s.extensions.is_empty());
}

#[test]
fn normalize_dependencies_split() {
    let s = DraftNormalizer.normalize(&j(r#"{"dependencies": {"card": ["billing", 3], "empty": [1], "vip": {"required": ["level"]}}}"#));
    let req = s.dependent_required.as_ref().unwrap();
    assert_eq!(req.len(), 1);
    assert_eq!(req[0].0, "card");
    assert_eq!(req[0].1, vec!["billing".to_string()]);
    let ds = s.dependent_schemas.as_ref().unwrap();
    assert_eq!(ds.len(), 1);
    assert_eq!(ds[0].0, "vip");
    assert_eq!(ds[0].1.required, Some(vec!["level".to_string()]));
}

#[test]
fn normalize_additional_items_false_and_recursive_anchor() {
    let s = DraftNormalizer.normalize(&j(r##"{"additionalItems": false, "$recursiveAnchor": true, "$recursiveRef": "#"}"##));
    let items = s.items.as_ref().unwrap();
    assert!(items.not.is_some());
    assert_eq!(s.dynamic_anchor, Some(String::new()));
    assert_eq!(s.dynamic_ref, Some("#".to_string()));
}

#[test]
fn normalize_reaches_nested_schemas() {
    let s = DraftNormalizer.normalize(&j(r#"{"properties": {"a": {"id": "inner", "additionalItems": {"type": "string"}}}}"#));
    let a = &s.properties.as_ref().unwrap()[0].1;
    assert_eq!(a.id, Some("inner".to_string()));
    assert!(matches!(&a.items.as_ref().unwrap().type_, Some(SchemaTypeValue::Single(t)) if t == "string"));
}

#[test]
fn normalize_draft4_boolean_exclusive_bounds() {
    let s = DraftNormalizer.normalize(&j(r#"{"type": "number", "maximum": 10, "exclusiveMaximum": true, "minimum": 1, "exclusiveMinimum": false}"#));
    assert_eq!(s.exclusive_maximum, Some(10.0f64.to_bits()));
    assert!(s.maximum.is_none());
    assert_eq!(s.minimum, Some(1.0f64.to_bits()));
    assert!(s.exclusive_minimum.is_none());
    assert!(matches!(&s.type_, Some(SchemaTypeValue::Single(t)) if t == "number"));
    assert!(s.extensions.is_empty());
}

#[test]
fn normalize_draft4_items_array() {
    let s = DraftNormalizer.normalize(&j(r#"{"type": "array", "items": [{"type": "string"}, {"type": "number"}], "additionalItems": false}"#));
    assert_eq!(s.prefix_items.as_ref().unwrap().len(), 2);
    assert!(s.items.as_ref().unwrap().not.is_some());
    assert!(s.extensions.is_empty());
}

#[test]
fn merge_strings_is_a_deduplicated_union() {
    let x = Some(vec!["x".to_string(), "x".to_string(), "y".to_string()]);
    let z = Some(vec!["y".to_string(), "z".to_string()]);
    assert_eq!(merge_strings(&x, &None), Some(vec!["x".to_string(), "y".to_string()]));
    assert_eq!(merge_strings(&x, &z), Some(vec!["x".to_string(), "y".to_string(), "z".to_string()]));
    assert_eq!(merge_strings(&None, &None), None);
}

#[test]
fn merge_type_is_an_intersection() {
    let s = Some(SchemaTypeValue::Single("string".to_string()));
    let n = Some(SchemaTypeValue::Single("number".to_string()));
    let both = Some(SchemaTypeValue::Array(vec!["number".to_string(), "string".to_string()]));
    assert!(matches!(merge_type(&s, &n), Some(SchemaTypeValue::Array(v)) if v.is_empty()));
    assert!(matches!(merge_type(&both, &s), Some(SchemaTypeValue::Single(t)) if t == "string"));
    assert!(matches!(merge_type(&None, &n), Some(SchemaTypeValue::Single(t)) if t == "number"));
}

#[test]
fn normalize_exclusive_bounds_held_as_extensions() {
    let mut s = Schema::new();
    s.maximum = Some(5.0f64.to_bits());
    s.minimum = Some(1.0f64.to_bits());
    s.extensions.push(("exclusiveMaximum".to_string(), j("true")));
    s.extensions.push(("exclusiveMinimum".to_string(), j("false")));
    s.extensions.push(("items".to_string(), j(r#"[{"type": "string"}, 7]"#)));
    normalize_schema(&mut s);
    assert_eq!(s.maximum, None);
    assert_eq!(s.exclusive_maximum, Some(5.0f64.to_bits()));
    assert_eq!(s.minimum, Some(1.0f64.to_bits()));
    assert!(s.exclusive_minimum.is_none());
    assert_eq!(s.prefix_items.as_ref().unwrap().len(), 1);
    assert!(s.extensions.is_empty());
}

#[test]
fn law_step_keeps_current_schema_on_sample() {
    let mut s = schema(r#"{"type": "object", "title": "t", "x-ui": {"w": 1}}"#);
    normalize_schema(&mut s);
    assert_eq!(s.title, Some("t".to_string()));
    assert_eq!(s.extensions.len(), 1);
    assert_eq!(s.extensions[0].0, "x-ui");
}

// ── Regular expressions ──

#[test]
fn regex_test_matches_searches_and_rejects_bad_patterns() {
    assert!(safe_regex_test("^a+$", "aaa"));
    assert!(!safe_regex_test("^a+$", "aab"));
    assert!(safe_regex_test("b", "abc"));
    assert!(!safe_regex_test("(", "("));
}

#[test]
fn pattern_keyword_validation() {
    let out = validate_value(j(r#"{"type": "string", "pattern": "^[0-9]+$"}"#), j(r#""123""#));
    assert!(out.valid);
    let out = validate_value(j(r#"{"type": "string", "pattern": "^[0-9]+$"}"#), j(r#""12a""#));
    assert!(!out.valid);
    assert_eq!(error_keys(&out), vec!["pattern"]);
}

// ── Validation edge cases ──

#[test]
fn multiple_of_uses_float_remainder() {
    assert!(!validate_value(j(r#"{"multipleOf": 0.1}"#), j("0.3")).valid);
    assert!(validate_value(j(r#"{"multipleOf": 0.5}"#), j("1.5")).valid);
    assert!(validate_value(j(r#"{"multipleOf": 3}"#), j("-9")).valid);
}

#[test]
fn numeric_bounds_and_lengths() {
    assert!(!validate_value(j(r#"{"maximum": 3}"#), j("3.5")).valid);
    assert!(validate_value(j(r#"{"exclusiveMinimum": 0}"#), j("0.1")).valid);
    assert!(!validate_value(j(r#"{"exclusiveMinimum": 0}"#), j("0")).valid);
    assert!(!validate_value(j(r#"{"minLength": 2}"#), j(r#""a""#)).valid);
    assert!(!validate_value(j(r#"{"uniqueItems": true}"#), j("[1, 1]")).valid);
    assert!(validate_value(j(r#"{"uniqueItems": true}"#), j("[1, 1.0]")).valid);
    assert!(validate_value(j(r#"{"uniqueItems": true}"#), j("[1, 2]")).valid);
}

#[test]
fn validity_matches_empty_error_list() {
    let out = validate_value(j(r#"{"type": "object", "required": ["a", "b"]}"#), j("{}"));
    assert!(!out.valid);
    assert!(!out.errors.is_empty());
    let ok = validate_value(j(r#"{"type": "object", "required": ["a"]}"#), j(r#"{"a": 1}"#));
    assert!(ok.valid);
    assert!(ok.errors.is_empty());
}

// ── Types and effective schemas ──

#[test]
fn type_names() {
    assert_eq!(parse_type_str("string"), SchemaType::String);
    assert_eq!(parse_type_str("integer"), SchemaType::Integer);
    assert_eq!(parse_type_str("nope"), SchemaType::Unknown);
}

#[test]
fn effective_schema_takes_then_branch() {
    let s = schema(r#"{"type": "object", "if": {"properties": {"m": {"const": "a"}}}, "then": {"title": "A"}, "else": {"title": "B"}}"#);
    let v = DefaultValidator::new();
    let r = resolve_effective_schema(&v, &s, &j(r#"{"m": "a"}"#), "#", "", true);
    assert_eq!(r.effective_schema.title, Some("A".to_string()));
    assert_eq!(r.type_, SchemaType::Object);
    assert!(r.error.is_none());
    let r2 = resolve_effective_schema(&v, &s, &j(r#"{"m": "b"}"#), "#", "", true);
    assert_eq!(r2.effective_schema.title, Some("B".to_string()));
}

#[test]
fn law_merge_empty_override_on_sample() {
    let base = schema(r#"{"title": "T", "required": ["a"], "x-k": 1}"#);
    let merged = merge_schema(&base, &Schema::new(), "#/then");
    assert_eq!(merged.title, Some("T".to_string()));
    assert_eq!(merged.required, Some(vec!["a".to_string()]));
    assert_eq!(merged.extensions.len(), 1);
}

#[test]
fn dependencies_of_a_condition() {
    let s = schema(r#"{"if": {"properties": {"mode": {"const": "x"}}}, "then": {}}"#);
    let deps = collect_dependencies(&s, "/cfg");
    assert_eq!(deps, vec!["/cfg/mode".to_string()]);
}

// ── Display helpers ──

#[test]
fn display_helpers() {
    assert_eq!(path_last_segment("/a/b~1c"), "b~1c");
    assert_eq!(path_last_segment(""), "Root");
    assert_eq!(format_hint("date"), "YYYY-MM-DD");
    assert_eq!(format_hint("other"), "");
}

// ── Runtime ──

#[test]
fn runtime_events_and_version() {
    let mut rt = SchemaRuntime::new(
        DefaultValidator::new(),
        j(r#"{"type": "object", "properties": {"a": {"type": "string"}}}"#),
        j(r#"{"a": "x"}"#),
    );
    rt.drain_events();
    let v0 = rt.get_version();
    assert!(rt.set_value("/a", j(r#""y""#)));
    assert!(rt.get_version() > v0);
    assert!(!rt.drain_events().is_empty());
    assert!(rt.drain_events().is_empty());
    assert!(is_json(rt.get_value("/a"), j(r#""y""#)));
    assert!(is_json(rt.get_value(""), j(r#"{"a": "y"}"#)));
    assert!(!rt.remove_value(""));
    assert!(rt.remove_value("/a"));
    assert!(!rt.remove_value("/a"));
}

#[test]
fn runtime_refused_writes_and_clears() {
    let mut rt = SchemaRuntime::new(
        DefaultValidator::new(),
        j(r#"{"type": "object", "properties": {"list": {"type": "array"}, "name": {"type": "string"}}, "required": ["name"]}"#),
        j(r#"{"list": [1], "name": "n"}"#),
    );
    assert!(!rt.set_value("/list/abc", j("1")));
    assert!(is_json(rt.get_value("/list"), j("[1]")));
    assert!(rt.clear_value("/name"));
    assert!(is_json(rt.get_value("/name"), j("null")));
    let events = rt.drain_events();
    let last = events.last().unwrap();
    assert_eq!(last.kind, schema_rs::runtime::ChangeKind::Value);
    assert_eq!(last.path, "/name");
    rt.set_schema(j(r#"{"type": "object"}"#));
    let events = rt.drain_events();
    assert_eq!(events.last().unwrap().kind, schema_rs::runtime::ChangeKind::Schema);
    assert_eq!(events.last().unwrap().path, "");
    assert!(!rt.add_child("/missing", Some("k"), None));
}

#[test]
fn each_keyword_reports_its_error_key() {
    let cases: [(&str, &str, &str); 17] = [
        (r#"{"type": "string"}"#, "5", "type"),
        (r#"{"enum": ["a", "b"]}"#, r#""c""#, "enum"),
        (r#"{"const": 1}"#, "2", "const"),
        (r#"{"minimum": 3}"#, "2", "minimum"),
        (r#"{"maximum": 3}"#, "4", "maximum"),
        (r#"{"exclusiveMinimum": 3}"#, "3", "exclusiveMinimum"),
        (r#"{"exclusiveMaximum": 3}"#, "3", "exclusiveMaximum"),
        (r#"{"minLength": 2}"#, r#""a""#, "minLength"),
        (r#"{"maxLength": 1}"#, r#""ab""#, "maxLength"),
        (r#"{"minItems": 2}"#, "[1]", "minItems"),
        (r#"{"maxItems": 1}"#, "[1, 2]", "maxItems"),
        (r#"{"uniqueItems": true}"#, r#"["x", "x"]"#, "uniqueItems"),
        (r#"{"minProperties": 1}"#, "{}", "minProperties"),
        (r#"{"maxProperties": 0}"#, r#"{"a": 1}"#, "maxProperties"),
        (r#"{"required": ["a"]}"#, "{}", "required"),
        (r#"{"anyOf": [{"type": "string"}, {"type": "boolean"}]}"#, "1", "anyOf"),
        (r#"{"not": {"type": "integer"}}"#, "1", "not"),
    ];
    for (s, v, key) in cases {
        let out = validate_value(j(s), j(v));
        assert!(!out.valid, "{} should reject {}", s, v);
        assert_eq!(error_keys(&out), vec![key.to_string()], "{}", s);
    }
}

// ── Error entries ──

#[test]
fn error_entries_carry_locations_of_their_keyword() {
    let out = validate_value(j(r#"{"type": "string", "format": "email"}"#), j(r#""not-an-email""#));
    assert!(!out.valid);
    assert_eq!(out.errors.len(), 1);
    assert!(!out.errors[0].valid);
    assert_eq!(out.errors[0].keyword_location, "#/format");
    assert_eq!(out.errors[0].instance_location, "#");
    assert_eq!(out.errors[0].error.as_ref().unwrap().key, "format");
}

#[test]
fn dependent_required_entry_points_at_the_missing_property() {
    let out = validate_value(
        j(r#"{"type": "object", "dependentRequired": {"credit_card": ["billing_address"]}}"#),
        j(r#"{"credit_card": "1234"}"#),
    );
    assert!(!out.valid);
    assert_eq!(out.errors.len(), 1);
    assert_eq!(out.errors[0].keyword_location, "#/dependentRequired/credit_card");
    assert_eq!(out.errors[0].instance_location, "#/billing_address");
}

#[test]
fn nested_entries_lie_under_the_keyword_and_instance() {
    let out = validate_value(
        j(r#"{"type": "object", "properties": {"a": {"type": "number", "minimum": 5}}}"#),
        j(r#"{"a": 1}"#),
    );
    assert!(!out.valid);
    assert!(!out.errors.is_empty());
    for e in &out.errors {
        assert!(!e.valid);
        assert!(e.keyword_location.starts_with("#/"));
        assert!(e.instance_location.starts_with("#"));
    }
}

#[test]
fn fast_fail_reports_at_most_one_entry() {
    let parsed = schema_from_json(&j(r#"{"type": "string", "minLength": 5, "pattern": "^x"}"#)).unwrap();
    let validator = DefaultValidator::new();
    let options = ValidatorOptions { fast_fail: true, shallow: false };
    let out = validator.validate(&parsed, &j(r#""ab""#), "#", "#", &options);
    assert!(!out.valid);
    assert!(out.errors.len() <= 1);
    let full = validator.validate(&parsed, &j(r#""ab""#), "#", "#", &ValidatorOptions::default());
    assert_eq!(full.errors.len(), 2);
}

// ── Runtime tree and writes ──

#[test]
fn runtime_children_follow_the_properties() {
    let rt = SchemaRuntime::new(
        DefaultValidator::new(),
        j(r#"{"type": "object", "properties": {"a": {"type": "string"}, "b": {"type": "number"}}}"#),
        j(r#"{"a": "x"}"#),
    );
    let root = rt.root();
    assert_eq!(root.children.len(), 2);
    let locs: Vec<String> = root
        .children
        .iter()
        .map(|&c| rt.get_node_by_index(c).unwrap().instance_location.clone())
        .collect();
    assert!(locs.contains(&"/a".to_string()));
    assert!(locs.contains(&"/b".to_string()));
    assert!(rt.get_node("/a").is_some());
    assert!(rt.get_node("/c").is_none());
}

#[test]
fn runtime_failed_write_changes_nothing() {
    let mut rt = SchemaRuntime::new(
        DefaultValidator::new(),
        j(r#"{"type": "object", "properties": {"list": {"type": "array"}}}"#),
        j(r#"{"list": [1]}"#),
    );
    rt.drain_events();
    let v0 = rt.get_version();
    assert!(!rt.set_value("/list/abc", j("2")));
    assert_eq!(rt.get_version(), v0);
    assert!(rt.drain_events().is_empty());
    assert!(is_json(rt.get_value(""), j(r#"{"list": [1]}"#)));
}

#[test]
fn runtime_add_child_appends_items_and_properties() {
    let mut rt = SchemaRuntime::new(
        DefaultValidator::new(),
        j(r#"{"type": "object", "properties": {"list": {"type": "array", "items": {"type": "number"}}, "obj": {"type": "object", "additionalProperties": {"type": "string"}}, "s": {"type": "string"}}}"#),
        j(r#"{"list": [1], "obj": {}, "s": "x"}"#),
    );
    assert!(rt.add_child("/list", None, Some(j("7"))));
    assert!(is_json(rt.get_value("/list/1"), j("7")));
    assert!(rt.add_child("/obj", Some("k"), Some(j(r#""v""#))));
    assert!(is_json(rt.get_value("/obj/k"), j(r#""v""#)));
    assert!(!rt.add_child("/obj", None, None));
    assert!(!rt.add_child("/s", Some("k"), None));
}

#[test]
fn runtime_write_can_bring_defaults_of_a_new_branch() {
    let mut rt = SchemaRuntime::new(
        DefaultValidator::new(),
        j(r#"{"type": "object", "properties": {"mode": {"type": "string"}}, "if": {"properties": {"mode": {"const": "a"}}, "required": ["mode"]}, "then": {"properties": {"level": {"type": "number", "default": 5}}}}"#),
        j(r#"{"mode": "b"}"#),
    );
    assert!(rt.set_value("", j(r#"{"mode": "a"}"#)));
    assert!(is_json(rt.get_value("/mode"), j(r#""a""#)));
    assert!(is_json(rt.get_value("/level"), j("5")));
}

#[test]
fn failed_pointer_write_keeps_the_document() {
    let mut doc = j(r#"{"a": [1, 2], "b": {"c": 1}}"#);
    assert!(!set_json_pointer(&mut doc, "/a/x/y", j("3")));
    assert!(json_equal(&doc, &j(r#"{"a": [1, 2], "b": {"c": 1}}"#)));
    assert!(!set_json_pointer(&mut doc, "/a/x", j("3")));
    assert!(json_equal(&doc, &j(r#"{"a": [1, 2], "b": {"c": 1}}"#)));
}

#[test]
fn effective_schema_has_no_compositions_left() {
    let s = schema_from_json(&j(r#"{"allOf": [{"anyOf": [{"type": "object"}]}], "oneOf": [{"required": ["m"]}], "if": {"required": ["m"]}, "then": {"allOf": [{"title": "t"}]}}"#)).unwrap();
    let v = DefaultValidator::new();
    let r = resolve_effective_schema(&v, &s, &j(r#"{"m": 1}"#), "#", "", false);
    assert!(r.effective_schema.if_.is_none());
    assert!(r.effective_schema.all_of.is_none());
    assert!(r.effective_schema.any_of.is_none());
    assert!(r.effective_schema.one_of.is_none());
    assert_eq!(r.effective_schema.title.as_deref(), Some("t"));
}

#[test]
fn object_keys_are_kept_in_code_point_order() {
    let mut doc = j("{}");
    assert!(set_json_pointer(&mut doc, "/b", j("1")));
    assert!(set_json_pointer(&mut doc, "/B", j("2")));
    assert!(set_json_pointer(&mut doc, "/ab", j("3")));
    assert!(set_json_pointer(&mut doc, "/é", j("4")));
    match &doc {
        JsonValue::Object(m) => {
            let keys: Vec<&str> = m.iter().map(|(k, _)| k.as_str()).collect();
            assert_eq!(keys, vec!["B", "ab", "b", "é"]);
        }
        _ => panic!("not an object"),
    }
}

#[test]
fn resolved_path_parses_to_both_token_lists() {
    let r = resolve_absolute_path("/a~1b/c", "/d~0e/f");
    assert_eq!(r, "/a~1b/c/d~0e/f");
    assert_eq!(parse_json_pointer(&r), vec!["a/b", "c", "d~e", "f"]);
}

#[test]
fn extracted_paths_start_with_the_base() {
    let s = schema(r#"{"properties": {"a": {"const": 1}, "b": {"properties": {"c": {"type": "string"}}}}, "required": ["a"], "items": {"enum": [1]}}"#);
    let paths = extract_referenced_paths(&s, "/root", 0);
    assert!(!paths.is_empty());
    for p in &paths {
        assert!(p.starts_with("/root"), "{}", p);
    }
    assert!(extract_referenced_paths(&s, "/root", 101).is_empty());
}

#[test]
fn defaults_report_no_change_only_for_the_same_value() {
    let s = schema(r#"{"type": "object", "properties": {"a": {"type": "string", "default": "d"}}}"#);
    let given = j(r#"{"a": "x"}"#);
    let (v, changed) = apply_defaults(SchemaType::Object, Some(&given), &s, false);
    assert!(!changed);
    assert!(json_equal(&v.unwrap(), &given));
    let empty = j("{}");
    let (v2, changed2) = apply_defaults(SchemaType::Object, Some(&empty), &s, false);
    assert!(changed2);
    assert!(json_equal(&v2.unwrap(), &j(r#"{"a": "d"}"#)));
    let (v3, changed3) = apply_defaults(SchemaType::String, None, &s, false);
    assert!(!changed3);
    assert!(v3.is_none());
}
