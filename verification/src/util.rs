//! Type tests on JSON values, deep equality, and regular expressions.
use vstd::prelude::*;
use crate::json::{Json, JsonNumber, JsonValue, json_equal};
use crate::number::{f64_is_integral, float_is_integral};
use crate::schema::SchemaType;
use crate::text::str_eq;

verus! {

// ── Type utilities ──

/// A number is an integer when it was read as one, or when its float
/// value has no fractional part.
pub open spec fn number_is_integer(n: JsonNumber) -> bool {
    match n {
        JsonNumber::PosInt(_) => true,
        JsonNumber::NegInt(_) => true,
        JsonNumber::Float(b) => f64_is_integral(b),
    }
}

/// Whether a value matches a type name; unknown names match nothing.
pub open spec fn spec_match_schema_type(v: Json, t: Seq<char>) -> bool {
    if t == "string"@ {
        v is Str
    } else if t == "number"@ {
        v is Number
    } else if t == "integer"@ {
        v matches Json::Number(n) && number_is_integer(n)
    } else if t == "boolean"@ {
        v is Bool
    } else if t == "object"@ {
        v is Object
    } else if t == "array"@ {
        v is Array
    } else if t == "null"@ {
        v is Null
    } else {
        false
    }
}

/// The type of a value; a number without fractional part is an integer.
pub open spec fn spec_detect_schema_type(v: Json) -> SchemaType {
    match v {
        Json::Null => SchemaType::Null,
        Json::Bool(_) => SchemaType::Boolean,
        Json::Number(n) => if number_is_integer(n) {
            SchemaType::Integer
        } else {
            SchemaType::Number
        },
        Json::Str(_) => SchemaType::String,
        Json::Array(_) => SchemaType::Array,
        Json::Object(_) => SchemaType::Object,
    }
}

/// Whether a value matches a schema type name string.
pub fn match_schema_type(value: &JsonValue, type_str: &str) -> (r: bool)
    ensures
        r == spec_match_schema_type(value@, type_str@),
{
    if str_eq(type_str, "string") {
        matches!(value, JsonValue::String(_))
    } else if str_eq(type_str, "number") {
        matches!(value, JsonValue::Number(_))
    } else if str_eq(type_str, "integer") {
        match value {
            JsonValue::Number(JsonNumber::Float(b)) => float_is_integral(*b),
            JsonValue::Number(_) => true,
            _ => false,
        }
    } else if str_eq(type_str, "boolean") {
        matches!(value, JsonValue::Bool(_))
    } else if str_eq(type_str, "object") {
        matches!(value, JsonValue::Object(_))
    } else if str_eq(type_str, "array") {
        matches!(value, JsonValue::Array(_))
    } else if str_eq(type_str, "null") {
        matches!(value, JsonValue::Null)
    } else {
        false
    }
}

/// The SchemaType of a JSON value.
pub fn detect_schema_type(value: &JsonValue) -> (r: SchemaType)
    ensures
        r == spec_detect_schema_type(value@),
{
    match value {
        JsonValue::Null => SchemaType::Null,
        JsonValue::Bool(_) => SchemaType::Boolean,
        JsonValue::Number(JsonNumber::Float(b)) => {
            if float_is_integral(*b) {
                SchemaType::Integer
            } else {
                SchemaType::Number
            }
        },
        JsonValue::Number(_) => SchemaType::Integer,
        JsonValue::String(_) => SchemaType::String,
        JsonValue::Array(_) => SchemaType::Array,
        JsonValue::Object(_) => SchemaType::Object,
    }
}

// ── Comparison ──

/// Deep equality of JSON values.
pub fn deep_equal(a: &JsonValue, b: &JsonValue) -> (r: bool)
    ensures
        r == (a@ == b@),
{
    json_equal(a, b)
}

// ── Regex ──

/// What testing `pattern` against `haystack` gives with the `regex` crate:
/// `None` when the pattern does not compile, else whether it matches
/// anywhere in the haystack.
pub uninterp spec fn spec_regex_search(pattern: Seq<char>, haystack: Seq<char>) -> Option<bool>;

/// Compiles `pattern` with `regex::Regex::new` and, when that succeeds,
/// tests it with `Regex::is_match`. The contract only ties the outcome to
/// the two arguments; what the `regex` crate decides is not restated.
#[verifier::external_body]
fn regex_search(pattern: &str, haystack: &str) -> (r: Option<bool>)
    ensures
        r == spec_regex_search(pattern@, haystack@),
{
    match regex::Regex::new(pattern) {
        Ok(re) => Some(re.is_match(haystack)),
        Err(_) => None,
    }
}

/// Whether a regex pattern matches a value; an invalid pattern matches
/// nothing.
pub open spec fn spec_safe_regex_test(pattern: Seq<char>, value: Seq<char>) -> bool {
    spec_regex_search(pattern, value) == Some(true)
}

/// Test a regex pattern against a value. Returns false on invalid patterns.
pub fn safe_regex_test(pattern: &str, value: &str) -> (r: bool)
    ensures
        r == spec_safe_regex_test(pattern@, value@),
{
    match regex_search(pattern, value) {
        Some(m) => m,
        None => false,
    }
}

} // verus!
