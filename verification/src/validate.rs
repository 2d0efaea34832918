//! Validation of JSON values against schemas.
//!
//! A value is valid when every keyword of the schema accepts it. The
//! validator reports one error entry per failed keyword (and one nested
//! entry per failed subschema); with `fast_fail` it stops at the first, and
//! with `shallow` it checks only `type`, `enum`, `const` and the number and
//! string keywords. Neither option changes what counts as valid for the
//! keywords that are checked.
use vstd::prelude::*;
use crate::ipv6::{spec_is_ipv6, is_ipv6};
use crate::json::{Json, JsonNumber, JsonValue, obj_get, obj_has, obj_find, obj_get_exec, entries_view};
use crate::number::{number_bits, spec_f64_lt, spec_f64_le, not_multiple, number_to_f64_bits, f64_lt,
    f64_le, is_not_multiple};
use crate::pointer::{json_pointer_escape, spec_escape};
use crate::schema::{AdditionalProperties, AddPropsModel, Schema, SchemaModel, SchemaTypeValue, TypeModel,
    lemma_schema_fields, lemma_schema_map_model_index, lemma_schemas_model_index, schema_map_model,
    schemas_model, str_seq_model};
use crate::text::{all_digits, chars_of, decimal_value, digit_char, digit_val, is_digit, push_str, str_eq, to_owned_string, usize_to_text};
use crate::util::{spec_match_schema_type, match_schema_type, spec_safe_regex_test, safe_regex_test,
    deep_equal};

verus! {

// ── Output ──

/// Options of one validation.
#[derive(Debug, Clone, Copy, Default)]
pub struct ValidatorOptions {
    pub fast_fail: bool,
    pub shallow: bool,
}

/// An error message: a key naming the failed keyword and its parameters.
#[derive(Debug)]
pub struct ErrorMessage {
    pub key: String,
    pub params: Vec<(String, JsonValue)>,
}

/// The result of validating a value: whether it is valid, where, the error
/// of this entry, and the nested entries of failed keywords.
#[derive(Debug)]
pub struct ValidationOutput {
    pub valid: bool,
    pub keyword_location: String,
    pub instance_location: String,
    pub error: Option<ErrorMessage>,
    pub errors: Vec<ValidationOutput>,
}

// ── Formats ──

pub const EMAIL_PATTERN: &'static str = "^[^\\s@]+@[^\\s@]+\\.[^\\s@]+$";
pub const DATE_PATTERN: &'static str = "^(\\d{4})-(0[1-9]|1[0-2])-(0[1-9]|[12]\\d|3[01])$";
pub const DATE_TIME_PATTERN: &'static str = "^\\d{4}-\\d{2}-\\d{2}T\\d{2}:\\d{2}:\\d{2}(?:\\.\\d+)?(?:Z|[+-]\\d{2}:\\d{2})$";
pub const TIME_PATTERN: &'static str = "^\\d{2}:\\d{2}:\\d{2}(?:\\.\\d+)?(?:Z|[+-]\\d{2}:\\d{2})?$";
pub const IPV4_PATTERN: &'static str = "^(?:(?:25[0-5]|2[0-4]\\d|[01]?\\d\\d?)\\.){3}(?:25[0-5]|2[0-4]\\d|[01]?\\d\\d?)$";
pub const HOSTNAME_PATTERN: &'static str = "^(([a-zA-Z0-9]|[a-zA-Z0-9][a-zA-Z0-9\\-]*[a-zA-Z0-9])\\.)*([a-zA-Z0-9]|[a-zA-Z0-9][a-zA-Z0-9\\-]*[a-zA-Z0-9])$";
pub const UUID_PATTERN: &'static str = "^[0-9a-fA-F]{8}-[0-9a-fA-F]{4}-[0-9a-fA-F]{4}-[0-9a-fA-F]{4}-[0-9a-fA-F]{12}$";
pub const DURATION_PATTERN: &'static str = "^P(\\d+Y)?(\\d+M)?(\\d+W)?(\\d+D)?(T(\\d+H)?(\\d+M)?(\\d+S)?)?$";
pub const URI_PATTERN: &'static str = "^[a-zA-Z][a-zA-Z0-9+\\-.]*://";

/// The value of a field of ASCII digits, or 0 when it holds anything else.
pub open spec fn num_or_zero(d: Seq<char>) -> nat {
    if d.len() > 0 && all_digits(d) {
        decimal_value(d)
    } else {
        0
    }
}

pub open spec fn days_in_month(m: nat, leap: bool) -> nat {
    if m == 2 {
        if leap { 29 } else { 28 }
    } else if m == 4 || m == 6 || m == 9 || m == 11 {
        30
    } else {
        31
    }
}

/// The calendar check on a text shaped `YYYY-MM-DD`: the day exists in
/// the month (February 29 only in leap years).
pub open spec fn date_fields_ok(v: Seq<char>) -> bool {
    v.len() >= 10 && {
        let y = num_or_zero(v.subrange(0, 4));
        let m = num_or_zero(v.subrange(5, 7));
        let d = num_or_zero(v.subrange(8, 10));
        let leap = y % 4 == 0 && (y % 100 != 0 || y % 400 == 0);
        1 <= m && m <= 12 && d <= days_in_month(m, leap)
    }
}

/// A Gregorian leap year: divisible by 4, and not by 100 unless by 400.
pub open spec fn is_leap_year(y: nat) -> bool {
    (y % 4 == 0 && y % 100 != 0) || y % 400 == 0
}

/// The number of days of month `m` (1 to 12) of year `y`.
pub open spec fn month_length(y: nat, m: nat) -> nat {
    seq![31nat, if is_leap_year(y) { 29nat } else { 28nat }, 31nat, 30nat, 31nat, 30nat, 31nat, 31nat, 30nat,
        31nat, 30nat, 31nat][m - 1]
}

/// The text `YYYY-MM-DD` written with the given decimal digits.
pub open spec fn date_text(y: Seq<nat>, m: Seq<nat>, d: Seq<nat>) -> Seq<char> {
    seq![digit_char(y[0]), digit_char(y[1]), digit_char(y[2]), digit_char(y[3]), '-', digit_char(m[0]),
        digit_char(m[1]), '-', digit_char(d[0]), digit_char(d[1])]
}

pub open spec fn digits_ok(x: Seq<nat>) -> bool {
    forall|i: int| 0 <= i < x.len() ==> #[trigger] x[i] < 10
}

proof fn lemma_digit_char(k: nat)
    requires
        k < 10,
    ensures
        is_digit(digit_char(k)),
        digit_val(digit_char(k)) == k,
{
}

proof fn lemma_two_digits(a: nat, b: nat)
    requires
        a < 10,
        b < 10,
    ensures
        num_or_zero(seq![digit_char(a), digit_char(b)]) == 10 * a + b,
{
    lemma_digit_char(a);
    lemma_digit_char(b);
    let s1 = seq![digit_char(a)];
    let s = seq![digit_char(a), digit_char(b)];
    assert(s1.drop_last() =~= Seq::<char>::empty());
    assert(decimal_value(Seq::<char>::empty()) == 0);
    assert(s1.last() == digit_char(a));
    assert(decimal_value(s1) == a);
    assert(s.drop_last() =~= s1);
    assert(s.last() == digit_char(b));
    assert(decimal_value(s) == 10 * a + b);
    assert(all_digits(s));
}

proof fn lemma_four_digits(a: nat, b: nat, c: nat, e: nat)
    requires
        a < 10,
        b < 10,
        c < 10,
        e < 10,
    ensures
        num_or_zero(seq![digit_char(a), digit_char(b), digit_char(c), digit_char(e)]) == 1000 * a + 100 * b + 10 * c
            + e,
{
    lemma_digit_char(a);
    lemma_digit_char(b);
    lemma_digit_char(c);
    lemma_digit_char(e);
    let s1 = seq![digit_char(a)];
    let s2 = seq![digit_char(a), digit_char(b)];
    let s3 = seq![digit_char(a), digit_char(b), digit_char(c)];
    let s = seq![digit_char(a), digit_char(b), digit_char(c), digit_char(e)];
    assert(s1.drop_last() =~= Seq::<char>::empty());
    assert(decimal_value(Seq::<char>::empty()) == 0);
    assert(s1.last() == digit_char(a));
    assert(decimal_value(s1) == a);
    assert(s2.drop_last() =~= s1);
    assert(s2.last() == digit_char(b));
    assert(decimal_value(s2) == 10 * a + b);
    assert(s3.drop_last() =~= s2);
    assert(s3.last() == digit_char(c));
    assert(decimal_value(s3) == 100 * a + 10 * b + c);
    assert(s.drop_last() =~= s3);
    assert(s.last() == digit_char(e));
    assert(decimal_value(s) == 1000 * a + 100 * b + 10 * c + e);
    assert(all_digits(s));
}

proof fn lemma_month_length(y: nat, m: nat)
    requires
        1 <= m <= 12,
    ensures
        month_length(y, m) == days_in_month(m, y % 4 == 0 && (y % 100 != 0 || y % 400 == 0)),
{
    let l = seq![31nat, if is_leap_year(y) { 29nat } else { 28nat }, 31nat, 30nat, 31nat, 30nat, 31nat, 31nat, 30nat,
        31nat, 30nat, 31nat];
    assert(month_length(y, m) == l[m - 1]);
    if m == 1 { assert(l[0] == 31); }
    else if m == 2 { assert(l[1] == if is_leap_year(y) { 29nat } else { 28nat }); }
    else if m == 3 { assert(l[2] == 31); }
    else if m == 4 { assert(l[3] == 30); }
    else if m == 5 { assert(l[4] == 31); }
    else if m == 6 { assert(l[5] == 30); }
    else if m == 7 { assert(l[6] == 31); }
    else if m == 8 { assert(l[7] == 31); }
    else if m == 9 { assert(l[8] == 30); }
    else if m == 10 { assert(l[9] == 31); }
    else if m == 11 { assert(l[10] == 30); }
    else { assert(l[11] == 31); }
}

proof fn lemma_date_fields(y: Seq<nat>, m: Seq<nat>, d: Seq<nat>)
    requires
        y.len() == 4,
        m.len() == 2,
        d.len() == 2,
        digits_ok(y),
        digits_ok(m),
        digits_ok(d),
    ensures
        date_fields_ok(date_text(y, m, d)) == ({
            let year = 1000 * y[0] + 100 * y[1] + 10 * y[2] + y[3];
            let month = 10 * m[0] + m[1];
            let day = 10 * d[0] + d[1];
            1 <= month <= 12 && day <= month_length(year, month)
        }),
{
    let v = date_text(y, m, d);
    assert(y[0] < 10 && y[1] < 10 && y[2] < 10 && y[3] < 10);
    assert(m[0] < 10 && m[1] < 10 && d[0] < 10 && d[1] < 10);
    assert(v.subrange(0, 4) =~= seq![digit_char(y[0]), digit_char(y[1]), digit_char(y[2]), digit_char(y[3])]);
    assert(v.subrange(5, 7) =~= seq![digit_char(m[0]), digit_char(m[1])]);
    assert(v.subrange(8, 10) =~= seq![digit_char(d[0]), digit_char(d[1])]);
    lemma_four_digits(y[0], y[1], y[2], y[3]);
    lemma_two_digits(m[0], m[1]);
    lemma_two_digits(d[0], d[1]);
    let year = 1000 * y[0] + 100 * y[1] + 10 * y[2] + y[3];
    let month = 10 * m[0] + m[1];
    if 1 <= month <= 12 {
        lemma_month_length(year, month);
    }
}

/// The calendar check of `format: "date"` on a text `YYYY-MM-DD` of
/// digits accepts exactly the days that exist: month 1 to 12, and a day
/// no later than the month's length in the Gregorian calendar (31 in
/// January, March, May, July, August, October and December; 30 in April,
/// June, September and November; 29 in February of a leap year, else 28).
pub proof fn law_date_calendar(y: Seq<nat>, m: Seq<nat>, d: Seq<nat>)
    requires
        y.len() == 4,
        m.len() == 2,
        d.len() == 2,
        digits_ok(y),
        digits_ok(m),
        digits_ok(d),
    ensures
        ({
            let year = 1000 * y[0] + 100 * y[1] + 10 * y[2] + y[3];
            let month = 10 * m[0] + m[1];
            let day = 10 * d[0] + d[1];
            &&& date_fields_ok(date_text(y, m, d)) == (1 <= month <= 12 && day <= month_length(year, month))
            &&& format_ok("date"@, date_text(y, m, d)) == (spec_safe_regex_test(DATE_PATTERN@, date_text(y, m, d))
                && 1 <= month <= 12 && day <= month_length(year, month))
        }),
{
    lemma_date_fields(y, m, d);
    reveal_strlit("date");
    reveal_strlit("email");
    assert("date"@[0] != "email"@[0]);
}

/// Whether a string satisfies a `format`; unknown formats accept anything.
pub open spec fn format_ok(f: Seq<char>, v: Seq<char>) -> bool {
    if f == "email"@ {
        spec_safe_regex_test(EMAIL_PATTERN@, v)
    } else if f == "date"@ {
        spec_safe_regex_test(DATE_PATTERN@, v) && date_fields_ok(v)
    } else if f == "date-time"@ {
        spec_safe_regex_test(DATE_TIME_PATTERN@, v)
    } else if f == "time"@ {
        spec_safe_regex_test(TIME_PATTERN@, v)
    } else if f == "hostname"@ {
        spec_safe_regex_test(HOSTNAME_PATTERN@, v)
    } else if f == "ipv4"@ {
        spec_safe_regex_test(IPV4_PATTERN@, v)
    } else if f == "ipv6"@ {
        spec_is_ipv6(v)
    } else if f == "uri"@ || f == "uri-reference"@ {
        spec_safe_regex_test(URI_PATTERN@, v)
    } else if f == "uuid"@ {
        spec_safe_regex_test(UUID_PATTERN@, v)
    } else if f == "duration"@ {
        spec_safe_regex_test(DURATION_PATTERN@, v) && v != "P"@
    } else {
        true
    }
}

// ── Validity ──

/// Some type name of the list matches.
pub open spec fn types_match(ts: Seq<Seq<char>>, v: Json) -> bool {
    exists|i: int| 0 <= i < ts.len() && spec_match_schema_type(v, #[trigger] ts[i])
}

pub open spec fn type_ok(s: SchemaModel, v: Json) -> bool {
    match s.type_ {
        Some(TypeModel::Single(t)) => spec_match_schema_type(v, t),
        Some(TypeModel::Array(ts)) => types_match(ts, v),
        None => true,
    }
}

pub open spec fn enum_ok(s: SchemaModel, v: Json) -> bool {
    match s.enum_ {
        Some(es) => es.contains(v),
        None => true,
    }
}

pub open spec fn const_ok(s: SchemaModel, v: Json) -> bool {
    match s.const_ {
        Some(c) => c == v,
        None => true,
    }
}

/// The numeric keywords, on the binary64 value of the number.
pub open spec fn number_ok(s: SchemaModel, n: JsonNumber) -> bool {
    let x = number_bits(n);
    &&& (match s.minimum { Some(m) => !spec_f64_lt(x, m), None => true })
    &&& (match s.maximum { Some(m) => !spec_f64_lt(m, x), None => true })
    &&& (match s.exclusive_minimum { Some(m) => !spec_f64_le(x, m), None => true })
    &&& (match s.exclusive_maximum { Some(m) => !spec_f64_le(m, x), None => true })
    &&& (match s.multiple_of { Some(m) => !not_multiple(x, m), None => true })
}

/// The string keywords; lengths count characters.
pub open spec fn string_ok(s: SchemaModel, t: Seq<char>) -> bool {
    &&& (match s.min_length { Some(m) => t.len() >= m, None => true })
    &&& (match s.max_length { Some(m) => t.len() <= m, None => true })
    &&& (match s.pattern { Some(p) => spec_safe_regex_test(p, t), None => true })
    &&& (match s.format { Some(f) => t.len() == 0 || format_ok(f, t), None => true })
}

/// What a shallow validation checks.
pub open spec fn shallow_ok(s: SchemaModel, v: Json) -> bool {
    &&& type_ok(s, v)
    &&& enum_ok(s, v)
    &&& const_ok(s, v)
    &&& (match v { Json::Number(n) => number_ok(s, n), _ => true })
    &&& (match v { Json::Str(t) => string_ok(s, t), _ => true })
}

/// Whether `v` is valid against `s`, every keyword checked.
pub open spec fn full_valid(s: SchemaModel, v: Json) -> bool
    decreases s, 2nat, 0nat,
{
    shallow_ok(s, v) && applicators_ok(s, v) && array_ok(s, v) && object_ok(s, v)
}

/// Each listed property that the object has brings its dependents.
pub open spec fn dep_required_ok(d: Seq<(Seq<char>, Seq<Seq<char>>)>, o: Seq<(Seq<char>, Json)>) -> bool {
    forall|i: int, j: int|
        #![trigger d[i].1[j]]
        0 <= i < d.len() && obj_has(o, d[i].0) && 0 <= j < d[i].1.len() ==> obj_has(o, d[i].1[j])
}

/// The keywords that apply subschemas to the value itself.
pub open spec fn applicators_ok(s: SchemaModel, v: Json) -> bool
    decreases s, 1nat, 0nat,
{
    &&& cond_ok(s, v)
    &&& all_of_ok(s, v)
    &&& any_of_ok(s, v)
    &&& one_of_ok(s, v)
    &&& not_ok(s, v)
    &&& dependencies_ok(s, v)
}

/// `if`/`then`/`else`: `then` applies when `if` accepts, else `else`.
pub open spec fn cond_ok(s: SchemaModel, v: Json) -> bool
    decreases s, 0nat, 0nat,
{
    match s.if_ {
        Some(c) => if full_valid(*c, v) {
            match s.then_ { Some(t) => full_valid(*t, v), None => true }
        } else {
            match s.else_ { Some(e) => full_valid(*e, v), None => true }
        },
        None => true,
    }
}

/// `allOf`: every subschema accepts.
pub open spec fn all_of_ok(s: SchemaModel, v: Json) -> bool
    decreases s, 0nat, 0nat,
{
    match s.all_of {
        Some(l) => all_valid(l, v),
        None => true,
    }
}

/// `anyOf`: some subschema accepts (none of an empty list does).
pub open spec fn any_of_ok(s: SchemaModel, v: Json) -> bool
    decreases s, 0nat, 0nat,
{
    match s.any_of {
        Some(l) => some_valid(l, v),
        None => true,
    }
}

/// `oneOf`: exactly one subschema accepts.
pub open spec fn one_of_ok(s: SchemaModel, v: Json) -> bool
    decreases s, 0nat, 0nat,
{
    match s.one_of {
        Some(l) => one_of_count(l, v, l.len()) == 1,
        None => true,
    }
}

/// `not`: the subschema rejects.
pub open spec fn not_ok(s: SchemaModel, v: Json) -> bool
    decreases s, 0nat, 0nat,
{
    match s.not {
        Some(n) => !full_valid(*n, v),
        None => true,
    }
}

/// `dependentRequired` and `dependentSchemas`, on objects.
pub open spec fn dependencies_ok(s: SchemaModel, v: Json) -> bool
    decreases s, 0nat, 0nat,
{
    match v {
        Json::Object(o) => (match s.dependent_required {
            Some(d) => dep_required_ok(d, o),
            None => true,
        }) && match s.dependent_schemas {
            Some(ds) => dep_schemas_valid(ds, o, v),
            None => true,
        },
        _ => true,
    }
}

/// Every schema of `l` accepts `v`.
pub open spec fn all_valid(l: Seq<SchemaModel>, v: Json) -> bool
    decreases l, 0nat, 0nat,
{
    forall|i: int| 0 <= i < l.len() ==> full_valid(#[trigger] l[i], v)
}

/// Some schema of `l` accepts `v`.
pub open spec fn some_valid(l: Seq<SchemaModel>, v: Json) -> bool
    decreases l, 0nat, 0nat,
{
    exists|i: int| 0 <= i < l.len() && full_valid(#[trigger] l[i], v)
}

/// The schema of each entry whose property the object `o` has accepts `v`.
pub open spec fn dep_schemas_valid(ds: Seq<(Seq<char>, SchemaModel)>, o: Seq<(Seq<char>, Json)>, v: Json) -> bool
    decreases ds, 0nat, 0nat,
{
    forall|i: int| 0 <= i < ds.len() && obj_has(o, ds[i].0) ==> full_valid(#[trigger] ds[i].1, v)
}

/// How many of the first `n` schemas of `l` accept `v`.
pub open spec fn one_of_count(l: Seq<SchemaModel>, v: Json, n: nat) -> nat
    decreases l, 0nat, n,
{
    if n == 0 || n > l.len() {
        0
    } else {
        one_of_count(l, v, (n - 1) as nat) + if full_valid(l[n - 1], v) { 1nat } else { 0nat }
    }
}

/// How many of the first `n` items the `contains` subschema accepts.
pub open spec fn contains_count(s: SchemaModel, a: Seq<Json>, n: nat) -> nat
    decreases s, 0nat, n,
{
    match s.contains {
        Some(c) => if n == 0 || n > a.len() {
            0
        } else {
            contains_count(s, a, (n - 1) as nat) + if full_valid(*c, a[n - 1]) { 1nat } else { 0nat }
        },
        None => 0,
    }
}

pub open spec fn list_len(l: Option<Seq<SchemaModel>>) -> nat {
    match l {
        Some(x) => x.len(),
        None => 0,
    }
}

/// `minContains` (or, without it, at least one) and `maxContains`.
pub open spec fn contains_bounds_ok(s: SchemaModel, count: nat) -> bool {
    &&& (match s.min_contains { Some(m) => count >= m, None => count != 0 })
    &&& (match s.max_contains { Some(m) => count <= m, None => true })
}

pub open spec fn array_ok(s: SchemaModel, v: Json) -> bool
    decreases s, 1nat, 1nat,
{
    match v {
        Json::Array(a) => array_seq_ok(s, a),
        _ => true,
    }
}

/// The array keywords on the items `a`.
pub open spec fn array_seq_ok(s: SchemaModel, a: Seq<Json>) -> bool
    decreases s, 1nat, 0nat,
{
    &&& (match s.min_items { Some(m) => a.len() >= m, None => true })
    &&& (match s.max_items { Some(m) => a.len() <= m, None => true })
    &&& (s.unique_items == Some(true) ==> all_distinct(a))
    &&& (match s.prefix_items {
        Some(p) => prefix_valid(p, a),
        None => true,
    })
    &&& (match s.items {
        Some(it) => items_valid(*it, list_len(s.prefix_items), a),
        None => true,
    })
    &&& (match s.contains {
        Some(c) => contains_bounds_ok(s, contains_count(s, a, a.len())),
        None => true,
    })
}

/// No two items are equal.
pub open spec fn all_distinct(a: Seq<Json>) -> bool {
    forall|i: int, j: int| 0 <= i < j < a.len() ==> #[trigger] a[i] != #[trigger] a[j]
}

/// Each item with a schema at its position in `p` is accepted by it.
pub open spec fn prefix_valid(p: Seq<SchemaModel>, a: Seq<Json>) -> bool
    decreases p, 0nat, 0nat,
{
    forall|i: int| 0 <= i < p.len() && i < a.len() ==> full_valid(#[trigger] p[i], a[i])
}

/// The items from `start` on are accepted by `it`.
pub open spec fn items_valid(it: SchemaModel, start: nat, a: Seq<Json>) -> bool
    decreases it, 3nat, 0nat,
{
    forall|i: int| start <= i < a.len() ==> full_valid(it, #[trigger] a[i])
}

pub open spec fn has_key(x: Seq<(Seq<char>, SchemaModel)>, k: Seq<char>) -> bool {
    exists|i: int| 0 <= i < x.len() && #[trigger] x[i].0 == k
}

pub open spec fn matches_pattern(x: Seq<(Seq<char>, SchemaModel)>, k: Seq<char>) -> bool {
    exists|i: int| 0 <= i < x.len() && spec_safe_regex_test(#[trigger] x[i].0, k)
}

/// A property that neither `properties` names nor a `patternProperties`
/// pattern matches.
pub open spec fn is_additional(s: SchemaModel, k: Seq<char>) -> bool {
    &&& !(match s.properties { Some(p) => has_key(p, k), None => false })
    &&& !(match s.pattern_properties { Some(pp) => matches_pattern(pp, k), None => false })
}

/// Every required name is a property of `o`.
pub open spec fn required_present(r: Seq<Seq<char>>, o: Seq<(Seq<char>, Json)>) -> bool {
    forall|i: int| 0 <= i < r.len() ==> obj_has(o, #[trigger] r[i])
}

/// Each property of `o` that `p` names is accepted by its schema.
pub open spec fn props_valid(p: Seq<(Seq<char>, SchemaModel)>, o: Seq<(Seq<char>, Json)>) -> bool
    decreases p, 0nat, 0nat,
{
    forall|i: int| 0 <= i < p.len() ==> match obj_get(o, #[trigger] p[i].0) {
        Some(pv) => full_valid(p[i].1, pv),
        None => true,
    }
}

/// Each property of `o` is accepted by the schema of every pattern of
/// `pp` that matches its name.
pub open spec fn patterns_valid(pp: Seq<(Seq<char>, SchemaModel)>, o: Seq<(Seq<char>, Json)>) -> bool
    decreases pp, 0nat, 0nat,
{
    forall|i: int, j: int|
        0 <= i < o.len() && 0 <= j < pp.len() && spec_safe_regex_test(pp[j].0, o[i].0)
            ==> full_valid(#[trigger] pp[j].1, #[trigger] o[i].1)
}

/// Some property of `o` is additional.
pub open spec fn some_additional(s: SchemaModel, o: Seq<(Seq<char>, Json)>) -> bool {
    exists|i: int| 0 <= i < o.len() && is_additional(s, #[trigger] o[i].0)
}

/// Each additional property of `o` is accepted by `b`.
pub open spec fn additional_valid(s: SchemaModel, b: SchemaModel, o: Seq<(Seq<char>, Json)>) -> bool
    decreases b, 3nat, 0nat,
{
    forall|i: int| 0 <= i < o.len() && is_additional(s, o[i].0) ==> full_valid(b, #[trigger] o[i].1)
}

/// Each property name of `o`, as a string, is accepted by `pn`.
pub open spec fn names_valid(pn: SchemaModel, o: Seq<(Seq<char>, Json)>) -> bool
    decreases pn, 3nat, 0nat,
{
    forall|i: int| 0 <= i < o.len() ==> full_valid(pn, Json::Str(#[trigger] o[i].0))
}

pub open spec fn object_ok(s: SchemaModel, v: Json) -> bool
    decreases s, 1nat, 1nat,
{
    match v {
        Json::Object(o) => object_seq_ok(s, o),
        _ => true,
    }
}

/// The object keywords on the entries `o`.
pub open spec fn object_seq_ok(s: SchemaModel, o: Seq<(Seq<char>, Json)>) -> bool
    decreases s, 1nat, 0nat,
{
    &&& (match s.min_properties { Some(m) => o.len() >= m, None => true })
    &&& (match s.max_properties { Some(m) => o.len() <= m, None => true })
    &&& (match s.required {
        Some(r) => required_present(r, o),
        None => true,
    })
    &&& (match s.properties {
        Some(p) => props_valid(p, o),
        None => true,
    })
    &&& (match s.pattern_properties {
        Some(pp) => patterns_valid(pp, o),
        None => true,
    })
    &&& (match s.additional_properties {
        Some(AddPropsModel::Bool(b)) => b || !some_additional(s, o),
        Some(AddPropsModel::Schema(b)) => additional_valid(s, *b, o),
        None => true,
    })
    &&& (match s.property_names {
        Some(pn) => names_valid(*pn, o),
        None => true,
    })
}

/// The validity the default validator decides: a shallow validation checks
/// `type`, `enum`, `const` and the number and string keywords only.
pub open spec fn spec_default_valid(s: SchemaModel, v: Json, shallow: bool) -> bool {
    if shallow {
        shallow_ok(s, v)
    } else {
        full_valid(s, v)
    }
}

// ── The validator interface ──

/// A validator: decides for a schema and a value whether the value is
/// valid, and reports why not.
pub trait Validator {
    /// Whether `validate` reports the value valid.
    spec fn spec_valid(&self, schema: SchemaModel, value: Json, options: ValidatorOptions) -> bool;

    fn validate(
        &self,
        schema: &Schema,
        value: &JsonValue,
        keyword_location: &str,
        instance_location: &str,
        options: &ValidatorOptions,
    ) -> (r: ValidationOutput)
        ensures
            r.valid == self.spec_valid(schema@, value@, *options),
    ;
}

/// The built-in validator for JSON Schema 2020-12 keywords.
pub struct DefaultValidator;

// ── Output helpers ──

pub(crate) fn concat2(a: &str, b: &str) -> (r: String)
    ensures
        r@ == a@ + b@,
{
    let mut s = to_owned_string(a);
    push_str(&mut s, b);
    s
}

fn concat3(a: &str, b: &str, c: &str) -> (r: String)
    ensures
        r@ == a@ + b@ + c@,
{
    let mut s = to_owned_string(a);
    push_str(&mut s, b);
    push_str(&mut s, c);
    s
}

/// `base/escaped-key`.
pub(crate) fn key_location(base: &str, mid: &str, key: &str) -> (r: String)
    ensures
        r@ == base@ + mid@ + spec_escape(key@),
{
    let e = json_pointer_escape(key);
    concat3(base, mid, e.as_str())
}

/// `base` followed by `mid` and a decimal index.
pub(crate) fn index_location(base: &str, mid: &str, i: usize) -> (r: String)
    ensures
        r@ == base@ + mid@ + crate::text::decimal_text(i as nat),
{
    let t = usize_to_text(i);
    concat3(base, mid, t.as_str())
}

fn error_entry(kw: String, inst: String, key: &str, params: Vec<(String, JsonValue)>) -> (r: ValidationOutput)
    ensures
        !r.valid,
        r.keyword_location == kw,
        r.instance_location == inst,
        r.error matches Some(m) && m.key@ == key@ && m.params == params,
        r.errors@.len() == 0,
{
    ValidationOutput {
        valid: false,
        keyword_location: kw,
        instance_location: inst,
        error: Some(ErrorMessage { key: to_owned_string(key), params }),
        errors: Vec::new(),
    }
}

fn one_param(name: &str, v: JsonValue) -> (r: Vec<(String, JsonValue)>) {
    let mut p: Vec<(String, JsonValue)> = Vec::new();
    p.push((to_owned_string(name), v));
    p
}

/// A binary64 value as JSON: a number when finite, else null.
fn float_json(b: u64) -> (r: JsonValue) {
    if ((b >> 52u64) & 0x7ff) != 0x7ff {
        JsonValue::Number(JsonNumber::Float(b))
    } else {
        JsonValue::Null
    }
}

/// An error entry of a validation at keyword location `kw` and instance
/// location `inst`: it failed, it lies under `kw/` and under `inst`, and an
/// entry that names a keyword lies under `kw/<keyword>`.
pub open spec fn entry_under(e: ValidationOutput, kw: Seq<char>, inst: Seq<char>) -> bool {
    &&& !e.valid
    &&& (kw + seq!['/']).is_prefix_of(e.keyword_location@)
    &&& inst.is_prefix_of(e.instance_location@)
    &&& (e.error matches Some(m) ==> (kw + seq!['/'] + m.key@).is_prefix_of(e.keyword_location@))
}

/// The error list `after` extends `before`: the entries of `before` kept in
/// place, each added entry under `kw` and `inst`, and with `fast` at most
/// one added.
pub open spec fn grew_by(before: Seq<ValidationOutput>, after: Seq<ValidationOutput>, kw: Seq<char>, inst: Seq<char>, fast: bool) -> bool {
    &&& before.len() <= after.len()
    &&& forall|i: int| 0 <= i < before.len() ==> #[trigger] after[i] == before[i]
    &&& forall|i: int| before.len() <= i < after.len() ==> entry_under(#[trigger] after[i], kw, inst)
    &&& fast ==> after.len() <= before.len() + 1
}

/// `e` is the entry for the failed keyword `key`, at `kw/<key>`, for the
/// instance at `inst`.
pub open spec fn keyed_entry(e: ValidationOutput, kw: Seq<char>, inst: Seq<char>, key: Seq<char>) -> bool {
    &&& e.error matches Some(m) && m.key@ == key
    &&& e.keyword_location@ == kw + "/"@ + key
    &&& e.instance_location@ == inst
}

/// An entry for the failed keyword `key` is among `errs`.
pub open spec fn reported(errs: Seq<ValidationOutput>, kw: Seq<char>, inst: Seq<char>, key: Seq<char>) -> bool {
    exists|i: int| 0 <= i < errs.len() && #[trigger] keyed_entry(errs[i], kw, inst, key)
}

/// Each of `type`, `enum` and `const` that the value fails has its entry.
pub open spec fn basic_reported(s: SchemaModel, v: Json, kw: Seq<char>, inst: Seq<char>, errs: Seq<ValidationOutput>) -> bool {
    &&& (!type_ok(s, v) ==> reported(errs, kw, inst, "type"@))
    &&& (!enum_ok(s, v) ==> reported(errs, kw, inst, "enum"@))
    &&& (!const_ok(s, v) ==> reported(errs, kw, inst, "const"@))
}

/// The item count bounds and `uniqueItems` on the items `a`.
pub open spec fn counts_ok(s: SchemaModel, a: Seq<Json>) -> bool {
    &&& (match s.min_items { Some(m) => a.len() >= m, None => true })
    &&& (match s.max_items { Some(m) => a.len() <= m, None => true })
    &&& (s.unique_items == Some(true) ==> all_distinct(a))
}

/// Each of `minItems`, `maxItems` and `uniqueItems` that the items `a`
/// fail has its entry.
pub open spec fn array_reported(s: SchemaModel, a: Seq<Json>, kw: Seq<char>, inst: Seq<char>, errs: Seq<ValidationOutput>) -> bool {
    &&& (s.min_items matches Some(m) && a.len() < m ==> reported(errs, kw, inst, "minItems"@))
    &&& (s.max_items matches Some(m) && a.len() > m ==> reported(errs, kw, inst, "maxItems"@))
    &&& (s.unique_items == Some(true) && !all_distinct(a) ==> reported(errs, kw, inst, "uniqueItems"@))
}

/// Each of `minProperties` and `maxProperties` that the entries `o` fail
/// has its entry.
pub open spec fn object_reported(s: SchemaModel, o: Seq<(Seq<char>, Json)>, kw: Seq<char>, inst: Seq<char>, errs: Seq<ValidationOutput>) -> bool {
    &&& (s.min_properties matches Some(m) && o.len() < m ==> reported(errs, kw, inst, "minProperties"@))
    &&& (s.max_properties matches Some(m) && o.len() > m ==> reported(errs, kw, inst, "maxProperties"@))
}

/// The array entries stay reported when the entries are kept in place.
proof fn lemma_array_reported_kept(s: SchemaModel, a: Seq<Json>, kw: Seq<char>, inst: Seq<char>, e: Seq<ValidationOutput>, f: Seq<ValidationOutput>)
    requires
        array_reported(s, a, kw, inst, e),
        grew_by(e, f, kw, inst, false),
    ensures
        array_reported(s, a, kw, inst, f),
{
    if s.min_items matches Some(m) && a.len() < m {
        lemma_reported_kept(e, f, kw, inst, "minItems"@);
    }
    if s.max_items matches Some(m) && a.len() > m {
        lemma_reported_kept(e, f, kw, inst, "maxItems"@);
    }
    if s.unique_items == Some(true) && !all_distinct(a) {
        lemma_reported_kept(e, f, kw, inst, "uniqueItems"@);
    }
}

/// The object entries stay reported when the entries are kept in place.
proof fn lemma_object_reported_kept(s: SchemaModel, o: Seq<(Seq<char>, Json)>, kw: Seq<char>, inst: Seq<char>, e: Seq<ValidationOutput>, f: Seq<ValidationOutput>)
    requires
        object_reported(s, o, kw, inst, e),
        grew_by(e, f, kw, inst, false),
    ensures
        object_reported(s, o, kw, inst, f),
{
    if s.min_properties matches Some(m) && o.len() < m {
        lemma_reported_kept(e, f, kw, inst, "minProperties"@);
    }
    if s.max_properties matches Some(m) && o.len() > m {
        lemma_reported_kept(e, f, kw, inst, "maxProperties"@);
    }
}

/// Entries kept in place stay reported.
pub proof fn lemma_reported_kept(a: Seq<ValidationOutput>, b: Seq<ValidationOutput>, kw: Seq<char>, inst: Seq<char>, key: Seq<char>)
    requires
        reported(a, kw, inst, key),
        a.len() <= b.len(),
        forall|i: int| 0 <= i < a.len() ==> #[trigger] b[i] == a[i],
    ensures
        reported(b, kw, inst, key),
{
    let i = choose|i: int| 0 <= i < a.len() && #[trigger] keyed_entry(a[i], kw, inst, key);
    assert(b[i] == a[i]);
    assert(keyed_entry(b[i], kw, inst, key));
}

/// Each numeric keyword that the number fails has its entry.
pub open spec fn number_reported(s: SchemaModel, n: JsonNumber, kw: Seq<char>, inst: Seq<char>, errs: Seq<ValidationOutput>) -> bool {
    let x = number_bits(n);
    &&& (s.minimum matches Some(m) && spec_f64_lt(x, m) ==> reported(errs, kw, inst, "minimum"@))
    &&& (s.maximum matches Some(m) && spec_f64_lt(m, x) ==> reported(errs, kw, inst, "maximum"@))
    &&& (s.exclusive_minimum matches Some(m) && spec_f64_le(x, m) ==> reported(errs, kw, inst, "exclusiveMinimum"@))
    &&& (s.exclusive_maximum matches Some(m) && spec_f64_le(m, x) ==> reported(errs, kw, inst, "exclusiveMaximum"@))
    &&& (s.multiple_of matches Some(m) && not_multiple(x, m) ==> reported(errs, kw, inst, "multipleOf"@))
}

/// Each string keyword that the string fails has its entry.
pub open spec fn string_reported(s: SchemaModel, t: Seq<char>, kw: Seq<char>, inst: Seq<char>, errs: Seq<ValidationOutput>) -> bool {
    &&& (s.min_length matches Some(m) && t.len() < m ==> reported(errs, kw, inst, "minLength"@))
    &&& (s.max_length matches Some(m) && t.len() > m ==> reported(errs, kw, inst, "maxLength"@))
    &&& (s.pattern matches Some(p) && !spec_safe_regex_test(p, t) ==> reported(errs, kw, inst, "pattern"@))
    &&& (s.format matches Some(f) && t.len() != 0 && !format_ok(f, t) ==> reported(errs, kw, inst, "format"@))
}

pub proof fn lemma_prefix3(a: Seq<char>, b: Seq<char>, c: Seq<char>)
    ensures
        a.is_prefix_of(a + b + c),
{
    assert((a + b + c).subrange(0, a.len() as int) =~= a);
}

/// A location `kw + mid + rest` with `mid` starting with `/` lies under `kw/`.
pub proof fn lemma_sub_location(kw: Seq<char>, mid: Seq<char>, rest: Seq<char>)
    requires
        mid.len() > 0,
        mid[0] == '/',
    ensures
        (kw + seq!['/']).is_prefix_of(kw + mid + rest),
{
    assert((kw + mid + rest).subrange(0, kw.len() + 1int) =~= kw + seq!['/']);
}

/// Add an entry for the failed keyword `key`, at `kw/<key><suffix>`, for the
/// instance at `inst_loc` (under `inst`).
fn push_error_at(
    errors: &mut Vec<ValidationOutput>,
    kw: &str,
    suffix: &str,
    inst: &str,
    inst_loc: &str,
    key: &str,
    params: Vec<(String, JsonValue)>,
)
    requires
        inst@.is_prefix_of(inst_loc@),
    ensures
        final(errors)@.len() == old(errors)@.len() + 1,
        final(errors)@ == old(errors)@.push(final(errors)@.last()),
        final(errors)@.last().error matches Some(m) && m.key@ == key@,
        final(errors)@.last().keyword_location@ == kw@ + "/"@ + key@ + suffix@,
        final(errors)@.last().instance_location@ == inst_loc@,
        entry_under(final(errors)@.last(), kw@, inst@),
{
    let loc = concat2(concat3(kw, "/", key).as_str(), suffix);
    let e = error_entry(loc, to_owned_string(inst_loc), key, params);
    proof {
        reveal_strlit("/");
        assert("/"@ == seq!['/']);
        lemma_prefix3(kw@ + seq!['/'], key@, suffix@);
        lemma_prefix3(kw@ + seq!['/'] + key@, suffix@, Seq::<char>::empty());
        assert(kw@ + seq!['/'] + key@ + suffix@ + Seq::<char>::empty() =~= kw@ + seq!['/'] + key@ + suffix@);
    }
    errors.push(e);
}

/// Add an entry for the failed keyword `key`, at `kw/<key>`, for the
/// instance at `inst`.
fn push_error(errors: &mut Vec<ValidationOutput>, kw: &str, inst: &str, key: &str, params: Vec<(String, JsonValue)>)
    ensures
        final(errors)@.len() == old(errors)@.len() + 1,
        final(errors)@ == old(errors)@.push(final(errors)@.last()),
        final(errors)@.last().error matches Some(m) && m.key@ == key@,
        final(errors)@.last().keyword_location@ == kw@ + "/"@ + key@,
        final(errors)@.last().instance_location@ == inst@,
        entry_under(final(errors)@.last(), kw@, inst@),
{
    proof {
        assert(inst@.subrange(0, inst@.len() as int) =~= inst@);
        reveal_strlit("");
        assert(kw@ + "/"@ + key@ + ""@ =~= kw@ + "/"@ + key@);
    }
    push_error_at(errors, kw, "", inst, inst, key, params);
}

/// A failed subschema entry at `kw + mid + rest` (with `mid` starting with
/// `/`) for the instance at `inst + irest` lies under `kw` and `inst`.
pub proof fn lemma_child_entry(
    child: ValidationOutput,
    kw: Seq<char>,
    mid: Seq<char>,
    rest: Seq<char>,
    inst: Seq<char>,
    irest: Seq<char>,
)
    requires
        !child.valid,
        child.error is None,
        mid.len() > 0,
        mid[0] == '/',
        child.keyword_location@ =~= kw + mid + rest,
        child.instance_location@ =~= inst + irest,
    ensures
        entry_under(child, kw, inst),
{
    lemma_sub_location(kw, mid, rest);
    lemma_prefix3(inst, irest, Seq::<char>::empty());
    assert(inst + irest + Seq::<char>::empty() =~= inst + irest);
}

/// Errors grown twice, the first time by nothing when `fast`, have grown.
pub proof fn lemma_grew_trans(
    a: Seq<ValidationOutput>,
    b: Seq<ValidationOutput>,
    c: Seq<ValidationOutput>,
    kw: Seq<char>,
    inst: Seq<char>,
    fast: bool,
)
    requires
        grew_by(a, b, kw, inst, fast),
        grew_by(b, c, kw, inst, fast),
        fast ==> b.len() == a.len(),
    ensures
        grew_by(a, c, kw, inst, fast),
{
    assert forall|i: int| a.len() <= i < c.len() implies entry_under(#[trigger] c[i], kw, inst) by {
        if i < b.len() {
            assert(c[i] == b[i]);
        }
    }
    assert forall|i: int| 0 <= i < a.len() implies #[trigger] c[i] == a[i] by {
        assert(c[i] == b[i]);
    }
}

/// Add the failed entry of a subschema's validation.
fn push_child(errors: &mut Vec<ValidationOutput>, child: ValidationOutput, kw: &str, inst: &str)
    requires
        entry_under(child, kw@, inst@),
    ensures
        final(errors)@ == old(errors)@.push(child),
{
    errors.push(child);
}

// ── Formats ──

/// The value of `v[from..to]` when it is all ASCII digits, else 0.
fn num_field(v: &Vec<char>, from: usize, to: usize) -> (r: u32)
    requires
        from < to <= v@.len(),
        to - from <= 4,
    ensures
        r == num_or_zero(v@.subrange(from as int, to as int)),
{
    let ghost d = v@.subrange(from as int, to as int);
    let mut acc: u32 = 0;
    let mut k: usize = from;
    assert(d.take(0) =~= Seq::<char>::empty());
    while k < to
        invariant
            from <= k <= to <= v@.len(),
            to - from <= 4,
            d == v@.subrange(from as int, to as int),
            all_digits(d.take((k - from) as int)),
            acc == decimal_value(d.take((k - from) as int)),
            acc < (if k - from == 0 { 1u32 } else if k - from == 1 { 10u32 } else if k - from == 2 { 100u32 } else if k - from == 3 { 1000u32 } else { 10000u32 }),
        decreases to - k,
    {
        let c = v[k];
        if !('0' <= c && c <= '9') {
            assert(!all_digits(d)) by {
                assert(d[(k - from) as int] == c);
            }
            return 0;
        }
        assert(d.take((k - from + 1) as int).drop_last() =~= d.take((k - from) as int));
        assert(d.take((k - from + 1) as int).last() == c);
        acc = acc * 10 + ((c as u32) - ('0' as u32));
        k = k + 1;
    }
    assert(d.take((to - from) as int) =~= d);
    acc
}

fn date_fields(value: &str) -> (r: bool)
    ensures
        r == date_fields_ok(value@),
{
    let v = chars_of(value);
    if v.len() < 10 {
        return false;
    }
    let y = num_field(&v, 0, 4);
    let m = num_field(&v, 5, 7);
    let d = num_field(&v, 8, 10);
    let leap = y % 4 == 0 && (y % 100 != 0 || y % 400 == 0);
    let dim: u32 = if m == 2 {
        if leap { 29 } else { 28 }
    } else if m == 4 || m == 6 || m == 9 || m == 11 {
        30
    } else {
        31
    };
    1 <= m && m <= 12 && d <= dim
}

fn validate_format(format: &str, value: &str) -> (r: bool)
    ensures
        r == format_ok(format@, value@),
{
    if str_eq(format, "email") {
        safe_regex_test(EMAIL_PATTERN, value)
    } else if str_eq(format, "date") {
        safe_regex_test(DATE_PATTERN, value) && date_fields(value)
    } else if str_eq(format, "date-time") {
        safe_regex_test(DATE_TIME_PATTERN, value)
    } else if str_eq(format, "time") {
        safe_regex_test(TIME_PATTERN, value)
    } else if str_eq(format, "hostname") {
        safe_regex_test(HOSTNAME_PATTERN, value)
    } else if str_eq(format, "ipv4") {
        safe_regex_test(IPV4_PATTERN, value)
    } else if str_eq(format, "ipv6") {
        is_ipv6(value)
    } else if str_eq(format, "uri") || str_eq(format, "uri-reference") {
        safe_regex_test(URI_PATTERN, value)
    } else if str_eq(format, "uuid") {
        safe_regex_test(UUID_PATTERN, value)
    } else if str_eq(format, "duration") {
        safe_regex_test(DURATION_PATTERN, value) && !str_eq(value, "P")
    } else {
        true
    }
}


// ── The default validator ──

proof fn lemma_items(v: JsonValue)
    requires
        v is Array,
    ensures
        v@ is Array,
        v@->Array_0.len() == v->Array_0@.len(),
        forall|i: int| 0 <= i < v->Array_0@.len() ==> #[trigger] v@->Array_0[i] == v->Array_0@[i]@,
{
}

proof fn lemma_entries(v: JsonValue)
    requires
        v is Object,
    ensures
        v@ is Object,
        v@->Object_0 == entries_view(v->Object_0@),
{
    let m = v->Object_0;
    assert(v@->Object_0 =~= entries_view(m@));
}

/// Whether one of the type names matches.
fn any_type_matches(value: &JsonValue, types: &Vec<String>) -> (r: bool)
    ensures
        r == types_match(str_seq_model(types@), value@),
{
    let mut i: usize = 0;
    while i < types.len()
        invariant
            i <= types@.len(),
            forall|k: int| 0 <= k < i ==> !spec_match_schema_type(value@, #[trigger] str_seq_model(types@)[k]),
        decreases types.len() - i,
    {
        if match_schema_type(value, types[i].as_str()) {
            assert(str_seq_model(types@)[i as int] == types@[i as int]@);
            return true;
        }
        i = i + 1;
    }
    false
}

/// Whether a list holds a value equal to `value`.
fn contains_value(list: &Vec<JsonValue>, value: &JsonValue) -> (r: bool)
    ensures
        r == crate::schema::json_seq_model(list@).contains(value@),
{
    let ghost m = crate::schema::json_seq_model(list@);
    let mut i: usize = 0;
    while i < list.len()
        invariant
            i <= list@.len(),
            m == crate::schema::json_seq_model(list@),
            forall|k: int| 0 <= k < i ==> m[k] != value@,
        decreases list.len() - i,
    {
        if deep_equal(value, &list[i]) {
            assert(m[i as int] == value@);
            return true;
        }
        i = i + 1;
    }
    false
}

/// Whether two items of an array are equal.
fn has_duplicate(value: &JsonValue) -> (r: bool)
    requires
        value is Array,
    ensures
        r == !all_distinct(value@->Array_0),
{
    let list = match value {
        JsonValue::Array(a) => a,
        _ => {
            return false;
        },
    };
    proof {
        lemma_items(*value);
    }
    let ghost a = value@->Array_0;
    let n = list.len();
    let mut i: usize = 0;
    while i < n
        invariant
            n == list@.len(),
            a == value@->Array_0,
            a.len() == n,
            forall|t: int| 0 <= t < n ==> #[trigger] a[t] == list@[t]@,
            i <= n,
            forall|p: int, q: int| 0 <= p < i && p < q < n ==> #[trigger] a[p] != #[trigger] a[q],
        decreases n - i,
    {
        let mut j: usize = i + 1;
        while j < n
            invariant
                n == list@.len(),
                a == value@->Array_0,
                a.len() == n,
                forall|t: int| 0 <= t < n ==> #[trigger] a[t] == list@[t]@,
                i < n,
                i + 1 <= j <= n,
                forall|p: int, q: int| 0 <= p < i && p < q < n ==> #[trigger] a[p] != #[trigger] a[q],
                forall|q: int| i < q < j ==> a[i as int] != #[trigger] a[q],
            decreases n - j,
        {
            assert(a[i as int] == list@[i as int]@ && a[j as int] == list@[j as int]@);
            if deep_equal(&list[i], &list[j]) {
                return true;
            }
            j = j + 1;
        }
        i = i + 1;
    }
    false
}

impl DefaultValidator {
    pub fn new() -> (r: Self) {
        DefaultValidator
    }

    /// `type`, `enum` and `const`.
    fn validate_basic(
        &self,
        schema: &Schema,
        value: &JsonValue,
        kw: &str,
        inst: &str,
        errors: &mut Vec<ValidationOutput>,
        options: &ValidatorOptions,
    )
        ensures
            grew_by(old(errors)@, final(errors)@, kw@, inst@, options.fast_fail),
            (final(errors)@.len() == 0) == (old(errors)@.len() == 0 && type_ok(schema@, value@) && enum_ok(schema@, value@)
                && const_ok(schema@, value@)),
            !options.fast_fail ==> basic_reported(schema@, value@, kw@, inst@, final(errors)@),
    {
        proof {
            lemma_schema_fields(*schema);
        }
        let ghost mut at: Seq<int> = seq![0int, 0int, 0int];
        match &schema.type_ {
            Some(tv) => {
                let matched = match tv {
                    SchemaTypeValue::Single(t) => match_schema_type(value, t.as_str()),
                    SchemaTypeValue::Array(types) => any_type_matches(value, types),
                };
                if !matched {
                    push_error(errors, kw, inst, "type", Vec::new());
                    proof {
                        at = at.update(0, errors@.len() - 1);
                        assert(keyed_entry(errors@[at[0]], kw@, inst@, "type"@));
                    }
                    if options.fast_fail {
                        return;
                    }
                }
            },
            None => {},
        }
        match &schema.enum_ {
            Some(es) => {
                if !contains_value(es, value) {
                    push_error(errors, kw, inst, "enum", Vec::new());
                    proof {
                        at = at.update(1, errors@.len() - 1);
                        assert(keyed_entry(errors@[at[1]], kw@, inst@, "enum"@));
                    }
                    if options.fast_fail {
                        return;
                    }
                }
            },
            None => {},
        }
        match &schema.const_ {
            Some(c) => {
                if !deep_equal(value, c) {
                    push_error(errors, kw, inst, "const", Vec::new());
                    proof {
                        at = at.update(2, errors@.len() - 1);
                        assert(keyed_entry(errors@[at[2]], kw@, inst@, "const"@));
                    }
                }
            },
            None => {},
        }
        proof {
            if !options.fast_fail {
                if !type_ok(schema@, value@) {
                    assert(keyed_entry(errors@[at[0]], kw@, inst@, "type"@));
                }
                if !enum_ok(schema@, value@) {
                    assert(keyed_entry(errors@[at[1]], kw@, inst@, "enum"@));
                }
                if !const_ok(schema@, value@) {
                    assert(keyed_entry(errors@[at[2]], kw@, inst@, "const"@));
                }
            }
        }
    }

    /// The numeric keywords.
    fn validate_number(
        &self,
        schema: &Schema,
        n: &JsonNumber,
        kw: &str,
        inst: &str,
        errors: &mut Vec<ValidationOutput>,
        options: &ValidatorOptions,
    )
        ensures
            grew_by(old(errors)@, final(errors)@, kw@, inst@, options.fast_fail),
            (final(errors)@.len() == 0) == (old(errors)@.len() == 0 && number_ok(schema@, *n)),
            !options.fast_fail ==> number_reported(schema@, *n, kw@, inst@, final(errors)@),
    {
        proof {
            lemma_schema_fields(*schema);
        }
        let x = number_to_f64_bits(n);
        let ghost mut at: Seq<int> = seq![0int, 0int, 0int, 0int, 0int];
        if let Some(m) = schema.minimum {
            if f64_lt(x, m) {
                push_error(errors, kw, inst, "minimum", one_param("minimum", float_json(m)));
                proof {
                    at = at.update(0, errors@.len() - 1);
                    assert(keyed_entry(errors@[at[0]], kw@, inst@, "minimum"@));
                }
                if options.fast_fail {
                    return;
                }
            }
        }
        if let Some(m) = schema.maximum {
            if f64_lt(m, x) {
                push_error(errors, kw, inst, "maximum", one_param("maximum", float_json(m)));
                proof {
                    at = at.update(1, errors@.len() - 1);
                    assert(keyed_entry(errors@[at[1]], kw@, inst@, "maximum"@));
                }
                if options.fast_fail {
                    return;
                }
            }
        }
        if let Some(m) = schema.exclusive_minimum {
            if f64_le(x, m) {
                push_error(errors, kw, inst, "exclusiveMinimum",
                    one_param("exclusiveMinimum", float_json(m)));
                proof {
                    at = at.update(2, errors@.len() - 1);
                    assert(keyed_entry(errors@[at[2]], kw@, inst@, "exclusiveMinimum"@));
                }
                if options.fast_fail {
                    return;
                }
            }
        }
        if let Some(m) = schema.exclusive_maximum {
            if f64_le(m, x) {
                push_error(errors, kw, inst, "exclusiveMaximum",
                    one_param("exclusiveMaximum", float_json(m)));
                proof {
                    at = at.update(3, errors@.len() - 1);
                    assert(keyed_entry(errors@[at[3]], kw@, inst@, "exclusiveMaximum"@));
                }
                if options.fast_fail {
                    return;
                }
            }
        }
        if let Some(m) = schema.multiple_of {
            if is_not_multiple(x, m) {
                push_error(errors, kw, inst, "multipleOf", one_param("multipleOf", float_json(m)));
                proof {
                    at = at.update(4, errors@.len() - 1);
                    assert(keyed_entry(errors@[at[4]], kw@, inst@, "multipleOf"@));
                }
            }
        }
        proof {
            if !options.fast_fail {
                let xs = schema@;
                if xs.minimum matches Some(m) && spec_f64_lt(x, m) {
                    assert(keyed_entry(errors@[at[0]], kw@, inst@, "minimum"@));
                }
                if xs.maximum matches Some(m) && spec_f64_lt(m, x) {
                    assert(keyed_entry(errors@[at[1]], kw@, inst@, "maximum"@));
                }
                if xs.exclusive_minimum matches Some(m) && spec_f64_le(x, m) {
                    assert(keyed_entry(errors@[at[2]], kw@, inst@, "exclusiveMinimum"@));
                }
                if xs.exclusive_maximum matches Some(m) && spec_f64_le(m, x) {
                    assert(keyed_entry(errors@[at[3]], kw@, inst@, "exclusiveMaximum"@));
                }
                if xs.multiple_of matches Some(m) && not_multiple(x, m) {
                    assert(keyed_entry(errors@[at[4]], kw@, inst@, "multipleOf"@));
                }
            }
        }
    }

    /// The string keywords.
    fn validate_string(
        &self,
        schema: &Schema,
        t: &str,
        kw: &str,
        inst: &str,
        errors: &mut Vec<ValidationOutput>,
        options: &ValidatorOptions,
    )
        ensures
            grew_by(old(errors)@, final(errors)@, kw@, inst@, options.fast_fail),
            (final(errors)@.len() == 0) == (old(errors)@.len() == 0 && string_ok(schema@, t@)),
            !options.fast_fail ==> string_reported(schema@, t@, kw@, inst@, final(errors)@),
    {
        proof {
            lemma_schema_fields(*schema);
        }
        let count = t.unicode_len();
        let ghost mut at: Seq<int> = seq![0int, 0int, 0int, 0int];
        if let Some(m) = schema.min_length {
            if (count as u64) < m {
                push_error(errors, kw, inst, "minLength",
                    one_param("minLength", JsonValue::Number(JsonNumber::PosInt(m))));
                proof {
                    at = at.update(0, errors@.len() - 1);
                    assert(keyed_entry(errors@[at[0]], kw@, inst@, "minLength"@));
                }
                if options.fast_fail {
                    return;
                }
            }
        }
        if let Some(m) = schema.max_length {
            if (count as u64) > m {
                push_error(errors, kw, inst, "maxLength",
                    one_param("maxLength", JsonValue::Number(JsonNumber::PosInt(m))));
                proof {
                    at = at.update(1, errors@.len() - 1);
                    assert(keyed_entry(errors@[at[1]], kw@, inst@, "maxLength"@));
                }
                if options.fast_fail {
                    return;
                }
            }
        }
        if let Some(p) = &schema.pattern {
            if !safe_regex_test(p.as_str(), t) {
                push_error(errors, kw, inst, "pattern",
                    one_param("pattern", JsonValue::String(p.clone())));
                proof {
                    at = at.update(2, errors@.len() - 1);
                    assert(keyed_entry(errors@[at[2]], kw@, inst@, "pattern"@));
                }
                if options.fast_fail {
                    return;
                }
            }
        }
        if let Some(f) = &schema.format {
            if count != 0 && !validate_format(f.as_str(), t) {
                push_error(errors, kw, inst, "format",
                    one_param("format", JsonValue::String(f.clone())));
                proof {
                    at = at.update(3, errors@.len() - 1);
                    assert(keyed_entry(errors@[at[3]], kw@, inst@, "format"@));
                }
            }
        }
        proof {
            if !options.fast_fail {
                let xs = schema@;
                if xs.min_length matches Some(m) && t@.len() < m {
                    assert(keyed_entry(errors@[at[0]], kw@, inst@, "minLength"@));
                }
                if xs.max_length matches Some(m) && t@.len() > m {
                    assert(keyed_entry(errors@[at[1]], kw@, inst@, "maxLength"@));
                }
                if xs.pattern matches Some(p) && !spec_safe_regex_test(p, t@) {
                    assert(keyed_entry(errors@[at[2]], kw@, inst@, "pattern"@));
                }
                if xs.format matches Some(f) && t@.len() != 0 && !format_ok(f, t@) {
                    assert(keyed_entry(errors@[at[3]], kw@, inst@, "format"@));
                }
            }
        }
    }

    /// Every schema of `list` against `value` (`allOf`).
    fn check_all(
        &self,
        list: &Vec<Schema>,
        value: &JsonValue,
        kw: &str,
        inst: &str,
        errors: &mut Vec<ValidationOutput>,
        options: &ValidatorOptions,
    )
        requires
            !options.shallow,
        ensures
            grew_by(old(errors)@, final(errors)@, kw@, inst@, options.fast_fail),
            (final(errors)@.len() == 0) == (old(errors)@.len() == 0 && all_valid(schemas_model(list@), value@)),
        decreases list, 1nat,
    {
        let mut i: usize = 0;
        while i < list.len()
            invariant
                grew_by(old(errors)@, errors@, kw@, inst@, options.fast_fail),
                options.fast_fail ==> errors@.len() == old(errors)@.len(),
                i <= list@.len(),
                !options.shallow,
                (errors@.len() == 0) == (old(errors)@.len() == 0 && forall|k: int|
                    0 <= k < i ==> full_valid(#[trigger] schemas_model(list@)[k], value@)),
            decreases list.len() - i,
        {
            proof {
                lemma_schemas_model_index(list@, i as int);
                assert(decreases_to!(list => list@[i as int]));
            }
            let child = self.check(&list[i], value, index_location(kw, "/allOf/", i).as_str(), inst, options);
            if !child.valid {
                proof {
                    reveal_strlit("/allOf/");
                    lemma_child_entry(child, kw@, "/allOf/"@, crate::text::decimal_text(i as nat), inst@, Seq::<char>::empty());
                }
                push_child(errors, child, kw, inst);
                if options.fast_fail {
                    return;
                }
            }
            i = i + 1;
        }
    }

    /// Whether some schema of `list` accepts `value` (`anyOf`).
    fn any_valid(&self, list: &Vec<Schema>, value: &JsonValue, kw: &str, inst: &str, options: &ValidatorOptions) -> (r: bool)
        requires
            !options.shallow,
        ensures
            r == some_valid(schemas_model(list@), value@),
        decreases list, 1nat,
    {
        let mut i: usize = 0;
        while i < list.len()
            invariant
                i <= list@.len(),
                !options.shallow,
                forall|k: int| 0 <= k < i ==> !full_valid(#[trigger] schemas_model(list@)[k], value@),
            decreases list.len() - i,
        {
            proof {
                lemma_schemas_model_index(list@, i as int);
                assert(decreases_to!(list => list@[i as int]));
            }
            let child = self.check(&list[i], value, index_location(kw, "/anyOf/", i).as_str(), inst, options);
            if child.valid {
                return true;
            }
            i = i + 1;
        }
        false
    }

    /// How many schemas of `list` accept `value` (`oneOf`).
    fn count_valid(&self, list: &Vec<Schema>, value: &JsonValue, kw: &str, inst: &str, options: &ValidatorOptions) -> (r: usize)
        requires
            !options.shallow,
        ensures
            r == one_of_count(schemas_model(list@), value@, list@.len()),
        decreases list, 1nat,
    {
        let ghost l = schemas_model(list@);
        let mut count: usize = 0;
        let mut i: usize = 0;
        while i < list.len()
            invariant
                i <= list@.len(),
                l == schemas_model(list@),
                l.len() == list@.len(),
                !options.shallow,
                count <= i,
                count == one_of_count(l, value@, i as nat),
            decreases list.len() - i,
        {
            proof {
                lemma_schemas_model_index(list@, i as int);
                assert(decreases_to!(list => list@[i as int]));
            }
            let child = self.check(&list[i], value, index_location(kw, "/oneOf/", i).as_str(), inst, options);
            if child.valid {
                count = count + 1;
            }
            i = i + 1;
        }
        count
    }

    /// The `dependentSchemas` entries whose property the object has.
    fn check_dependent_schemas(
        &self,
        ds: &Vec<(String, Schema)>,
        value: &JsonValue,
        kw: &str,
        inst: &str,
        errors: &mut Vec<ValidationOutput>,
        options: &ValidatorOptions,
    )
        requires
            !options.shallow,
            value is Object,
        ensures
            grew_by(old(errors)@, final(errors)@, kw@, inst@, options.fast_fail),
            (final(errors)@.len() == 0) == (old(errors)@.len() == 0 && dep_schemas_valid(schema_map_model(ds@),
                value@->Object_0, value@)),
        decreases ds, 1nat,
    {
        let obj = match value {
            JsonValue::Object(o) => o,
            _ => {
                return;
            },
        };
        proof {
            lemma_entries(*value);
        }
        let mut i: usize = 0;
        while i < ds.len()
            invariant
                grew_by(old(errors)@, errors@, kw@, inst@, options.fast_fail),
                options.fast_fail ==> errors@.len() == old(errors)@.len(),
                i <= ds@.len(),
                !options.shallow,
                *value == JsonValue::Object(*obj),
                value@->Object_0 == entries_view(obj@),
                (errors@.len() == 0) == (old(errors)@.len() == 0 && forall|k: int|
                    0 <= k < i && obj_has(value@->Object_0, schema_map_model(ds@)[k].0)
                        ==> full_valid(#[trigger] schema_map_model(ds@)[k].1, value@)),
            decreases ds.len() - i,
        {
            proof {
                lemma_schema_map_model_index(ds@, i as int);
                assert(decreases_to!(ds => ds@[i as int].1));
                assert(schema_map_model(ds@)[i as int].0 == ds@[i as int].0@);
                assert(schema_map_model(ds@)[i as int].1 == ds@[i as int].1@);
            }
            if obj_find(obj, ds[i].0.as_str()).is_some() {
                let child = self.check(&ds[i].1, value, key_location(kw, "/dependentSchemas/", ds[i].0.as_str()).as_str(),
                    inst, options);
                if !child.valid {
                    proof {
                        reveal_strlit("/dependentSchemas/");
                        lemma_child_entry(child, kw@, "/dependentSchemas/"@, spec_escape(ds@[i as int].0@), inst@, Seq::<char>::empty());
                    }
                    push_child(errors, child, kw, inst);
                    if options.fast_fail {
                        assert(!dep_schemas_valid(schema_map_model(ds@), value@->Object_0, value@));
                        return;
                    }
                }
            }
            i = i + 1;
        }
    }

    /// `dependentRequired`: each listed property needs its dependents.
    fn check_dependent_required(
        dr: &Vec<(String, Vec<String>)>,
        obj: &Vec<(String, JsonValue)>,
        kw: &str,
        inst: &str,
        errors: &mut Vec<ValidationOutput>,
        options: &ValidatorOptions,
    )
        ensures
            grew_by(old(errors)@, final(errors)@, kw@, inst@, options.fast_fail),
            (final(errors)@.len() == 0) == (old(errors)@.len() == 0 && dep_required_ok(
                crate::schema::dep_req_seq_model(dr@), entries_view(obj@))),
    {
        let ghost d = crate::schema::dep_req_seq_model(dr@);
        let ghost o = entries_view(obj@);
        let mut i: usize = 0;
        while i < dr.len()
            invariant
                grew_by(old(errors)@, errors@, kw@, inst@, options.fast_fail),
                options.fast_fail ==> errors@.len() == old(errors)@.len(),
                i <= dr@.len(),
                d == crate::schema::dep_req_seq_model(dr@),
                o == entries_view(obj@),
                (errors@.len() == 0) == (old(errors)@.len() == 0 && forall|p: int, q: int|
                    #![trigger d[p].1[q]]
                    0 <= p < i && obj_has(o, d[p].0) && 0 <= q < d[p].1.len() ==> obj_has(o, d[p].1[q])),
            decreases dr.len() - i,
        {
            assert(d[i as int] == (dr@[i as int].0@, str_seq_model(dr@[i as int].1@)));
            let has = obj_find(obj, dr[i].0.as_str()).is_some();
            if has {
                let deps = &dr[i].1;
                let mut j: usize = 0;
                while j < deps.len()
                    invariant
                        grew_by(old(errors)@, errors@, kw@, inst@, options.fast_fail),
                        options.fast_fail ==> errors@.len() == old(errors)@.len(),
                        i < dr@.len(),
                        j <= deps@.len(),
                        *deps == dr@[i as int].1,
                        d == crate::schema::dep_req_seq_model(dr@),
                        o == entries_view(obj@),
                        obj_has(o, d[i as int].0),
                        (errors@.len() == 0) == (old(errors)@.len() == 0 && (forall|p: int, q: int|
                            #![trigger d[p].1[q]]
                            0 <= p < i && obj_has(o, d[p].0) && 0 <= q < d[p].1.len() ==> obj_has(o, d[p].1[q]))
                            && forall|q: int| 0 <= q < j ==> obj_has(o, #[trigger] d[i as int].1[q])),
                    decreases deps.len() - j,
                {
                    assert(d[i as int].1[j as int] == deps@[j as int]@);
                    if obj_find(obj, deps[j].as_str()).is_none() {
                        let target = key_location(inst, "/", deps[j].as_str());
                        proof {
                            lemma_prefix3(inst@, "/"@, spec_escape(deps@[j as int]@));
                        }
                        push_error_at(errors, kw, key_location("", "/", dr[i].0.as_str()).as_str(), inst, target.as_str(),
                            "dependentRequired", {
                                let mut p: Vec<(String, JsonValue)> = Vec::new();
                                p.push((to_owned_string("source"), JsonValue::String(dr[i].0.clone())));
                                p.push((to_owned_string("target"), JsonValue::String(deps[j].clone())));
                                p
                            });
                        if options.fast_fail {
                            return;
                        }
                    }
                    j = j + 1;
                }
                assert(d[i as int].1.len() == deps@.len());
            }
            assert forall|p: int, q: int|
                #![trigger d[p].1[q]]
                errors@.len() == 0 && 0 <= p < i + 1 && obj_has(o, d[p].0) && 0 <= q < d[p].1.len() implies obj_has(o, d[p].1[q]) by {
            }
            i = i + 1;
        }
    }

    /// `if`/`then`/`else`.
    fn check_conditional(
        &self,
        schema: &Schema,
        value: &JsonValue,
        kw: &str,
        inst: &str,
        errors: &mut Vec<ValidationOutput>,
        options: &ValidatorOptions,
    )
        requires
            !options.shallow,
        ensures
            grew_by(old(errors)@, final(errors)@, kw@, inst@, options.fast_fail),
            (final(errors)@.len() == 0) == (old(errors)@.len() == 0 && cond_ok(schema@, value@)),
        decreases schema, 1nat,
    {
        proof {
            lemma_schema_fields(*schema);
        }
        if let Some(c) = &schema.if_ {
            proof {
                assert(decreases_to!(schema => **c));
            }
            let cond = self.check(&**c, value, concat2(kw, "/if").as_str(), inst, options);
            if cond.valid {
                if let Some(t) = &schema.then_ {
                    proof {
                        assert(decreases_to!(schema => **t));
                    }
                    let r = self.check(&**t, value, concat2(kw, "/then").as_str(), inst, options);
                    if !r.valid {
                        proof {
                            reveal_strlit("/then");
                            lemma_child_entry(r, kw@, "/then"@, Seq::<char>::empty(), inst@, Seq::<char>::empty());
                        }
                        push_child(errors, r, kw, inst);
                    }
                }
            } else {
                if let Some(e) = &schema.else_ {
                    proof {
                        assert(decreases_to!(schema => **e));
                    }
                    let r = self.check(&**e, value, concat2(kw, "/else").as_str(), inst, options);
                    if !r.valid {
                        proof {
                            reveal_strlit("/else");
                            lemma_child_entry(r, kw@, "/else"@, Seq::<char>::empty(), inst@, Seq::<char>::empty());
                        }
                        push_child(errors, r, kw, inst);
                    }
                }
            }
        }
    }

    /// `allOf`, `anyOf` and `oneOf`.
    fn check_compositions(
        &self,
        schema: &Schema,
        value: &JsonValue,
        kw: &str,
        inst: &str,
        errors: &mut Vec<ValidationOutput>,
        options: &ValidatorOptions,
    )
        requires
            !options.shallow,
        ensures
            grew_by(old(errors)@, final(errors)@, kw@, inst@, options.fast_fail),
            (final(errors)@.len() == 0) == (old(errors)@.len() == 0 && all_of_ok(schema@, value@) && any_of_ok(
                schema@,
                value@,
            ) && one_of_ok(schema@, value@)),
        decreases schema, 1nat,
    {
        proof {
            lemma_schema_fields(*schema);
        }
        if let Some(l) = &schema.all_of {
            proof {
                assert(decreases_to!(schema => *l));
            }
            self.check_all(l, value, kw, inst, errors, options);
            if options.fast_fail && errors.len() != 0 {
                return;
            }
        }
        if let Some(l) = &schema.any_of {
            proof {
                assert(decreases_to!(schema => *l));
            }
            if !self.any_valid(l, value, kw, inst, options) {
                push_error(errors, kw, inst, "anyOf", Vec::new());
                if options.fast_fail {
                    return;
                }
            }
        }
        if let Some(l) = &schema.one_of {
            proof {
                assert(decreases_to!(schema => *l));
            }
            let count = self.count_valid(l, value, kw, inst, options);
            if count != 1 {
                push_error(errors, kw, inst, "oneOf",
                    one_param("count", JsonValue::Number(JsonNumber::PosInt(count as u64))));
            }
        }
    }

    /// `not`, `dependentRequired` and `dependentSchemas`.
    fn check_not_and_dependencies(
        &self,
        schema: &Schema,
        value: &JsonValue,
        kw: &str,
        inst: &str,
        errors: &mut Vec<ValidationOutput>,
        options: &ValidatorOptions,
    )
        requires
            !options.shallow,
        ensures
            grew_by(old(errors)@, final(errors)@, kw@, inst@, options.fast_fail),
            (final(errors)@.len() == 0) == (old(errors)@.len() == 0 && not_ok(schema@, value@) && dependencies_ok(
                schema@,
                value@,
            )),
        decreases schema, 1nat,
    {
        proof {
            lemma_schema_fields(*schema);
        }
        if let Some(n) = &schema.not {
            proof {
                assert(decreases_to!(schema => **n));
            }
            let r = self.check(&**n, value, concat2(kw, "/not").as_str(), inst, options);
            if r.valid {
                push_error(errors, kw, inst, "not", Vec::new());
                if options.fast_fail {
                    return;
                }
            }
        }
        if let JsonValue::Object(obj) = value {
            proof {
                lemma_entries(*value);
            }
            if let Some(dr) = &schema.dependent_required {
                Self::check_dependent_required(dr, obj, kw, inst, errors, options);
                if options.fast_fail && errors.len() != 0 {
                    return;
                }
            }
            if let Some(ds) = &schema.dependent_schemas {
                proof {
                    assert(decreases_to!(schema => *ds));
                }
                self.check_dependent_schemas(ds, value, kw, inst, errors, options);
            }
        }
    }

    /// The keywords applying subschemas to the value itself.
    fn validate_applicators(
        &self,
        schema: &Schema,
        value: &JsonValue,
        kw: &str,
        inst: &str,
        errors: &mut Vec<ValidationOutput>,
        options: &ValidatorOptions,
    )
        requires
            !options.shallow,
        ensures
            grew_by(old(errors)@, final(errors)@, kw@, inst@, options.fast_fail),
            (final(errors)@.len() == 0) == (old(errors)@.len() == 0 && applicators_ok(schema@, value@)),
        decreases schema, 2nat,
    {
        self.check_conditional(schema, value, kw, inst, errors, options);
        if options.fast_fail && errors.len() != 0 {
            return;
        }
        self.check_compositions(schema, value, kw, inst, errors, options);
        if options.fast_fail && errors.len() != 0 {
            return;
        }
        self.check_not_and_dependencies(schema, value, kw, inst, errors, options);
    }

    /// The full validation of `value` against `schema`.
    #[verifier::rlimit(40)]
    fn check(
        &self,
        schema: &Schema,
        value: &JsonValue,
        kw: &str,
        inst: &str,
        options: &ValidatorOptions,
    ) -> (r: ValidationOutput)
        ensures
            r.valid == spec_default_valid(schema@, value@, options.shallow),
            r.valid == (r.errors@.len() == 0),
            r.keyword_location@ == kw@,
            r.instance_location@ == inst@,
            r.error is None,
            forall|i: int| 0 <= i < r.errors@.len() ==> entry_under(#[trigger] r.errors@[i], kw@, inst@),
            options.fast_fail ==> r.errors@.len() <= 1,
            !options.fast_fail ==> basic_reported(schema@, value@, kw@, inst@, r.errors@),
            !options.fast_fail ==> (value@ matches Json::Number(n) ==> number_reported(schema@, n, kw@, inst@, r.errors@)),
            !options.fast_fail ==> (value@ matches Json::Str(t) ==> string_reported(schema@, t, kw@, inst@, r.errors@)),
            !options.fast_fail && !options.shallow ==> (value@ matches Json::Array(a) ==> array_reported(schema@, a, kw@,
                inst@, r.errors@)),
            !options.fast_fail && !options.shallow ==> (value@ matches Json::Object(o) ==> object_reported(schema@, o,
                kw@, inst@, r.errors@)),
        decreases schema, 3nat,
    {
        let mut errors: Vec<ValidationOutput> = Vec::new();
        self.validate_basic(schema, value, kw, inst, &mut errors, options);
        let ghost e1 = errors@;
        if !(options.fast_fail && errors.len() != 0) {
            if !options.shallow {
                self.validate_applicators(schema, value, kw, inst, &mut errors, options);
            }
        }
        if !(options.fast_fail && errors.len() != 0) {
            match value {
                JsonValue::Number(n) => self.validate_number(schema, n, kw, inst, &mut errors, options),
                JsonValue::String(t) => self.validate_string(schema, t.as_str(), kw, inst, &mut errors, options),
                _ => {},
            }
        }
        if !(options.fast_fail && errors.len() != 0) {
            if !options.shallow {
                if let JsonValue::Array(_) = value {
                    self.validate_array(schema, value, kw, inst, &mut errors, options);
                }
            }
        }
        if !(options.fast_fail && errors.len() != 0) {
            if !options.shallow {
                if let JsonValue::Object(_) = value {
                    self.validate_object(schema, value, kw, inst, &mut errors, options);
                }
            }
        }
        proof {
            if !options.fast_fail {
                assert(e1.len() <= errors@.len());
                assert(forall|i: int| 0 <= i < e1.len() ==> #[trigger] errors@[i] == e1[i]);
                if !type_ok(schema@, value@) {
                    lemma_reported_kept(e1, errors@, kw@, inst@, "type"@);
                }
                if !enum_ok(schema@, value@) {
                    lemma_reported_kept(e1, errors@, kw@, inst@, "enum"@);
                }
                if !const_ok(schema@, value@) {
                    lemma_reported_kept(e1, errors@, kw@, inst@, "const"@);
                }
            }
        }
        let valid = errors.len() == 0;
        ValidationOutput {
            valid,
            keyword_location: to_owned_string(kw),
            instance_location: to_owned_string(inst),
            error: None,
            errors,
        }
    }
}

impl Validator for DefaultValidator {
    open spec fn spec_valid(&self, schema: SchemaModel, value: Json, options: ValidatorOptions) -> bool {
        spec_default_valid(schema, value, options.shallow)
    }

    /// Validate `value` against `schema`; the result is valid exactly when
    /// `spec_default_valid` holds, and then has no error entries. Every
    /// entry failed and lies under the locations given (an entry naming a
    /// keyword at `<keyword location>/<keyword>`); with `fast_fail` there is
    /// at most one. Without it, each of `type`, `enum`, `const`, the
    /// numeric and string keywords, and (in a full validation) the item and
    /// property counts and `uniqueItems` that the value fails has its
    /// entry, keyed by the keyword.
    fn validate(
        &self,
        schema: &Schema,
        value: &JsonValue,
        keyword_location: &str,
        instance_location: &str,
        options: &ValidatorOptions,
    ) -> (r: ValidationOutput)
        ensures
            r.valid == (r.errors@.len() == 0),
            r.keyword_location@ == keyword_location@,
            r.instance_location@ == instance_location@,
            r.error is None,
            forall|i: int| 0 <= i < r.errors@.len() ==> entry_under(#[trigger] r.errors@[i], keyword_location@,
                instance_location@),
            options.fast_fail ==> r.errors@.len() <= 1,
            !options.fast_fail ==> basic_reported(schema@, value@, keyword_location@, instance_location@, r.errors@),
            !options.fast_fail ==> (value@ matches Json::Number(n) ==> number_reported(schema@, n,
                keyword_location@, instance_location@, r.errors@)),
            !options.fast_fail ==> (value@ matches Json::Str(t) ==> string_reported(schema@, t, keyword_location@,
                instance_location@, r.errors@)),
            !options.fast_fail && !options.shallow ==> (value@ matches Json::Array(a) ==> array_reported(schema@, a,
                keyword_location@, instance_location@, r.errors@)),
            !options.fast_fail && !options.shallow ==> (value@ matches Json::Object(o) ==> object_reported(schema@, o,
                keyword_location@, instance_location@, r.errors@)),
    {
        self.check(schema, value, keyword_location, instance_location, options)
    }
}

/// Whether `properties` has an entry for `key`.
fn map_has_key(p: &Vec<(String, Schema)>, key: &str) -> (r: bool)
    ensures
        r == has_key(schema_map_model(p@), key@),
{
    let mut i: usize = 0;
    while i < p.len()
        invariant
            i <= p@.len(),
            forall|k: int| 0 <= k < i ==> #[trigger] schema_map_model(p@)[k].0 != key@,
        decreases p.len() - i,
    {
        proof {
            lemma_schema_map_model_index(p@, i as int);
        }
        assert(schema_map_model(p@)[i as int].0 == p@[i as int].0@);
        if str_eq(p[i].0.as_str(), key) {
            assert(p@[i as int].0@ == key@);
            assert(0 <= i < schema_map_model(p@).len());
            assert(schema_map_model(p@)[i as int].0 == key@);
            return true;
        }
        i = i + 1;
    }
    proof {
        if p@.len() > 0 {
            lemma_schema_map_model_index(p@, 0);
        }
    }
    false
}

/// Whether some pattern of `patternProperties` matches `key`.
fn some_pattern_matches(pp: &Vec<(String, Schema)>, key: &str) -> (r: bool)
    ensures
        r == matches_pattern(schema_map_model(pp@), key@),
{
    let mut i: usize = 0;
    while i < pp.len()
        invariant
            i <= pp@.len(),
            forall|k: int| 0 <= k < i ==> !spec_safe_regex_test(#[trigger] schema_map_model(pp@)[k].0, key@),
        decreases pp.len() - i,
    {
        proof {
            lemma_schema_map_model_index(pp@, i as int);
        }
        assert(schema_map_model(pp@)[i as int].0 == pp@[i as int].0@);
        if safe_regex_test(pp[i].0.as_str(), key) {
            return true;
        }
        i = i + 1;
    }
    proof {
        if pp@.len() > 0 {
            lemma_schema_map_model_index(pp@, 0);
        }
    }
    false
}

/// Whether a property is covered by neither `properties` nor
/// `patternProperties`.
fn key_is_additional(schema: &Schema, key: &str) -> (r: bool)
    ensures
        r == is_additional(schema@, key@),
{
    proof {
        lemma_schema_fields(*schema);
    }
    let in_props = match &schema.properties {
        Some(p) => map_has_key(p, key),
        None => false,
    };
    let in_pattern = match &schema.pattern_properties {
        Some(pp) => some_pattern_matches(pp, key),
        None => false,
    };
    !in_props && !in_pattern
}

/// The additional properties of an object, in order.
fn additional_keys(schema: &Schema, obj: &Vec<(String, JsonValue)>) -> (r: Vec<String>)
    ensures
        (r@.len() == 0) == !some_additional(schema@, entries_view(obj@)),
{
    let mut r: Vec<String> = Vec::new();
    let mut i: usize = 0;
    while i < obj.len()
        invariant
            i <= obj@.len(),
            (r@.len() == 0) == forall|k: int| 0 <= k < i ==> !is_additional(schema@, #[trigger] entries_view(obj@)[k].0),
        decreases obj.len() - i,
    {
        assert(entries_view(obj@)[i as int].0 == obj@[i as int].0@);
        if key_is_additional(schema, obj[i].0.as_str()) {
            r.push(obj[i].0.clone());
        }
        i = i + 1;
    }
    r
}

/// Keys joined with `", "`.
fn join_keys(keys: &Vec<String>) -> (r: String) {
    let mut s = String::new();
    let mut i: usize = 0;
    while i < keys.len()
        decreases keys.len() - i,
    {
        if i > 0 {
            push_str(&mut s, ", ");
        }
        push_str(&mut s, keys[i].as_str());
        i = i + 1;
    }
    s
}

impl DefaultValidator {
    /// `prefixItems`: each item against the schema at its position.
    fn check_prefix(
        &self,
        list: &Vec<Schema>,
        value: &JsonValue,
        kw: &str,
        inst: &str,
        errors: &mut Vec<ValidationOutput>,
        options: &ValidatorOptions,
    )
        requires
            !options.shallow,
            value is Array,
        ensures
            grew_by(old(errors)@, final(errors)@, kw@, inst@, options.fast_fail),
            (final(errors)@.len() == 0) == (old(errors)@.len() == 0 && prefix_valid(schemas_model(list@),
                value@->Array_0)),
        decreases list, 1nat,
    {
        let arr = match value {
            JsonValue::Array(a) => a,
            _ => {
                return;
            },
        };
        proof {
            lemma_items(*value);
        }
        let mut i: usize = 0;
        while i < list.len()
            invariant
                grew_by(old(errors)@, errors@, kw@, inst@, options.fast_fail),
                options.fast_fail ==> errors@.len() == old(errors)@.len(),
                i <= list@.len(),
                !options.shallow,
                *value == JsonValue::Array(*arr),
                value@->Array_0.len() == arr@.len(),
                forall|t: int| 0 <= t < arr@.len() ==> #[trigger] value@->Array_0[t] == arr@[t]@,
                (errors@.len() == 0) == (old(errors)@.len() == 0 && forall|k: int|
                    0 <= k < i && k < value@->Array_0.len() ==> full_valid(#[trigger] schemas_model(list@)[k],
                        value@->Array_0[k])),
            decreases list.len() - i,
        {
            proof {
                lemma_schemas_model_index(list@, i as int);
                assert(decreases_to!(list => list@[i as int]));
            }
            if i < arr.len() {
                let child = self.check(&list[i], &arr[i], index_location(kw, "/prefixItems/", i).as_str(),
                    index_location(inst, "/", i).as_str(), options);
                if !child.valid {
                    proof {
                        reveal_strlit("/prefixItems/");
                        lemma_child_entry(child, kw@, "/prefixItems/"@, crate::text::decimal_text(i as nat), inst@, "/"@ + crate::text::decimal_text(i as nat));
                    }
                    push_child(errors, child, kw, inst);
                    if options.fast_fail {
                        return;
                    }
                }
            }
            i = i + 1;
        }
    }

    /// `items`: the items from `start` on against one schema.
    fn check_items(
        &self,
        it: &Schema,
        start: usize,
        value: &JsonValue,
        kw: &str,
        inst: &str,
        errors: &mut Vec<ValidationOutput>,
        options: &ValidatorOptions,
    )
        requires
            !options.shallow,
            value is Array,
        ensures
            grew_by(old(errors)@, final(errors)@, kw@, inst@, options.fast_fail),
            (final(errors)@.len() == 0) == (old(errors)@.len() == 0 && items_valid(it@, start as nat, value@->Array_0)),
        decreases it, 4nat,
    {
        let arr = match value {
            JsonValue::Array(a) => a,
            _ => {
                return;
            },
        };
        proof {
            lemma_items(*value);
        }
        if start >= arr.len() {
            return;
        }
        let mut i: usize = start;
        while i < arr.len()
            invariant
                grew_by(old(errors)@, errors@, kw@, inst@, options.fast_fail),
                options.fast_fail ==> errors@.len() == old(errors)@.len(),
                start <= i <= arr@.len(),
                !options.shallow,
                *value == JsonValue::Array(*arr),
                value@->Array_0.len() == arr@.len(),
                forall|t: int| 0 <= t < arr@.len() ==> #[trigger] value@->Array_0[t] == arr@[t]@,
                (errors@.len() == 0) == (old(errors)@.len() == 0 && forall|k: int|
                    start <= k < i ==> full_valid(it@, #[trigger] value@->Array_0[k])),
            decreases arr.len() - i,
        {
            assert(value@->Array_0[i as int] == arr@[i as int]@);
            let child = self.check(it, &arr[i], concat2(kw, "/items").as_str(), index_location(inst, "/", i).as_str(),
                options);
            if !child.valid {
                proof {
                    reveal_strlit("/items");
                    lemma_child_entry(child, kw@, "/items"@, Seq::<char>::empty(), inst@, "/"@ + crate::text::decimal_text(i as nat));
                }
                push_child(errors, child, kw, inst);
                if options.fast_fail {
                    assert(!items_valid(it@, start as nat, value@->Array_0));
                    return;
                }
            }
            i = i + 1;
        }
    }

    /// How many items `contains` accepts.
    fn count_contains(
        &self,
        schema: &Schema,
        c: &Schema,
        value: &JsonValue,
        kw: &str,
        inst: &str,
        options: &ValidatorOptions,
    ) -> (r: usize)
        requires
            !options.shallow,
            value is Array,
            schema@.contains == Some(Box::new(c@)),
        ensures
            r == contains_count(schema@, value@->Array_0, value@->Array_0.len()),
        decreases c, 4nat,
    {
        let arr = match value {
            JsonValue::Array(a) => a,
            _ => {
                return 0;
            },
        };
        proof {
            lemma_items(*value);
        }
        let ghost a = value@->Array_0;
        let mut count: usize = 0;
        let mut i: usize = 0;
        while i < arr.len()
            invariant
                i <= arr@.len(),
                !options.shallow,
                schema@.contains == Some(Box::new(c@)),
                a == value@->Array_0,
                a.len() == arr@.len(),
                forall|t: int| 0 <= t < arr@.len() ==> #[trigger] a[t] == arr@[t]@,
                count <= i,
                count == contains_count(schema@, a, i as nat),
            decreases arr.len() - i,
        {
            let child = self.check(c, &arr[i], concat2(kw, "/contains").as_str(), index_location(inst, "/", i).as_str(),
                options);
            if child.valid {
                count = count + 1;
            }
            i = i + 1;
        }
        count
    }

    /// The array keywords.
    /// `minItems`, `maxItems` and `uniqueItems`.
    fn check_counts(
        schema: &Schema,
        value: &JsonValue,
        kw: &str,
        inst: &str,
        errors: &mut Vec<ValidationOutput>,
        options: &ValidatorOptions,
    )
        requires
            value is Array,
        ensures
            grew_by(old(errors)@, final(errors)@, kw@, inst@, options.fast_fail),
            (final(errors)@.len() == old(errors)@.len()) == counts_ok(schema@, value@->Array_0),
            !options.fast_fail ==> array_reported(schema@, value@->Array_0, kw@, inst@, final(errors)@),
    {
        let ghost mut at: Seq<int> = seq![0int, 0int, 0int];
        proof {
            lemma_schema_fields(*schema);
        }
        let arr = match value {
            JsonValue::Array(a) => a,
            _ => {
                return;
            },
        };
        proof {
            lemma_items(*value);
        }
        let len = arr.len();
        if let Some(m) = schema.min_items {
            if (len as u64) < m {
                push_error(errors, kw, inst, "minItems",
                    one_param("minItems", JsonValue::Number(JsonNumber::PosInt(m))));
                proof {
                    at = at.update(0, errors@.len() - 1);
                    assert(keyed_entry(errors@[at[0]], kw@, inst@, "minItems"@));
                }
                if options.fast_fail {
                    return;
                }
            }
        }
        if let Some(m) = schema.max_items {
            if (len as u64) > m {
                push_error(errors, kw, inst, "maxItems",
                    one_param("maxItems", JsonValue::Number(JsonNumber::PosInt(m))));
                proof {
                    at = at.update(1, errors@.len() - 1);
                    assert(keyed_entry(errors@[at[1]], kw@, inst@, "maxItems"@));
                }
                if options.fast_fail {
                    return;
                }
            }
        }
        if let Some(true) = schema.unique_items {
            if has_duplicate(value) {
                push_error(errors, kw, inst, "uniqueItems", Vec::new());
                proof {
                    at = at.update(2, errors@.len() - 1);
                    assert(keyed_entry(errors@[at[2]], kw@, inst@, "uniqueItems"@));
                }
            }
        }
        proof {
            if !options.fast_fail {
                let a = value@->Array_0;
                let xs = schema@;
                if xs.min_items matches Some(m) && a.len() < m {
                    assert(keyed_entry(errors@[at[0]], kw@, inst@, "minItems"@));
                }
                if xs.max_items matches Some(m) && a.len() > m {
                    assert(keyed_entry(errors@[at[1]], kw@, inst@, "maxItems"@));
                }
                if xs.unique_items == Some(true) && !all_distinct(a) {
                    assert(keyed_entry(errors@[at[2]], kw@, inst@, "uniqueItems"@));
                }
            }
        }
    }

    #[verifier::rlimit(40)]
    fn validate_array(
        &self,
        schema: &Schema,
        value: &JsonValue,
        kw: &str,
        inst: &str,
        errors: &mut Vec<ValidationOutput>,
        options: &ValidatorOptions,
    )
        requires
            !options.shallow,
            value is Array,
        ensures
            grew_by(old(errors)@, final(errors)@, kw@, inst@, options.fast_fail),
            (final(errors)@.len() == 0) == (old(errors)@.len() == 0 && array_ok(schema@, value@)),
            !options.fast_fail ==> array_reported(schema@, value@->Array_0, kw@, inst@, final(errors)@),
        decreases schema, 2nat,
    {
        proof {
            lemma_schema_fields(*schema);
        }
        let before = errors.len();
        Self::check_counts(schema, value, kw, inst, errors, options);
        if options.fast_fail && errors.len() != before {
            return;
        }
        let ghost mid = errors@;
        if let Some(p) = &schema.prefix_items {
            proof {
                assert(decreases_to!(schema => *p));
            }
            self.check_prefix(p, value, kw, inst, errors, options);
            if options.fast_fail && errors.len() != 0 {
                return;
            }
        }
        if let Some(it) = &schema.items {
            let start: usize = match &schema.prefix_items {
                Some(p) => p.len(),
                None => 0,
            };
            proof {
                assert(decreases_to!(schema => **it));
            }
            self.check_items(&**it, start, value, kw, inst, errors, options);
            if options.fast_fail && errors.len() != 0 {
                return;
            }
        }
        if let Some(c) = &schema.contains {
            proof {
                assert(decreases_to!(schema => **c));
            }
            let count = self.count_contains(schema, &**c, value, kw, inst, options);
            if let Some(m) = schema.min_contains {
                if (count as u64) < m {
                    push_error(errors, kw, inst, "minContains",
                        one_param("minContains", JsonValue::Number(JsonNumber::PosInt(m))));
                    if options.fast_fail {
                        return;
                    }
                }
            } else if count == 0 {
                push_error(errors, kw, inst, "contains", Vec::new());
                if options.fast_fail {
                    return;
                }
            }
            if let Some(m) = schema.max_contains {
                if (count as u64) > m {
                    push_error(errors, kw, inst, "maxContains",
                        one_param("maxContains", JsonValue::Number(JsonNumber::PosInt(m))));
                }
            }
        }
        proof {
            if !options.fast_fail {
                lemma_array_reported_kept(schema@, value@->Array_0, kw@, inst@, mid, errors@);
            }
        }
    }

    /// `required`: each name must be a property of the object.
    fn check_required(
        req: &Vec<String>,
        obj: &Vec<(String, JsonValue)>,
        kw: &str,
        inst: &str,
        errors: &mut Vec<ValidationOutput>,
        options: &ValidatorOptions,
    )
        ensures
            grew_by(old(errors)@, final(errors)@, kw@, inst@, options.fast_fail),
            (final(errors)@.len() == 0) == (old(errors)@.len() == 0 && required_present(str_seq_model(req@),
                entries_view(obj@))),
    {
        let mut i: usize = 0;
        while i < req.len()
            invariant
                grew_by(old(errors)@, errors@, kw@, inst@, options.fast_fail),
                options.fast_fail ==> errors@.len() == old(errors)@.len(),
                i <= req@.len(),
                (errors@.len() == 0) == (old(errors)@.len() == 0 && forall|k: int|
                    0 <= k < i ==> obj_has(entries_view(obj@), #[trigger] str_seq_model(req@)[k])),
            decreases req.len() - i,
        {
            assert(str_seq_model(req@)[i as int] == req@[i as int]@);
            if obj_find(obj, req[i].as_str()).is_none() {
                let target = key_location(inst, "/", req[i].as_str());
                proof {
                    lemma_prefix3(inst@, "/"@, spec_escape(req@[i as int]@));
                }
                push_error_at(errors, kw, "", inst, target.as_str(), "required", one_param("property",
                    JsonValue::String(req[i].clone())));
                if options.fast_fail {
                    return;
                }
            }
            i = i + 1;
        }
    }

    /// `properties`: each present property against its schema.
    fn check_properties(
        &self,
        p: &Vec<(String, Schema)>,
        value: &JsonValue,
        kw: &str,
        inst: &str,
        errors: &mut Vec<ValidationOutput>,
        options: &ValidatorOptions,
    )
        requires
            !options.shallow,
            value is Object,
        ensures
            grew_by(old(errors)@, final(errors)@, kw@, inst@, options.fast_fail),
            (final(errors)@.len() == 0) == (old(errors)@.len() == 0 && props_valid(schema_map_model(p@),
                value@->Object_0)),
        decreases p, 1nat,
    {
        let obj = match value {
            JsonValue::Object(o) => o,
            _ => {
                return;
            },
        };
        proof {
            lemma_entries(*value);
        }
        let mut i: usize = 0;
        while i < p.len()
            invariant
                grew_by(old(errors)@, errors@, kw@, inst@, options.fast_fail),
                options.fast_fail ==> errors@.len() == old(errors)@.len(),
                i <= p@.len(),
                !options.shallow,
                value@->Object_0 == entries_view(obj@),
                (errors@.len() == 0) == (old(errors)@.len() == 0 && forall|k: int|
                    0 <= k < i ==> match obj_get(value@->Object_0, #[trigger] schema_map_model(p@)[k].0) {
                        Some(pv) => full_valid(schema_map_model(p@)[k].1, pv),
                        None => true,
                    }),
            decreases p.len() - i,
        {
            proof {
                lemma_schema_map_model_index(p@, i as int);
                assert(decreases_to!(p => p@[i as int].1));
                assert(schema_map_model(p@)[i as int].0 == p@[i as int].0@);
                assert(schema_map_model(p@)[i as int].1 == p@[i as int].1@);
            }
            match obj_get_exec(obj, p[i].0.as_str()) {
                Some(pv) => {
                    let child = self.check(&p[i].1, pv, key_location(kw, "/properties/", p[i].0.as_str()).as_str(),
                        key_location(inst, "/", p[i].0.as_str()).as_str(), options);
                    if !child.valid {
                        proof {
                            reveal_strlit("/properties/");
                            lemma_child_entry(child, kw@, "/properties/"@, spec_escape(p@[i as int].0@), inst@, "/"@ + spec_escape(p@[i as int].0@));
                        }
                        push_child(errors, child, kw, inst);
                        if options.fast_fail {
                            assert(!props_valid(schema_map_model(p@), value@->Object_0));
                            return;
                        }
                    }
                },
                None => {},
            }
            i = i + 1;
        }
    }

    /// `patternProperties`: each property against the schema of every
    /// pattern matching its name.
    fn check_patterns(
        &self,
        pp: &Vec<(String, Schema)>,
        value: &JsonValue,
        kw: &str,
        inst: &str,
        errors: &mut Vec<ValidationOutput>,
        options: &ValidatorOptions,
    )
        requires
            !options.shallow,
            value is Object,
        ensures
            grew_by(old(errors)@, final(errors)@, kw@, inst@, options.fast_fail),
            (final(errors)@.len() == 0) == (old(errors)@.len() == 0 && patterns_valid(schema_map_model(pp@),
                value@->Object_0)),
        decreases pp, 1nat,
    {
        let obj = match value {
            JsonValue::Object(o) => o,
            _ => {
                return;
            },
        };
        proof {
            lemma_entries(*value);
        }
        let ghost o = value@->Object_0;
        let ghost pm = schema_map_model(pp@);
        let mut i: usize = 0;
        while i < obj.len()
            invariant
                grew_by(old(errors)@, errors@, kw@, inst@, options.fast_fail),
                options.fast_fail ==> errors@.len() == old(errors)@.len(),
                i <= obj@.len(),
                !options.shallow,
                o == value@->Object_0,
                o == entries_view(obj@),
                pm == schema_map_model(pp@),
                (errors@.len() == 0) == (old(errors)@.len() == 0 && forall|a: int, b: int|
                    0 <= a < i && 0 <= b < pp@.len() && spec_safe_regex_test(pm[b].0, o[a].0)
                        ==> full_valid(#[trigger] pm[b].1, #[trigger] o[a].1)),
            decreases obj.len() - i,
        {
            let mut j: usize = 0;
            while j < pp.len()
                invariant
                    grew_by(old(errors)@, errors@, kw@, inst@, options.fast_fail),
                    options.fast_fail ==> errors@.len() == old(errors)@.len(),
                    i < obj@.len(),
                    j <= pp@.len(),
                    !options.shallow,
                    o == value@->Object_0,
                    o == entries_view(obj@),
                    pm == schema_map_model(pp@),
                    (errors@.len() == 0) == (old(errors)@.len() == 0 && (forall|a: int, b: int|
                        0 <= a < i && 0 <= b < pp@.len() && spec_safe_regex_test(pm[b].0, o[a].0)
                            ==> full_valid(#[trigger] pm[b].1, #[trigger] o[a].1)) && forall|b: int|
                        0 <= b < j && spec_safe_regex_test(pm[b].0, o[i as int].0) ==> full_valid(
                            #[trigger] pm[b].1,
                            o[i as int].1,
                        )),
                decreases pp.len() - j,
            {
                proof {
                    lemma_schema_map_model_index(pp@, j as int);
                    assert(decreases_to!(pp => pp@[j as int].1));
                }
                assert(pm[j as int].0 == pp@[j as int].0@ && pm[j as int].1 == pp@[j as int].1@);
                assert(o[i as int].0 == obj@[i as int].0@ && o[i as int].1 == obj@[i as int].1@);
                if safe_regex_test(pp[j].0.as_str(), obj[i].0.as_str()) {
                    let child = self.check(&pp[j].1, &obj[i].1, key_location(kw, "/patternProperties/",
                        pp[j].0.as_str()).as_str(), key_location(inst, "/", obj[i].0.as_str()).as_str(), options);
                    if !child.valid {
                        proof {
                            reveal_strlit("/patternProperties/");
                            lemma_child_entry(child, kw@, "/patternProperties/"@, spec_escape(pp@[j as int].0@), inst@, "/"@ + spec_escape(obj@[i as int].0@));
                        }
                        push_child(errors, child, kw, inst);
                        if options.fast_fail {
                            assert(!full_valid(pm[j as int].1, o[i as int].1));
                            assert(!patterns_valid(pm, o));
                            return;
                        }
                    }
                }
                j = j + 1;
            }
            i = i + 1;
        }
    }

    /// A schema-valued `additionalProperties` against each additional
    /// property.
    fn check_additional(
        &self,
        schema: &Schema,
        b: &Schema,
        value: &JsonValue,
        kw: &str,
        inst: &str,
        errors: &mut Vec<ValidationOutput>,
        options: &ValidatorOptions,
    )
        requires
            !options.shallow,
            value is Object,
        ensures
            grew_by(old(errors)@, final(errors)@, kw@, inst@, options.fast_fail),
            (final(errors)@.len() == 0) == (old(errors)@.len() == 0 && additional_valid(schema@, b@,
                value@->Object_0)),
        decreases b, 4nat,
    {
        let obj = match value {
            JsonValue::Object(o) => o,
            _ => {
                return;
            },
        };
        proof {
            lemma_entries(*value);
        }
        let ghost o = value@->Object_0;
        let mut i: usize = 0;
        while i < obj.len()
            invariant
                grew_by(old(errors)@, errors@, kw@, inst@, options.fast_fail),
                options.fast_fail ==> errors@.len() == old(errors)@.len(),
                i <= obj@.len(),
                !options.shallow,
                o == value@->Object_0,
                o == entries_view(obj@),
                (errors@.len() == 0) == (old(errors)@.len() == 0 && forall|k: int|
                    0 <= k < i && is_additional(schema@, o[k].0) ==> full_valid(b@, #[trigger] o[k].1)),
            decreases obj.len() - i,
        {
            assert(o[i as int].0 == obj@[i as int].0@ && o[i as int].1 == obj@[i as int].1@);
            if key_is_additional(schema, obj[i].0.as_str()) {
                let child = self.check(b, &obj[i].1, concat2(kw, "/additionalProperties").as_str(),
                    key_location(inst, "/", obj[i].0.as_str()).as_str(), options);
                if !child.valid {
                    proof {
                        reveal_strlit("/additionalProperties");
                        lemma_child_entry(child, kw@, "/additionalProperties"@, Seq::<char>::empty(), inst@, "/"@ + spec_escape(obj@[i as int].0@));
                    }
                    push_child(errors, child, kw, inst);
                    if options.fast_fail {
                        return;
                    }
                }
            }
            i = i + 1;
        }
    }

    /// `propertyNames`: each property name, as a string, against a schema.
    fn check_names(
        &self,
        pn: &Schema,
        value: &JsonValue,
        kw: &str,
        inst: &str,
        errors: &mut Vec<ValidationOutput>,
        options: &ValidatorOptions,
    )
        requires
            !options.shallow,
            value is Object,
        ensures
            grew_by(old(errors)@, final(errors)@, kw@, inst@, options.fast_fail),
            (final(errors)@.len() == 0) == (old(errors)@.len() == 0 && names_valid(pn@, value@->Object_0)),
        decreases pn, 4nat,
    {
        let obj = match value {
            JsonValue::Object(o) => o,
            _ => {
                return;
            },
        };
        proof {
            lemma_entries(*value);
        }
        let ghost o = value@->Object_0;
        let mut i: usize = 0;
        while i < obj.len()
            invariant
                grew_by(old(errors)@, errors@, kw@, inst@, options.fast_fail),
                options.fast_fail ==> errors@.len() == old(errors)@.len(),
                i <= obj@.len(),
                !options.shallow,
                o == value@->Object_0,
                o == entries_view(obj@),
                (errors@.len() == 0) == (old(errors)@.len() == 0 && forall|k: int|
                    0 <= k < i ==> full_valid(pn@, Json::Str(#[trigger] o[k].0))),
            decreases obj.len() - i,
        {
            assert(o[i as int].0 == obj@[i as int].0@);
            let name = JsonValue::String(obj[i].0.clone());
            assert(name@ == Json::Str(o[i as int].0));
            let child = self.check(pn, &name, concat2(kw, "/propertyNames").as_str(),
                key_location(inst, "/", obj[i].0.as_str()).as_str(), options);
            if !child.valid {
                proof {
                    reveal_strlit("/propertyNames");
                    lemma_child_entry(child, kw@, "/propertyNames"@, Seq::<char>::empty(), inst@, "/"@ + spec_escape(obj@[i as int].0@));
                }
                push_child(errors, child, kw, inst);
                if options.fast_fail {
                    return;
                }
            }
            i = i + 1;
        }
    }

    /// The object keywords.
    #[verifier::rlimit(40)]
    fn validate_object(
        &self,
        schema: &Schema,
        value: &JsonValue,
        kw: &str,
        inst: &str,
        errors: &mut Vec<ValidationOutput>,
        options: &ValidatorOptions,
    )
        requires
            !options.shallow,
            value is Object,
        ensures
            grew_by(old(errors)@, final(errors)@, kw@, inst@, options.fast_fail),
            (final(errors)@.len() == 0) == (old(errors)@.len() == 0 && object_ok(schema@, value@)),
            !options.fast_fail ==> object_reported(schema@, value@->Object_0, kw@, inst@, final(errors)@),
        decreases schema, 2nat,
    {
        let ghost mut at: Seq<int> = seq![0int, 0int];
        proof {
            lemma_schema_fields(*schema);
        }
        let obj = match value {
            JsonValue::Object(o) => o,
            _ => {
                return;
            },
        };
        proof {
            lemma_entries(*value);
        }
        let count = obj.len();
        if let Some(m) = schema.min_properties {
            if (count as u64) < m {
                push_error(errors, kw, inst, "minProperties",
                    one_param("minProperties", JsonValue::Number(JsonNumber::PosInt(m))));
                proof {
                    at = at.update(0, errors@.len() - 1);
                    assert(keyed_entry(errors@[at[0]], kw@, inst@, "minProperties"@));
                }
                if options.fast_fail {
                    return;
                }
            }
        }
        if let Some(m) = schema.max_properties {
            if (count as u64) > m {
                push_error(errors, kw, inst, "maxProperties",
                    one_param("maxProperties", JsonValue::Number(JsonNumber::PosInt(m))));
                proof {
                    at = at.update(1, errors@.len() - 1);
                    assert(keyed_entry(errors@[at[1]], kw@, inst@, "maxProperties"@));
                }
                if options.fast_fail {
                    return;
                }
            }
        }
        let ghost mid = errors@;
        proof {
            if !options.fast_fail {
                let o = value@->Object_0;
                let xs = schema@;
                if xs.min_properties matches Some(m) && o.len() < m {
                    assert(keyed_entry(errors@[at[0]], kw@, inst@, "minProperties"@));
                }
                if xs.max_properties matches Some(m) && o.len() > m {
                    assert(keyed_entry(errors@[at[1]], kw@, inst@, "maxProperties"@));
                }
            }
        }
        if let Some(req) = &schema.required {
            Self::check_required(req, obj, kw, inst, errors, options);
            if options.fast_fail && errors.len() != 0 {
                return;
            }
        }
        if let Some(p) = &schema.properties {
            proof {
                assert(decreases_to!(schema => *p));
            }
            self.check_properties(p, value, kw, inst, errors, options);
            if options.fast_fail && errors.len() != 0 {
                return;
            }
        }
        if let Some(pp) = &schema.pattern_properties {
            proof {
                assert(decreases_to!(schema => *pp));
            }
            self.check_patterns(pp, value, kw, inst, errors, options);
            if options.fast_fail && errors.len() != 0 {
                return;
            }
        }
        if let Some(ap) = &schema.additional_properties {
            match ap {
                AdditionalProperties::Bool(allowed) => {
                    if !*allowed {
                        let keys = additional_keys(schema, obj);
                        if keys.len() != 0 {
                            push_error(errors, kw, inst, "additionalProperties",
                                one_param("properties", JsonValue::String(join_keys(&keys))));
                            if options.fast_fail {
                                return;
                            }
                        }
                    }
                },
                AdditionalProperties::Schema(b) => {
                    proof {
                        assert(decreases_to!(schema => **b));
                    }
                    self.check_additional(schema, &**b, value, kw, inst, errors, options);
                    if options.fast_fail && errors.len() != 0 {
                        return;
                    }
                },
            }
        }
        if let Some(pn) = &schema.property_names {
            proof {
                assert(decreases_to!(schema => **pn));
            }
            self.check_names(&**pn, value, kw, inst, errors, options);
        }
        proof {
            if !options.fast_fail {
                lemma_object_reported_kept(schema@, value@->Object_0, kw@, inst@, mid, errors@);
            }
        }
    }
}

} // verus!
