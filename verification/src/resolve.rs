//! The effective schema of a value: the schema with its conditional and
//! composition keywords (`if`/`then`/`else`, `allOf`, `anyOf`, `oneOf`)
//! resolved against the value and merged in, the type the value is
//! treated as, and the errors of a shallow validation.
use vstd::prelude::*;
use crate::effective::{merge_schema, spec_merge_schema};
use crate::json::{Json, JsonValue};
use crate::schema::{Schema, SchemaModel, SchemaType, SchemaTypeValue, TypeModel, lemma_schema_fields,
    lemma_schemas_model_index, schemas_model, str_seq_model};
use crate::text::decimal_text;
use crate::util::{spec_match_schema_type, spec_detect_schema_type, match_schema_type, detect_schema_type};
use crate::text::str_eq;
use crate::validate::{Validator, ValidatorOptions, ValidationOutput, concat2, index_location};

verus! {

/// The result of resolving the effective schema for a value.
pub struct EffectiveSchemaResult {
    pub effective_schema: Schema,
    pub type_: SchemaType,
    pub error: Option<ValidationOutput>,
}

// ── Types ──

/// The type a type name denotes; unknown names give `Unknown`.
pub open spec fn spec_parse_type(s: Seq<char>) -> SchemaType {
    if s == "string"@ {
        SchemaType::String
    } else if s == "number"@ {
        SchemaType::Number
    } else if s == "integer"@ {
        SchemaType::Integer
    } else if s == "boolean"@ {
        SchemaType::Boolean
    } else if s == "object"@ {
        SchemaType::Object
    } else if s == "array"@ {
        SchemaType::Array
    } else if s == "null"@ {
        SchemaType::Null
    } else {
        SchemaType::Unknown
    }
}

/// The first type name that the value matches.
pub open spec fn first_matching(ts: Seq<Seq<char>>, v: Json) -> Option<Seq<char>>
    decreases ts.len(),
{
    if ts.len() == 0 {
        None
    } else if spec_match_schema_type(v, ts[0]) {
        Some(ts[0])
    } else {
        first_matching(ts.skip(1), v)
    }
}

/// The type of a value under a schema: its single type; of a list, the
/// first the value matches, else the first listed; without `type`, the
/// value's own type.
pub open spec fn spec_determine_type(s: SchemaModel, v: Json) -> SchemaType {
    match s.type_ {
        Some(TypeModel::Single(t)) => spec_parse_type(t),
        Some(TypeModel::Array(ts)) => match first_matching(ts, v) {
            Some(t) => spec_parse_type(t),
            None => if ts.len() > 0 {
                spec_parse_type(ts[0])
            } else {
                SchemaType::Unknown
            },
        },
        None => spec_detect_schema_type(v),
    }
}

/// The type a type name denotes.
pub fn parse_type_str(s: &str) -> (r: SchemaType)
    ensures
        r == spec_parse_type(s@),
{
    if str_eq(s, "string") {
        SchemaType::String
    } else if str_eq(s, "number") {
        SchemaType::Number
    } else if str_eq(s, "integer") {
        SchemaType::Integer
    } else if str_eq(s, "boolean") {
        SchemaType::Boolean
    } else if str_eq(s, "object") {
        SchemaType::Object
    } else if str_eq(s, "array") {
        SchemaType::Array
    } else if str_eq(s, "null") {
        SchemaType::Null
    } else {
        SchemaType::Unknown
    }
}

/// The type of `value` under `schema`.
pub fn determine_type(schema: &Schema, value: &JsonValue) -> (r: SchemaType)
    ensures
        r == spec_determine_type(schema@, value@),
{
    proof {
        lemma_schema_fields(*schema);
    }
    match &schema.type_ {
        Some(SchemaTypeValue::Single(t)) => parse_type_str(t.as_str()),
        Some(SchemaTypeValue::Array(arr)) => {
            let ghost ts = str_seq_model(arr@);
            let mut i: usize = 0;
            assert(ts.skip(0) =~= ts);
            assert(schema@.type_ == Some(TypeModel::Array(ts)));
            while i < arr.len()
                invariant
                    i <= arr@.len(),
                    schema@.type_ == Some(TypeModel::Array(ts)),
                    ts == str_seq_model(arr@),
                    first_matching(ts.skip(i as int), value@) == first_matching(ts, value@),
                decreases arr.len() - i,
            {
                assert(ts.skip(i as int).skip(1) =~= ts.skip(i + 1));
                assert(ts.skip(i as int)[0] == arr@[i as int]@);
                if match_schema_type(value, arr[i].as_str()) {
                    assert(first_matching(ts.skip(i as int), value@) == Some(arr@[i as int]@));
                    return parse_type_str(arr[i].as_str());
                }
                i = i + 1;
            }
            assert(ts.skip(arr@.len() as int).len() == 0);
            assert(first_matching(ts, value@) is None);
            assert(schema@.type_ == Some(TypeModel::Array(ts)));
            if arr.len() > 0 {
                parse_type_str(arr[0].as_str())
            } else {
                SchemaType::Unknown
            }
        },
        None => detect_schema_type(value),
    }
}

// ── Resolution ──

/// The merge of `o` over `b` (see `spec_merge_schema`).
#[verifier::opaque]
pub open spec fn merged(b: SchemaModel, o: SchemaModel, origin: Seq<char>) -> SchemaModel {
    spec_merge_schema(b, o, origin)
}

fn merge_into(base: &Schema, over: &Schema, origin: &str) -> (r: Schema)
    ensures
        r@ == merged(base@, over@, origin@),
{
    proof {
        reveal(merged);
    }
    merge_schema(base, over, origin)
}

/// The options used to test subschemas while resolving.
pub open spec fn probe_options() -> ValidatorOptions {
    ValidatorOptions { fast_fail: true, shallow: false }
}

/// The options of the final shallow validation.
pub open spec fn shallow_options() -> ValidatorOptions {
    ValidatorOptions { fast_fail: false, shallow: true }
}

pub open spec fn list_len(l: Option<Seq<SchemaModel>>) -> nat {
    match l {
        Some(x) => x.len(),
        None => 0,
    }
}

pub open spec fn index_loc(kw: Seq<char>, mid: Seq<char>, i: nat) -> Seq<char> {
    kw + mid + decimal_text(i)
}

/// The effective schema of `v` under `s`, with keyword location `kw`:
/// the `if` branch that applies merged in, then each `allOf` subschema,
/// each `anyOf` subschema that accepts `v`, and the `oneOf` subschema
/// when exactly one accepts (each resolved first), the resolved keywords
/// dropped.
pub open spec fn resolve_spec<V: Validator>(val: V, s: SchemaModel, v: Json, kw: Seq<char>) -> SchemaModel
    decreases s, 2nat, 0nat,
{
    one_step(val, s, any_step(val, s, all_step(val, s, cond_step(val, s, v, kw), v, kw), v, kw), v, kw)
}

/// `allOf`: every subschema resolved and merged into `e`, the keyword
/// dropped.
pub open spec fn all_step<V: Validator>(val: V, s: SchemaModel, e: SchemaModel, v: Json, kw: Seq<char>) -> SchemaModel
    decreases s, 1nat, 1nat,
{
    match s.all_of {
        Some(l) => SchemaModel { all_of: None, ..fold_all(val, s, e, v, kw, l.len()) },
        None => e,
    }
}

/// `anyOf`: the subschemas that accept `v`, resolved and merged into `e`,
/// the keyword dropped.
pub open spec fn any_step<V: Validator>(val: V, s: SchemaModel, e: SchemaModel, v: Json, kw: Seq<char>) -> SchemaModel
    decreases s, 1nat, 1nat,
{
    match s.any_of {
        Some(l) => SchemaModel { any_of: None, ..fold_any(val, s, e, v, kw, l.len()) },
        None => e,
    }
}

/// `oneOf`: when exactly one subschema accepts `v`, it resolved and merged
/// into `e`; the keyword dropped.
pub open spec fn one_step<V: Validator>(val: V, s: SchemaModel, e: SchemaModel, v: Json, kw: Seq<char>) -> SchemaModel
    decreases s, 1nat, 1nat,
{
    match s.one_of {
        Some(l) => SchemaModel {
            one_of: None,
            ..if count_accepting(val, l, v, l.len()) == 1 {
                fold_one(val, s, e, v, kw, l.len())
            } else {
                e
            }
        },
        None => e,
    }
}

/// `if`/`then`/`else`: the branch that applies, resolved and merged in,
/// and the three keywords dropped.
pub open spec fn cond_step<V: Validator>(val: V, s: SchemaModel, v: Json, kw: Seq<char>) -> SchemaModel
    decreases s, 1nat, 0nat,
{
    match s.if_ {
        Some(c) => {
            let merged = if val.spec_valid(*c, v, probe_options()) {
                match s.then_ {
                    Some(t) => merged(s, resolve_spec(val, *t, v, kw + "/then"@), kw + "/then"@),
                    None => s,
                }
            } else {
                match s.else_ {
                    Some(e) => merged(s, resolve_spec(val, *e, v, kw + "/else"@), kw + "/else"@),
                    None => s,
                }
            };
            SchemaModel { if_: None, then_: None, else_: None, ..merged }
        },
        None => s,
    }
}

/// The first `n` `allOf` subschemas, resolved and merged into `e` in order.
pub open spec fn fold_all<V: Validator>(val: V, s: SchemaModel, e: SchemaModel, v: Json, kw: Seq<char>, n: nat) -> SchemaModel
    decreases s, 0nat, n,
{
    if n == 0 || n > list_len(s.all_of) {
        e
    } else {
        let prev = fold_all(val, s, e, v, kw, (n - 1) as nat);
        let loc = index_loc(kw, "/allOf/"@, (n - 1) as nat);
        merged(prev, resolve_spec(val, s.all_of->0[n - 1], v, loc), loc)
    }
}

/// The first `n` `anyOf` subschemas that accept `v`, resolved and merged
/// into `e` in order.
pub open spec fn fold_any<V: Validator>(val: V, s: SchemaModel, e: SchemaModel, v: Json, kw: Seq<char>, n: nat) -> SchemaModel
    decreases s, 0nat, n,
{
    if n == 0 || n > list_len(s.any_of) {
        e
    } else {
        let prev = fold_any(val, s, e, v, kw, (n - 1) as nat);
        let loc = index_loc(kw, "/anyOf/"@, (n - 1) as nat);
        if val.spec_valid(s.any_of->0[n - 1], v, probe_options()) {
            merged(prev, resolve_spec(val, s.any_of->0[n - 1], v, loc), loc)
        } else {
            prev
        }
    }
}

/// The first `n` `oneOf` subschemas that accept `v`, resolved and merged
/// into `e` (applied when exactly one accepts).
pub open spec fn fold_one<V: Validator>(val: V, s: SchemaModel, e: SchemaModel, v: Json, kw: Seq<char>, n: nat) -> SchemaModel
    decreases s, 0nat, n,
{
    if n == 0 || n > list_len(s.one_of) {
        e
    } else {
        let prev = fold_one(val, s, e, v, kw, (n - 1) as nat);
        let loc = index_loc(kw, "/oneOf/"@, (n - 1) as nat);
        if val.spec_valid(s.one_of->0[n - 1], v, probe_options()) {
            merged(prev, resolve_spec(val, s.one_of->0[n - 1], v, loc), loc)
        } else {
            prev
        }
    }
}

/// How many of the first `n` schemas of `l` the validator accepts `v` for.
pub open spec fn count_accepting<V: Validator>(val: V, l: Seq<SchemaModel>, v: Json, n: nat) -> nat
    decreases n,
{
    if n == 0 || n > l.len() {
        0
    } else {
        count_accepting(val, l, v, (n - 1) as nat) + if val.spec_valid(l[n - 1], v, probe_options()) {
            1nat
        } else {
            0nat
        }
    }
}

fn clear_conditional(e: &mut Schema)
    ensures
        final(e)@ == (SchemaModel { if_: None, then_: None, else_: None, ..old(e)@ }),
{
    proof {
        lemma_schema_fields(*e);
    }
    e.if_ = None;
    e.then_ = None;
    e.else_ = None;
    proof {
        lemma_schema_fields(*e);
    }
}

fn clear_all_of(e: &mut Schema)
    ensures
        final(e)@ == (SchemaModel { all_of: None, ..old(e)@ }),
{
    proof {
        lemma_schema_fields(*e);
    }
    e.all_of = None;
    proof {
        lemma_schema_fields(*e);
    }
}

fn clear_any_of(e: &mut Schema)
    ensures
        final(e)@ == (SchemaModel { any_of: None, ..old(e)@ }),
{
    proof {
        lemma_schema_fields(*e);
    }
    e.any_of = None;
    proof {
        lemma_schema_fields(*e);
    }
}

fn clear_one_of(e: &mut Schema)
    ensures
        final(e)@ == (SchemaModel { one_of: None, ..old(e)@ }),
{
    proof {
        lemma_schema_fields(*e);
    }
    e.one_of = None;
    proof {
        lemma_schema_fields(*e);
    }
}

/// Merge the resolved `allOf` subschemas `list` of `schema` into `e`.
fn resolve_all_of<V: Validator>(
    validator: &V,
    schema: &Schema,
    list: &Vec<Schema>,
    e: Schema,
    value: &JsonValue,
    kw: &str,
    inst: &str,
) -> (r: Schema)
    requires
        schema@.all_of == Some(schemas_model(list@)),
    ensures
        r@ == fold_all(*validator, schema@, e@, value@, kw@, list@.len()),
    decreases list, 0nat,
{
    let ghost e0 = e@;
    let mut acc = e;
    let mut i: usize = 0;
    while i < list.len()
        invariant
            i <= list@.len(),
            schema@.all_of == Some(schemas_model(list@)),
            acc@ == fold_all(*validator, schema@, e0, value@, kw@, i as nat),
        decreases list.len() - i,
    {
        proof {
            lemma_schemas_model_index(list@, i as int);
            assert(decreases_to!(list => list@[i as int]));
        }
        let loc = index_location(kw, "/allOf/", i);
        let sub = resolve_effective_schema(validator, &list[i], value, loc.as_str(), inst, false);
        acc = merge_into(&acc, &sub.effective_schema, loc.as_str());
        i = i + 1;
    }
    acc
}

/// Merge the resolved `anyOf` subschemas of `schema` that accept the
/// value into `e`.
fn resolve_any_of<V: Validator>(
    validator: &V,
    schema: &Schema,
    list: &Vec<Schema>,
    e: Schema,
    value: &JsonValue,
    kw: &str,
    inst: &str,
) -> (r: Schema)
    requires
        schema@.any_of == Some(schemas_model(list@)),
    ensures
        r@ == fold_any(*validator, schema@, e@, value@, kw@, list@.len()),
    decreases list, 0nat,
{
    let ghost e0 = e@;
    let mut acc = e;
    let mut i: usize = 0;
    let probe = ValidatorOptions { fast_fail: true, shallow: false };
    while i < list.len()
        invariant
            i <= list@.len(),
            schema@.any_of == Some(schemas_model(list@)),
            probe == probe_options(),
            acc@ == fold_any(*validator, schema@, e0, value@, kw@, i as nat),
        decreases list.len() - i,
    {
        proof {
            lemma_schemas_model_index(list@, i as int);
            assert(decreases_to!(list => list@[i as int]));
        }
        let loc = index_location(kw, "/anyOf/", i);
        let result = validator.validate(&list[i], value, loc.as_str(), inst, &probe);
        if result.valid {
            let sub = resolve_effective_schema(validator, &list[i], value, loc.as_str(), inst, false);
            acc = merge_into(&acc, &sub.effective_schema, loc.as_str());
        }
        i = i + 1;
    }
    acc
}

/// `oneOf`: when exactly one subschema accepts the value, merge it,
/// resolved, into `e`.
fn resolve_one_of<V: Validator>(
    validator: &V,
    schema: &Schema,
    list: &Vec<Schema>,
    e: Schema,
    value: &JsonValue,
    kw: &str,
    inst: &str,
) -> (r: Schema)
    requires
        schema@.one_of == Some(schemas_model(list@)),
    ensures
        r@ == (if count_accepting(*validator, schemas_model(list@), value@, list@.len()) == 1 {
            fold_one(*validator, schema@, e@, value@, kw@, list@.len())
        } else {
            e@
        }),
    decreases list, 0nat,
{
    let ghost l = schemas_model(list@);
    let probe = ValidatorOptions { fast_fail: true, shallow: false };
    let mut accepted: Vec<bool> = Vec::new();
    let mut count: usize = 0;
    let mut i: usize = 0;
    while i < list.len()
        invariant
            i <= list@.len(),
            l == schemas_model(list@),
            probe == probe_options(),
            accepted@.len() == i,
            forall|k: int| 0 <= k < i ==> #[trigger] accepted@[k] == validator.spec_valid(l[k], value@, probe_options()),
            count <= i,
            count == count_accepting(*validator, l, value@, i as nat),
        decreases list.len() - i,
    {
        proof {
            lemma_schemas_model_index(list@, i as int);
        }
        let loc = index_location(kw, "/oneOf/", i);
        let result = validator.validate(&list[i], value, loc.as_str(), inst, &probe);
        accepted.push(result.valid);
        if result.valid {
            count = count + 1;
        }
        i = i + 1;
    }
    if count != 1 {
        return e;
    }
    let ghost e0 = e@;
    let mut acc = e;
    let mut j: usize = 0;
    while j < list.len()
        invariant
            j <= list@.len(),
            l == schemas_model(list@),
            schema@.one_of == Some(l),
            accepted@.len() == list@.len(),
            forall|k: int| 0 <= k < list@.len() ==> #[trigger] accepted@[k] == validator.spec_valid(l[k], value@, probe_options()),
            acc@ == fold_one(*validator, schema@, e0, value@, kw@, j as nat),
        decreases list.len() - j,
    {
        proof {
            lemma_schemas_model_index(list@, j as int);
            assert(decreases_to!(list => list@[j as int]));
        }
        if accepted[j] {
            let loc = index_location(kw, "/oneOf/", j);
            let sub = resolve_effective_schema(validator, &list[j], value, loc.as_str(), inst, false);
            acc = merge_into(&acc, &sub.effective_schema, loc.as_str());
        }
        j = j + 1;
    }
    acc
}

/// `if`/`then`/`else` resolved on a copy of `schema`.
fn resolve_conditional<V: Validator>(validator: &V, schema: &Schema, value: &JsonValue, kw: &str, inst: &str) -> (r: Schema)
    ensures
        r@ == cond_step(*validator, schema@, value@, kw@),
    decreases schema, 0nat,
{
    proof {
        lemma_schema_fields(*schema);
    }
    let mut effective = schema.deep_copy();
    if let Some(c) = &schema.if_ {
        let probe = ValidatorOptions { fast_fail: true, shallow: false };
        let if_result = validator.validate(&**c, value, concat2(kw, "/if").as_str(), inst, &probe);
        if if_result.valid {
            if let Some(t) = &schema.then_ {
                proof {
                    assert(decreases_to!(schema => **t));
                }
                let loc = concat2(kw, "/then");
                let sub = resolve_effective_schema(validator, &**t, value, loc.as_str(), inst, false);
                effective = merge_into(&effective, &sub.effective_schema, loc.as_str());
            }
        } else if let Some(e) = &schema.else_ {
            proof {
                assert(decreases_to!(schema => **e));
            }
            let loc = concat2(kw, "/else");
            let sub = resolve_effective_schema(validator, &**e, value, loc.as_str(), inst, false);
            effective = merge_into(&effective, &sub.effective_schema, loc.as_str());
        }
        clear_conditional(&mut effective);
    }
    effective
}

/// Apply `allOf` to `e`.
fn apply_all_of<V: Validator>(validator: &V, schema: &Schema, e: Schema, value: &JsonValue, kw: &str, inst: &str) -> (r:
    Schema)
    ensures
        r@ == all_step(*validator, schema@, e@, value@, kw@),
    decreases schema, 1nat,
{
    proof {
        lemma_schema_fields(*schema);
    }
    match &schema.all_of {
        Some(l) => {
            proof {
                assert(decreases_to!(schema => *l));
            }
            let mut r = resolve_all_of(validator, schema, l, e, value, kw, inst);
            clear_all_of(&mut r);
            r
        },
        None => e,
    }
}

/// Apply `anyOf` to `e`.
fn apply_any_of<V: Validator>(validator: &V, schema: &Schema, e: Schema, value: &JsonValue, kw: &str, inst: &str) -> (r:
    Schema)
    ensures
        r@ == any_step(*validator, schema@, e@, value@, kw@),
    decreases schema, 1nat,
{
    proof {
        lemma_schema_fields(*schema);
    }
    match &schema.any_of {
        Some(l) => {
            proof {
                assert(decreases_to!(schema => *l));
            }
            let mut r = resolve_any_of(validator, schema, l, e, value, kw, inst);
            clear_any_of(&mut r);
            r
        },
        None => e,
    }
}

/// Apply `oneOf` to `e`.
fn apply_one_of<V: Validator>(validator: &V, schema: &Schema, e: Schema, value: &JsonValue, kw: &str, inst: &str) -> (r:
    Schema)
    ensures
        r@ == one_step(*validator, schema@, e@, value@, kw@),
    decreases schema, 1nat,
{
    proof {
        lemma_schema_fields(*schema);
    }
    match &schema.one_of {
        Some(l) => {
            proof {
                assert(decreases_to!(schema => *l));
            }
            let mut r = resolve_one_of(validator, schema, l, e, value, kw, inst);
            clear_one_of(&mut r);
            r
        },
        None => e,
    }
}

/// The effective schema of `value` under `schema` (see `resolve_spec`).
fn resolve_schema<V: Validator>(validator: &V, schema: &Schema, value: &JsonValue, kw: &str, inst: &str) -> (r: Schema)
    ensures
        r@ == resolve_spec(*validator, schema@, value@, kw@),
    decreases schema, 2nat,
{
    let e1 = resolve_conditional(validator, schema, value, kw, inst);
    let e2 = apply_all_of(validator, schema, e1, value, kw, inst);
    let e3 = apply_any_of(validator, schema, e2, value, kw, inst);
    apply_one_of(validator, schema, e3, value, kw, inst)
}

/// Resolve the effective schema of `value` under `schema`: see
/// `resolve_spec`. The type is the one `spec_determine_type` gives for the
/// effective schema; with `validate`, the error is the output of a shallow
/// validation of the value against the effective schema when it fails.
pub fn resolve_effective_schema<V: Validator>(
    validator: &V,
    schema: &Schema,
    value: &JsonValue,
    keyword_location: &str,
    instance_location: &str,
    validate: bool,
) -> (r: EffectiveSchemaResult)
    ensures
        r.effective_schema@ == resolve_spec(*validator, schema@, value@, keyword_location@),
        crate::laws::composition_free(r.effective_schema@),
        r.type_ == spec_determine_type(r.effective_schema@, value@),
        r.error is Some <==> (validate && !validator.spec_valid(r.effective_schema@, value@, shallow_options())),
        r.error matches Some(e) ==> !e.valid,
    decreases schema, 3nat,
{
    let effective = resolve_schema(validator, schema, value, keyword_location, instance_location);
    proof {
        crate::laws::law_effective_schema_composition_free(*validator, schema@, value@, keyword_location@);
    }
    let type_ = determine_type(&effective, value);
    let error = if validate {
        let opts = ValidatorOptions { fast_fail: false, shallow: true };
        let result = validator.validate(&effective, value, keyword_location, instance_location, &opts);
        if !result.valid {
            Some(result)
        } else {
            None
        }
    } else {
        None
    };
    EffectiveSchemaResult { effective_schema: effective, type_, error }
}

} // verus!
