//! Default values of schemas, and filling in what a value lacks.
//! Priority: `const`, then `default`, then, for a required field, null
//! when the type is nullable or the type's zero value, else nothing.
use vstd::prelude::*;
use crate::json::{Json, JsonNumber, JsonValue, obj_get, obj_has, obj_insert, entries_view,
    obj_find, obj_insert_exec, lemma_object_view, lemma_array_view};
use crate::schema::{AddPropsModel, Schema, SchemaModel, SchemaType, SchemaTypeValue, TypeModel,
    lemma_schema_fields, lemma_schema_map_model_index, lemma_schemas_model_index, str_seq_model,
    str_list_model, type_opt_model, schema_map_model, schemas_model, schema_map_opt_model, schema_list_model};
use crate::text::str_eq;

verus! {

// ── Specifications ──

/// The first type name that is not `"null"`.
pub open spec fn first_non_null(ts: Seq<Seq<char>>) -> Option<Seq<char>>
    decreases ts.len(),
{
    if ts.len() == 0 {
        None
    } else if ts[0] != "null"@ {
        Some(ts[0])
    } else {
        first_non_null(ts.skip(1))
    }
}

/// The primary type name, and whether `"null"` is allowed.
pub open spec fn spec_type_nullable(t: Option<TypeModel>) -> (Option<Seq<char>>, bool) {
    match t {
        Some(TypeModel::Single(s)) => (Some(s), s == "null"@),
        Some(TypeModel::Array(ts)) => (first_non_null(ts), ts.contains("null"@)),
        None => (None, false),
    }
}

/// Whether a `required` list names a key.
pub open spec fn req_has(req: Option<Seq<Seq<char>>>, k: Seq<char>) -> bool {
    match req {
        Some(r) => r.contains(k),
        None => false,
    }
}

pub open spec fn props_len(m: SchemaModel) -> nat {
    match m.properties {
        Some(p) => p.len(),
        None => 0,
    }
}

pub open spec fn prefix_len(m: SchemaModel) -> nat {
    match m.prefix_items {
        Some(p) => p.len(),
        None => 0,
    }
}

/// The default value of a schema; `required` says whether a value must be
/// produced for a type that has no natural default.
pub open spec fn spec_default_value(m: SchemaModel, required: bool) -> Option<Json>
    decreases m, props_len(m) + prefix_len(m) + 1,
{
    if m.const_ is Some {
        m.const_
    } else if m.default is Some {
        m.default
    } else {
        let (t, nullable) = spec_type_nullable(m.type_);
        match t {
            None => None,
            Some(t) => if t == "object"@ {
                let map = props_defaults(m, props_len(m));
                if map.len() == 0 && !required {
                    None
                } else {
                    Some(Json::Object(map))
                }
            } else if t == "array"@ {
                let arr = prefix_defaults(m, prefix_len(m));
                if arr.len() == 0 && !required {
                    None
                } else {
                    Some(Json::Array(arr))
                }
            } else if t == "string"@ {
                if !required { None } else if nullable { Some(Json::Null) } else { Some(Json::Str(Seq::empty())) }
            } else if t == "number"@ || t == "integer"@ {
                if !required { None } else if nullable { Some(Json::Null) } else { Some(Json::Number(JsonNumber::PosInt(0))) }
            } else if t == "boolean"@ {
                if !required { None } else if nullable { Some(Json::Null) } else { Some(Json::Bool(false)) }
            } else if t == "null"@ {
                Some(Json::Null)
            } else {
                None
            },
        }
    }
}

/// The object built from the defaults of the first `n` properties, each
/// property required when the schema's `required` names it.
pub open spec fn props_defaults(m: SchemaModel, n: nat) -> Seq<(Seq<char>, Json)>
    decreases m, n,
{
    if n == 0 || n > props_len(m) {
        Seq::empty()
    } else {
        let prev = props_defaults(m, (n - 1) as nat);
        let e = m.properties->0[n - 1];
        match spec_default_value(e.1, req_has(m.required, e.0)) {
            Some(v) => obj_insert(prev, e.0, v),
            None => prev,
        }
    }
}

/// The array of the defaults of the first `n` prefix items that have one.
pub open spec fn prefix_defaults(m: SchemaModel, n: nat) -> Seq<Json>
    decreases m, n,
{
    if n == 0 || n > prefix_len(m) {
        Seq::empty()
    } else {
        let prev = prefix_defaults(m, (n - 1) as nat);
        match spec_default_value(m.prefix_items->0[n - 1], true) {
            Some(v) => prev.push(v),
            None => prev,
        }
    }
}

/// Fill missing properties, over the first `n` properties: a missing one
/// that is required, or has a `default` or `const`, gets its default.
pub open spec fn fill_props(m: SchemaModel, obj: Seq<(Seq<char>, Json)>, n: nat) -> (Seq<(Seq<char>, Json)>, bool)
    decreases n,
{
    if n == 0 || n > props_len(m) {
        (obj, false)
    } else {
        let (o, ch) = fill_props(m, obj, (n - 1) as nat);
        let e = m.properties->0[n - 1];
        let req = req_has(m.required, e.0);
        if obj_has(o, e.0) {
            (o, ch)
        } else if req || e.1.default is Some || e.1.const_ is Some {
            match spec_default_value(e.1, req) {
                Some(d) => (obj_insert(o, e.0, d), true),
                None => (o, ch),
            }
        } else {
            (o, ch)
        }
    }
}

/// The array padded with nulls up to length `i`.
pub open spec fn pad_nulls(a: Seq<Json>, i: nat) -> Seq<Json> {
    if i <= a.len() {
        a
    } else {
        a + Seq::new((i - a.len()) as nat, |k: int| Json::Null)
    }
}

/// Fill missing prefix items, over the first `n` of them.
pub open spec fn fill_prefix(m: SchemaModel, arr: Seq<Json>, n: nat) -> (Seq<Json>, bool)
    decreases n,
{
    if n == 0 || n > prefix_len(m) {
        (arr, false)
    } else {
        let (a, ch) = fill_prefix(m, arr, (n - 1) as nat);
        let i = (n - 1) as nat;
        if i < a.len() {
            (a, ch)
        } else {
            match spec_default_value(m.prefix_items->0[i as int], true) {
                Some(d) => (pad_nulls(a, i).push(d), true),
                None => (a, ch),
            }
        }
    }
}

/// The value after defaults are applied, and whether anything changed.
/// An absent value is filled only when required; a null of a nullable
/// type stays; an object gets its missing properties, an array its missing
/// prefix items; a value of the wrong kind, or a null, is replaced by the
/// default when required.
pub open spec fn spec_apply_defaults(t: SchemaType, v: Option<Json>, m: SchemaModel, required: bool) -> (Option<Json>, bool) {
    match v {
        None => if !required {
            (None, false)
        } else {
            let d = spec_default_value(m, required);
            (d, d is Some)
        },
        Some(val) => {
            let nullable = spec_type_nullable(m.type_).1;
            if nullable && val is Null {
                (Some(Json::Null), false)
            } else {
                match t {
                    SchemaType::Object => match val {
                        Json::Object(o) => {
                            let r = fill_props(m, o, props_len(m));
                            (Some(Json::Object(r.0)), r.1)
                        },
                        _ => if required && spec_default_value(m, true) is Some {
                            (spec_default_value(m, true), true)
                        } else {
                            (Some(val), false)
                        },
                    },
                    SchemaType::Array => match val {
                        Json::Array(a) => {
                            let r = fill_prefix(m, a, prefix_len(m));
                            (Some(Json::Array(r.0)), r.1)
                        },
                        _ => if required && spec_default_value(m, true) is Some {
                            (spec_default_value(m, true), true)
                        } else {
                            (Some(val), false)
                        },
                    },
                    _ => if val is Null && required && spec_default_value(m, true) is Some {
                        (spec_default_value(m, true), true)
                    } else {
                        (Some(val), false)
                    },
                }
            }
        },
    }
}

/// A schema without `const` or `default` whose type is a single scalar
/// type gets, when a value is required, that type's zero value: the number
/// `0` for "number" and "integer", the empty string for "string", `false`
/// for "boolean"; and gets nothing when no value is required.
pub proof fn law_scalar_defaults(m: SchemaModel, t: Seq<char>)
    requires
        m.const_ is None,
        m.default is None,
        m.type_ == Some(TypeModel::Single(t)),
    ensures
        t == "number"@ ==> spec_default_value(m, true) == Some(Json::Number(JsonNumber::PosInt(0))),
        t == "integer"@ ==> spec_default_value(m, true) == Some(Json::Number(JsonNumber::PosInt(0))),
        t == "string"@ ==> spec_default_value(m, true) == Some(Json::Str(Seq::empty())),
        t == "boolean"@ ==> spec_default_value(m, true) == Some(Json::Bool(false)),
        (t == "number"@ || t == "integer"@ || t == "string"@ || t == "boolean"@) ==> spec_default_value(m, false)
            is None,
{
    reveal_strlit("number");
    reveal_strlit("integer");
    reveal_strlit("string");
    reveal_strlit("boolean");
    reveal_strlit("object");
    reveal_strlit("array");
    reveal_strlit("null");
    assert("number"@[0] != "object"@[0] && "number"@[0] != "array"@[0] && "number"@[0] != "string"@[0]);
    assert("integer"@[0] != "object"@[0] && "integer"@[0] != "array"@[0] && "integer"@[0] != "string"@[0]);
    assert("number"@.len() != "null"@.len() && "integer"@.len() != "null"@.len());
}

/// Filling properties reports no change only when it leaves the entries
/// as they were.
proof fn lemma_fill_props_unchanged(m: SchemaModel, obj: Seq<(Seq<char>, Json)>, n: nat)
    ensures
        !fill_props(m, obj, n).1 ==> fill_props(m, obj, n).0 == obj,
    decreases n,
{
    if !(n == 0 || n > props_len(m)) {
        lemma_fill_props_unchanged(m, obj, (n - 1) as nat);
    }
}

/// Filling prefix items reports no change only when it leaves the items
/// as they were.
proof fn lemma_fill_prefix_unchanged(m: SchemaModel, arr: Seq<Json>, n: nat)
    ensures
        !fill_prefix(m, arr, n).1 ==> fill_prefix(m, arr, n).0 == arr,
    decreases n,
{
    if !(n == 0 || n > prefix_len(m)) {
        lemma_fill_prefix_unchanged(m, arr, (n - 1) as nat);
    }
}

/// Applying defaults reports no change only when the value comes back as
/// it was given (absent stays absent).
pub proof fn law_unchanged_defaults_keep_value(t: SchemaType, v: Option<Json>, m: SchemaModel, required: bool)
    ensures
        !spec_apply_defaults(t, v, m, required).1 ==> spec_apply_defaults(t, v, m, required).0 == v,
{
    match v {
        Some(Json::Object(o)) => lemma_fill_props_unchanged(m, o, props_len(m)),
        Some(Json::Array(a)) => lemma_fill_prefix_unchanged(m, a, prefix_len(m)),
        _ => {},
    }
}

// ── Operations ──

/// The primary (first non-null) type name, and whether null is allowed.
pub fn type_nullable(schema: &Schema) -> (r: (Option<String>, bool))
    ensures
        (match r.0 { Some(s) => Some(s@), None => None }, r.1) == spec_type_nullable(schema@.type_),
{
    proof {
        lemma_schema_fields(*schema);
    }
    match &schema.type_ {
        Some(SchemaTypeValue::Single(t)) => (Some(t.clone()), str_eq(t.as_str(), "null")),
        Some(SchemaTypeValue::Array(types)) => {
            let ghost ts = str_seq_model(types@);
            let mut nullable = false;
            let mut primary: Option<String> = None;
            let mut i: usize = 0;
            while i < types.len()
                invariant
                    i <= types@.len(),
                    ts == str_seq_model(types@),
                    nullable == ts.take(i as int).contains("null"@),
                    match primary { Some(s) => Some(s@), None => None } == first_non_null(ts.take(i as int)),
                decreases types.len() - i,
            {
                proof {
                    lemma_first_non_null_push(ts, i as int);
                }
                assert(ts.take(i + 1) =~= ts.take(i as int).push(ts[i as int]));
                assert(ts[i as int] == types@[i as int]@);
                assert(ts.take(i + 1).contains("null"@) == (ts.take(i as int).contains("null"@) || ts[i as int] == "null"@)) by {
                    if ts[i as int] == "null"@ {
                        assert(ts.take(i + 1)[i as int] == "null"@);
                    }
                    if ts.take(i as int).contains("null"@) {
                        let tt = ts.take(i as int);
                        let j = choose|j: int| 0 <= j < tt.len() && #[trigger] tt[j] == "null"@;
                        assert(ts.take(i + 1)[j] == "null"@);
                    }
                    if ts.take(i + 1).contains("null"@) {
                        let tt = ts.take(i + 1);
                        let j = choose|j: int| 0 <= j < tt.len() && #[trigger] tt[j] == "null"@;
                        if j < i {
                            assert(ts.take(i as int)[j] == "null"@);
                        }
                    }
                }
                if str_eq(types[i].as_str(), "null") {
                    nullable = true;
                } else if primary.is_none() {
                    primary = Some(types[i].clone());
                }
                i = i + 1;
            }
            assert(ts.take(types@.len() as int) =~= ts);
            (primary, nullable)
        },
        None => (None, false),
    }
}

proof fn lemma_first_non_null_push(ts: Seq<Seq<char>>, i: int)
    requires
        0 <= i < ts.len(),
    ensures
        first_non_null(ts.take(i + 1)) == match first_non_null(ts.take(i)) {
            Some(s) => Some(s),
            None => if ts[i] != "null"@ { Some(ts[i]) } else { None },
        },
    decreases i,
{
    reveal_with_fuel(first_non_null, 2);
    if i == 0 {
        assert(ts.take(1).skip(1) =~= Seq::<Seq<char>>::empty());
        assert(ts.take(1)[0] == ts[0]);
        assert(ts.take(0).len() == 0);
    } else {
        let t = ts.skip(1);
        lemma_first_non_null_push(t, i - 1);
        assert(ts.take(i + 1).skip(1) =~= t.take(i));
        assert(ts.take(i).skip(1) =~= t.take(i - 1));
        assert(ts.take(i + 1)[0] == ts[0]);
        assert(ts.take(i)[0] == ts[0]);
        assert(t[i - 1] == ts[i]);
    }
}

/// Whether a list of names contains `k`.
pub fn names_contain(names: &Vec<String>, k: &str) -> (r: bool)
    ensures
        r == str_seq_model(names@).contains(k@),
{
    let ghost ns = str_seq_model(names@);
    let mut i: usize = 0;
    while i < names.len()
        invariant
            i <= names@.len(),
            ns == str_seq_model(names@),
            forall|j: int| 0 <= j < i ==> ns[j] != k@,
        decreases names.len() - i,
    {
        if str_eq(names[i].as_str(), k) {
            assert(ns[i as int] == k@);
            return true;
        }
        i = i + 1;
    }
    false
}

/// Whether a schema's `required` names `k`.
pub fn required_has(required: &Option<Vec<String>>, k: &str) -> (r: bool)
    ensures
        r == req_has(str_list_model(*required), k@),
{
    match required {
        Some(v) => names_contain(v, k),
        None => false,
    }
}

proof fn lemma_props_len(s: Schema)
    ensures
        props_len(s@) == match s.properties { Some(p) => p@.len(), None => 0 },
        prefix_len(s@) == match s.prefix_items { Some(p) => p@.len(), None => 0 },
{
    lemma_schema_fields(s);
    if let Some(p) = s.properties {
        if p@.len() > 0 {
            lemma_schema_map_model_index(p@, 0);
        } else {
            assert(schema_map_model(p@).len() == 0);
        }
    }
    if let Some(p) = s.prefix_items {
        if p@.len() > 0 {
            lemma_schemas_model_index(p@, 0);
        } else {
            assert(schemas_model(p@).len() == 0);
        }
    }
}

/// The default value of a schema.
pub fn get_default_value(schema: &Schema, required: bool) -> (r: Option<JsonValue>)
    ensures
        match r { Some(v) => Some(v@), None => None } == spec_default_value(schema@, required),
    decreases schema,
{
    proof {
        lemma_schema_fields(*schema);
        lemma_props_len(*schema);
    }
    if let Some(c) = &schema.const_ {
        return Some(c.deep_copy());
    }
    if let Some(d) = &schema.default {
        return Some(d.deep_copy());
    }
    let (t, nullable) = type_nullable(schema);
    let t = match t {
        Some(t) => t,
        None => return None,
    };
    if str_eq(t.as_str(), "object") {
        let map: Vec<(String, JsonValue)> = match &schema.properties {
            Some(props) => {
                proof {
                    assert(decreases_to!(schema => props));
                }
                object_defaults(schema, props)
            },
            None => {
                let e: Vec<(String, JsonValue)> = Vec::new();
                assert(entries_view(e@) =~= Seq::<(Seq<char>, Json)>::empty());
                e
            },
        };
        let r = JsonValue::Object(map);
        proof {
            lemma_object_view(r);
            assert(schema@.const_ is None);
            assert(schema@.default is None);
            assert(spec_type_nullable(schema@.type_).0 == Some("object"@));
            assert(entries_view(map@) == props_defaults(schema@, props_len(schema@)));
            assert(spec_default_value(schema@, required) == (if entries_view(map@).len() == 0 && !required { None } else { Some(Json::Object(entries_view(map@))) }));
        }
        if map_is_empty(&r) && !required {
            None
        } else {
            Some(r)
        }
    } else if str_eq(t.as_str(), "array") {
        let arr: Vec<JsonValue> = match &schema.prefix_items {
            Some(items) => {
                proof {
                    assert(decreases_to!(schema => items));
                }
                prefix_item_defaults(schema, items)
            },
            None => {
                let e: Vec<JsonValue> = Vec::new();
                assert(e@.map_values(|x: JsonValue| x@) =~= Seq::<Json>::empty());
                e
            },
        };
        let r = JsonValue::Array(arr);
        proof {
            lemma_array_view(r);
            assert(arr@.map_values(|x: JsonValue| x@) == prefix_defaults(schema@, prefix_len(schema@)));
            assert(spec_default_value(schema@, required) == (if arr@.map_values(|x: JsonValue| x@).len() == 0 && !required { None } else { Some(Json::Array(arr@.map_values(|x: JsonValue| x@))) }));
        }
        if arr_is_empty(&r) && !required {
            None
        } else {
            Some(r)
        }
    } else if str_eq(t.as_str(), "string") {
        assert(spec_type_nullable(schema@.type_).0 == Some("string"@));
        assert(!required ==> spec_default_value(schema@, required) is None);
        if !required {
            None
        } else if nullable {
            Some(JsonValue::Null)
        } else {
            proof {
                reveal_strlit("");
                assert(""@ =~= Seq::<char>::empty());
            }
            Some(JsonValue::from_str(""))
        }
    } else if str_eq(t.as_str(), "number") || str_eq(t.as_str(), "integer") {
        if !required {
            None
        } else if nullable {
            Some(JsonValue::Null)
        } else {
            assert(spec_default_value(schema@, required) == Some(Json::Number(JsonNumber::PosInt(0))));
            Some(JsonValue::Number(JsonNumber::PosInt(0)))
        }
    } else if str_eq(t.as_str(), "boolean") {
        if !required {
            None
        } else if nullable {
            Some(JsonValue::Null)
        } else {
            assert(spec_default_value(schema@, required) == Some(Json::Bool(false)));
            Some(JsonValue::Bool(false))
        }
    } else if str_eq(t.as_str(), "null") {
        assert(spec_default_value(schema@, required) == Some(Json::Null));
        Some(JsonValue::Null)
    } else {
        assert(spec_default_value(schema@, required) is None);
        None
    }
}

/// The object of the defaults of a schema's properties.
fn object_defaults(schema: &Schema, props: &Vec<(String, Schema)>) -> (map: Vec<(String, JsonValue)>)
    requires
        schema.properties == Some(*props),
    ensures
        entries_view(map@) == props_defaults(schema@, props@.len()),
    decreases props,
{
    proof {
        lemma_schema_fields(*schema);
        lemma_props_len(*schema);
    }
    let ghost m = schema@;
    let mut map: Vec<(String, JsonValue)> = Vec::new();
    assert(entries_view(map@) =~= Seq::<(Seq<char>, Json)>::empty());
    let mut i: usize = 0;
    while i < props.len()
        invariant
            i <= props@.len(),
            m == schema@,
            props_len(m) == props@.len(),
            m.properties == Some(schema_map_model(props@)),
            m.required == str_list_model(schema.required),
            entries_view(map@) == props_defaults(m, i as nat),
        decreases props.len() - i,
    {
        proof {
            lemma_schema_map_model_index(props@, i as int);
            assert(decreases_to!(props => props@[i as int].1));
        }
        let req = required_has(&schema.required, props[i].0.as_str());
        let d = get_default_value(&props[i].1, req);
        if let Some(v) = d {
            obj_insert_exec(&mut map, props[i].0.clone(), v);
        }
        i = i + 1;
    }
    map
}

/// The list of the defaults of a schema's prefix items that have one.
fn prefix_item_defaults(schema: &Schema, items: &Vec<Schema>) -> (arr: Vec<JsonValue>)
    requires
        schema.prefix_items == Some(*items),
    ensures
        arr@.map_values(|x: JsonValue| x@) == prefix_defaults(schema@, items@.len()),
    decreases items,
{
    proof {
        lemma_schema_fields(*schema);
        lemma_props_len(*schema);
    }
    let ghost m = schema@;
    let mut arr: Vec<JsonValue> = Vec::new();
    assert(arr@.map_values(|x: JsonValue| x@) =~= Seq::<Json>::empty());
    let mut i: usize = 0;
    while i < items.len()
        invariant
            i <= items@.len(),
            m == schema@,
            prefix_len(m) == items@.len(),
            m.prefix_items == Some(schemas_model(items@)),
            arr@.map_values(|x: JsonValue| x@) == prefix_defaults(m, i as nat),
        decreases items.len() - i,
    {
        proof {
            lemma_schemas_model_index(items@, i as int);
            assert(decreases_to!(items => items@[i as int]));
        }
        let d = get_default_value(&items[i], true);
        if let Some(v) = d {
            let ghost before = arr@.map_values(|x: JsonValue| x@);
            let ghost vv = v@;
            arr.push(v);
            assert(arr@.map_values(|x: JsonValue| x@) =~= before.push(vv));
        }
        i = i + 1;
    }
    arr
}

fn map_is_empty(v: &JsonValue) -> (r: bool)
    requires
        v is Object,
    ensures
        r == (v@->Object_0.len() == 0),
{
    proof {
        lemma_object_view(*v);
    }
    match v {
        JsonValue::Object(m) => m.len() == 0,
        _ => false,
    }
}

fn arr_is_empty(v: &JsonValue) -> (r: bool)
    requires
        v is Array,
    ensures
        r == (v@->Array_0.len() == 0),
{
    proof {
        lemma_array_view(*v);
    }
    match v {
        JsonValue::Array(a) => a.len() == 0,
        _ => false,
    }
}

/// Apply defaults to a value based on its schema. `value` is `None` when
/// the value is absent, `Some(Null)` when it is present and null. Returns
/// the new value and whether it differs from the given one.
pub fn apply_defaults(type_: SchemaType, value: Option<&JsonValue>, schema: &Schema, required: bool) -> (r: (
    Option<JsonValue>,
    bool,
))
    ensures
        (match r.0 { Some(v) => Some(v@), None => None }, r.1) == spec_apply_defaults(
            type_,
            match value { Some(v) => Some(v@), None => None },
            schema@,
            required,
        ),
        !r.1 ==> match (r.0, value) {
            (Some(a), Some(b)) => a@ == b@,
            (None, None) => true,
            _ => false,
        },
{
    proof {
        lemma_schema_fields(*schema);
        lemma_props_len(*schema);
        law_unchanged_defaults_keep_value(type_, match value { Some(v) => Some(v@), None => None }, schema@, required);
    }
    let value = match value {
        None => {
            if !required {
                return (None, false);
            }
            let d = get_default_value(schema, required);
            let some = d.is_some();
            return (d, some);
        },
        Some(v) => v,
    };
    let (_, nullable) = type_nullable(schema);
    if nullable && value.is_null() {
        return (Some(JsonValue::Null), false);
    }
    match type_ {
        SchemaType::Object => {
            match value {
                JsonValue::Object(entries) => {
                    proof {
                        lemma_object_view(*value);
                    }
                    let (o, ch) = fill_object(schema, entries);
                    let r = JsonValue::Object(o);
                    proof {
                        lemma_object_view(r);
                    }
                    (Some(r), ch)
                },
                _ => {
                    if required {
                        if let Some(d) = get_default_value(schema, true) {
                            return (Some(d), true);
                        }
                    }
                    (Some(value.deep_copy()), false)
                },
            }
        },
        SchemaType::Array => {
            match value {
                JsonValue::Array(items) => {
                    proof {
                        lemma_array_view(*value);
                    }
                    let (a, ch) = fill_array(schema, items);
                    let r = JsonValue::Array(a);
                    proof {
                        lemma_array_view(r);
                    }
                    (Some(r), ch)
                },
                _ => {
                    if required {
                        if let Some(d) = get_default_value(schema, true) {
                            return (Some(d), true);
                        }
                    }
                    (Some(value.deep_copy()), false)
                },
            }
        },
        _ => {
            if value.is_null() && required {
                if let Some(d) = get_default_value(schema, true) {
                    return (Some(d), true);
                }
            }
            (Some(value.deep_copy()), false)
        },
    }
}

/// The object with its missing properties filled in.
fn fill_object(schema: &Schema, entries: &Vec<(String, JsonValue)>) -> (r: (Vec<(String, JsonValue)>, bool))
    ensures
        (entries_view(r.0@), r.1) == fill_props(schema@, entries_view(entries@), props_len(schema@)),
{
    proof {
        lemma_schema_fields(*schema);
        lemma_props_len(*schema);
    }
    let ghost m = schema@;
    let ghost o0 = entries_view(entries@);
    let mut obj: Vec<(String, JsonValue)> = crate::schema::clone_entries(entries);
    let mut changed = false;
    proof {
        assert(entries_view(obj@) =~= crate::schema::ext_model(obj@));
        assert(o0 =~= crate::schema::ext_model(entries@));
    }
    match &schema.properties {
        None => {
            assert(props_len(m) == 0);
        },
        Some(props) => {
            let mut i: usize = 0;
            while i < props.len()
                invariant
                    i <= props@.len(),
                    m == schema@,
                    props_len(m) == props@.len(),
                    m.properties == Some(schema_map_model(props@)),
                    m.required == str_list_model(schema.required),
                    (entries_view(obj@), changed) == fill_props(m, o0, i as nat),
                decreases props.len() - i,
            {
                proof {
                    lemma_schema_map_model_index(props@, i as int);
                    lemma_schema_fields(props@[i as int].1);
                }
                let key = &props[i].0;
                if obj_find(&obj, key.as_str()).is_none() {
                    let req = required_has(&schema.required, key.as_str());
                    let ps = &props[i].1;
                    if req || ps.default.is_some() || ps.const_.is_some() {
                        if let Some(d) = get_default_value(ps, req) {
                            obj_insert_exec(&mut obj, key.clone(), d);
                            changed = true;
                        }
                    }
                }
                i = i + 1;
            }
        },
    }
    (obj, changed)
}

/// The array with its missing prefix items filled in.
fn fill_array(schema: &Schema, items: &Vec<JsonValue>) -> (r: (Vec<JsonValue>, bool))
    ensures
        (r.0@.map_values(|x: JsonValue| x@), r.1) == fill_prefix(schema@, items@.map_values(|x: JsonValue| x@), prefix_len(schema@)),
{
    proof {
        lemma_schema_fields(*schema);
        lemma_props_len(*schema);
    }
    let ghost m = schema@;
    let ghost a0 = items@.map_values(|x: JsonValue| x@);
    let mut arr: Vec<JsonValue> = crate::schema::clone_json_vec(items);
    let mut changed = false;
    proof {
        assert(arr@.map_values(|x: JsonValue| x@) =~= crate::schema::json_seq_model(arr@));
        assert(a0 =~= crate::schema::json_seq_model(items@));
    }
    match &schema.prefix_items {
        None => {
            assert(prefix_len(m) == 0);
        },
        Some(prefix) => {
            let mut i: usize = 0;
            while i < prefix.len()
                invariant
                    i <= prefix@.len(),
                    m == schema@,
                    prefix_len(m) == prefix@.len(),
                    m.prefix_items == Some(schemas_model(prefix@)),
                    (arr@.map_values(|x: JsonValue| x@), changed) == fill_prefix(m, a0, i as nat),
                decreases prefix.len() - i,
            {
                proof {
                    lemma_schemas_model_index(prefix@, i as int);
                }
                if i >= arr.len() {
                    if let Some(d) = get_default_value(&prefix[i], true) {
                        let ghost before = arr@.map_values(|x: JsonValue| x@);
                        while arr.len() < i
                            invariant
                                before.len() <= arr@.len() <= i,
                                forall|k: int| 0 <= k < before.len() ==> #[trigger] arr@[k]@ == before[k],
                                forall|k: int| before.len() <= k < arr@.len() ==> #[trigger] arr@[k]@ == Json::Null,
                            decreases i - arr.len(),
                        {
                            arr.push(JsonValue::Null);
                        }
                        let ghost dv = d@;
                        arr.push(d);
                        assert(arr@.map_values(|x: JsonValue| x@) =~= pad_nulls(before, i as nat).push(dv));
                        changed = true;
                    }
                }
                i = i + 1;
            }
        },
    }
    (arr, changed)
}

} // verus!
