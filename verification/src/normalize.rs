//! Bringing Draft-04/07 schemas to 2020-12 form: older keywords kept as
//! extensions are rewritten into their current ones, at every depth.
use vstd::prelude::*;
use crate::json::{Json, JsonValue, entries_view, lemma_array_view, lemma_object_view};
use crate::schema::{
    AdditionalProperties, AddPropsModel, Schema, SchemaModel, SchemaTypeValue, TypeModel, add_props_model,
    dep_req_seq_model, ext_model, json_opt_model, json_seq_model, schema_box_model, schema_list_model,
    schema_map_model, schema_map_opt_model, schema_model_default, schemas_model, str_seq_model,
};
use crate::effective::{
    map_find, map_get, map_insert, find_key, lemma_key_pos_bounds, lemma_map_find_key_pos, lemma_dep_insert,
    lemma_schema_map_insert, vec_map_insert,
};
use crate::decode::{decode_schema, schema_from_json};
use crate::default::names_contain;
use crate::text::{str_eq, to_owned_string};

verus! {

/// How deep `normalize_schema` descends: more levels than any schema held
/// in memory can have.
pub const NORMALIZE_DEPTH: u64 = 0xffff_ffff_ffff_ffff;

// ── The steps, on the model ──

/// `m` without its first entry for `k`.
pub open spec fn map_remove<V>(m: Seq<(Seq<char>, V)>, k: Seq<char>) -> Seq<(Seq<char>, V)> {
    match map_find(m, k) {
        Some(i) => m.remove(i),
        None => m,
    }
}

/// The extension `k` of a schema.
pub open spec fn ext_value(s: SchemaModel, k: Seq<char>) -> Option<Json> {
    map_get(s.extensions, k)
}

/// The schema with its extension `k` removed.
pub open spec fn drop_ext(s: SchemaModel, k: Seq<char>) -> SchemaModel {
    SchemaModel { extensions: map_remove(s.extensions, k), ..s }
}

/// Draft-04 `id` becomes `$id`, unless `$id` is set.
pub open spec fn norm_id(s: SchemaModel) -> SchemaModel {
    let t = drop_ext(s, "id"@);
    match ext_value(s, "id"@) {
        Some(Json::Str(x)) => if t.id is None { SchemaModel { id: Some(x), ..t } } else { t },
        _ => t,
    }
}

/// Draft-04 `exclusiveMaximum: true` turns `maximum` into
/// `exclusiveMaximum`; the same for the minimum.
pub open spec fn norm_exclusive(s: SchemaModel) -> SchemaModel {
    let t = drop_ext(s, "exclusiveMaximum"@);
    let t1 = if ext_value(s, "exclusiveMaximum"@) == Some(Json::Bool(true)) && t.maximum is Some {
        SchemaModel { exclusive_maximum: t.maximum, maximum: None, ..t }
    } else {
        t
    };
    let t2 = drop_ext(t1, "exclusiveMinimum"@);
    if ext_value(t1, "exclusiveMinimum"@) == Some(Json::Bool(true)) && t2.minimum is Some {
        SchemaModel { exclusive_minimum: t2.minimum, minimum: None, ..t2 }
    } else {
        t2
    }
}

/// What `map_find` returns: the first position holding the key.
proof fn lemma_map_find_props<V>(m: Seq<(Seq<char>, V)>, k: Seq<char>)
    ensures
        match map_find(m, k) {
            Some(i) => 0 <= i < m.len() && m[i].0 == k && forall|t: int| 0 <= t < i ==> #[trigger] m[t].0 != k,
            None => forall|t: int| 0 <= t < m.len() ==> #[trigger] m[t].0 != k,
        },
    decreases m.len(),
{
    if m.len() > 0 {
        lemma_map_find_props(m.skip(1), k);
        if m[0].0 != k {
            match map_find(m.skip(1), k) {
                Some(i) => {
                    assert forall|t: int| 0 <= t < i + 1 implies #[trigger] m[t].0 != k by {
                        if t > 0 {
                            assert(m[t] == m.skip(1)[t - 1]);
                        }
                    }
                },
                None => {
                    assert forall|t: int| 0 <= t < m.len() implies #[trigger] m[t].0 != k by {
                        if t > 0 {
                            assert(m[t] == m.skip(1)[t - 1]);
                        }
                    }
                },
            }
        }
    }
}

proof fn lemma_map_find_first_at<V>(m: Seq<(Seq<char>, V)>, k: Seq<char>, i: int)
    requires
        0 <= i < m.len(),
        m[i].0 == k,
        forall|t: int| 0 <= t < i ==> #[trigger] m[t].0 != k,
    ensures
        map_find(m, k) == Some(i),
{
    lemma_map_find_props(m, k);
    match map_find(m, k) {
        Some(j) => {
            if j < i {
                assert(m[j].0 != k);
            } else if j > i {
                assert(m[i].0 != k);
            }
        },
        None => {
            assert(m[i].0 != k);
        },
    }
}

/// Removing one key leaves what the others hold.
proof fn lemma_get_after_remove_other<V>(m: Seq<(Seq<char>, V)>, a: Seq<char>, b: Seq<char>)
    requires
        a != b,
    ensures
        map_get(map_remove(m, a), b) == map_get(m, b),
{
    lemma_map_find_props(m, a);
    lemma_map_find_props(m, b);
    match map_find(m, a) {
        Some(i) => {
            let r = m.remove(i);
            lemma_map_find_props(r, b);
            match map_find(m, b) {
                Some(j) => {
                    let j2 = if j < i { j } else { j - 1 };
                    assert(j != i);
                    assert(r[j2] == m[j]);
                    assert forall|t: int| 0 <= t < j2 implies #[trigger] r[t].0 != b by {
                        if t < i {
                            assert(r[t] == m[t]);
                        } else {
                            assert(r[t] == m[t + 1]);
                        }
                    }
                    lemma_map_find_first_at(r, b, j2);
                },
                None => {
                    assert forall|t: int| 0 <= t < r.len() implies #[trigger] r[t].0 != b by {
                        if t < i {
                            assert(r[t] == m[t]);
                        } else {
                            assert(r[t] == m[t + 1]);
                        }
                    }
                    match map_find(r, b) {
                        Some(q) => {
                            assert(r[q].0 != b);
                        },
                        None => {},
                    }
                },
            }
        },
        None => {},
    }
}

/// The same numeric bounds.
pub open spec fn same_bounds(a: SchemaModel, b: SchemaModel) -> bool {
    &&& a.minimum == b.minimum
    &&& a.maximum == b.maximum
    &&& a.exclusive_minimum == b.exclusive_minimum
    &&& a.exclusive_maximum == b.exclusive_maximum
}

proof fn lemma_fold_deps_bounds(t: SchemaModel, o: Seq<(Seq<char>, Json)>)
    ensures
        same_bounds(fold_deps(t, o), t),
    decreases o.len(),
{
    if o.len() > 0 {
        lemma_fold_deps_bounds(t, o.drop_last());
    }
}

/// Draft-04 `exclusiveMinimum: true` beside a `minimum` makes that minimum
/// exclusive: the normalized schema has it as `exclusiveMinimum` and no
/// `minimum`; the same for `exclusiveMaximum` and `maximum`.
pub proof fn law_draft4_exclusive_bounds(s: SchemaModel, fuel: nat)
    requires
        fuel > 0,
    ensures
        ext_value(s, "exclusiveMinimum"@) == Some(Json::Bool(true)) && s.minimum is Some ==> normalize_spec(s,
            fuel).exclusive_minimum == s.minimum && normalize_spec(s, fuel).minimum is None,
        ext_value(s, "exclusiveMaximum"@) == Some(Json::Bool(true)) && s.maximum is Some ==> normalize_spec(s,
            fuel).exclusive_maximum == s.maximum && normalize_spec(s, fuel).maximum is None,
{
    reveal_strlit("id");
    reveal_strlit("exclusiveMinimum");
    reveal_strlit("exclusiveMaximum");
    assert("id"@.len() != "exclusiveMinimum"@.len());
    assert("id"@.len() != "exclusiveMaximum"@.len());
    assert("exclusiveMinimum"@[10] != "exclusiveMaximum"@[10]);
    lemma_get_after_remove_other(s.extensions, "id"@, "exclusiveMinimum"@);
    lemma_get_after_remove_other(s.extensions, "id"@, "exclusiveMaximum"@);
    let s1 = norm_id(s);
    assert(ext_value(s1, "exclusiveMinimum"@) == ext_value(s, "exclusiveMinimum"@));
    assert(ext_value(s1, "exclusiveMaximum"@) == ext_value(s, "exclusiveMaximum"@));
    lemma_get_after_remove_other(s1.extensions, "exclusiveMaximum"@, "exclusiveMinimum"@);
    let s2 = norm_exclusive(s1);
    assert(s1.minimum == s.minimum && s1.maximum == s.maximum);
    if ext_value(s, "exclusiveMinimum"@) == Some(Json::Bool(true)) && s.minimum is Some {
        assert(s2.exclusive_minimum == s.minimum && s2.minimum is None);
    }
    if ext_value(s, "exclusiveMaximum"@) == Some(Json::Bool(true)) && s.maximum is Some {
        assert(s2.exclusive_maximum == s.maximum && s2.maximum is None);
    }
    let a1 = norm_items(s2);
    assert(same_bounds(a1, s2));
    let a2 = norm_deps(a1);
    match ext_value(a1, "dependencies"@) {
        Some(Json::Object(o)) => lemma_fold_deps_bounds(drop_ext(a1, "dependencies"@), o),
        _ => {},
    }
    assert(same_bounds(a2, a1));
    let a3 = norm_nullable(a2);
    assert(same_bounds(a3, a2));
    let a4 = norm_example(a3);
    assert(same_bounds(a4, a3));
    let s3 = norm_recursive(a4);
    assert(same_bounds(s3, a4));
    assert(s3.minimum == s2.minimum && s3.maximum == s2.maximum && s3.exclusive_minimum == s2.exclusive_minimum
        && s3.exclusive_maximum == s2.exclusive_maximum);
    assert(normalize_step(s) == s3);
    let r = normalize_spec(s, fuel);
    assert(r.minimum == s3.minimum && r.maximum == s3.maximum && r.exclusive_minimum == s3.exclusive_minimum
        && r.exclusive_maximum == s3.exclusive_maximum);
}

/// The schemas a list of documents reads as; those that do not read are
/// left out.
pub open spec fn decoded_items(a: Seq<Json>) -> Seq<SchemaModel>
    decreases a.len(),
{
    if a.len() == 0 {
        Seq::empty()
    } else {
        let r = decoded_items(a.drop_last());
        match decode_schema(a.last()) {
            Some(x) => r.push(x),
            None => r,
        }
    }
}

/// The strings of a list of documents, other elements left out.
pub open spec fn string_items(a: Seq<Json>) -> Seq<Seq<char>>
    decreases a.len(),
{
    if a.len() == 0 {
        Seq::empty()
    } else {
        let r = string_items(a.drop_last());
        match a.last() {
            Json::Str(x) => r.push(x),
            _ => r,
        }
    }
}

/// The schema that accepts nothing: `{ "not": {} }`.
pub open spec fn deny_all() -> SchemaModel {
    SchemaModel { not: Some(Box::new(schema_model_default())), ..schema_model_default() }
}

/// An array `items` becomes `prefixItems` (when one of its elements reads),
/// and `additionalItems` becomes `items` (`false` becoming the schema that
/// accepts nothing).
pub open spec fn norm_items(s: SchemaModel) -> SchemaModel {
    let t = drop_ext(s, "items"@);
    let t1 = match ext_value(s, "items"@) {
        Some(Json::Array(a)) => if decoded_items(a).len() > 0 {
            SchemaModel { prefix_items: Some(decoded_items(a)), items: None, ..t }
        } else {
            t
        },
        _ => t,
    };
    let t2 = drop_ext(t1, "additionalItems"@);
    match ext_value(t1, "additionalItems"@) {
        Some(Json::Object(o)) => match decode_schema(Json::Object(o)) {
            Some(x) => SchemaModel { items: Some(Box::new(x)), ..t2 },
            None => t2,
        },
        Some(Json::Bool(false)) => SchemaModel { items: Some(Box::new(deny_all())), ..t2 },
        _ => t2,
    }
}

pub open spec fn or_empty<V>(o: Option<Seq<V>>) -> Seq<V> {
    match o {
        Some(v) => v,
        None => Seq::empty(),
    }
}

/// One member of `dependencies`: a list of names goes to
/// `dependentRequired` (when it holds a string), a schema to
/// `dependentSchemas`.
pub open spec fn dep_step(t: SchemaModel, e: (Seq<char>, Json)) -> SchemaModel {
    match e.1 {
        Json::Array(a) => if string_items(a).len() > 0 {
            SchemaModel {
                dependent_required: Some(map_insert(or_empty(t.dependent_required), e.0, string_items(a))),
                ..t
            }
        } else {
            t
        },
        Json::Object(_) => match decode_schema(e.1) {
            Some(x) => SchemaModel {
                dependent_schemas: Some(map_insert(or_empty(t.dependent_schemas), e.0, x)),
                ..t
            },
            None => t,
        },
        _ => t,
    }
}

pub open spec fn fold_deps(t: SchemaModel, o: Seq<(Seq<char>, Json)>) -> SchemaModel
    decreases o.len(),
{
    if o.len() == 0 {
        t
    } else {
        dep_step(fold_deps(t, o.drop_last()), o.last())
    }
}

/// Draft-04/07 `dependencies` is split into `dependentRequired` and
/// `dependentSchemas`, member by member.
pub open spec fn norm_deps(s: SchemaModel) -> SchemaModel {
    let t = drop_ext(s, "dependencies"@);
    match ext_value(s, "dependencies"@) {
        Some(Json::Object(o)) => fold_deps(t, o),
        _ => t,
    }
}

/// `nullable: true` adds `"null"` to the type, when there is one.
pub open spec fn norm_nullable(s: SchemaModel) -> SchemaModel {
    let t = drop_ext(s, "nullable"@);
    if ext_value(s, "nullable"@) == Some(Json::Bool(true)) {
        match t.type_ {
            Some(TypeModel::Single(x)) => if x != "null"@ {
                SchemaModel { type_: Some(TypeModel::Array(seq![x, "null"@])), ..t }
            } else {
                t
            },
            Some(TypeModel::Array(a)) => if !a.contains("null"@) {
                SchemaModel { type_: Some(TypeModel::Array(a.push("null"@))), ..t }
            } else {
                t
            },
            None => t,
        }
    } else {
        t
    }
}

/// `example` is appended to `examples`.
pub open spec fn norm_example(s: SchemaModel) -> SchemaModel {
    let t = drop_ext(s, "example"@);
    match ext_value(s, "example"@) {
        Some(x) => SchemaModel {
            examples: Some(match t.examples {
                Some(e) => e.push(x),
                None => seq![x],
            }),
            ..t
        },
        None => t,
    }
}

/// `$recursiveRef` becomes `$dynamicRef`; `$recursiveAnchor` becomes
/// `$dynamicAnchor` (`true` as the empty anchor), unless already set.
pub open spec fn norm_recursive(s: SchemaModel) -> SchemaModel {
    let t = drop_ext(s, "$recursiveRef"@);
    let t1 = match ext_value(s, "$recursiveRef"@) {
        Some(Json::Str(x)) => if t.dynamic_ref is None { SchemaModel { dynamic_ref: Some(x), ..t } } else { t },
        _ => t,
    };
    let t2 = drop_ext(t1, "$recursiveAnchor"@);
    if t2.dynamic_anchor is None {
        match ext_value(t1, "$recursiveAnchor"@) {
            Some(Json::Bool(true)) => SchemaModel { dynamic_anchor: Some(Seq::empty()), ..t2 },
            Some(Json::Str(x)) => SchemaModel { dynamic_anchor: Some(x), ..t2 },
            _ => t2,
        }
    } else {
        t2
    }
}

/// The steps on one schema, in order.
pub open spec fn normalize_step(s: SchemaModel) -> SchemaModel {
    norm_recursive(norm_example(norm_nullable(norm_deps(norm_items(norm_exclusive(norm_id(s)))))))
}

// ── Every depth ──

/// The steps applied to a schema and then, `fuel` levels deep, to every
/// schema inside the result (those the steps created included).
pub open spec fn normalize_spec(s: SchemaModel, fuel: nat) -> SchemaModel
    decreases fuel, 0int, 0int,
{
    if fuel == 0 {
        s
    } else {
        let t = normalize_step(s);
        let f = (fuel - 1) as nat;
        SchemaModel {
            defs: norm_map_opt(t.defs, f),
            all_of: norm_list_opt(t.all_of, f),
            any_of: norm_list_opt(t.any_of, f),
            one_of: norm_list_opt(t.one_of, f),
            not: norm_box(t.not, f),
            if_: norm_box(t.if_, f),
            then_: norm_box(t.then_, f),
            else_: norm_box(t.else_, f),
            dependent_schemas: norm_map_opt(t.dependent_schemas, f),
            prefix_items: norm_list_opt(t.prefix_items, f),
            items: norm_box(t.items, f),
            contains: norm_box(t.contains, f),
            properties: norm_map_opt(t.properties, f),
            pattern_properties: norm_map_opt(t.pattern_properties, f),
            additional_properties: norm_add(t.additional_properties, f),
            property_names: norm_box(t.property_names, f),
            unevaluated_items: norm_box(t.unevaluated_items, f),
            unevaluated_properties: norm_box(t.unevaluated_properties, f),
            content_schema: norm_box(t.content_schema, f),
            ..t
        }
    }
}

pub open spec fn norm_seq(v: Seq<SchemaModel>, f: nat) -> Seq<SchemaModel>
    decreases f, 1int, v.len(),
{
    if v.len() == 0 {
        v
    } else {
        norm_seq(v.drop_last(), f).push(normalize_spec(v.last(), f))
    }
}

pub open spec fn norm_members(m: Seq<(Seq<char>, SchemaModel)>, f: nat) -> Seq<(Seq<char>, SchemaModel)>
    decreases f, 1int, m.len(),
{
    if m.len() == 0 {
        m
    } else {
        norm_members(m.drop_last(), f).push((m.last().0, normalize_spec(m.last().1, f)))
    }
}

pub open spec fn norm_box(o: Option<Box<SchemaModel>>, f: nat) -> Option<Box<SchemaModel>>
    decreases f, 1int, 0int,
{
    match o {
        Some(b) => Some(Box::new(normalize_spec(*b, f))),
        None => None,
    }
}

pub open spec fn norm_add(o: Option<AddPropsModel>, f: nat) -> Option<AddPropsModel>
    decreases f, 1int, 0int,
{
    match o {
        Some(AddPropsModel::Schema(b)) => Some(AddPropsModel::Schema(Box::new(normalize_spec(*b, f)))),
        _ => o,
    }
}

pub open spec fn norm_list_opt(o: Option<Seq<SchemaModel>>, f: nat) -> Option<Seq<SchemaModel>>
    decreases f, 2int, 0int,
{
    match o {
        Some(v) => Some(norm_seq(v, f)),
        None => None,
    }
}

pub open spec fn norm_map_opt(o: Option<Seq<(Seq<char>, SchemaModel)>>, f: nat) -> Option<Seq<(Seq<char>, SchemaModel)>>
    decreases f, 2int, 0int,
{
    match o {
        Some(m) => Some(norm_members(m, f)),
        None => None,
    }
}

// ── The steps, executable ──

/// Remove the extension `k` and hand back its value.
fn take_member(ext: &mut Vec<(String, JsonValue)>, k: &str) -> (r: Option<JsonValue>)
    ensures
        json_opt_model(r) == map_get(ext_model(old(ext)@), k@),
        ext_model(final(ext)@) == map_remove(ext_model(old(ext)@), k@),
{
    proof {
        lemma_key_pos_bounds(ext@, k@);
        lemma_map_find_key_pos(ext@, ext_model(ext@), k@);
    }
    match find_key(ext, k) {
        Some(i) => {
            let ghost before = ext@;
            let (_, v) = ext.remove(i);
            proof {
                assert(ext_model(ext@) =~= ext_model(before).remove(i as int));
            }
            Some(v)
        },
        None => None,
    }
}

fn is_true(v: &Option<JsonValue>) -> (r: bool)
    ensures
        r == (json_opt_model(*v) == Some(Json::Bool(true))),
{
    match v {
        Some(JsonValue::Bool(b)) => *b,
        _ => false,
    }
}

fn step_id(s: &mut Schema)
    ensures
        final(s)@ == norm_id(old(s)@),
{
    let v = take_member(&mut s.extensions, "id");
    match v {
        Some(JsonValue::String(x)) => {
            if s.id.is_none() {
                s.id = Some(x);
            }
        },
        _ => {},
    }
}

fn step_exclusive(s: &mut Schema)
    ensures
        final(s)@ == norm_exclusive(old(s)@),
{
    let v = take_member(&mut s.extensions, "exclusiveMaximum");
    if is_true(&v) && s.maximum.is_some() {
        s.exclusive_maximum = s.maximum;
        s.maximum = None;
    }
    let w = take_member(&mut s.extensions, "exclusiveMinimum");
    if is_true(&w) && s.minimum.is_some() {
        s.exclusive_minimum = s.minimum;
        s.minimum = None;
    }
}

/// The schemas that the elements read as, in order.
fn decoded_list(a: &Vec<JsonValue>) -> (r: Vec<Schema>)
    ensures
        schemas_model(r@) == decoded_items(json_seq_model(a@)),
{
    let ghost am = json_seq_model(a@);
    let mut out: Vec<Schema> = Vec::new();
    let mut i: usize = 0;
    assert(schemas_model(out@) =~= decoded_items(am.take(0)));
    while i < a.len()
        invariant
            i <= a@.len(),
            am == json_seq_model(a@),
            schemas_model(out@) == decoded_items(am.take(i as int)),
        decreases a.len() - i,
    {
        assert(am.take(i + 1).drop_last() =~= am.take(i as int));
        assert(am.take(i + 1).last() == a@[i as int]@);
        match schema_from_json(&a[i]) {
            Some(x) => {
                let ghost before = out@;
                out.push(x);
                assert(schemas_model(out@) =~= schemas_model(before).push(x@));
            },
            None => {},
        }
        i = i + 1;
    }
    assert(am.take(a@.len() as int) =~= am);
    out
}

/// The strings among the elements, in order.
fn string_list(a: &Vec<JsonValue>) -> (r: Vec<String>)
    ensures
        str_seq_model(r@) == string_items(json_seq_model(a@)),
{
    let ghost am = json_seq_model(a@);
    let mut out: Vec<String> = Vec::new();
    let mut i: usize = 0;
    assert(str_seq_model(out@) =~= string_items(am.take(0)));
    while i < a.len()
        invariant
            i <= a@.len(),
            am == json_seq_model(a@),
            str_seq_model(out@) == string_items(am.take(i as int)),
        decreases a.len() - i,
    {
        assert(am.take(i + 1).drop_last() =~= am.take(i as int));
        assert(am.take(i + 1).last() == a@[i as int]@);
        match &a[i] {
            JsonValue::String(x) => {
                let ghost before = out@;
                out.push(x.clone());
                assert(str_seq_model(out@) =~= str_seq_model(before).push(x@));
            },
            _ => {},
        }
        i = i + 1;
    }
    assert(am.take(a@.len() as int) =~= am);
    out
}

/// The schema that accepts nothing.
fn deny_all_schema() -> (r: Schema)
    ensures
        r@ == deny_all(),
{
    let mut r = Schema::new();
    r.not = Some(Box::new(Schema::new()));
    r
}

fn step_items(s: &mut Schema)
    ensures
        final(s)@ == norm_items(old(s)@),
{
    let v = take_member(&mut s.extensions, "items");
    match &v {
        Some(JsonValue::Array(a)) => {
            proof {
                lemma_array_view(v.unwrap());
                assert(json_seq_model(a@) =~= a@.map_values(|x: JsonValue| x@));
            }
            let prefix = decoded_list(a);
            if prefix.len() > 0 {
                s.prefix_items = Some(prefix);
                s.items = None;
            }
        },
        _ => {},
    }
    let w = take_member(&mut s.extensions, "additionalItems");
    match &w {
        Some(x) => match x {
            JsonValue::Object(_) => match schema_from_json(x) {
                Some(d) => {
                    s.items = Some(Box::new(d));
                },
                None => {},
            },
            JsonValue::Bool(false) => {
                s.items = Some(Box::new(deny_all_schema()));
            },
            _ => {},
        },
        None => {},
    }
}

fn dep_step_exec(s: &mut Schema, key: &String, value: &JsonValue)
    ensures
        final(s)@ == dep_step(old(s)@, (key@, value@)),
{
    match value {
        JsonValue::Array(a) => {
            proof {
                lemma_array_view(*value);
                assert(json_seq_model(a@) =~= a@.map_values(|x: JsonValue| x@));
            }
            let names = string_list(a);
            if names.len() > 0 {
                let mut m = match s.dependent_required.take() {
                    Some(m) => m,
                    None => Vec::new(),
                };
                let k2 = key.clone();
                proof {
                    assert(dep_req_seq_model(Seq::<(String, Vec<String>)>::empty()) =~= Seq::<(Seq<char>, Seq<Seq<char>>)>::empty());
                    lemma_dep_insert(m@, k2, names);
                }
                vec_map_insert(&mut m, k2, names);
                s.dependent_required = Some(m);
            }
        },
        JsonValue::Object(_) => match schema_from_json(value) {
            Some(x) => {
                let mut m = match s.dependent_schemas.take() {
                    Some(m) => m,
                    None => Vec::new(),
                };
                let k2 = key.clone();
                proof {
                    assert(schema_map_model(Seq::<(String, Schema)>::empty()) =~= Seq::<(Seq<char>, SchemaModel)>::empty());
                    lemma_schema_map_insert(m@, k2, x);
                }
                vec_map_insert(&mut m, k2, x);
                s.dependent_schemas = Some(m);
            },
            None => {},
        },
        _ => {},
    }
}

#[verifier::loop_isolation(false)]
fn step_deps(s: &mut Schema)
    ensures
        final(s)@ == norm_deps(old(s)@),
{
    let v = take_member(&mut s.extensions, "dependencies");
    match &v {
        Some(JsonValue::Object(o)) => {
            proof {
                lemma_object_view(v.unwrap());
            }
            let ghost t0 = s@;
            let ghost ov = entries_view(o@);
            let mut q: usize = 0;
            assert(ov.take(0) =~= Seq::<(Seq<char>, Json)>::empty());
            while q < o.len()
                invariant
                    q <= o@.len(),
                    s@ == fold_deps(t0, ov.take(q as int)),
                decreases o.len() - q,
            {
                assert(ov.take(q + 1).drop_last() =~= ov.take(q as int));
                assert(ov.take(q + 1).last() == (o@[q as int].0@, o@[q as int].1@));
                dep_step_exec(s, &o[q].0, &o[q].1);
                q = q + 1;
            }
            assert(ov.take(o@.len() as int) =~= ov);
        },
        _ => {},
    }
}

fn step_nullable(s: &mut Schema)
    ensures
        final(s)@ == norm_nullable(old(s)@),
{
    let v = take_member(&mut s.extensions, "nullable");
    if is_true(&v) {
        let t = s.type_.take();
        s.type_ = match t {
            Some(SchemaTypeValue::Single(x)) => {
                if str_eq(x.as_str(), "null") {
                    Some(SchemaTypeValue::Single(x))
                } else {
                    let both = vec![x, to_owned_string("null")];
                    assert(str_seq_model(both@) =~= seq![x@, "null"@]);
                    Some(SchemaTypeValue::Array(both))
                }
            },
            Some(SchemaTypeValue::Array(a)) => {
                let mut a = a;
                if !names_contain(&a, "null") {
                    let ghost before = a@;
                    a.push(to_owned_string("null"));
                    assert(str_seq_model(a@) =~= str_seq_model(before).push("null"@));
                }
                Some(SchemaTypeValue::Array(a))
            },
            None => None,
        };
    }
}

fn step_example(s: &mut Schema)
    ensures
        final(s)@ == norm_example(old(s)@),
{
    let v = take_member(&mut s.extensions, "example");
    match v {
        Some(x) => {
            let mut e = match s.examples.take() {
                Some(e) => e,
                None => Vec::new(),
            };
            let ghost before = e@;
            assert(json_seq_model(Seq::<JsonValue>::empty()) =~= Seq::<Json>::empty());
            e.push(x);
            assert(json_seq_model(e@) =~= json_seq_model(before).push(x@));
            assert(seq![x@] =~= Seq::<Json>::empty().push(x@));
            s.examples = Some(e);
        },
        None => {},
    }
}

fn step_recursive(s: &mut Schema)
    ensures
        final(s)@ == norm_recursive(old(s)@),
{
    let v = take_member(&mut s.extensions, "$recursiveRef");
    match v {
        Some(JsonValue::String(x)) => {
            if s.dynamic_ref.is_none() {
                s.dynamic_ref = Some(x);
            }
        },
        _ => {},
    }
    let w = take_member(&mut s.extensions, "$recursiveAnchor");
    if s.dynamic_anchor.is_none() {
        match w {
            Some(JsonValue::Bool(true)) => {
                s.dynamic_anchor = Some(String::new());
            },
            Some(JsonValue::String(x)) => {
                s.dynamic_anchor = Some(x);
            },
            _ => {},
        }
    }
}

/// The steps on one schema, in order.
fn apply_steps(s: &mut Schema)
    ensures
        final(s)@ == normalize_step(old(s)@),
{
    step_id(s);
    step_exclusive(s);
    step_items(s);
    step_deps(s);
    step_nullable(s);
    step_example(s);
    step_recursive(s);
}

// ── Every depth, executable ──

fn norm_vec(v: Vec<Schema>, fuel: u64) -> (r: Vec<Schema>)
    ensures
        schemas_model(r@) == norm_seq(schemas_model(v@), fuel as nat),
    decreases fuel, 1int,
{
    let ghost orig = schemas_model(v@);
    let mut src = v;
    let mut out: Vec<Schema> = Vec::new();
    let ghost mut q: int = 0;
    assert(orig.take(0) =~= Seq::<SchemaModel>::empty());
    assert(schemas_model(out@) =~= Seq::<SchemaModel>::empty());
    assert(orig.skip(0) =~= orig);
    while src.len() > 0
        invariant
            0 <= q <= orig.len(),
            schemas_model(src@) == orig.skip(q),
            schemas_model(out@) == norm_seq(orig.take(q), fuel as nat),
        decreases src.len(),
    {
        let ghost before_src = src@;
        let x = src.remove(0);
        proof {
            assert(schemas_model(src@) =~= schemas_model(before_src).skip(1));
            assert(x@ == schemas_model(before_src)[0]);
            assert(x@ == orig[q]);
            assert(orig.take(q + 1).drop_last() =~= orig.take(q));
            assert(orig.take(q + 1).last() == orig[q]);
            assert(orig.skip(q).skip(1) =~= orig.skip(q + 1));
        }
        let y = normalize_owned(x, fuel);
        let ghost before = out@;
        out.push(y);
        proof {
            assert(schemas_model(out@) =~= schemas_model(before).push(y@));
            q = q + 1;
        }
    }
    proof {
        assert(orig.take(q) =~= orig);
    }
    out
}

fn norm_entries(v: Vec<(String, Schema)>, fuel: u64) -> (r: Vec<(String, Schema)>)
    ensures
        schema_map_model(r@) == norm_members(schema_map_model(v@), fuel as nat),
    decreases fuel, 1int,
{
    let ghost orig = schema_map_model(v@);
    let mut src = v;
    let mut out: Vec<(String, Schema)> = Vec::new();
    let ghost mut q: int = 0;
    assert(orig.take(0) =~= Seq::<(Seq<char>, SchemaModel)>::empty());
    assert(schema_map_model(out@) =~= Seq::<(Seq<char>, SchemaModel)>::empty());
    assert(orig.skip(0) =~= orig);
    while src.len() > 0
        invariant
            0 <= q <= orig.len(),
            schema_map_model(src@) == orig.skip(q),
            schema_map_model(out@) == norm_members(orig.take(q), fuel as nat),
        decreases src.len(),
    {
        let ghost before_src = src@;
        let (k, x) = src.remove(0);
        proof {
            assert(schema_map_model(src@) =~= schema_map_model(before_src).skip(1));
            assert((k@, x@) == schema_map_model(before_src)[0]);
            assert((k@, x@) == orig[q]);
            assert(orig.take(q + 1).drop_last() =~= orig.take(q));
            assert(orig.take(q + 1).last() == orig[q]);
            assert(orig.skip(q).skip(1) =~= orig.skip(q + 1));
        }
        let y = normalize_owned(x, fuel);
        let ghost before = out@;
        out.push((k, y));
        proof {
            assert(schema_map_model(out@) =~= schema_map_model(before).push((k@, y@)));
            q = q + 1;
        }
    }
    proof {
        assert(orig.take(q) =~= orig);
    }
    out
}

fn norm_box_x(o: Option<Box<Schema>>, fuel: u64) -> (r: Option<Box<Schema>>)
    ensures
        schema_box_model(r) == norm_box(schema_box_model(o), fuel as nat),
    decreases fuel, 1int,
{
    match o {
        Some(b) => Some(Box::new(normalize_owned(*b, fuel))),
        None => None,
    }
}

fn norm_add_x(o: Option<AdditionalProperties>, fuel: u64) -> (r: Option<AdditionalProperties>)
    ensures
        add_props_model(r) == norm_add(add_props_model(o), fuel as nat),
    decreases fuel, 1int,
{
    match o {
        Some(AdditionalProperties::Schema(b)) => Some(AdditionalProperties::Schema(Box::new(normalize_owned(*b, fuel)))),
        other => other,
    }
}

fn norm_list_x(o: Option<Vec<Schema>>, fuel: u64) -> (r: Option<Vec<Schema>>)
    ensures
        schema_list_model(r) == norm_list_opt(schema_list_model(o), fuel as nat),
    decreases fuel, 2int,
{
    match o {
        Some(v) => Some(norm_vec(v, fuel)),
        None => None,
    }
}

fn norm_map_x(o: Option<Vec<(String, Schema)>>, fuel: u64) -> (r: Option<Vec<(String, Schema)>>)
    ensures
        schema_map_opt_model(r) == norm_map_opt(schema_map_opt_model(o), fuel as nat),
    decreases fuel, 2int,
{
    match o {
        Some(v) => Some(norm_entries(v, fuel)),
        None => None,
    }
}

#[verifier::rlimit(50)]
fn normalize_owned(s: Schema, fuel: u64) -> (r: Schema)
    ensures
        r@ == normalize_spec(s@, fuel as nat),
    decreases fuel, 0int,
{
    if fuel == 0 {
        return s;
    }
    let mut t = s;
    apply_steps(&mut t);
    let f = fuel - 1;
        t.defs = norm_map_x(t.defs.take(), f);
        t.all_of = norm_list_x(t.all_of.take(), f);
        t.any_of = norm_list_x(t.any_of.take(), f);
        t.one_of = norm_list_x(t.one_of.take(), f);
        t.not = norm_box_x(t.not.take(), f);
        t.if_ = norm_box_x(t.if_.take(), f);
        t.then_ = norm_box_x(t.then_.take(), f);
        t.else_ = norm_box_x(t.else_.take(), f);
        t.dependent_schemas = norm_map_x(t.dependent_schemas.take(), f);
        t.prefix_items = norm_list_x(t.prefix_items.take(), f);
        t.items = norm_box_x(t.items.take(), f);
        t.contains = norm_box_x(t.contains.take(), f);
        t.properties = norm_map_x(t.properties.take(), f);
        t.pattern_properties = norm_map_x(t.pattern_properties.take(), f);
        t.additional_properties = norm_add_x(t.additional_properties.take(), f);
        t.property_names = norm_box_x(t.property_names.take(), f);
        t.unevaluated_items = norm_box_x(t.unevaluated_items.take(), f);
        t.unevaluated_properties = norm_box_x(t.unevaluated_properties.take(), f);
        t.content_schema = norm_box_x(t.content_schema.take(), f);
    t
}

/// Bring a schema, and every schema inside it, to 2020-12 form: the
/// steps run on the schema, then on each schema inside the result.
pub fn normalize_schema(schema: &mut Schema)
    ensures
        final(schema)@ == normalize_spec(old(schema)@, NORMALIZE_DEPTH as nat),
{
    let mut s = Schema::new();
    std::mem::swap(&mut s, schema);
    *schema = normalize_owned(s, NORMALIZE_DEPTH);
}

/// Reads a raw JSON document as a schema.
pub trait Normalizer {
    fn normalize(&self, schema: &JsonValue) -> Schema;
}

/// Reads Draft-04/07 and 2019-09 schemas as 2020-12 ones.
#[derive(Debug, Clone, Copy)]
pub struct DraftNormalizer;

/// The schema a document reads as; the empty schema when it does not read.
pub open spec fn read_or_empty(j: Json) -> SchemaModel {
    match decode_schema(j) {
        Some(m) => m,
        None => schema_model_default(),
    }
}

impl Normalizer for DraftNormalizer {
    /// The document read as a schema (the empty schema when it does not
    /// read as one), then normalized at every depth.
    fn normalize(&self, schema: &JsonValue) -> (r: Schema)
        ensures
            r@ == normalize_spec(read_or_empty(schema@), NORMALIZE_DEPTH as nat),
    {
        let mut s = match schema_from_json(schema) {
            Some(s) => s,
            None => Schema::new(),
        };
        normalize_schema(&mut s);
        s
    }
}

} // verus!
