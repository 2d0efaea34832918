//! Effective schemas: merging schemas, and resolving the conditional and
//! composition keywords of a schema against a value.
use vstd::prelude::*;
use crate::json::{Json, JsonValue};
use crate::schema::{
    AddPropsModel, AdditionalProperties, Schema, SchemaModel, SchemaType, SchemaTypeValue, TypeModel,
    add_props_model, clone_dep_req_vec, clone_entries, clone_opt_dep_req, clone_opt_json,
    clone_opt_json_list, clone_opt_str, clone_opt_str_list, clone_schema_map, clone_schema_vec,
    clone_str_vec, dep_req_model, dep_req_seq_model, ext_model, json_list_model, json_opt_model,
    lemma_schema_fields, lemma_schema_map_model_index, lemma_schemas_model_index, schema_box_model,
    schema_list_model, schema_map_model, schema_map_opt_model, schemas_model, str_list_model,
    str_opt_model, str_seq_model, type_model, type_opt_model,
};
use crate::text::{push_char, push_str, str_eq, to_owned_string};
use crate::dependency::no_dup;

verus! {

// ── Specifications of the merge helpers ──

/// The override's value when it has one, else the base's.
pub open spec fn ov_opt<T>(b: Option<T>, o: Option<T>) -> Option<T> {
    if o is Some {
        o
    } else {
        b
    }
}

pub open spec fn type_names(t: TypeModel) -> Seq<Seq<char>> {
    match t {
        TypeModel::Single(s) => seq![s],
        TypeModel::Array(a) => a,
    }
}

/// The names of `xs` that `ys` holds, in the order of `xs`.
pub open spec fn keep_in(xs: Seq<Seq<char>>, ys: Seq<Seq<char>>) -> Seq<Seq<char>>
    decreases xs.len(),
{
    if xs.len() == 0 {
        xs
    } else {
        let p = keep_in(xs.drop_last(), ys);
        if ys.contains(xs.last()) {
            p.push(xs.last())
        } else {
            p
        }
    }
}

/// Intersection of two type keywords: a type admits what both admit, so an
/// empty intersection is the empty list of names (it admits nothing); one
/// name stands alone, more form a list.
pub open spec fn spec_merge_type(a: Option<TypeModel>, b: Option<TypeModel>) -> Option<TypeModel> {
    match (a, b) {
        (_, None) => a,
        (None, _) => b,
        (Some(x), Some(y)) => {
            let i = keep_in(type_names(x), type_names(y));
            if i.len() == 1 {
                Some(TypeModel::Single(i[0]))
            } else {
                Some(TypeModel::Array(i))
            }
        },
    }
}

/// `acc` followed by the names of `b` it does not hold yet, in order.
pub open spec fn union_names(acc: Seq<Seq<char>>, b: Seq<Seq<char>>) -> Seq<Seq<char>>
    decreases b.len(),
{
    if b.len() == 0 {
        acc
    } else {
        union_names(if acc.contains(b[0]) { acc } else { acc.push(b[0]) }, b.skip(1))
    }
}

/// The deduplicated union of two string lists: the names of `a` in order,
/// then those of `b` not seen yet; none when both are absent.
pub open spec fn spec_merge_strings(a: Option<Seq<Seq<char>>>, b: Option<Seq<Seq<char>>>) -> Option<Seq<Seq<char>>> {
    match (a, b) {
        (None, None) => None,
        (Some(x), None) => Some(union_names(Seq::empty(), x)),
        (None, Some(y)) => Some(union_names(Seq::empty(), y)),
        (Some(x), Some(y)) => Some(union_names(union_names(Seq::empty(), x), y)),
    }
}

/// `union_names` adds no repeat, and holds exactly the names of both.
pub proof fn lemma_union_names(acc: Seq<Seq<char>>, b: Seq<Seq<char>>)
    requires
        no_dup(acc),
    ensures
        no_dup(union_names(acc, b)),
        forall|n: Seq<char>| #[trigger] union_names(acc, b).contains(n) <==> (acc.contains(n) || b.contains(n)),
    decreases b.len(),
{
    if b.len() > 0 {
        let next = if acc.contains(b[0]) { acc } else { acc.push(b[0]) };
        if !acc.contains(b[0]) {
            assert forall|i: int, j: int| 0 <= i < j < next.len() implies #[trigger] next[i] != #[trigger] next[j] by {
                if j == acc.len() {
                    assert(acc.contains(acc[i]));
                }
            }
            assert forall|n: Seq<char>| next.contains(n) <==> (acc.contains(n) || n == b[0]) by {
                if next.contains(n) {
                    let k = choose|k: int| 0 <= k < next.len() && next[k] == n;
                    if k < acc.len() {
                        assert(acc[k] == n);
                    }
                }
                if acc.contains(n) {
                    let k = choose|k: int| 0 <= k < acc.len() && acc[k] == n;
                    assert(next[k] == n);
                }
                if n == b[0] {
                    assert(next[acc.len() as int] == n);
                }
            }
        }
        lemma_union_names(next, b.skip(1));
        assert forall|n: Seq<char>| b.contains(n) <==> (n == b[0] || b.skip(1).contains(n)) by {
            if b.contains(n) {
                let k = choose|k: int| 0 <= k < b.len() && b[k] == n;
                if k > 0 {
                    assert(b.skip(1)[k - 1] == n);
                }
            }
            if b.skip(1).contains(n) {
                let k = choose|k: int| 0 <= k < b.skip(1).len() && b.skip(1)[k] == n;
                assert(b[k + 1] == n);
            }
            if n == b[0] {
                assert(b[0] == n);
            }
        }
    }
}

/// Without repeats in `acc` and `b` together, `union_names` appends `b`.
pub proof fn lemma_union_names_distinct(acc: Seq<Seq<char>>, b: Seq<Seq<char>>)
    requires
        no_dup(acc + b),
    ensures
        union_names(acc, b) == acc + b,
    decreases b.len(),
{
    if b.len() == 0 {
        assert(acc + b =~= acc);
    } else {
        let ab = acc + b;
        assert(!acc.contains(b[0])) by {
            if acc.contains(b[0]) {
                let k = choose|k: int| 0 <= k < acc.len() && acc[k] == b[0];
                assert(ab[k] == ab[acc.len() as int]);
            }
        }
        assert(acc.push(b[0]) + b.skip(1) =~= ab);
        lemma_union_names_distinct(acc.push(b[0]), b.skip(1));
    }
}

/// The position of the first entry with key `k`.
pub open spec fn map_find<V>(m: Seq<(Seq<char>, V)>, k: Seq<char>) -> Option<int>
    decreases m.len(),
{
    if m.len() == 0 {
        None
    } else if m[0].0 == k {
        Some(0)
    } else {
        match map_find(m.skip(1), k) {
            Some(i) => Some(i + 1),
            None => None,
        }
    }
}

pub open spec fn map_get<V>(m: Seq<(Seq<char>, V)>, k: Seq<char>) -> Option<V> {
    match map_find(m, k) {
        Some(i) => Some(m[i].1),
        None => None,
    }
}

/// Insertion into an insertion-ordered map: a present key keeps its place
/// and takes the new value; a new key goes last.
pub open spec fn map_insert<V>(m: Seq<(Seq<char>, V)>, k: Seq<char>, v: V) -> Seq<(Seq<char>, V)> {
    match map_find(m, k) {
        Some(i) => m.update(i, (k, v)),
        None => m.push((k, v)),
    }
}

/// Insert every entry of `o`, in order.
pub open spec fn insert_all<V>(acc: Seq<(Seq<char>, V)>, o: Seq<(Seq<char>, V)>) -> Seq<(Seq<char>, V)>
    decreases o.len(),
{
    if o.len() == 0 {
        acc
    } else {
        insert_all(map_insert(acc, o[0].0, o[0].1), o.skip(1))
    }
}

/// Merge `dependentRequired` entries: each key's names are the union.
pub open spec fn dep_merge(acc: Seq<(Seq<char>, Seq<Seq<char>>)>, b: Seq<(Seq<char>, Seq<Seq<char>>)>) -> Seq<(Seq<char>, Seq<Seq<char>>)>
    decreases b.len(),
{
    if b.len() == 0 {
        acc
    } else {
        let cur = match map_get(acc, b[0].0) {
            Some(v) => v,
            None => Seq::empty(),
        };
        dep_merge(map_insert(acc, b[0].0, union_names(cur, b[0].1)), b.skip(1))
    }
}

pub open spec fn spec_merge_dep_req(
    a: Option<Seq<(Seq<char>, Seq<Seq<char>>)>>,
    b: Option<Seq<(Seq<char>, Seq<Seq<char>>)>>,
) -> Option<Seq<(Seq<char>, Seq<Seq<char>>)>> {
    match (a, b) {
        (None, None) => None,
        (Some(x), None) => Some(x),
        (None, Some(y)) => Some(y),
        (Some(x), Some(y)) => Some(dep_merge(x, y)),
    }
}

pub open spec fn spec_concat<T>(a: Option<Seq<T>>, b: Option<Seq<T>>) -> Option<Seq<T>> {
    match (a, b) {
        (None, None) => None,
        (Some(x), None) => Some(x),
        (None, Some(y)) => Some(y),
        (Some(x), Some(y)) => Some(x + y),
    }
}

/// The text `origin/properties/key`.
pub open spec fn origin_text(origin: Seq<char>, key: Seq<char>) -> Seq<char> {
    origin + "/properties/"@ + key
}

/// Extensions tagged with `x-origin-keyword`, unless the origin is empty.
pub open spec fn tag_ext(ext: Seq<(Seq<char>, Json)>, key: Seq<char>, origin: Seq<char>) -> Seq<(Seq<char>, Json)> {
    if origin.len() == 0 {
        ext
    } else {
        map_insert(ext, "x-origin-keyword"@, Json::Str(origin_text(origin, key)))
    }
}

pub open spec fn with_ext(s: SchemaModel, e: Seq<(Seq<char>, Json)>) -> SchemaModel {
    SchemaModel { extensions: e, ..s }
}

/// Insert every (tagged) override entry, without merging.
pub open spec fn tag_all(acc: Seq<(Seq<char>, SchemaModel)>, y: Seq<(Seq<char>, SchemaModel)>, origin: Seq<char>) -> Seq<(Seq<char>, SchemaModel)>
    decreases y.len(),
{
    if y.len() == 0 {
        acc
    } else {
        let (k, s) = y[0];
        tag_all(map_insert(acc, k, with_ext(s, tag_ext(s.extensions, k, origin))), y.skip(1), origin)
    }
}

/// The merge of two schemas: keywords of the override win; `type` is the
/// intersection, `required` the union, `dependentRequired` merged per key,
/// the composition lists and `prefixItems` concatenated, the schema maps
/// merged key by key (shared keys merged recursively, each override entry
/// tagged with `x-origin-keyword`), and extensions merged with the
/// override (plus `tag`, when given) winning.
pub open spec fn spec_merge_core(b: SchemaModel, o: SchemaModel, origin: Seq<char>, o_ext: Seq<(Seq<char>, Json)>) -> SchemaModel
    decreases o, 1nat,
{
    SchemaModel {
        schema: ov_opt(b.schema, o.schema),
        id: ov_opt(b.id, o.id),
        anchor: ov_opt(b.anchor, o.anchor),
        dynamic_anchor: ov_opt(b.dynamic_anchor, o.dynamic_anchor),
        ref_: ov_opt(b.ref_, o.ref_),
        dynamic_ref: ov_opt(b.dynamic_ref, o.dynamic_ref),
        defs: spec_merge_map(b.defs, o.defs, origin),
        comment: ov_opt(b.comment, o.comment),
        title: ov_opt(b.title, o.title),
        description: ov_opt(b.description, o.description),
        default: ov_opt(b.default, o.default),
        deprecated: ov_opt(b.deprecated, o.deprecated),
        read_only: ov_opt(b.read_only, o.read_only),
        write_only: ov_opt(b.write_only, o.write_only),
        examples: ov_opt(b.examples, o.examples),
        type_: spec_merge_type(b.type_, o.type_),
        enum_: ov_opt(b.enum_, o.enum_),
        const_: ov_opt(b.const_, o.const_),
        multiple_of: ov_opt(b.multiple_of, o.multiple_of),
        maximum: ov_opt(b.maximum, o.maximum),
        exclusive_maximum: ov_opt(b.exclusive_maximum, o.exclusive_maximum),
        minimum: ov_opt(b.minimum, o.minimum),
        exclusive_minimum: ov_opt(b.exclusive_minimum, o.exclusive_minimum),
        max_length: ov_opt(b.max_length, o.max_length),
        min_length: ov_opt(b.min_length, o.min_length),
        pattern: ov_opt(b.pattern, o.pattern),
        format: ov_opt(b.format, o.format),
        max_items: ov_opt(b.max_items, o.max_items),
        min_items: ov_opt(b.min_items, o.min_items),
        unique_items: ov_opt(b.unique_items, o.unique_items),
        max_contains: ov_opt(b.max_contains, o.max_contains),
        min_contains: ov_opt(b.min_contains, o.min_contains),
        max_properties: ov_opt(b.max_properties, o.max_properties),
        min_properties: ov_opt(b.min_properties, o.min_properties),
        required: spec_merge_strings(b.required, o.required),
        dependent_required: spec_merge_dep_req(b.dependent_required, o.dependent_required),
        all_of: spec_concat(b.all_of, o.all_of),
        any_of: spec_concat(b.any_of, o.any_of),
        one_of: spec_concat(b.one_of, o.one_of),
        not: ov_opt(b.not, o.not),
        if_: ov_opt(b.if_, o.if_),
        then_: ov_opt(b.then_, o.then_),
        else_: ov_opt(b.else_, o.else_),
        dependent_schemas: spec_merge_map(b.dependent_schemas, o.dependent_schemas, origin),
        prefix_items: spec_concat(b.prefix_items, o.prefix_items),
        items: ov_opt(b.items, o.items),
        contains: ov_opt(b.contains, o.contains),
        properties: spec_merge_map(b.properties, o.properties, origin),
        pattern_properties: spec_merge_map(b.pattern_properties, o.pattern_properties, origin),
        additional_properties: ov_opt(b.additional_properties, o.additional_properties),
        property_names: ov_opt(b.property_names, o.property_names),
        unevaluated_items: ov_opt(b.unevaluated_items, o.unevaluated_items),
        unevaluated_properties: ov_opt(b.unevaluated_properties, o.unevaluated_properties),
        content_encoding: ov_opt(b.content_encoding, o.content_encoding),
        content_media_type: ov_opt(b.content_media_type, o.content_media_type),
        content_schema: ov_opt(b.content_schema, o.content_schema),
        extensions: insert_all(b.extensions, o_ext),
    }
}

/// Merge the (tagged) override entries into `acc`: a shared key gets the
/// merge of both schemas, a new key the override's schema.
pub open spec fn merge_entries(acc: Seq<(Seq<char>, SchemaModel)>, y: Seq<(Seq<char>, SchemaModel)>, origin: Seq<char>) -> Seq<(Seq<char>, SchemaModel)>
    decreases y, 0nat,
{
    if y.len() == 0 {
        acc
    } else {
        let k = y[0].0;
        let s = y[0].1;
        let e = tag_ext(s.extensions, k, origin);
        let merged = match map_get(acc, k) {
            Some(bs) => spec_merge_core(bs, s, origin, e),
            None => with_ext(s, e),
        };
        merge_entries(map_insert(acc, k, merged), y.skip(1), origin)
    }
}

/// Merge two optional schema maps.
pub open spec fn spec_merge_map(
    b: Option<Seq<(Seq<char>, SchemaModel)>>,
    o: Option<Seq<(Seq<char>, SchemaModel)>>,
    origin: Seq<char>,
) -> Option<Seq<(Seq<char>, SchemaModel)>>
    decreases o, 0nat,
{
    match o {
        None => b,
        Some(y) => match b {
            None => Some(tag_all(Seq::empty(), y, origin)),
            Some(x) => Some(merge_entries(x, y, origin)),
        },
    }
}

/// Merge two schemas with the override's keywords taking priority.
pub open spec fn spec_merge_schema(b: SchemaModel, o: SchemaModel, origin: Seq<char>) -> SchemaModel {
    spec_merge_core(b, o, origin, o.extensions)
}

/// Keywords `schema`, `id`, `anchor`, `dynamic_anchor`, `ref_`, `dynamic_ref`, `comment`, `title` of the merge.
fn merge_part_0(base: &Schema, override_: &Schema) -> (r: (Option<String>, Option<String>, Option<String>, Option<String>, Option<String>, Option<String>, Option<String>, Option<String>))
    ensures
        str_opt_model(r.0) == ov_opt(base@.schema, override_@.schema),
        str_opt_model(r.1) == ov_opt(base@.id, override_@.id),
        str_opt_model(r.2) == ov_opt(base@.anchor, override_@.anchor),
        str_opt_model(r.3) == ov_opt(base@.dynamic_anchor, override_@.dynamic_anchor),
        str_opt_model(r.4) == ov_opt(base@.ref_, override_@.ref_),
        str_opt_model(r.5) == ov_opt(base@.dynamic_ref, override_@.dynamic_ref),
        str_opt_model(r.6) == ov_opt(base@.comment, override_@.comment),
        str_opt_model(r.7) == ov_opt(base@.title, override_@.title),
{
    proof {
        lemma_schema_fields(*base);
        lemma_schema_fields(*override_);
    }
    (
        pick_str(&base.schema, &override_.schema),
        pick_str(&base.id, &override_.id),
        pick_str(&base.anchor, &override_.anchor),
        pick_str(&base.dynamic_anchor, &override_.dynamic_anchor),
        pick_str(&base.ref_, &override_.ref_),
        pick_str(&base.dynamic_ref, &override_.dynamic_ref),
        pick_str(&base.comment, &override_.comment),
        pick_str(&base.title, &override_.title),
    )
}

/// Keywords `description`, `default`, `deprecated`, `read_only`, `write_only`, `examples`, `type_`, `enum_` of the merge.
fn merge_part_1(base: &Schema, override_: &Schema) -> (r: (Option<String>, Option<JsonValue>, Option<bool>, Option<bool>, Option<bool>, Option<Vec<JsonValue>>, Option<SchemaTypeValue>, Option<Vec<JsonValue>>))
    ensures
        str_opt_model(r.0) == ov_opt(base@.description, override_@.description),
        json_opt_model(r.1) == ov_opt(base@.default, override_@.default),
        r.2 == ov_opt(base@.deprecated, override_@.deprecated),
        r.3 == ov_opt(base@.read_only, override_@.read_only),
        r.4 == ov_opt(base@.write_only, override_@.write_only),
        json_list_model(r.5) == ov_opt(base@.examples, override_@.examples),
        type_opt_model(r.6) == spec_merge_type(base@.type_, override_@.type_),
        json_list_model(r.7) == ov_opt(base@.enum_, override_@.enum_),
{
    proof {
        lemma_schema_fields(*base);
        lemma_schema_fields(*override_);
    }
    (
        pick_str(&base.description, &override_.description),
        pick_json(&base.default, &override_.default),
        if override_.deprecated.is_some() { override_.deprecated } else { base.deprecated },
        if override_.read_only.is_some() { override_.read_only } else { base.read_only },
        if override_.write_only.is_some() { override_.write_only } else { base.write_only },
        pick_json_list(&base.examples, &override_.examples),
        merge_type(&base.type_, &override_.type_),
        pick_json_list(&base.enum_, &override_.enum_),
    )
}

/// Keywords `const_`, `multiple_of`, `maximum`, `exclusive_maximum`, `minimum`, `exclusive_minimum`, `max_length`, `min_length` of the merge.
fn merge_part_2(base: &Schema, override_: &Schema) -> (r: (Option<JsonValue>, Option<u64>, Option<u64>, Option<u64>, Option<u64>, Option<u64>, Option<u64>, Option<u64>))
    ensures
        json_opt_model(r.0) == ov_opt(base@.const_, override_@.const_),
        r.1 == ov_opt(base@.multiple_of, override_@.multiple_of),
        r.2 == ov_opt(base@.maximum, override_@.maximum),
        r.3 == ov_opt(base@.exclusive_maximum, override_@.exclusive_maximum),
        r.4 == ov_opt(base@.minimum, override_@.minimum),
        r.5 == ov_opt(base@.exclusive_minimum, override_@.exclusive_minimum),
        r.6 == ov_opt(base@.max_length, override_@.max_length),
        r.7 == ov_opt(base@.min_length, override_@.min_length),
{
    proof {
        lemma_schema_fields(*base);
        lemma_schema_fields(*override_);
    }
    (
        pick_json(&base.const_, &override_.const_),
        if override_.multiple_of.is_some() { override_.multiple_of } else { base.multiple_of },
        if override_.maximum.is_some() { override_.maximum } else { base.maximum },
        if override_.exclusive_maximum.is_some() { override_.exclusive_maximum } else { base.exclusive_maximum },
        if override_.minimum.is_some() { override_.minimum } else { base.minimum },
        if override_.exclusive_minimum.is_some() { override_.exclusive_minimum } else { base.exclusive_minimum },
        if override_.max_length.is_some() { override_.max_length } else { base.max_length },
        if override_.min_length.is_some() { override_.min_length } else { base.min_length },
    )
}

/// Keywords `pattern`, `format`, `max_items`, `min_items`, `unique_items`, `max_contains`, `min_contains`, `max_properties` of the merge.
fn merge_part_3(base: &Schema, override_: &Schema) -> (r: (Option<String>, Option<String>, Option<u64>, Option<u64>, Option<bool>, Option<u64>, Option<u64>, Option<u64>))
    ensures
        str_opt_model(r.0) == ov_opt(base@.pattern, override_@.pattern),
        str_opt_model(r.1) == ov_opt(base@.format, override_@.format),
        r.2 == ov_opt(base@.max_items, override_@.max_items),
        r.3 == ov_opt(base@.min_items, override_@.min_items),
        r.4 == ov_opt(base@.unique_items, override_@.unique_items),
        r.5 == ov_opt(base@.max_contains, override_@.max_contains),
        r.6 == ov_opt(base@.min_contains, override_@.min_contains),
        r.7 == ov_opt(base@.max_properties, override_@.max_properties),
{
    proof {
        lemma_schema_fields(*base);
        lemma_schema_fields(*override_);
    }
    (
        pick_str(&base.pattern, &override_.pattern),
        pick_str(&base.format, &override_.format),
        if override_.max_items.is_some() { override_.max_items } else { base.max_items },
        if override_.min_items.is_some() { override_.min_items } else { base.min_items },
        if override_.unique_items.is_some() { override_.unique_items } else { base.unique_items },
        if override_.max_contains.is_some() { override_.max_contains } else { base.max_contains },
        if override_.min_contains.is_some() { override_.min_contains } else { base.min_contains },
        if override_.max_properties.is_some() { override_.max_properties } else { base.max_properties },
    )
}

/// Keywords `min_properties`, `required`, `dependent_required`, `all_of`, `any_of`, `one_of`, `not`, `if_` of the merge.
fn merge_part_4(base: &Schema, override_: &Schema) -> (r: (Option<u64>, Option<Vec<String>>, Option<Vec<(String, Vec<String>)>>, Option<Vec<Schema>>, Option<Vec<Schema>>, Option<Vec<Schema>>, Option<Box<Schema>>, Option<Box<Schema>>))
    ensures
        r.0 == ov_opt(base@.min_properties, override_@.min_properties),
        str_list_model(r.1) == spec_merge_strings(base@.required, override_@.required),
        dep_req_model(r.2) == spec_merge_dep_req(base@.dependent_required, override_@.dependent_required),
        schema_list_model(r.3) == spec_concat(base@.all_of, override_@.all_of),
        schema_list_model(r.4) == spec_concat(base@.any_of, override_@.any_of),
        schema_list_model(r.5) == spec_concat(base@.one_of, override_@.one_of),
        schema_box_model(r.6) == ov_opt(base@.not, override_@.not),
        schema_box_model(r.7) == ov_opt(base@.if_, override_@.if_),
{
    proof {
        lemma_schema_fields(*base);
        lemma_schema_fields(*override_);
    }
    (
        if override_.min_properties.is_some() { override_.min_properties } else { base.min_properties },
        merge_strings(&base.required, &override_.required),
        merge_dependent_required(&base.dependent_required, &override_.dependent_required),
        concat_schemas(&base.all_of, &override_.all_of),
        concat_schemas(&base.any_of, &override_.any_of),
        concat_schemas(&base.one_of, &override_.one_of),
        pick_box(&base.not, &override_.not),
        pick_box(&base.if_, &override_.if_),
    )
}

/// Keywords `then_`, `else_`, `prefix_items`, `items`, `contains`, `additional_properties`, `property_names`, `unevaluated_items` of the merge.
fn merge_part_5(base: &Schema, override_: &Schema) -> (r: (Option<Box<Schema>>, Option<Box<Schema>>, Option<Vec<Schema>>, Option<Box<Schema>>, Option<Box<Schema>>, Option<AdditionalProperties>, Option<Box<Schema>>, Option<Box<Schema>>))
    ensures
        schema_box_model(r.0) == ov_opt(base@.then_, override_@.then_),
        schema_box_model(r.1) == ov_opt(base@.else_, override_@.else_),
        schema_list_model(r.2) == spec_concat(base@.prefix_items, override_@.prefix_items),
        schema_box_model(r.3) == ov_opt(base@.items, override_@.items),
        schema_box_model(r.4) == ov_opt(base@.contains, override_@.contains),
        add_props_model(r.5) == ov_opt(base@.additional_properties, override_@.additional_properties),
        schema_box_model(r.6) == ov_opt(base@.property_names, override_@.property_names),
        schema_box_model(r.7) == ov_opt(base@.unevaluated_items, override_@.unevaluated_items),
{
    proof {
        lemma_schema_fields(*base);
        lemma_schema_fields(*override_);
    }
    (
        pick_box(&base.then_, &override_.then_),
        pick_box(&base.else_, &override_.else_),
        concat_schemas(&base.prefix_items, &override_.prefix_items),
        pick_box(&base.items, &override_.items),
        pick_box(&base.contains, &override_.contains),
        pick_add_props(&base.additional_properties, &override_.additional_properties),
        pick_box(&base.property_names, &override_.property_names),
        pick_box(&base.unevaluated_items, &override_.unevaluated_items),
    )
}

/// Keywords `unevaluated_properties`, `content_encoding`, `content_media_type`, `content_schema` of the merge.
fn merge_part_6(base: &Schema, override_: &Schema) -> (r: (Option<Box<Schema>>, Option<String>, Option<String>, Option<Box<Schema>>))
    ensures
        schema_box_model(r.0) == ov_opt(base@.unevaluated_properties, override_@.unevaluated_properties),
        str_opt_model(r.1) == ov_opt(base@.content_encoding, override_@.content_encoding),
        str_opt_model(r.2) == ov_opt(base@.content_media_type, override_@.content_media_type),
        schema_box_model(r.3) == ov_opt(base@.content_schema, override_@.content_schema),
{
    proof {
        lemma_schema_fields(*base);
        lemma_schema_fields(*override_);
    }
    (
        pick_box(&base.unevaluated_properties, &override_.unevaluated_properties),
        pick_str(&base.content_encoding, &override_.content_encoding),
        pick_str(&base.content_media_type, &override_.content_media_type),
        pick_box(&base.content_schema, &override_.content_schema),
    )
}

/// The schema maps of the merge.
fn merge_maps(base: &Schema, override_: &Schema, origin: &str) -> (r: (Option<Vec<(String, Schema)>>, Option<Vec<(String, Schema)>>, Option<Vec<(String, Schema)>>, Option<Vec<(String, Schema)>>))
    ensures
        schema_map_opt_model(r.0) == spec_merge_map(base@.defs, override_@.defs, origin@),
        schema_map_opt_model(r.1) == spec_merge_map(base@.dependent_schemas, override_@.dependent_schemas, origin@),
        schema_map_opt_model(r.2) == spec_merge_map(base@.properties, override_@.properties, origin@),
        schema_map_opt_model(r.3) == spec_merge_map(base@.pattern_properties, override_@.pattern_properties, origin@),
    decreases override_, 0nat,
{
    proof {
        lemma_schema_fields(*base);
        lemma_schema_fields(*override_);
        if override_.defs is None {
            assert(spec_merge_map(base@.defs, override_@.defs, origin@) == base@.defs);
        }
        if override_.dependent_schemas is None {
            assert(spec_merge_map(base@.dependent_schemas, override_@.dependent_schemas, origin@) == base@.dependent_schemas);
        }
        if override_.properties is None {
            assert(spec_merge_map(base@.properties, override_@.properties, origin@) == base@.properties);
        }
        if override_.pattern_properties is None {
            assert(spec_merge_map(base@.pattern_properties, override_@.pattern_properties, origin@) == base@.pattern_properties);
        }
    }
    (
        match &override_.defs {
            Some(m) => {
                proof {
                    assert(decreases_to!(override_ => m));
                }
                merge_schema_map(&base.defs, m, origin)
            },
            None => clone_map_opt(&base.defs),
        },
        match &override_.dependent_schemas {
            Some(m) => {
                proof {
                    assert(decreases_to!(override_ => m));
                }
                merge_schema_map(&base.dependent_schemas, m, origin)
            },
            None => clone_map_opt(&base.dependent_schemas),
        },
        match &override_.properties {
            Some(m) => {
                proof {
                    assert(decreases_to!(override_ => m));
                }
                merge_schema_map(&base.properties, m, origin)
            },
            None => clone_map_opt(&base.properties),
        },
        match &override_.pattern_properties {
            Some(m) => {
                proof {
                    assert(decreases_to!(override_ => m));
                }
                merge_schema_map(&base.pattern_properties, m, origin)
            },
            None => clone_map_opt(&base.pattern_properties),
        },
    )
}

/// Merge `override_` (with extensions `ov_ext`) over `base`.
fn merge_core(base: &Schema, override_: &Schema, origin: &str, ov_ext: &Vec<(String, JsonValue)>) -> (r: Schema)
    ensures
        r@ == spec_merge_core(base@, override_@, origin@, ext_model(ov_ext@)),
    decreases override_, 1nat,
{
    proof {
        lemma_schema_fields(*base);
    }
    let (f_schema, f_id, f_anchor, f_dynamic_anchor, f_ref_, f_dynamic_ref, f_comment, f_title) = merge_part_0(base, override_);
    let (f_description, f_default, f_deprecated, f_read_only, f_write_only, f_examples, f_type_, f_enum_) = merge_part_1(base, override_);
    let (f_const_, f_multiple_of, f_maximum, f_exclusive_maximum, f_minimum, f_exclusive_minimum, f_max_length, f_min_length) = merge_part_2(base, override_);
    let (f_pattern, f_format, f_max_items, f_min_items, f_unique_items, f_max_contains, f_min_contains, f_max_properties) = merge_part_3(base, override_);
    let (f_min_properties, f_required, f_dependent_required, f_all_of, f_any_of, f_one_of, f_not, f_if_) = merge_part_4(base, override_);
    let (f_then_, f_else_, f_prefix_items, f_items, f_contains, f_additional_properties, f_property_names, f_unevaluated_items) = merge_part_5(base, override_);
    let (f_unevaluated_properties, f_content_encoding, f_content_media_type, f_content_schema) = merge_part_6(base, override_);
    let (f_defs, f_dependent_schemas, f_properties, f_pattern_properties) = merge_maps(base, override_, origin);
    let f_extensions = insert_all_exec(&base.extensions, ov_ext);
    let r = Schema {
        schema: f_schema,
        id: f_id,
        anchor: f_anchor,
        dynamic_anchor: f_dynamic_anchor,
        ref_: f_ref_,
        dynamic_ref: f_dynamic_ref,
        defs: f_defs,
        comment: f_comment,
        title: f_title,
        description: f_description,
        default: f_default,
        deprecated: f_deprecated,
        read_only: f_read_only,
        write_only: f_write_only,
        examples: f_examples,
        type_: f_type_,
        enum_: f_enum_,
        const_: f_const_,
        multiple_of: f_multiple_of,
        maximum: f_maximum,
        exclusive_maximum: f_exclusive_maximum,
        minimum: f_minimum,
        exclusive_minimum: f_exclusive_minimum,
        max_length: f_max_length,
        min_length: f_min_length,
        pattern: f_pattern,
        format: f_format,
        max_items: f_max_items,
        min_items: f_min_items,
        unique_items: f_unique_items,
        max_contains: f_max_contains,
        min_contains: f_min_contains,
        max_properties: f_max_properties,
        min_properties: f_min_properties,
        required: f_required,
        dependent_required: f_dependent_required,
        all_of: f_all_of,
        any_of: f_any_of,
        one_of: f_one_of,
        not: f_not,
        if_: f_if_,
        then_: f_then_,
        else_: f_else_,
        dependent_schemas: f_dependent_schemas,
        prefix_items: f_prefix_items,
        items: f_items,
        contains: f_contains,
        properties: f_properties,
        pattern_properties: f_pattern_properties,
        additional_properties: f_additional_properties,
        property_names: f_property_names,
        unevaluated_items: f_unevaluated_items,
        unevaluated_properties: f_unevaluated_properties,
        content_encoding: f_content_encoding,
        content_media_type: f_content_media_type,
        content_schema: f_content_schema,
        extensions: f_extensions,
    };
    proof {
        lemma_schema_fields(r);
    }
    r
}

// ── Maps kept in insertion order ──

/// The position of the first entry whose key is `k`.
pub open spec fn key_pos<V>(m: Seq<(String, V)>, k: Seq<char>) -> Option<int>
    decreases m.len(),
{
    if m.len() == 0 {
        None
    } else if m[0].0@ == k {
        Some(0)
    } else {
        match key_pos(m.skip(1), k) {
            Some(i) => Some(i + 1),
            None => None,
        }
    }
}

pub proof fn lemma_key_pos_bounds<V>(m: Seq<(String, V)>, k: Seq<char>)
    ensures
        key_pos(m, k) matches Some(i) ==> 0 <= i < m.len() && m[i].0@ == k,
    decreases m.len(),
{
    if m.len() > 0 && m[0].0@ != k {
        lemma_key_pos_bounds(m.skip(1), k);
    }
}

/// A model map whose keys are those of `m` has its key at the same place.
pub proof fn lemma_map_find_key_pos<V, W>(m: Seq<(String, V)>, s: Seq<(Seq<char>, W)>, k: Seq<char>)
    requires
        s.len() == m.len(),
        forall|j: int| 0 <= j < m.len() ==> #[trigger] s[j].0 == m[j].0@,
    ensures
        map_find(s, k) == key_pos(m, k),
    decreases m.len(),
{
    if m.len() > 0 {
        assert(s[0].0 == m[0].0@);
        let s1 = s.skip(1);
        let m1 = m.skip(1);
        assert forall|j: int| 0 <= j < m1.len() implies #[trigger] s1[j].0 == m1[j].0@ by {
            assert(s1[j] == s[j + 1]);
            assert(m1[j] == m[j + 1]);
        }
        lemma_map_find_key_pos(m1, s1, k);
    }
}

/// The position of the first entry with key `k`.
pub fn find_key<V>(m: &Vec<(String, V)>, k: &str) -> (r: Option<usize>)
    ensures
        match r {
            Some(i) => key_pos(m@, k@) == Some(i as int),
            None => key_pos(m@, k@) is None,
        },
{
    let mut i: usize = 0;
    assert(m@.skip(0) =~= m@);
    while i < m.len()
        invariant
            i <= m@.len(),
            key_pos(m@, k@) == match key_pos(m@.skip(i as int), k@) {
                Some(j) => Some(j + i),
                None => None,
            },
        decreases m.len() - i,
    {
        assert(m@.skip(i as int).skip(1) =~= m@.skip(i + 1));
        if str_eq(m[i].0.as_str(), k) {
            assert(m@.skip(i as int)[0] == m@[i as int]);
            return Some(i);
        }
        i = i + 1;
    }
    None
}

/// Insert into an insertion-ordered map of values.
pub fn vec_map_insert<V>(m: &mut Vec<(String, V)>, k: String, v: V)
    ensures
        final(m)@ == match key_pos(old(m)@, k@) {
            Some(i) => old(m)@.update(i, (k, v)),
            None => old(m)@.push((k, v)),
        },
{
    proof {
        lemma_key_pos_bounds(m@, k@);
    }
    match find_key(m, k.as_str()) {
        Some(i) => {
            m.set(i, (k, v));
        },
        None => {
            m.push((k, v));
        },
    }
}

pub proof fn lemma_ext_insert(m: Seq<(String, JsonValue)>, k: String, v: JsonValue)
    ensures
        ext_model(match key_pos(m, k@) {
            Some(i) => m.update(i, (k, v)),
            None => m.push((k, v)),
        }) == map_insert(ext_model(m), k@, v@),
{
    lemma_key_pos_bounds(m, k@);
    lemma_map_find_key_pos(m, ext_model(m), k@);
    match key_pos(m, k@) {
        Some(i) => {
            assert(ext_model(m.update(i, (k, v))) =~= ext_model(m).update(i, (k@, v@)));
        },
        None => {
            assert(ext_model(m.push((k, v))) =~= ext_model(m).push((k@, v@)));
        },
    }
}

pub proof fn lemma_schema_map_insert(m: Seq<(String, Schema)>, k: String, v: Schema)
    ensures
        schema_map_model(match key_pos(m, k@) {
            Some(i) => m.update(i, (k, v)),
            None => m.push((k, v)),
        }) == map_insert(schema_map_model(m), k@, v@),
{
    lemma_key_pos_bounds(m, k@);
    assert forall|j: int| 0 <= j < m.len() implies #[trigger] schema_map_model(m)[j].0 == m[j].0@ by {
        lemma_schema_map_model_index(m, j);
    }
    if m.len() == 0 {
        assert(schema_map_model(m).len() == 0);
    } else {
        lemma_schema_map_model_index(m, 0);
    }
    lemma_map_find_key_pos(m, schema_map_model(m), k@);
    match key_pos(m, k@) {
        Some(i) => {
            let n = m.update(i, (k, v));
            assert forall|j: int| 0 <= j < n.len() implies schema_map_model(n)[j] == schema_map_model(m).update(i, (k@, v@))[j] by {
                lemma_schema_map_model_index(n, j);
                lemma_schema_map_model_index(m, j);
            }
            lemma_schema_map_model_index(n, 0);
            assert(schema_map_model(n) =~= schema_map_model(m).update(i, (k@, v@)));
        },
        None => {
            let n = m.push((k, v));
            assert forall|j: int| 0 <= j < n.len() implies schema_map_model(n)[j] == schema_map_model(m).push((k@, v@))[j] by {
                lemma_schema_map_model_index(n, j);
                if j < m.len() {
                    lemma_schema_map_model_index(m, j);
                }
            }
            lemma_schema_map_model_index(n, 0);
            assert(schema_map_model(n) =~= schema_map_model(m).push((k@, v@)));
        },
    }
}

pub proof fn lemma_dep_insert(m: Seq<(String, Vec<String>)>, k: String, v: Vec<String>)
    ensures
        dep_req_seq_model(match key_pos(m, k@) {
            Some(i) => m.update(i, (k, v)),
            None => m.push((k, v)),
        }) == map_insert(dep_req_seq_model(m), k@, str_seq_model(v@)),
{
    lemma_key_pos_bounds(m, k@);
    lemma_map_find_key_pos(m, dep_req_seq_model(m), k@);
    match key_pos(m, k@) {
        Some(i) => {
            assert(dep_req_seq_model(m.update(i, (k, v))) =~= dep_req_seq_model(m).update(i, (k@, str_seq_model(v@))));
        },
        None => {
            assert(dep_req_seq_model(m.push((k, v))) =~= dep_req_seq_model(m).push((k@, str_seq_model(v@))));
        },
    }
}

/// Insert every entry of `o` into a copy of `base`, in order.
pub fn insert_all_exec(base: &Vec<(String, JsonValue)>, o: &Vec<(String, JsonValue)>) -> (r: Vec<(String, JsonValue)>)
    ensures
        ext_model(r@) == insert_all(ext_model(base@), ext_model(o@)),
{
    let mut r = clone_entries(base);
    let mut i: usize = 0;
    assert(ext_model(o@).skip(0) =~= ext_model(o@));
    while i < o.len()
        invariant
            i <= o@.len(),
            insert_all(ext_model(r@), ext_model(o@).skip(i as int)) == insert_all(ext_model(base@), ext_model(o@)),
        decreases o.len() - i,
    {
        let ghost before = r@;
        let k = o[i].0.clone();
        let v = o[i].1.deep_copy();
        proof {
            lemma_ext_insert(before, k, v);
            assert(ext_model(o@).skip(i as int).skip(1) =~= ext_model(o@).skip(i + 1));
            assert(ext_model(o@).skip(i as int)[0] == (k@, v@));
        }
        vec_map_insert(&mut r, k, v);
        i = i + 1;
    }
    assert(ext_model(o@).skip(o@.len() as int) =~= Seq::<(Seq<char>, Json)>::empty());
    r
}

/// The text `origin/properties/key`.
pub fn origin_text_exec(origin: &str, key: &str) -> (r: String)
    ensures
        r@ == origin_text(origin@, key@),
{
    let mut r = to_owned_string(origin);
    push_str(&mut r, "/properties/");
    push_str(&mut r, key);
    r
}

/// Extensions tagged with `x-origin-keyword`, unless the origin is empty.
pub fn tag_ext_exec(ext: &Vec<(String, JsonValue)>, key: &str, origin: &str) -> (r: Vec<(String, JsonValue)>)
    ensures
        ext_model(r@) == tag_ext(ext_model(ext@), key@, origin@),
{
    let mut r = clone_entries(ext);
    if origin.unicode_len() == 0 {
        return r;
    }
    let k = to_owned_string("x-origin-keyword");
    let v = JsonValue::String(origin_text_exec(origin, key));
    proof {
        lemma_ext_insert(r@, k, v);
    }
    vec_map_insert(&mut r, k, v);
    r
}

// ── Merge helpers ──

pub fn pick_str(b: &Option<String>, o: &Option<String>) -> (r: Option<String>)
    ensures
        str_opt_model(r) == ov_opt(str_opt_model(*b), str_opt_model(*o)),
{
    if o.is_some() { clone_opt_str(o) } else { clone_opt_str(b) }
}

pub fn pick_json(b: &Option<JsonValue>, o: &Option<JsonValue>) -> (r: Option<JsonValue>)
    ensures
        json_opt_model(r) == ov_opt(json_opt_model(*b), json_opt_model(*o)),
{
    if o.is_some() { clone_opt_json(o) } else { clone_opt_json(b) }
}

pub fn pick_json_list(b: &Option<Vec<JsonValue>>, o: &Option<Vec<JsonValue>>) -> (r: Option<Vec<JsonValue>>)
    ensures
        json_list_model(r) == ov_opt(json_list_model(*b), json_list_model(*o)),
{
    if o.is_some() { clone_opt_json_list(o) } else { clone_opt_json_list(b) }
}

pub fn pick_str_list(b: &Option<Vec<String>>, o: &Option<Vec<String>>) -> (r: Option<Vec<String>>)
    ensures
        str_list_model(r) == ov_opt(str_list_model(*b), str_list_model(*o)),
{
    if o.is_some() { clone_opt_str_list(o) } else { clone_opt_str_list(b) }
}

pub fn pick_dep_req(b: &Option<Vec<(String, Vec<String>)>>, o: &Option<Vec<(String, Vec<String>)>>) -> (r: Option<Vec<(String, Vec<String>)>>)
    ensures
        dep_req_model(r) == ov_opt(dep_req_model(*b), dep_req_model(*o)),
{
    if o.is_some() { clone_opt_dep_req(o) } else { clone_opt_dep_req(b) }
}

pub fn clone_list_opt(o: &Option<Vec<Schema>>) -> (r: Option<Vec<Schema>>)
    ensures
        schema_list_model(r) == schema_list_model(*o),
{
    match o {
        Some(v) => Some(clone_schema_vec(v)),
        None => None,
    }
}

pub fn clone_map_opt(o: &Option<Vec<(String, Schema)>>) -> (r: Option<Vec<(String, Schema)>>)
    ensures
        schema_map_opt_model(r) == schema_map_opt_model(*o),
{
    match o {
        Some(v) => Some(clone_schema_map(v)),
        None => None,
    }
}

pub fn clone_box_opt(o: &Option<Box<Schema>>) -> (r: Option<Box<Schema>>)
    ensures
        schema_box_model(r) == schema_box_model(*o),
{
    match o {
        Some(b) => Some(Box::new(b.deep_copy())),
        None => None,
    }
}

pub fn clone_add_props_opt(o: &Option<AdditionalProperties>) -> (r: Option<AdditionalProperties>)
    ensures
        add_props_model(r) == add_props_model(*o),
{
    match o {
        Some(AdditionalProperties::Bool(b)) => Some(AdditionalProperties::Bool(*b)),
        Some(AdditionalProperties::Schema(s)) => Some(AdditionalProperties::Schema(Box::new(s.deep_copy()))),
        None => None,
    }
}

pub fn pick_list(b: &Option<Vec<Schema>>, o: &Option<Vec<Schema>>) -> (r: Option<Vec<Schema>>)
    ensures
        schema_list_model(r) == ov_opt(schema_list_model(*b), schema_list_model(*o)),
{
    if o.is_some() { clone_list_opt(o) } else { clone_list_opt(b) }
}

pub fn pick_box(b: &Option<Box<Schema>>, o: &Option<Box<Schema>>) -> (r: Option<Box<Schema>>)
    ensures
        schema_box_model(r) == ov_opt(schema_box_model(*b), schema_box_model(*o)),
{
    if o.is_some() { clone_box_opt(o) } else { clone_box_opt(b) }
}

pub fn pick_map(b: &Option<Vec<(String, Schema)>>, o: &Option<Vec<(String, Schema)>>) -> (r: Option<Vec<(String, Schema)>>)
    ensures
        schema_map_opt_model(r) == ov_opt(schema_map_opt_model(*b), schema_map_opt_model(*o)),
{
    if o.is_some() { clone_map_opt(o) } else { clone_map_opt(b) }
}

pub fn pick_add_props(b: &Option<AdditionalProperties>, o: &Option<AdditionalProperties>) -> (r: Option<AdditionalProperties>)
    ensures
        add_props_model(r) == ov_opt(add_props_model(*b), add_props_model(*o)),
{
    if o.is_some() { clone_add_props_opt(o) } else { clone_add_props_opt(b) }
}

/// The type names of a `type` keyword.
pub fn type_value_to_vec(tv: &SchemaTypeValue) -> (r: Vec<String>)
    ensures
        str_seq_model(r@) == type_names(type_model(*tv)),
{
    match tv {
        SchemaTypeValue::Single(s) => {
            let mut v: Vec<String> = Vec::new();
            v.push(s.clone());
            assert(str_seq_model(v@) =~= seq![s@]);
            v
        },
        SchemaTypeValue::Array(a) => clone_str_vec(a),
    }
}

/// Intersection of two optional type values.
pub fn merge_type(a: &Option<SchemaTypeValue>, b: &Option<SchemaTypeValue>) -> (r: Option<SchemaTypeValue>)
    ensures
        type_opt_model(r) == spec_merge_type(type_opt_model(*a), type_opt_model(*b)),
{
    match (a, b) {
        (_, None) => crate::schema::clone_opt_type(a),
        (None, _) => crate::schema::clone_opt_type(b),
        (Some(x), Some(y)) => {
            let xs = type_value_to_vec(x);
            let ys = type_value_to_vec(y);
            let ghost xm = str_seq_model(xs@);
            let ghost ym = str_seq_model(ys@);
            let mut out: Vec<String> = Vec::new();
            let mut i: usize = 0;
            assert(xm.take(0) =~= Seq::<Seq<char>>::empty());
            while i < xs.len()
                invariant
                    i <= xs@.len(),
                    xm == str_seq_model(xs@),
                    ym == str_seq_model(ys@),
                    str_seq_model(out@) == keep_in(xm.take(i as int), ym),
                decreases xs.len() - i,
            {
                assert(xm.take(i + 1).drop_last() =~= xm.take(i as int));
                if crate::default::names_contain(&ys, xs[i].as_str()) {
                    let ghost before = out@;
                    out.push(xs[i].clone());
                    assert(str_seq_model(out@) =~= str_seq_model(before).push(xm[i as int]));
                }
                i = i + 1;
            }
            assert(xm.take(xs@.len() as int) =~= xm);
            if out.len() == 0 {
                Some(SchemaTypeValue::Array(out))
            } else if out.len() == 1 {
                let s = out[0].clone();
                Some(SchemaTypeValue::Single(s))
            } else {
                Some(SchemaTypeValue::Array(out))
            }
        },
    }
}

/// `acc` followed by the names of `b` it lacks, in order.
fn union_into(acc: &mut Vec<String>, b: &Vec<String>)
    ensures
        str_seq_model(final(acc)@) == union_names(str_seq_model(old(acc)@), str_seq_model(b@)),
{
    let ghost goal = union_names(str_seq_model(acc@), str_seq_model(b@));
    let ghost bm = str_seq_model(b@);
    let mut i: usize = 0;
    assert(bm.skip(0) =~= bm);
    while i < b.len()
        invariant
            i <= b@.len(),
            bm == str_seq_model(b@),
            union_names(str_seq_model(acc@), bm.skip(i as int)) == goal,
        decreases b.len() - i,
    {
        assert(bm.skip(i as int).skip(1) =~= bm.skip(i + 1));
        assert(bm.skip(i as int)[0] == b@[i as int]@);
        if !crate::default::names_contain(acc, b[i].as_str()) {
            let ghost before = acc@;
            acc.push(b[i].clone());
            assert(str_seq_model(acc@) =~= str_seq_model(before).push(b@[i as int]@));
        }
        i = i + 1;
    }
    assert(bm.skip(b@.len() as int) =~= Seq::<Seq<char>>::empty());
}

/// Union of two optional string lists, deduplicated.
pub fn merge_strings(a: &Option<Vec<String>>, b: &Option<Vec<String>>) -> (r: Option<Vec<String>>)
    ensures
        str_list_model(r) == spec_merge_strings(str_list_model(*a), str_list_model(*b)),
        r is None <==> (a is None && b is None),
        r matches Some(v) ==> no_dup(str_seq_model(v@)),
        r matches Some(v) ==> forall|n: Seq<char>| #[trigger] str_seq_model(v@).contains(n) <==> (
            (a matches Some(x) && str_seq_model(x@).contains(n)) || (b matches Some(y) && str_seq_model(y@).contains(n))),
{
    if a.is_none() && b.is_none() {
        return None;
    }
    let mut merged: Vec<String> = Vec::new();
    let ghost e = Seq::<Seq<char>>::empty();
    assert(str_seq_model(merged@) =~= e);
    proof {
        lemma_union_names(e, Seq::<Seq<char>>::empty());
    }
    if let Some(x) = a {
        let ghost before = str_seq_model(merged@);
        union_into(&mut merged, x);
        proof {
            lemma_union_names(before, str_seq_model(x@));
        }
    }
    if let Some(y) = b {
        let ghost before = str_seq_model(merged@);
        union_into(&mut merged, y);
        proof {
            lemma_union_names(before, str_seq_model(y@));
        }
    }
    Some(merged)
}

/// Merge `dependentRequired` maps: each key's names are unioned.
pub fn merge_dependent_required(
    a: &Option<Vec<(String, Vec<String>)>>,
    b: &Option<Vec<(String, Vec<String>)>>,
) -> (r: Option<Vec<(String, Vec<String>)>>)
    ensures
        dep_req_model(r) == spec_merge_dep_req(dep_req_model(*a), dep_req_model(*b)),
{
    match (a, b) {
        (None, None) => None,
        (Some(x), None) => Some(clone_dep_req_vec(x)),
        (None, Some(y)) => Some(clone_dep_req_vec(y)),
        (Some(x), Some(y)) => {
            let mut result = clone_dep_req_vec(x);
            let ghost ym = dep_req_seq_model(y@);
            let ghost goal = dep_merge(dep_req_seq_model(x@), ym);
            let mut i: usize = 0;
            assert(ym.skip(0) =~= ym);
            while i < y.len()
                invariant
                    i <= y@.len(),
                    ym == dep_req_seq_model(y@),
                    dep_merge(dep_req_seq_model(result@), ym.skip(i as int)) == goal,
                decreases y.len() - i,
            {
                let ghost rm = dep_req_seq_model(result@);
                assert(ym.skip(i as int).skip(1) =~= ym.skip(i + 1));
                assert(ym.skip(i as int)[0] == (y@[i as int].0@, str_seq_model(y@[i as int].1@)));
                let key = y[i].0.clone();
                proof {
                    lemma_key_pos_bounds(result@, key@);
                    lemma_map_find_key_pos(result@, rm, key@);
                }
                let mut cur: Vec<String> = match find_key(&result, key.as_str()) {
                    Some(j) => clone_str_vec(&result[j].1),
                    None => Vec::new(),
                };
                assert(str_seq_model(cur@) == match map_get(rm, key@) {
                    Some(v) => v,
                    None => Seq::<Seq<char>>::empty(),
                }) by {
                    if map_find(rm, key@) is None {
                        assert(str_seq_model(cur@) =~= Seq::<Seq<char>>::empty());
                    }
                }
                union_into(&mut cur, &y[i].1);
                proof {
                    lemma_dep_insert(result@, key, cur);
                }
                vec_map_insert(&mut result, key, cur);
                i = i + 1;
            }
            assert(ym.skip(y@.len() as int) =~= Seq::<(Seq<char>, Seq<Seq<char>>)>::empty());
            Some(result)
        },
    }
}

/// Concatenate two optional schema lists.
pub fn concat_schemas(a: &Option<Vec<Schema>>, b: &Option<Vec<Schema>>) -> (r: Option<Vec<Schema>>)
    ensures
        schema_list_model(r) == spec_concat(schema_list_model(*a), schema_list_model(*b)),
{
    match (a, b) {
        (None, None) => None,
        (Some(x), None) => Some(clone_schema_vec(x)),
        (None, Some(y)) => Some(clone_schema_vec(y)),
        (Some(x), Some(y)) => {
            let mut result = clone_schema_vec(x);
            let ghost xm = schemas_model(x@);
            let ghost ym = schemas_model(y@);
            let mut i: usize = 0;
            assert(xm + ym.take(0) =~= xm);
            while i < y.len()
                invariant
                    i <= y@.len(),
                    xm == schemas_model(x@),
                    ym == schemas_model(y@),
                    schemas_model(result@) == xm + ym.take(i as int),
                decreases y.len() - i,
            {
                let c = y[i].deep_copy();
                let ghost before = result@;
                result.push(c);
                proof {
                    lemma_schemas_model_index(y@, i as int);
                    assert forall|j: int| 0 <= j < result@.len() implies
                        #[trigger] schemas_model(result@)[j] == schemas_model(before).push(c@)[j] by {
                        lemma_schemas_model_index(result@, j);
                        if j < before.len() {
                            lemma_schemas_model_index(before, j);
                        }
                    }
                    assert(schemas_model(result@) =~= schemas_model(before).push(c@));
                    assert(ym.take(i + 1) =~= ym.take(i as int).push(ym[i as int]));
                    assert(xm + ym.take(i + 1) =~= (xm + ym.take(i as int)).push(ym[i as int]));
                }
                i = i + 1;
            }
            assert(ym.take(y@.len() as int) =~= ym);
            Some(result)
        },
    }
}

/// Merge a schema map with an override map; entries of the override are
/// tagged with `x-origin-keyword` when `origin` is not empty, and shared
/// keys are merged recursively.
fn merge_schema_map(
    base: &Option<Vec<(String, Schema)>>,
    o: &Vec<(String, Schema)>,
    origin: &str,
) -> (r: Option<Vec<(String, Schema)>>)
    ensures
        schema_map_opt_model(r) == spec_merge_map(schema_map_opt_model(*base), Some(schema_map_model(o@)), origin@),
    decreases o, 0nat,
{
    let ghost om = schema_map_model(o@);
    let mut result: Vec<(String, Schema)> = match base {
        Some(x) => clone_schema_map(x),
        None => Vec::new(),
    };
    let ghost goal = spec_merge_map(schema_map_opt_model(*base), Some(om), origin@);
    assert(om.skip(0) =~= om);
    proof {
        if base is None {
            assert(schema_map_model(result@) =~= Seq::<(Seq<char>, SchemaModel)>::empty());
        }
    }
    let mut i: usize = 0;
    while i < o.len()
        invariant
            i <= o@.len(),
            om == schema_map_model(o@),
            base is None ==> Some(tag_all(schema_map_model(result@), om.skip(i as int), origin@)) == goal,
            base is Some ==> Some(merge_entries(schema_map_model(result@), om.skip(i as int), origin@)) == goal,
        decreases o.len() - i,
    {
        let ghost rm = schema_map_model(result@);
        proof {
            lemma_schema_map_model_index(o@, i as int);
            assert(om.skip(i as int).skip(1) =~= om.skip(i + 1));
            assert(om.skip(i as int)[0] == om[i as int]);
            assert(decreases_to!(o => o@[i as int].1));
            lemma_schema_fields(o@[i as int].1);
        }
        let key = o[i].0.clone();
        let tagged = tag_ext_exec(&o[i].1.extensions, key.as_str(), origin);
        proof {
            lemma_key_pos_bounds(result@, key@);
            assert forall|j: int| 0 <= j < result@.len() implies #[trigger] rm[j].0 == result@[j].0@ by {
                lemma_schema_map_model_index(result@, j);
            }
            if result@.len() == 0 {
                assert(rm.len() == 0);
            } else {
                lemma_schema_map_model_index(result@, 0);
            }
            lemma_map_find_key_pos(result@, rm, key@);
        }
        let found = if base.is_some() { find_key(&result, key.as_str()) } else { None };
        let merged: Schema = match found {
            Some(j) => {
                proof {
                    lemma_schema_map_model_index(result@, j as int);
                }
                merge_core(&result[j].1, &o[i].1, origin, &tagged)
            },
            None => {
                let mut s = o[i].1.deep_copy();
                let ghost sv = s@;
                proof {
                    lemma_schema_fields(s);
                }
                s.extensions = tagged;
                proof {
                    lemma_schema_fields(s);
                    assert(s@ == with_ext(sv, ext_model(s.extensions@)));
                }
                s
            },
        };
        proof {
            lemma_schema_map_insert(result@, key, merged);
        }
        vec_map_insert(&mut result, key, merged);
        i = i + 1;
    }
    assert(om.skip(o@.len() as int) =~= Seq::<(Seq<char>, SchemaModel)>::empty());
    Some(result)
}

/// Merge two schemas: keywords of the override win, with `type`,
/// `required`, `dependentRequired`, the composition lists, `prefixItems`,
/// the schema maps and the extensions combined (see `spec_merge_schema`).
pub fn merge_schema(base: &Schema, override_: &Schema, override_origin: &str) -> (r: Schema)
    ensures
        r@ == spec_merge_schema(base@, override_@, override_origin@),
{
    proof {
        lemma_schema_fields(*override_);
    }
    merge_core(base, override_, override_origin, &override_.extensions)
}

} // verus!
