//! Properties of the library as a whole, stated over the specifications
//! the operations are verified against.
use vstd::prelude::*;
use crate::default::spec_default_value;
use crate::effective::{spec_merge_schema, insert_all, lemma_union_names_distinct};
use crate::dependency::no_dup;
use crate::json::Json;
use crate::resolve::{resolve_spec, cond_step, all_step, any_step, one_step, fold_all, fold_any, fold_one, merged,
    list_len, index_loc, probe_options};
use crate::schema::{AddPropsModel, SchemaModel, schema_model_default};
use crate::schema_util::spec_merge_overlay;
use crate::validate::{DefaultValidator, Validator, ValidatorOptions, full_valid, shallow_ok};
use crate::effective::map_find;
use crate::normalize::{norm_members, norm_seq, normalize_spec, normalize_step};

verus! {

proof fn lemma_insert_all_empty<V>(acc: Seq<(Seq<char>, V)>)
    ensures
        insert_all(acc, Seq::<(Seq<char>, V)>::empty()) == acc,
{
}

/// Merging the empty schema over a schema leaves it unchanged, when its
/// `required` list names no property twice (the merge deduplicates it).
pub proof fn law_merge_empty_override(b: SchemaModel, origin: Seq<char>)
    requires
        b.required matches Some(x) ==> no_dup(x),
    ensures
        spec_merge_schema(b, schema_model_default(), origin) == b,
{
    lemma_insert_all_empty(b.extensions);
    if let Some(x) = b.required {
        assert(Seq::<Seq<char>>::empty() + x =~= x);
        lemma_union_names_distinct(Seq::empty(), x);
    }
}

/// Dereferencing through an empty referring schema gives the target
/// unchanged.
pub proof fn law_overlay_empty(b: SchemaModel)
    ensures
        spec_merge_overlay(b, schema_model_default()) == b,
{
    lemma_insert_all_empty(b.extensions);
}

/// A default value comes from `const` first, then from `default`.
pub proof fn law_default_priority(m: SchemaModel, required: bool)
    ensures
        m.const_ is Some ==> spec_default_value(m, required) == m.const_,
        m.const_ is None && m.default is Some ==> spec_default_value(m, required) == m.default,
{
}

/// Whether a value is valid does not depend on `fast_fail`.
pub proof fn law_fast_fail_keeps_validity(s: SchemaModel, v: Json, shallow: bool)
    ensures
        DefaultValidator.spec_valid(s, v, ValidatorOptions { fast_fail: true, shallow })
            == DefaultValidator.spec_valid(s, v, ValidatorOptions { fast_fail: false, shallow }),
{
}

/// A value valid under a full validation is valid under a shallow one.
pub proof fn law_full_validity_implies_shallow(s: SchemaModel, v: Json)
    ensures
        DefaultValidator.spec_valid(s, v, ValidatorOptions { fast_fail: false, shallow: false })
            ==> DefaultValidator.spec_valid(s, v, ValidatorOptions { fast_fail: false, shallow: true }),
{
    assert(full_valid(s, v) ==> shallow_ok(s, v));
}

/// A schema without conditional or composition keywords is its own
/// effective schema, whatever the validator and the value.
pub proof fn law_plain_schema_is_effective<V: Validator>(val: V, s: SchemaModel, v: Json, kw: Seq<char>)
    requires
        s.if_ is None,
        s.all_of is None,
        s.any_of is None,
        s.one_of is None,
    ensures
        resolve_spec(val, s, v, kw) == s,
{
}

/// A schema with no `if`, `allOf`, `anyOf` or `oneOf`.
pub open spec fn composition_free(m: SchemaModel) -> bool {
    &&& m.if_ is None
    &&& m.all_of is None
    &&& m.any_of is None
    &&& m.one_of is None
}

/// Merging a composition-free schema over `b` keeps the `if`, `allOf`,
/// `anyOf` and `oneOf` of `b`.
proof fn lemma_merge_keeps_compositions(b: SchemaModel, o: SchemaModel, origin: Seq<char>)
    requires
        composition_free(o),
    ensures
        merged(b, o, origin).if_ == b.if_,
        merged(b, o, origin).all_of == b.all_of,
        merged(b, o, origin).any_of == b.any_of,
        merged(b, o, origin).one_of == b.one_of,
{
    reveal(merged);
}

/// The same compositions.
pub open spec fn same_compositions(a: SchemaModel, b: SchemaModel) -> bool {
    &&& a.if_ == b.if_
    &&& a.all_of == b.all_of
    &&& a.any_of == b.any_of
    &&& a.one_of == b.one_of
}

proof fn lemma_fold_all_keeps<V: Validator>(val: V, s: SchemaModel, e: SchemaModel, v: Json, kw: Seq<char>, n: nat)
    ensures
        same_compositions(fold_all(val, s, e, v, kw, n), e),
    decreases s, 0nat, n,
{
    if !(n == 0 || n > list_len(s.all_of)) {
        lemma_fold_all_keeps(val, s, e, v, kw, (n - 1) as nat);
        let loc = index_loc(kw, "/allOf/"@, (n - 1) as nat);
        let t = s.all_of->0[n - 1];
        assert(decreases_to!(s => t));
        law_effective_schema_composition_free(val, t, v, loc);
        lemma_merge_keeps_compositions(fold_all(val, s, e, v, kw, (n - 1) as nat), resolve_spec(val, t, v, loc), loc);
    }
}

proof fn lemma_fold_any_keeps<V: Validator>(val: V, s: SchemaModel, e: SchemaModel, v: Json, kw: Seq<char>, n: nat)
    ensures
        same_compositions(fold_any(val, s, e, v, kw, n), e),
    decreases s, 0nat, n,
{
    if !(n == 0 || n > list_len(s.any_of)) {
        lemma_fold_any_keeps(val, s, e, v, kw, (n - 1) as nat);
        let loc = index_loc(kw, "/anyOf/"@, (n - 1) as nat);
        let t = s.any_of->0[n - 1];
        assert(decreases_to!(s => t));
        law_effective_schema_composition_free(val, t, v, loc);
        lemma_merge_keeps_compositions(fold_any(val, s, e, v, kw, (n - 1) as nat), resolve_spec(val, t, v, loc), loc);
    }
}

proof fn lemma_fold_one_keeps<V: Validator>(val: V, s: SchemaModel, e: SchemaModel, v: Json, kw: Seq<char>, n: nat)
    ensures
        same_compositions(fold_one(val, s, e, v, kw, n), e),
    decreases s, 0nat, n,
{
    if !(n == 0 || n > list_len(s.one_of)) {
        lemma_fold_one_keeps(val, s, e, v, kw, (n - 1) as nat);
        let loc = index_loc(kw, "/oneOf/"@, (n - 1) as nat);
        let t = s.one_of->0[n - 1];
        assert(decreases_to!(s => t));
        law_effective_schema_composition_free(val, t, v, loc);
        lemma_merge_keeps_compositions(fold_one(val, s, e, v, kw, (n - 1) as nat), resolve_spec(val, t, v, loc), loc);
    }
}

/// An effective schema holds no `if`, `allOf`, `anyOf` or `oneOf`: the
/// resolution merges each of them away, whatever the validator and the
/// value.
pub proof fn law_effective_schema_composition_free<V: Validator>(val: V, s: SchemaModel, v: Json, kw: Seq<char>)
    ensures
        composition_free(resolve_spec(val, s, v, kw)),
    decreases s, 2nat, 0nat,
{
    let c = cond_step(val, s, v, kw);
    match s.if_ {
        Some(i) => {
            if val.spec_valid(*i, v, probe_options()) {
                match s.then_ {
                    Some(t) => {
                        assert(decreases_to!(s => *t));
                        law_effective_schema_composition_free(val, *t, v, kw + "/then"@);
                        lemma_merge_keeps_compositions(s, resolve_spec(val, *t, v, kw + "/then"@), kw + "/then"@);
                    },
                    None => {},
                }
            } else {
                match s.else_ {
                    Some(t) => {
                        assert(decreases_to!(s => *t));
                        law_effective_schema_composition_free(val, *t, v, kw + "/else"@);
                        lemma_merge_keeps_compositions(s, resolve_spec(val, *t, v, kw + "/else"@), kw + "/else"@);
                    },
                    None => {},
                }
            }
        },
        None => {},
    }
    assert(c.if_ is None && c.all_of == s.all_of && c.any_of == s.any_of && c.one_of == s.one_of);
    match s.all_of {
        Some(l) => lemma_fold_all_keeps(val, s, c, v, kw, l.len()),
        None => {},
    }
    let a = all_step(val, s, c, v, kw);
    assert(a.if_ is None && a.all_of is None && a.any_of == s.any_of && a.one_of == s.one_of);
    match s.any_of {
        Some(l) => lemma_fold_any_keeps(val, s, a, v, kw, l.len()),
        None => {},
    }
    let b = any_step(val, s, a, v, kw);
    assert(b.if_ is None && b.all_of is None && b.any_of is None && b.one_of == s.one_of);
    match s.one_of {
        Some(l) => lemma_fold_one_keeps(val, s, b, v, kw, l.len()),
        None => {},
    }
}

/// Whether a schema holds none of the older keywords as an extension.
pub open spec fn has_no_legacy_keyword(s: SchemaModel) -> bool {
    &&& map_find(s.extensions, "id"@) is None
    &&& map_find(s.extensions, "exclusiveMaximum"@) is None
    &&& map_find(s.extensions, "exclusiveMinimum"@) is None
    &&& map_find(s.extensions, "items"@) is None
    &&& map_find(s.extensions, "additionalItems"@) is None
    &&& map_find(s.extensions, "dependencies"@) is None
    &&& map_find(s.extensions, "nullable"@) is None
    &&& map_find(s.extensions, "example"@) is None
    &&& map_find(s.extensions, "$recursiveRef"@) is None
    &&& map_find(s.extensions, "$recursiveAnchor"@) is None
}

/// The normalization steps leave a schema without older keywords as it is.
pub proof fn law_step_keeps_current_schema(s: SchemaModel)
    requires
        has_no_legacy_keyword(s),
    ensures
        normalize_step(s) == s,
{
}


/// Whether a schema, and every schema inside it, holds none of the older
/// keywords as an extension.
pub open spec fn is_current(s: SchemaModel) -> bool
    decreases s,
{
    &&& has_no_legacy_keyword(s)
    &&& (s.defs matches Some(m) ==> forall|i: int| 0 <= i < m.len() ==> is_current(#[trigger] m[i].1))
    &&& (s.all_of matches Some(v) ==> forall|i: int| 0 <= i < v.len() ==> is_current(#[trigger] v[i]))
    &&& (s.any_of matches Some(v) ==> forall|i: int| 0 <= i < v.len() ==> is_current(#[trigger] v[i]))
    &&& (s.one_of matches Some(v) ==> forall|i: int| 0 <= i < v.len() ==> is_current(#[trigger] v[i]))
    &&& (s.not matches Some(b) ==> is_current(*b))
    &&& (s.if_ matches Some(b) ==> is_current(*b))
    &&& (s.then_ matches Some(b) ==> is_current(*b))
    &&& (s.else_ matches Some(b) ==> is_current(*b))
    &&& (s.dependent_schemas matches Some(m) ==> forall|i: int| 0 <= i < m.len() ==> is_current(#[trigger] m[i].1))
    &&& (s.prefix_items matches Some(v) ==> forall|i: int| 0 <= i < v.len() ==> is_current(#[trigger] v[i]))
    &&& (s.items matches Some(b) ==> is_current(*b))
    &&& (s.contains matches Some(b) ==> is_current(*b))
    &&& (s.properties matches Some(m) ==> forall|i: int| 0 <= i < m.len() ==> is_current(#[trigger] m[i].1))
    &&& (s.pattern_properties matches Some(m) ==> forall|i: int| 0 <= i < m.len() ==> is_current(#[trigger] m[i].1))
    &&& (s.additional_properties matches Some(AddPropsModel::Schema(b)) ==> is_current(*b))
    &&& (s.property_names matches Some(b) ==> is_current(*b))
    &&& (s.unevaluated_items matches Some(b) ==> is_current(*b))
    &&& (s.unevaluated_properties matches Some(b) ==> is_current(*b))
    &&& (s.content_schema matches Some(b) ==> is_current(*b))
}

proof fn lemma_norm_seq_current(v: Seq<SchemaModel>, f: nat)
    requires
        forall|i: int| 0 <= i < v.len() ==> is_current(#[trigger] v[i]),
    ensures
        norm_seq(v, f) == v,
    decreases f, v.len(),
{
    if v.len() > 0 {
        lemma_norm_seq_current(v.drop_last(), f);
        lemma_normalize_current(v.last(), f);
        assert(v.drop_last().push(v.last()) =~= v);
    }
}

proof fn lemma_norm_members_current(m: Seq<(Seq<char>, SchemaModel)>, f: nat)
    requires
        forall|i: int| 0 <= i < m.len() ==> is_current(#[trigger] m[i].1),
    ensures
        norm_members(m, f) == m,
    decreases f, m.len(),
{
    if m.len() > 0 {
        lemma_norm_members_current(m.drop_last(), f);
        lemma_normalize_current(m.last().1, f);
        assert(m.drop_last().push((m.last().0, m.last().1)) =~= m);
    }
}

proof fn lemma_normalize_current(s: SchemaModel, fuel: nat)
    requires
        is_current(s),
    ensures
        normalize_spec(s, fuel) == s,
    decreases fuel, 0nat,
{
    if fuel > 0 {
        let f = (fuel - 1) as nat;
        law_step_keeps_current_schema(s);
        if let Some(m) = s.defs {
            lemma_norm_members_current(m, f);
        }
        if let Some(v) = s.all_of {
            lemma_norm_seq_current(v, f);
        }
        if let Some(v) = s.any_of {
            lemma_norm_seq_current(v, f);
        }
        if let Some(v) = s.one_of {
            lemma_norm_seq_current(v, f);
        }
        if let Some(b) = s.not {
            lemma_normalize_current(*b, f);
        }
        if let Some(b) = s.if_ {
            lemma_normalize_current(*b, f);
        }
        if let Some(b) = s.then_ {
            lemma_normalize_current(*b, f);
        }
        if let Some(b) = s.else_ {
            lemma_normalize_current(*b, f);
        }
        if let Some(m) = s.dependent_schemas {
            lemma_norm_members_current(m, f);
        }
        if let Some(v) = s.prefix_items {
            lemma_norm_seq_current(v, f);
        }
        if let Some(b) = s.items {
            lemma_normalize_current(*b, f);
        }
        if let Some(b) = s.contains {
            lemma_normalize_current(*b, f);
        }
        if let Some(m) = s.properties {
            lemma_norm_members_current(m, f);
        }
        if let Some(m) = s.pattern_properties {
            lemma_norm_members_current(m, f);
        }
        if let Some(AddPropsModel::Schema(b)) = s.additional_properties {
            lemma_normalize_current(*b, f);
        }
        if let Some(b) = s.property_names {
            lemma_normalize_current(*b, f);
        }
        if let Some(b) = s.unevaluated_items {
            lemma_normalize_current(*b, f);
        }
        if let Some(b) = s.unevaluated_properties {
            lemma_normalize_current(*b, f);
        }
        if let Some(b) = s.content_schema {
            lemma_normalize_current(*b, f);
        }
    }
}

/// Normalizing a schema that holds no older keyword at any depth leaves it
/// as it is.
pub proof fn law_normalize_keeps_current_schema(s: SchemaModel, fuel: nat)
    requires
        is_current(s),
    ensures
        normalize_spec(s, fuel) == s,
{
    lemma_normalize_current(s, fuel);
}

} // verus!
