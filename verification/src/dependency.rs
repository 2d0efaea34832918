//! Which values a schema's evaluation depends on: the paths a condition
//! schema reads, and the absolute paths a node must be re-evaluated for.
use vstd::prelude::*;
use crate::pointer::{resolve_absolute_path, spec_resolve_absolute_path};
use crate::schema::{Schema, SchemaModel, lemma_schema_fields, lemma_schema_map_model_index,
    lemma_schemas_model_index, schema_map_model, schemas_model, str_seq_model, dep_req_seq_model};
use crate::text::{decimal_text, to_owned_string, usize_to_text};
use crate::validate::concat2;

verus! {

/// The depth beyond which no more paths are collected.
pub const MAX_EXTRACT_DEPTH: usize = 100;

// ── Referenced paths ──

/// `base/key`, or `/key` under an empty base.
pub open spec fn child_path(base: Seq<char>, key: Seq<char>) -> Seq<char> {
    if base.len() == 0 {
        "/"@ + key
    } else {
        base + "/"@ + key
    }
}

/// The path of an array's items: the base, or `/` when it is empty.
pub open spec fn items_base(base: Seq<char>) -> Seq<char> {
    if base.len() == 0 {
        "/"@
    } else {
        base
    }
}

pub open spec fn has_value_constraint(s: SchemaModel) -> bool {
    s.minimum is Some || s.maximum is Some || s.exclusive_minimum is Some || s.exclusive_maximum is Some
        || s.min_length is Some || s.max_length is Some || s.pattern is Some || s.format is Some
        || s.min_items is Some || s.max_items is Some || s.unique_items is Some || s.min_properties is Some
        || s.max_properties is Some
}

/// The paths a schema reads, relative to `base`, in this order: each
/// property (and what its schema reads below it), the items, each prefix
/// item, the base itself for `const`/`enum`, `type` and value constraints,
/// the `required` and `dependentRequired` names, the `dependentSchemas`
/// properties and schemas, the subschemas of `if`/`then`/`else`, `allOf`,
/// `anyOf`, `oneOf` and `not`, and `contains`. Nothing beyond depth 100.
pub open spec fn spec_extract(s: SchemaModel, base: Seq<char>, depth: nat) -> Seq<Seq<char>>
    decreases s, 2nat, 0nat,
{
    if depth > 100 {
        Seq::empty()
    } else {
        paths_structure(s, base, depth) + paths_values(s, base) + paths_conditions(s, base, depth)
            + paths_compositions(s, base, depth)
    }
}

/// Properties, items and prefix items.
pub open spec fn paths_structure(s: SchemaModel, base: Seq<char>, depth: nat) -> Seq<Seq<char>>
    decreases s, 1nat, 0nat,
{
    (match s.properties {
        Some(p) => props_paths(p, base, depth, p.len()),
        None => Seq::empty(),
    }) + (match s.items {
        Some(it) => seq![items_base(base)] + spec_extract(*it, base, depth + 1),
        None => Seq::empty(),
    }) + (match s.prefix_items {
        Some(l) => prefix_paths(l, base, depth, l.len()),
        None => Seq::empty(),
    })
}

pub open spec fn props_paths(p: Seq<(Seq<char>, SchemaModel)>, base: Seq<char>, depth: nat, n: nat) -> Seq<Seq<char>>
    decreases p, 0nat, n,
{
    if n == 0 || n > p.len() {
        Seq::empty()
    } else {
        let c = child_path(base, p[n - 1].0);
        props_paths(p, base, depth, (n - 1) as nat) + seq![c] + spec_extract(p[n - 1].1, c, depth + 1)
    }
}

pub open spec fn prefix_paths(l: Seq<SchemaModel>, base: Seq<char>, depth: nat, n: nat) -> Seq<Seq<char>>
    decreases l, 0nat, n,
{
    if n == 0 || n > l.len() {
        Seq::empty()
    } else {
        let c = child_path(base, decimal_text((n - 1) as nat));
        prefix_paths(l, base, depth, (n - 1) as nat) + seq![c] + spec_extract(l[n - 1], c, depth + 1)
    }
}

/// `const`/`enum`, `type`, value constraints, `required` and
/// `dependentRequired`.
pub open spec fn paths_values(s: SchemaModel, base: Seq<char>) -> Seq<Seq<char>> {
    (if (s.const_ is Some || s.enum_ is Some) && base.len() > 0 { seq![base] } else { Seq::empty() })
        + (if s.type_ is Some && base.len() > 0 { seq![base] } else { Seq::empty() })
        + (if has_value_constraint(s) && base.len() > 0 { seq![base] } else { Seq::empty() })
        + (match s.required {
        Some(r) => children(base, r),
        None => Seq::empty(),
    }) + (match s.dependent_required {
        Some(d) => dep_req_paths(d, base, d.len()),
        None => Seq::empty(),
    })
}

pub open spec fn children(base: Seq<char>, keys: Seq<Seq<char>>) -> Seq<Seq<char>> {
    Seq::new(keys.len(), |i: int| child_path(base, keys[i]))
}

pub open spec fn dep_req_paths(d: Seq<(Seq<char>, Seq<Seq<char>>)>, base: Seq<char>, n: nat) -> Seq<Seq<char>>
    decreases n,
{
    if n == 0 || n > d.len() {
        Seq::empty()
    } else {
        dep_req_paths(d, base, (n - 1) as nat) + seq![child_path(base, d[n - 1].0)] + children(base, d[n - 1].1)
    }
}

/// `dependentSchemas` and `if`/`then`/`else`.
pub open spec fn paths_conditions(s: SchemaModel, base: Seq<char>, depth: nat) -> Seq<Seq<char>>
    decreases s, 1nat, 0nat,
{
    (match s.dependent_schemas {
        Some(ds) => dep_schema_paths(ds, base, depth, ds.len()),
        None => Seq::empty(),
    }) + (match s.if_ {
        Some(c) => spec_extract(*c, base, depth + 1),
        None => Seq::empty(),
    }) + (match s.then_ {
        Some(c) => spec_extract(*c, base, depth + 1),
        None => Seq::empty(),
    }) + (match s.else_ {
        Some(c) => spec_extract(*c, base, depth + 1),
        None => Seq::empty(),
    })
}

/// `allOf`, `anyOf`, `oneOf`, `not` and `contains`.
pub open spec fn paths_compositions(s: SchemaModel, base: Seq<char>, depth: nat) -> Seq<Seq<char>>
    decreases s, 1nat, 0nat,
{
    (match s.all_of {
        Some(l) => list_paths(l, base, depth, l.len()),
        None => Seq::empty(),
    }) + (match s.any_of {
        Some(l) => list_paths(l, base, depth, l.len()),
        None => Seq::empty(),
    }) + (match s.one_of {
        Some(l) => list_paths(l, base, depth, l.len()),
        None => Seq::empty(),
    }) + (match s.not {
        Some(c) => spec_extract(*c, base, depth + 1),
        None => Seq::empty(),
    }) + (match s.contains {
        Some(c) => seq![items_base(base)] + spec_extract(*c, base, depth + 1),
        None => Seq::empty(),
    })
}

pub open spec fn dep_schema_paths(ds: Seq<(Seq<char>, SchemaModel)>, base: Seq<char>, depth: nat, n: nat) -> Seq<Seq<char>>
    decreases ds, 0nat, n,
{
    if n == 0 || n > ds.len() {
        Seq::empty()
    } else {
        dep_schema_paths(ds, base, depth, (n - 1) as nat) + seq![child_path(base, ds[n - 1].0)] + spec_extract(
            ds[n - 1].1,
            base,
            depth + 1,
        )
    }
}

pub open spec fn list_paths(l: Seq<SchemaModel>, base: Seq<char>, depth: nat, n: nat) -> Seq<Seq<char>>
    decreases l, 0nat, n,
{
    if n == 0 || n > l.len() {
        Seq::empty()
    } else {
        list_paths(l, base, depth, (n - 1) as nat) + spec_extract(l[n - 1], base, depth + 1)
    }
}

fn child_path_exec(base: &str, key: &str) -> (r: String)
    ensures
        r@ == child_path(base@, key@),
{
    if base.unicode_len() == 0 {
        concat2("/", key)
    } else {
        let mut s = to_owned_string(base);
        crate::text::push_str(&mut s, "/");
        crate::text::push_str(&mut s, key);
        s
    }
}

fn items_base_exec(base: &str) -> (r: String)
    ensures
        r@ == items_base(base@),
{
    if base.unicode_len() == 0 {
        to_owned_string("/")
    } else {
        to_owned_string(base)
    }
}

fn append_paths(dst: &mut Vec<String>, src: Vec<String>)
    ensures
        str_seq_model(final(dst)@) == str_seq_model(old(dst)@) + str_seq_model(src@),
{
    let mut src = src;
    let ghost a = old(dst)@;
    let ghost b = src@;
    dst.append(&mut src);
    assert(str_seq_model(dst@) =~= str_seq_model(a) + str_seq_model(b));
}

fn push_path(dst: &mut Vec<String>, p: String)
    ensures
        str_seq_model(final(dst)@) == str_seq_model(old(dst)@) + seq![p@],
{
    let ghost a = old(dst)@;
    dst.push(p);
    assert(str_seq_model(dst@) =~= str_seq_model(a) + seq![p@]);
}

fn children_exec(base: &str, keys: &Vec<String>) -> (r: Vec<String>)
    ensures
        str_seq_model(r@) == children(base@, str_seq_model(keys@)),
{
    let mut r: Vec<String> = Vec::new();
    let mut i: usize = 0;
    while i < keys.len()
        invariant
            i <= keys@.len(),
            str_seq_model(r@) == children(base@, str_seq_model(keys@)).take(i as int),
        decreases keys.len() - i,
    {
        let c = child_path_exec(base, keys[i].as_str());
        let ghost before = r@;
        let ghost ch = children(base@, str_seq_model(keys@));
        assert(ch[i as int] == c@);
        r.push(c);
        assert(str_seq_model(r@) =~= str_seq_model(before).push(c@));
        assert(ch.take(i + 1) =~= ch.take(i as int).push(ch[i as int]));
        i = i + 1;
    }
    assert(children(base@, str_seq_model(keys@)).take(keys@.len() as int) =~= children(base@, str_seq_model(keys@)));
    r
}

fn props_exec(p: &Vec<(String, Schema)>, base: &str, depth: usize) -> (r: Vec<String>)
    requires
        depth <= 100,
    ensures
        str_seq_model(r@) == props_paths(schema_map_model(p@), base@, depth as nat, p@.len()),
    decreases p, 0nat,
{
    let ghost pm = schema_map_model(p@);
    let mut r: Vec<String> = Vec::new();
    let mut i: usize = 0;
    while i < p.len()
        invariant
            i <= p@.len(),
            depth <= 100,
            pm == schema_map_model(p@),
            str_seq_model(r@) == props_paths(pm, base@, depth as nat, i as nat),
        decreases p.len() - i,
    {
        proof {
            lemma_schema_map_model_index(p@, i as int);
            assert(decreases_to!(p => p@[i as int].1));
        }
        let c = child_path_exec(base, p[i].0.as_str());
        let sub = extract_referenced_paths(&p[i].1, c.as_str(), depth + 1);
        push_path(&mut r, c);
        append_paths(&mut r, sub);
        i = i + 1;
    }
    r
}

fn prefix_exec(l: &Vec<Schema>, base: &str, depth: usize) -> (r: Vec<String>)
    requires
        depth <= 100,
    ensures
        str_seq_model(r@) == prefix_paths(schemas_model(l@), base@, depth as nat, l@.len()),
    decreases l, 0nat,
{
    let ghost lm = schemas_model(l@);
    let mut r: Vec<String> = Vec::new();
    let mut i: usize = 0;
    while i < l.len()
        invariant
            i <= l@.len(),
            depth <= 100,
            lm == schemas_model(l@),
            str_seq_model(r@) == prefix_paths(lm, base@, depth as nat, i as nat),
        decreases l.len() - i,
    {
        proof {
            lemma_schemas_model_index(l@, i as int);
            assert(decreases_to!(l => l@[i as int]));
        }
        let t = usize_to_text(i);
        let c = child_path_exec(base, t.as_str());
        let sub = extract_referenced_paths(&l[i], c.as_str(), depth + 1);
        push_path(&mut r, c);
        append_paths(&mut r, sub);
        i = i + 1;
    }
    r
}

fn dep_schemas_exec(ds: &Vec<(String, Schema)>, base: &str, depth: usize) -> (r: Vec<String>)
    requires
        depth <= 100,
    ensures
        str_seq_model(r@) == dep_schema_paths(schema_map_model(ds@), base@, depth as nat, ds@.len()),
    decreases ds, 0nat,
{
    let ghost pm = schema_map_model(ds@);
    let mut r: Vec<String> = Vec::new();
    let mut i: usize = 0;
    while i < ds.len()
        invariant
            i <= ds@.len(),
            depth <= 100,
            pm == schema_map_model(ds@),
            str_seq_model(r@) == dep_schema_paths(pm, base@, depth as nat, i as nat),
        decreases ds.len() - i,
    {
        proof {
            lemma_schema_map_model_index(ds@, i as int);
            assert(decreases_to!(ds => ds@[i as int].1));
        }
        let c = child_path_exec(base, ds[i].0.as_str());
        push_path(&mut r, c);
        let sub = extract_referenced_paths(&ds[i].1, base, depth + 1);
        append_paths(&mut r, sub);
        i = i + 1;
    }
    r
}

fn list_exec(l: &Vec<Schema>, base: &str, depth: usize) -> (r: Vec<String>)
    requires
        depth <= 100,
    ensures
        str_seq_model(r@) == list_paths(schemas_model(l@), base@, depth as nat, l@.len()),
    decreases l, 0nat,
{
    let ghost lm = schemas_model(l@);
    let mut r: Vec<String> = Vec::new();
    let mut i: usize = 0;
    while i < l.len()
        invariant
            i <= l@.len(),
            depth <= 100,
            lm == schemas_model(l@),
            str_seq_model(r@) == list_paths(lm, base@, depth as nat, i as nat),
        decreases l.len() - i,
    {
        proof {
            lemma_schemas_model_index(l@, i as int);
            assert(decreases_to!(l => l@[i as int]));
        }
        let sub = extract_referenced_paths(&l[i], base, depth + 1);
        append_paths(&mut r, sub);
        i = i + 1;
    }
    r
}

fn dep_req_exec(d: &Vec<(String, Vec<String>)>, base: &str) -> (r: Vec<String>)
    ensures
        str_seq_model(r@) == dep_req_paths(dep_req_seq_model(d@), base@, d@.len()),
{
    let ghost dm = dep_req_seq_model(d@);
    let mut r: Vec<String> = Vec::new();
    let mut i: usize = 0;
    while i < d.len()
        invariant
            i <= d@.len(),
            dm == dep_req_seq_model(d@),
            str_seq_model(r@) == dep_req_paths(dm, base@, i as nat),
        decreases d.len() - i,
    {
        assert(dm[i as int] == (d@[i as int].0@, str_seq_model(d@[i as int].1@)));
        let c = child_path_exec(base, d[i].0.as_str());
        push_path(&mut r, c);
        let reqs = children_exec(base, &d[i].1);
        append_paths(&mut r, reqs);
        i = i + 1;
    }
    r
}

fn structure_exec(schema: &Schema, base: &str, depth: usize) -> (r: Vec<String>)
    requires
        depth <= 100,
    ensures
        str_seq_model(r@) == paths_structure(schema@, base@, depth as nat),
    decreases schema, 1nat,
{
    proof {
        lemma_schema_fields(*schema);
    }
    let mut r: Vec<String> = Vec::new();
    if let Some(p) = &schema.properties {
        proof {
            assert(decreases_to!(schema => *p));
        }
        append_paths(&mut r, props_exec(p, base, depth));
    }
    assert(str_seq_model(r@) == (match schema@.properties {
        Some(p) => props_paths(p, base@, depth as nat, p.len()),
        None => Seq::empty(),
    }));
    if let Some(it) = &schema.items {
        proof {
            assert(decreases_to!(schema => **it));
        }
        push_path(&mut r, items_base_exec(base));
        append_paths(&mut r, extract_referenced_paths(&**it, base, depth + 1));
    }
    if let Some(l) = &schema.prefix_items {
        proof {
            assert(decreases_to!(schema => *l));
        }
        append_paths(&mut r, prefix_exec(l, base, depth));
    }
    r
}

fn values_exec(schema: &Schema, base: &str) -> (r: Vec<String>)
    ensures
        str_seq_model(r@) == paths_values(schema@, base@),
{
    proof {
        lemma_schema_fields(*schema);
    }
    let nonempty = base.unicode_len() != 0;
    let mut r: Vec<String> = Vec::new();
    if (schema.const_.is_some() || schema.enum_.is_some()) && nonempty {
        push_path(&mut r, to_owned_string(base));
    }
    if schema.type_.is_some() && nonempty {
        push_path(&mut r, to_owned_string(base));
    }
    let has_value_constraint = schema.minimum.is_some() || schema.maximum.is_some()
        || schema.exclusive_minimum.is_some() || schema.exclusive_maximum.is_some() || schema.min_length.is_some()
        || schema.max_length.is_some() || schema.pattern.is_some() || schema.format.is_some()
        || schema.min_items.is_some() || schema.max_items.is_some() || schema.unique_items.is_some()
        || schema.min_properties.is_some() || schema.max_properties.is_some();
    if has_value_constraint && nonempty {
        push_path(&mut r, to_owned_string(base));
    }
    if let Some(req) = &schema.required {
        append_paths(&mut r, children_exec(base, req));
    }
    if let Some(d) = &schema.dependent_required {
        append_paths(&mut r, dep_req_exec(d, base));
    }
    r
}

fn conditions_exec(schema: &Schema, base: &str, depth: usize) -> (r: Vec<String>)
    requires
        depth <= 100,
    ensures
        str_seq_model(r@) == paths_conditions(schema@, base@, depth as nat),
    decreases schema, 1nat,
{
    proof {
        lemma_schema_fields(*schema);
    }
    let mut r: Vec<String> = Vec::new();
    if let Some(ds) = &schema.dependent_schemas {
        proof {
            assert(decreases_to!(schema => *ds));
        }
        append_paths(&mut r, dep_schemas_exec(ds, base, depth));
    }
    if let Some(c) = &schema.if_ {
        proof {
            assert(decreases_to!(schema => **c));
        }
        append_paths(&mut r, extract_referenced_paths(&**c, base, depth + 1));
    }
    if let Some(c) = &schema.then_ {
        proof {
            assert(decreases_to!(schema => **c));
        }
        append_paths(&mut r, extract_referenced_paths(&**c, base, depth + 1));
    }
    if let Some(c) = &schema.else_ {
        proof {
            assert(decreases_to!(schema => **c));
        }
        append_paths(&mut r, extract_referenced_paths(&**c, base, depth + 1));
    }
    r
}

#[verifier::spinoff_prover]
#[verifier::rlimit(40)]
fn compositions_exec(schema: &Schema, base: &str, depth: usize) -> (r: Vec<String>)
    requires
        depth <= 100,
    ensures
        str_seq_model(r@) == paths_compositions(schema@, base@, depth as nat),
    decreases schema, 1nat,
{
    proof {
        lemma_schema_fields(*schema);
    }
    let mut r: Vec<String> = Vec::new();
    if let Some(l) = &schema.all_of {
        proof {
            assert(decreases_to!(schema => *l));
        }
        append_paths(&mut r, list_exec(l, base, depth));
    }
    if let Some(l) = &schema.any_of {
        proof {
            assert(decreases_to!(schema => *l));
        }
        append_paths(&mut r, list_exec(l, base, depth));
    }
    if let Some(l) = &schema.one_of {
        proof {
            assert(decreases_to!(schema => *l));
        }
        append_paths(&mut r, list_exec(l, base, depth));
    }
    if let Some(c) = &schema.not {
        proof {
            assert(decreases_to!(schema => **c));
        }
        append_paths(&mut r, extract_referenced_paths(&**c, base, depth + 1));
    }
    if let Some(c) = &schema.contains {
        proof {
            assert(decreases_to!(schema => **c));
        }
        push_path(&mut r, items_base_exec(base));
        append_paths(&mut r, extract_referenced_paths(&**c, base, depth + 1));
    }
    r
}

/// The paths, relative to `base_path`, whose values a condition schema
/// reads (see `spec_extract`).
pub fn extract_referenced_paths(schema: &Schema, base_path: &str, depth: usize) -> (r: Vec<String>)
    ensures
        str_seq_model(r@) == spec_extract(schema@, base_path@, depth as nat),
        all_under(str_seq_model(r@), base_path@),
    decreases schema, 2nat,
{
    proof {
        lemma_under_extract(schema@, base_path@, depth as nat);
    }
    if depth > MAX_EXTRACT_DEPTH {
        return Vec::new();
    }
    let mut paths = structure_exec(schema, base_path, depth);
    append_paths(&mut paths, values_exec(schema, base_path));
    append_paths(&mut paths, conditions_exec(schema, base_path, depth));
    append_paths(&mut paths, compositions_exec(schema, base_path, depth));
    paths
}


// ── Dependencies ──

/// The strings of a list, as a set.
pub open spec fn set_of(v: Seq<Seq<char>>) -> Set<Seq<char>> {
    Set::new(|x: Seq<char>| v.contains(x))
}

/// No string occurs twice.
pub open spec fn no_dup(v: Seq<Seq<char>>) -> bool {
    forall|i: int, j: int| 0 <= i < j < v.len() ==> #[trigger] v[i] != #[trigger] v[j]
}

/// The absolute path of a property of the node at `inst`.
pub open spec fn abs_of(inst: Seq<char>, key: Seq<char>) -> Seq<char> {
    spec_resolve_absolute_path(inst, "/"@ + key)
}

/// Relative paths resolved against `inst`, as a set.
pub open spec fn abs_paths(inst: Seq<char>, rels: Seq<Seq<char>>) -> Set<Seq<char>> {
    set_of(Seq::new(rels.len(), |i: int| spec_resolve_absolute_path(inst, rels[i])))
}

/// The properties named by `required` and `dependentRequired`.
pub open spec fn name_deps(s: SchemaModel, inst: Seq<char>) -> Set<Seq<char>> {
    (match s.required {
        Some(r) => set_of(Seq::new(r.len(), |i: int| abs_of(inst, r[i]))),
        None => Set::empty(),
    }).union(match s.dependent_required {
        Some(d) => Set::new(|x: Seq<char>| exists|i: int| 0 <= i < d.len() && (x == abs_of(inst, d[i].0) || exists|j: int|
            0 <= j < d[i].1.len() && x == abs_of(inst, #[trigger] d[i].1[j]))),
        None => Set::empty(),
    })
}

/// The absolute paths the evaluation of `s` at `inst` depends on: the
/// `required`, `dependentRequired` and `dependentSchemas` properties, what
/// the `if` condition reads, what each `oneOf` and `anyOf` subschema reads,
/// and, recursively, the dependencies of the `dependentSchemas`,
/// `then`, `else`, `oneOf`, `anyOf` and `allOf` subschemas.
pub open spec fn spec_deps(s: SchemaModel, inst: Seq<char>) -> Set<Seq<char>>
    decreases s, 1nat, 0nat,
{
    name_deps(s, inst).union(match s.dependent_schemas {
        Some(ds) => dep_schema_deps(ds, inst, ds.len()),
        None => Set::empty(),
    }).union(match s.if_ {
        Some(c) => abs_paths(inst, spec_extract(*c, ""@, 0)).union(match s.then_ {
            Some(t) => spec_deps(*t, inst),
            None => Set::empty(),
        }).union(match s.else_ {
            Some(e) => spec_deps(*e, inst),
            None => Set::empty(),
        }),
        None => Set::empty(),
    }).union(match s.one_of {
        Some(l) => comp_deps(l, inst, l.len(), true),
        None => Set::empty(),
    }).union(match s.any_of {
        Some(l) => comp_deps(l, inst, l.len(), true),
        None => Set::empty(),
    }).union(match s.all_of {
        Some(l) => comp_deps(l, inst, l.len(), false),
        None => Set::empty(),
    })
}

pub open spec fn dep_schema_deps(ds: Seq<(Seq<char>, SchemaModel)>, inst: Seq<char>, n: nat) -> Set<Seq<char>>
    decreases ds, 0nat, n,
{
    if n == 0 || n > ds.len() {
        Set::empty()
    } else {
        dep_schema_deps(ds, inst, (n - 1) as nat).insert(abs_of(inst, ds[n - 1].0)).union(spec_deps(ds[n - 1].1, inst))
    }
}

/// The dependencies of the first `n` subschemas of a list, with what each
/// reads when `reads` holds.
pub open spec fn comp_deps(l: Seq<SchemaModel>, inst: Seq<char>, n: nat, reads: bool) -> Set<Seq<char>>
    decreases l, 0nat, n,
{
    if n == 0 || n > l.len() {
        Set::empty()
    } else {
        comp_deps(l, inst, (n - 1) as nat, reads).union(
            if reads { abs_paths(inst, spec_extract(l[n - 1], ""@, 0)) } else { Set::empty() },
        ).union(spec_deps(l[n - 1], inst))
    }
}

/// Add a path unless it is already there.
fn insert_path(deps: &mut Vec<String>, p: String)
    requires
        no_dup(str_seq_model(old(deps)@)),
    ensures
        no_dup(str_seq_model(final(deps)@)),
        set_of(str_seq_model(final(deps)@)) == set_of(str_seq_model(old(deps)@)).insert(p@),
{
    let ghost m = str_seq_model(deps@);
    let mut i: usize = 0;
    while i < deps.len()
        invariant
            i <= deps@.len(),
            m == str_seq_model(deps@),
            deps@ == old(deps)@,
            no_dup(m),
            forall|k: int| 0 <= k < i ==> m[k] != p@,
        decreases deps.len() - i,
    {
        if crate::text::str_eq(deps[i].as_str(), p.as_str()) {
            assert(m[i as int] == p@);
            assert(set_of(m).insert(p@) =~= set_of(m));
            return;
        }
        i = i + 1;
    }
    let ghost pv = p@;
    deps.push(p);
    let ghost m2 = str_seq_model(deps@);
    assert(m2 =~= m.push(pv));
    assert forall|x: Seq<char>| #[trigger] set_of(m2).contains(x) == set_of(m).insert(pv).contains(x) by {
        if m.contains(x) {
            let k = choose|k: int| 0 <= k < m.len() && #[trigger] m[k] == x;
            assert(m2[k] == x);
        }
        if x == pv {
            assert(m2[m.len() as int] == x);
        }
        if m2.contains(x) {
            let k = choose|k: int| 0 <= k < m2.len() && #[trigger] m2[k] == x;
            if k < m.len() {
                assert(m[k] == x);
            }
        }
    }
    assert(set_of(m2) =~= set_of(m).insert(pv));
}

/// Add every path of `src`.
fn insert_all_paths(deps: &mut Vec<String>, src: Vec<String>)
    requires
        no_dup(str_seq_model(old(deps)@)),
    ensures
        no_dup(str_seq_model(final(deps)@)),
        set_of(str_seq_model(final(deps)@)) == set_of(str_seq_model(old(deps)@)).union(set_of(str_seq_model(src@))),
{
    let ghost start = set_of(str_seq_model(deps@));
    let ghost sm = str_seq_model(src@);
    let mut i: usize = 0;
    while i < src.len()
        invariant
            i <= src@.len(),
            sm == str_seq_model(src@),
            no_dup(str_seq_model(deps@)),
            set_of(str_seq_model(deps@)) == start.union(set_of(sm.take(i as int))),
        decreases src.len() - i,
    {
        let ghost before = set_of(str_seq_model(deps@));
        insert_path(deps, src[i].clone());
        assert forall|x: Seq<char>| #[trigger] set_of(sm.take(i + 1)).contains(x) == set_of(sm.take(i as int)).insert(sm[i as int]).contains(x) by {
            let ta = sm.take(i + 1);
            let tb = sm.take(i as int);
            if ta.contains(x) {
                let k = choose|k: int| 0 <= k < ta.len() && #[trigger] ta[k] == x;
                if k < i {
                    assert(tb[k] == x);
                }
            }
            if tb.contains(x) {
                let k = choose|k: int| 0 <= k < tb.len() && #[trigger] tb[k] == x;
                assert(ta[k] == x);
            }
            if x == sm[i as int] {
                assert(sm.take(i + 1)[i as int] == x);
            }
        }
        assert(set_of(sm.take(i + 1)) =~= set_of(sm.take(i as int)).insert(sm[i as int]));
        assert(set_of(str_seq_model(deps@)) =~= start.union(set_of(sm.take(i + 1))));
        i = i + 1;
    }
    assert(sm.take(src@.len() as int) =~= sm);
}

/// Merge two path sets.
fn union_into(deps: &mut Vec<String>, other: Vec<String>)
    requires
        no_dup(str_seq_model(old(deps)@)),
    ensures
        no_dup(str_seq_model(final(deps)@)),
        set_of(str_seq_model(final(deps)@)) == set_of(str_seq_model(old(deps)@)).union(set_of(str_seq_model(other@))),
{
    insert_all_paths(deps, other);
}

/// Relative paths resolved against `inst`.
fn resolve_all(inst: &str, rels: &Vec<String>) -> (r: Vec<String>)
    ensures
        set_of(str_seq_model(r@)) == abs_paths(inst@, str_seq_model(rels@)),
{
    let ghost rm = str_seq_model(rels@);
    let ghost target = Seq::new(rm.len(), |i: int| spec_resolve_absolute_path(inst@, rm[i]));
    let mut r: Vec<String> = Vec::new();
    let mut i: usize = 0;
    while i < rels.len()
        invariant
            i <= rels@.len(),
            rm == str_seq_model(rels@),
            target == Seq::new(rm.len(), |i: int| spec_resolve_absolute_path(inst@, rm[i])),
            str_seq_model(r@) == target.take(i as int),
        decreases rels.len() - i,
    {
        let p = resolve_absolute_path(inst, rels[i].as_str());
        let ghost before = r@;
        r.push(p);
        assert(str_seq_model(r@) =~= str_seq_model(before).push(target[i as int]));
        assert(target.take(i + 1) =~= target.take(i as int).push(target[i as int]));
        i = i + 1;
    }
    assert(target.take(rels@.len() as int) =~= target);
    r
}

fn name_deps_exec(schema: &Schema, inst: &str) -> (r: Vec<String>)
    ensures
        no_dup(str_seq_model(r@)),
        set_of(str_seq_model(r@)) == name_deps(schema@, inst@),
{
    proof {
        lemma_schema_fields(*schema);
    }
    let mut deps: Vec<String> = Vec::new();
    let ghost empty_set = set_of(str_seq_model(deps@));
    assert(empty_set =~= Set::<Seq<char>>::empty());
    let ghost req_set: Set<Seq<char>> = match schema@.required {
        Some(r) => set_of(Seq::new(r.len(), |i: int| abs_of(inst@, r[i]))),
        None => Set::empty(),
    };
    if let Some(required) = &schema.required {
        let ghost rm = str_seq_model(required@);
        let mut i: usize = 0;
        while i < required.len()
            invariant
                i <= required@.len(),
                rm == str_seq_model(required@),
                no_dup(str_seq_model(deps@)),
                set_of(str_seq_model(deps@)) == set_of(Seq::new(i as nat, |k: int| abs_of(inst@, rm[k]))),
            decreases required.len() - i,
        {
            let rel = concat2("/", required[i].as_str());
            let p = resolve_absolute_path(inst, rel.as_str());
            let ghost before = set_of(Seq::new(i as nat, |k: int| abs_of(inst@, rm[k])));
            let ghost after = set_of(Seq::new((i + 1) as nat, |k: int| abs_of(inst@, rm[k])));
            insert_path(&mut deps, p);
            assert forall|x: Seq<char>| #[trigger] after.contains(x) == before.insert(abs_of(inst@, rm[i as int])).contains(x) by {
                let sa = Seq::new((i + 1) as nat, |k: int| abs_of(inst@, rm[k]));
                let sb = Seq::new(i as nat, |k: int| abs_of(inst@, rm[k]));
                if sa.contains(x) {
                    let k = choose|k: int| 0 <= k < sa.len() && #[trigger] sa[k] == x;
                    if k < i {
                        assert(sb[k] == x);
                    }
                }
                if sb.contains(x) {
                    let k = choose|k: int| 0 <= k < sb.len() && #[trigger] sb[k] == x;
                    assert(sa[k] == x);
                }
                if x == abs_of(inst@, rm[i as int]) {
                    assert(sa[i as int] == x);
                }
            }
            assert(after =~= before.insert(abs_of(inst@, rm[i as int])));
            i = i + 1;
        }
        assert(Seq::new(required@.len(), |k: int| abs_of(inst@, rm[k])) =~= Seq::new(rm.len(), |k: int| abs_of(inst@, rm[k])));
    } else {
        assert(set_of(str_seq_model(deps@)) =~= Set::<Seq<char>>::empty());
    }
    assert(set_of(str_seq_model(deps@)) == req_set);
    let ghost first = set_of(str_seq_model(deps@));
    if let Some(dr) = &schema.dependent_required {
        let ghost d = dep_req_seq_model(dr@);
        let mut i: usize = 0;
        while i < dr.len()
            invariant
                i <= dr@.len(),
                d == dep_req_seq_model(dr@),
                no_dup(str_seq_model(deps@)),
                set_of(str_seq_model(deps@)) == first.union(Set::new(|x: Seq<char>| exists|a: int| 0 <= a < i && (
                    x == abs_of(inst@, d[a].0) || exists|j: int| 0 <= j < d[a].1.len() && x == abs_of(inst@, #[trigger] d[a].1[j])))),
            decreases dr.len() - i,
        {
            assert(d[i as int] == (dr@[i as int].0@, str_seq_model(dr@[i as int].1@)));
            let ghost before = set_of(str_seq_model(deps@));
            let rel = concat2("/", dr[i].0.as_str());
            insert_path(&mut deps, resolve_absolute_path(inst, rel.as_str()));
            let reqs = &dr[i].1;
            let mut j: usize = 0;
            while j < reqs.len()
                invariant
                    i < dr@.len(),
                    j <= reqs@.len(),
                    *reqs == dr@[i as int].1,
                    d == dep_req_seq_model(dr@),
                    no_dup(str_seq_model(deps@)),
                    set_of(str_seq_model(deps@)) == before.insert(abs_of(inst@, d[i as int].0)).union(Set::new(
                        |x: Seq<char>| exists|q: int| 0 <= q < j && x == abs_of(inst@, #[trigger] d[i as int].1[q]))),
                decreases reqs.len() - j,
            {
                let ghost b2 = set_of(str_seq_model(deps@));
                assert(d[i as int].1[j as int] == reqs@[j as int]@);
                let rel2 = concat2("/", reqs[j].as_str());
                insert_path(&mut deps, resolve_absolute_path(inst, rel2.as_str()));
                assert(set_of(str_seq_model(deps@)) =~= before.insert(abs_of(inst@, d[i as int].0)).union(Set::new(
                    |x: Seq<char>| exists|q: int| 0 <= q < j + 1 && x == abs_of(inst@, #[trigger] d[i as int].1[q]))));
                j = j + 1;
            }
            assert(set_of(str_seq_model(deps@)) =~= first.union(Set::new(|x: Seq<char>| exists|a: int| 0 <= a < i + 1 && (
                x == abs_of(inst@, d[a].0) || exists|j: int| 0 <= j < d[a].1.len() && x == abs_of(inst@, #[trigger] d[a].1[j])))));
            i = i + 1;
        }
        assert(set_of(str_seq_model(deps@)) =~= name_deps(schema@, inst@));
    } else {
        assert(set_of(str_seq_model(deps@)) =~= name_deps(schema@, inst@));
    }
    deps
}


fn dep_schema_deps_exec(ds: &Vec<(String, Schema)>, inst: &str) -> (r: Vec<String>)
    ensures
        no_dup(str_seq_model(r@)),
        set_of(str_seq_model(r@)) == dep_schema_deps(schema_map_model(ds@), inst@, ds@.len()),
    decreases ds, 0nat,
{
    let ghost pm = schema_map_model(ds@);
    let mut deps: Vec<String> = Vec::new();
    assert(set_of(str_seq_model(deps@)) =~= Set::<Seq<char>>::empty());
    let mut i: usize = 0;
    while i < ds.len()
        invariant
            i <= ds@.len(),
            pm == schema_map_model(ds@),
            no_dup(str_seq_model(deps@)),
            set_of(str_seq_model(deps@)) == dep_schema_deps(pm, inst@, i as nat),
        decreases ds.len() - i,
    {
        proof {
            lemma_schema_map_model_index(ds@, i as int);
            assert(decreases_to!(ds => ds@[i as int].1));
        }
        let rel = concat2("/", ds[i].0.as_str());
        insert_path(&mut deps, resolve_absolute_path(inst, rel.as_str()));
        let sub = collect_dependencies(&ds[i].1, inst);
        union_into(&mut deps, sub);
        i = i + 1;
    }
    deps
}

fn comp_deps_exec(l: &Vec<Schema>, inst: &str, reads: bool) -> (r: Vec<String>)
    ensures
        no_dup(str_seq_model(r@)),
        set_of(str_seq_model(r@)) == comp_deps(schemas_model(l@), inst@, l@.len(), reads),
    decreases l, 0nat,
{
    let ghost lm = schemas_model(l@);
    let mut deps: Vec<String> = Vec::new();
    assert(set_of(str_seq_model(deps@)) =~= Set::<Seq<char>>::empty());
    let mut i: usize = 0;
    while i < l.len()
        invariant
            i <= l@.len(),
            lm == schemas_model(l@),
            no_dup(str_seq_model(deps@)),
            set_of(str_seq_model(deps@)) == comp_deps(lm, inst@, i as nat, reads),
        decreases l.len() - i,
    {
        proof {
            lemma_schemas_model_index(l@, i as int);
            assert(decreases_to!(l => l@[i as int]));
        }
        let ghost before = set_of(str_seq_model(deps@));
        if reads {
            let rels = extract_referenced_paths(&l[i], "", 0);
            union_into(&mut deps, resolve_all(inst, &rels));
        } else {
            assert(before.union(Set::<Seq<char>>::empty()) =~= before);
        }
        let sub = collect_dependencies(&l[i], inst);
        union_into(&mut deps, sub);
        i = i + 1;
    }
    deps
}

/// The absolute paths whose values the evaluation of `schema` at
/// `instance_location` depends on (see `spec_deps`), each once.
pub fn collect_dependencies(schema: &Schema, instance_location: &str) -> (r: Vec<String>)
    ensures
        no_dup(str_seq_model(r@)),
        set_of(str_seq_model(r@)) == spec_deps(schema@, instance_location@),
    decreases schema, 1nat,
{
    proof {
        lemma_schema_fields(*schema);
    }
    let inst = instance_location;
    let mut deps = name_deps_exec(schema, inst);
    let ghost s0 = set_of(str_seq_model(deps@));
    if let Some(ds) = &schema.dependent_schemas {
        proof {
            assert(decreases_to!(schema => *ds));
        }
        union_into(&mut deps, dep_schema_deps_exec(ds, inst));
    } else {
        assert(s0.union(Set::<Seq<char>>::empty()) =~= s0);
    }
    let ghost s1 = set_of(str_seq_model(deps@));
    if let Some(c) = &schema.if_ {
        proof {
            assert(decreases_to!(schema => **c));
        }
        let rels = extract_referenced_paths(&**c, "", 0);
        union_into(&mut deps, resolve_all(inst, &rels));
        let ghost sa = set_of(str_seq_model(deps@));
        if let Some(t) = &schema.then_ {
            proof {
                assert(decreases_to!(schema => **t));
            }
            union_into(&mut deps, collect_dependencies(&**t, inst));
        } else {
            assert(sa.union(Set::<Seq<char>>::empty()) =~= sa);
        }
        let ghost sb = set_of(str_seq_model(deps@));
        if let Some(e) = &schema.else_ {
            proof {
                assert(decreases_to!(schema => **e));
            }
            union_into(&mut deps, collect_dependencies(&**e, inst));
        } else {
            assert(sb.union(Set::<Seq<char>>::empty()) =~= sb);
        }
        assert(set_of(str_seq_model(deps@)) =~= s1.union(abs_paths(inst@, spec_extract(*schema@.if_->0, ""@, 0)).union(
            match schema@.then_ {
                Some(t) => spec_deps(*t, inst@),
                None => Set::empty(),
            },
        ).union(match schema@.else_ {
            Some(e) => spec_deps(*e, inst@),
            None => Set::empty(),
        })));
    } else {
        assert(s1.union(Set::<Seq<char>>::empty()) =~= s1);
    }
    let ghost s2 = set_of(str_seq_model(deps@));
    if let Some(l) = &schema.one_of {
        proof {
            assert(decreases_to!(schema => *l));
        }
        union_into(&mut deps, comp_deps_exec(l, inst, true));
    } else {
        assert(s2.union(Set::<Seq<char>>::empty()) =~= s2);
    }
    let ghost s3 = set_of(str_seq_model(deps@));
    if let Some(l) = &schema.any_of {
        proof {
            assert(decreases_to!(schema => *l));
        }
        union_into(&mut deps, comp_deps_exec(l, inst, true));
    } else {
        assert(s3.union(Set::<Seq<char>>::empty()) =~= s3);
    }
    let ghost s4 = set_of(str_seq_model(deps@));
    if let Some(l) = &schema.all_of {
        proof {
            assert(decreases_to!(schema => *l));
        }
        union_into(&mut deps, comp_deps_exec(l, inst, false));
    } else {
        assert(s4.union(Set::<Seq<char>>::empty()) =~= s4);
    }
    deps
}

// ── Where the paths lie ──

/// `p` starts with `base`.
pub open spec fn under(base: Seq<char>, p: Seq<char>) -> bool {
    base.len() <= p.len() && p.take(base.len() as int) == base
}

/// Every path of `ps` starts with `base`.
pub open spec fn all_under(ps: Seq<Seq<char>>, base: Seq<char>) -> bool {
    forall|i: int| 0 <= i < ps.len() ==> #[trigger] under(base, ps[i])
}

proof fn lemma_under_concat(a: Seq<Seq<char>>, c: Seq<Seq<char>>, b: Seq<char>)
    requires
        all_under(a, b),
        all_under(c, b),
    ensures
        all_under(a + c, b),
{
    assert forall|i: int| 0 <= i < (a + c).len() implies #[trigger] under(b, (a + c)[i]) by {
        if i < a.len() {
            assert((a + c)[i] == a[i]);
        } else {
            assert((a + c)[i] == c[i - a.len()]);
        }
    }
}

proof fn lemma_under_trans(ps: Seq<Seq<char>>, c: Seq<char>, b: Seq<char>)
    requires
        under(b, c),
        all_under(ps, c),
    ensures
        all_under(ps, b),
{
    assert forall|i: int| 0 <= i < ps.len() implies #[trigger] under(b, ps[i]) by {
        let p = ps[i];
        assert(under(c, p));
        assert(p.take(b.len() as int) =~= p.take(c.len() as int).take(b.len() as int));
        assert(c.take(b.len() as int) == b);
    }
}

proof fn lemma_under_child(base: Seq<char>, key: Seq<char>)
    ensures
        under(base, child_path(base, key)),
        under(base, items_base(base)),
{
    if base.len() == 0 {
        assert(child_path(base, key).take(0) =~= base);
        assert(items_base(base).take(0) =~= base);
    } else {
        assert(child_path(base, key).take(base.len() as int) =~= base);
        assert(items_base(base).take(base.len() as int) =~= base);
    }
}

proof fn lemma_under_one(x: Seq<char>, b: Seq<char>)
    requires
        under(b, x),
    ensures
        all_under(seq![x], b),
{
    assert forall|i: int| 0 <= i < seq![x].len() implies #[trigger] under(b, seq![x][i]) by {
        assert(seq![x][i] == x);
    }
}

proof fn lemma_under_self(b: Seq<char>)
    ensures
        under(b, b),
{
    assert(b.take(b.len() as int) =~= b);
}

proof fn lemma_under_empty(b: Seq<char>)
    ensures
        all_under(Seq::<Seq<char>>::empty(), b),
{
}

proof fn lemma_under_extract(s: SchemaModel, base: Seq<char>, depth: nat)
    ensures
        all_under(spec_extract(s, base, depth), base),
    decreases s, 2nat, 0nat,
{
    if depth <= 100 {
        lemma_under_structure(s, base, depth);
        lemma_under_values(s, base);
        lemma_under_conditions(s, base, depth);
        lemma_under_compositions(s, base, depth);
        let a = paths_structure(s, base, depth);
        let b = paths_values(s, base);
        let c = paths_conditions(s, base, depth);
        let d = paths_compositions(s, base, depth);
        lemma_under_concat(a, b, base);
        lemma_under_concat(a + b, c, base);
        lemma_under_concat(a + b + c, d, base);
    }
}

proof fn lemma_under_structure(s: SchemaModel, base: Seq<char>, depth: nat)
    ensures
        all_under(paths_structure(s, base, depth), base),
    decreases s, 1nat, 0nat,
{
    let a = match s.properties {
        Some(p) => {
            assert(decreases_to!(s => p));
            lemma_under_props(p, base, depth, p.len());
            props_paths(p, base, depth, p.len())
        },
        None => Seq::empty(),
    };
    let b = match s.items {
        Some(it) => {
            assert(decreases_to!(s => *it));
            lemma_under_extract(*it, base, depth + 1);
            lemma_under_child(base, Seq::empty());
            lemma_under_one(items_base(base), base);
            lemma_under_concat(seq![items_base(base)], spec_extract(*it, base, depth + 1), base);
            seq![items_base(base)] + spec_extract(*it, base, depth + 1)
        },
        None => Seq::empty(),
    };
    let c = match s.prefix_items {
        Some(l) => {
            assert(decreases_to!(s => l));
            lemma_under_prefix(l, base, depth, l.len());
            prefix_paths(l, base, depth, l.len())
        },
        None => Seq::empty(),
    };
    lemma_under_concat(a, b, base);
    lemma_under_concat(a + b, c, base);
}

proof fn lemma_under_props(p: Seq<(Seq<char>, SchemaModel)>, base: Seq<char>, depth: nat, n: nat)
    ensures
        all_under(props_paths(p, base, depth, n), base),
    decreases p, 0nat, n,
{
    if !(n == 0 || n > p.len()) {
        let c = child_path(base, p[n - 1].0);
        lemma_under_props(p, base, depth, (n - 1) as nat);
        assert(decreases_to!(p => p[n - 1].1));
        lemma_under_extract(p[n - 1].1, c, depth + 1);
        lemma_under_child(base, p[n - 1].0);
        lemma_under_trans(spec_extract(p[n - 1].1, c, depth + 1), c, base);
        lemma_under_one(c, base);
        let x = props_paths(p, base, depth, (n - 1) as nat);
        lemma_under_concat(x, seq![c], base);
        lemma_under_concat(x + seq![c], spec_extract(p[n - 1].1, c, depth + 1), base);
    }
}

proof fn lemma_under_prefix(l: Seq<SchemaModel>, base: Seq<char>, depth: nat, n: nat)
    ensures
        all_under(prefix_paths(l, base, depth, n), base),
    decreases l, 0nat, n,
{
    if !(n == 0 || n > l.len()) {
        let c = child_path(base, decimal_text((n - 1) as nat));
        lemma_under_prefix(l, base, depth, (n - 1) as nat);
        assert(decreases_to!(l => l[n - 1]));
        lemma_under_extract(l[n - 1], c, depth + 1);
        lemma_under_child(base, decimal_text((n - 1) as nat));
        lemma_under_trans(spec_extract(l[n - 1], c, depth + 1), c, base);
        lemma_under_one(c, base);
        let x = prefix_paths(l, base, depth, (n - 1) as nat);
        lemma_under_concat(x, seq![c], base);
        lemma_under_concat(x + seq![c], spec_extract(l[n - 1], c, depth + 1), base);
    }
}

proof fn lemma_under_children(base: Seq<char>, keys: Seq<Seq<char>>)
    ensures
        all_under(children(base, keys), base),
{
    assert forall|i: int| 0 <= i < children(base, keys).len() implies #[trigger] under(base, children(base, keys)[i]) by {
        lemma_under_child(base, keys[i]);
    }
}

proof fn lemma_under_dep_req(d: Seq<(Seq<char>, Seq<Seq<char>>)>, base: Seq<char>, n: nat)
    ensures
        all_under(dep_req_paths(d, base, n), base),
    decreases n,
{
    if !(n == 0 || n > d.len()) {
        lemma_under_dep_req(d, base, (n - 1) as nat);
        lemma_under_child(base, d[n - 1].0);
        lemma_under_one(child_path(base, d[n - 1].0), base);
        lemma_under_children(base, d[n - 1].1);
        let x = dep_req_paths(d, base, (n - 1) as nat);
        lemma_under_concat(x, seq![child_path(base, d[n - 1].0)], base);
        lemma_under_concat(x + seq![child_path(base, d[n - 1].0)], children(base, d[n - 1].1), base);
    }
}

proof fn lemma_under_values(s: SchemaModel, base: Seq<char>)
    ensures
        all_under(paths_values(s, base), base),
{
    lemma_under_self(base);
    lemma_under_one(base, base);
    let a: Seq<Seq<char>> = if (s.const_ is Some || s.enum_ is Some) && base.len() > 0 { seq![base] } else { Seq::empty() };
    let b: Seq<Seq<char>> = if s.type_ is Some && base.len() > 0 { seq![base] } else { Seq::empty() };
    let c: Seq<Seq<char>> = if has_value_constraint(s) && base.len() > 0 { seq![base] } else { Seq::empty() };
    let d = match s.required {
        Some(r) => {
            lemma_under_children(base, r);
            children(base, r)
        },
        None => Seq::empty(),
    };
    let e = match s.dependent_required {
        Some(dr) => {
            lemma_under_dep_req(dr, base, dr.len());
            dep_req_paths(dr, base, dr.len())
        },
        None => Seq::empty(),
    };
    lemma_under_concat(a, b, base);
    lemma_under_concat(a + b, c, base);
    lemma_under_concat(a + b + c, d, base);
    lemma_under_concat(a + b + c + d, e, base);
}

proof fn lemma_under_conditions(s: SchemaModel, base: Seq<char>, depth: nat)
    ensures
        all_under(paths_conditions(s, base, depth), base),
    decreases s, 1nat, 0nat,
{
    let a = match s.dependent_schemas {
        Some(ds) => {
            assert(decreases_to!(s => ds));
            lemma_under_dep_schemas(ds, base, depth, ds.len());
            dep_schema_paths(ds, base, depth, ds.len())
        },
        None => Seq::empty(),
    };
    let b = match s.if_ {
        Some(c) => {
            assert(decreases_to!(s => *c));
            lemma_under_extract(*c, base, depth + 1);
            spec_extract(*c, base, depth + 1)
        },
        None => Seq::empty(),
    };
    let c = match s.then_ {
        Some(x) => {
            assert(decreases_to!(s => *x));
            lemma_under_extract(*x, base, depth + 1);
            spec_extract(*x, base, depth + 1)
        },
        None => Seq::empty(),
    };
    let d = match s.else_ {
        Some(x) => {
            assert(decreases_to!(s => *x));
            lemma_under_extract(*x, base, depth + 1);
            spec_extract(*x, base, depth + 1)
        },
        None => Seq::empty(),
    };
    lemma_under_concat(a, b, base);
    lemma_under_concat(a + b, c, base);
    lemma_under_concat(a + b + c, d, base);
}

proof fn lemma_under_dep_schemas(ds: Seq<(Seq<char>, SchemaModel)>, base: Seq<char>, depth: nat, n: nat)
    ensures
        all_under(dep_schema_paths(ds, base, depth, n), base),
    decreases ds, 0nat, n,
{
    if !(n == 0 || n > ds.len()) {
        lemma_under_dep_schemas(ds, base, depth, (n - 1) as nat);
        assert(decreases_to!(ds => ds[n - 1].1));
        lemma_under_extract(ds[n - 1].1, base, depth + 1);
        lemma_under_child(base, ds[n - 1].0);
        lemma_under_one(child_path(base, ds[n - 1].0), base);
        let x = dep_schema_paths(ds, base, depth, (n - 1) as nat);
        lemma_under_concat(x, seq![child_path(base, ds[n - 1].0)], base);
        lemma_under_concat(x + seq![child_path(base, ds[n - 1].0)], spec_extract(ds[n - 1].1, base, depth + 1), base);
    }
}

proof fn lemma_under_list(l: Seq<SchemaModel>, base: Seq<char>, depth: nat, n: nat)
    ensures
        all_under(list_paths(l, base, depth, n), base),
    decreases l, 0nat, n,
{
    if !(n == 0 || n > l.len()) {
        lemma_under_list(l, base, depth, (n - 1) as nat);
        assert(decreases_to!(l => l[n - 1]));
        lemma_under_extract(l[n - 1], base, depth + 1);
        lemma_under_concat(list_paths(l, base, depth, (n - 1) as nat), spec_extract(l[n - 1], base, depth + 1), base);
    }
}

proof fn lemma_under_compositions(s: SchemaModel, base: Seq<char>, depth: nat)
    ensures
        all_under(paths_compositions(s, base, depth), base),
    decreases s, 1nat, 0nat,
{
    let a = match s.all_of {
        Some(l) => {
            assert(decreases_to!(s => l));
            lemma_under_list(l, base, depth, l.len());
            list_paths(l, base, depth, l.len())
        },
        None => Seq::empty(),
    };
    let b = match s.any_of {
        Some(l) => {
            assert(decreases_to!(s => l));
            lemma_under_list(l, base, depth, l.len());
            list_paths(l, base, depth, l.len())
        },
        None => Seq::empty(),
    };
    let c = match s.one_of {
        Some(l) => {
            assert(decreases_to!(s => l));
            lemma_under_list(l, base, depth, l.len());
            list_paths(l, base, depth, l.len())
        },
        None => Seq::empty(),
    };
    let d = match s.not {
        Some(x) => {
            assert(decreases_to!(s => *x));
            lemma_under_extract(*x, base, depth + 1);
            spec_extract(*x, base, depth + 1)
        },
        None => Seq::empty(),
    };
    let e = match s.contains {
        Some(x) => {
            assert(decreases_to!(s => *x));
            lemma_under_extract(*x, base, depth + 1);
            lemma_under_child(base, Seq::empty());
            lemma_under_one(items_base(base), base);
            lemma_under_concat(seq![items_base(base)], spec_extract(*x, base, depth + 1), base);
            seq![items_base(base)] + spec_extract(*x, base, depth + 1)
        },
        None => Seq::empty(),
    };
    lemma_under_concat(a, b, base);
    lemma_under_concat(a + b, c, base);
    lemma_under_concat(a + b + c, d, base);
    lemma_under_concat(a + b + c + d, e, base);
}

/// Every path that a condition schema reads starts with the base path; at
/// a depth beyond the limit there is none.
pub proof fn law_extracted_paths_under_base(s: SchemaModel, base: Seq<char>, depth: nat)
    ensures
        all_under(spec_extract(s, base, depth), base),
        depth > 100 ==> spec_extract(s, base, depth).len() == 0,
{
    lemma_under_extract(s, base, depth);
}


/// The position, among the paths a schema reads, of the path of its `i`-th
/// required name.
proof fn lemma_required_index(s: SchemaModel, base: Seq<char>, depth: nat, i: int) -> (k: int)
    requires
        depth <= 100,
        s.required matches Some(r) && 0 <= i < r.len(),
    ensures
        0 <= k < spec_extract(s, base, depth).len(),
        spec_extract(s, base, depth)[k] == child_path(base, s.required->0[i]),
{
    let r = s.required->0;
    let a: Seq<Seq<char>> = if (s.const_ is Some || s.enum_ is Some) && base.len() > 0 { seq![base] } else { Seq::empty() };
    let b: Seq<Seq<char>> = if s.type_ is Some && base.len() > 0 { seq![base] } else { Seq::empty() };
    let c: Seq<Seq<char>> = if has_value_constraint(s) && base.len() > 0 { seq![base] } else { Seq::empty() };
    let ch = children(base, r);
    let e = match s.dependent_required {
        Some(dr) => dep_req_paths(dr, base, dr.len()),
        None => Seq::empty(),
    };
    let v = paths_values(s, base);
    assert(v == a + b + c + ch + e);
    let kv = a.len() + b.len() + c.len() + i;
    assert(v[kv] == ch[i]);
    let st = paths_structure(s, base, depth);
    let all = spec_extract(s, base, depth);
    assert(all == st + v + paths_conditions(s, base, depth) + paths_compositions(s, base, depth));
    assert(all[st.len() + kv] == v[kv]);
    st.len() + kv
}

/// Each name that a schema's `required` lists gives the path `base/<name>`
/// among the paths the schema reads (within the depth limit).
pub proof fn law_required_names_are_read(s: SchemaModel, base: Seq<char>, depth: nat, i: int)
    requires
        depth <= 100,
        s.required matches Some(r) && 0 <= i < r.len(),
    ensures
        spec_extract(s, base, depth).contains(child_path(base, s.required->0[i])),
{
    let k = lemma_required_index(s, base, depth, i);
}

/// Each name that an `if` condition requires is a dependency of the node,
/// at its absolute path: a change there re-evaluates the node.
pub proof fn law_condition_required_is_dependency(s: SchemaModel, inst: Seq<char>, i: int)
    requires
        s.if_ matches Some(c) && (c.required matches Some(r) && 0 <= i < r.len()),
    ensures
        spec_deps(s, inst).contains(spec_resolve_absolute_path(inst, child_path(""@, s.if_->0.required->0[i]))),
{
    let c = *s.if_->0;
    let rels = spec_extract(c, ""@, 0);
    let k = lemma_required_index(c, ""@, 0, i);
    let x = spec_resolve_absolute_path(inst, child_path(""@, c.required->0[i]));
    let abs = Seq::new(rels.len(), |j: int| spec_resolve_absolute_path(inst, rels[j]));
    assert(abs[k] == x);
    assert(abs.contains(x));
    assert(abs_paths(inst, rels).contains(x));
}

} // verus!
