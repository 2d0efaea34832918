//! Which child fields a node has: from its effective schema, its type and
//! its value, the list of (key, schema, keyword location, removable,
//! required) entries, in the order the form shows them.
use vstd::prelude::*;
use crate::effective::{map_get, map_find};
use crate::json::{Json, JsonNumber, JsonValue};
use crate::number::{number_bits, spec_f64_lt, number_to_f64_bits, f64_lt};
use crate::pointer::{json_pointer_escape, spec_escape};
use crate::schema::{AdditionalProperties, AddPropsModel, Schema, SchemaModel, SchemaType, ext_model,
    lemma_schema_fields, lemma_schema_map_model_index, lemma_schemas_model_index, schema_map_model, schemas_model,
    schema_model_default, str_seq_model};
use crate::schema_util::{lemma_map_find_first, lemma_map_find_none};
use crate::default::{names_contain, req_has};
use crate::text::{decimal_text, str_eq, usize_to_text, to_owned_string};
use crate::util::{spec_safe_regex_test, safe_regex_test};
use crate::validate::concat2;

verus! {

/// One child field: its key, schema and keyword location, whether it can
/// be removed, and whether it is required.
pub struct ChildSpec {
    pub key: String,
    pub schema: Schema,
    pub keyword_location: String,
    pub can_remove: bool,
    pub required: bool,
}

pub open spec fn child_view(c: ChildSpec) -> (Seq<char>, SchemaModel, Seq<char>, bool, bool) {
    (c.key@, c.schema@, c.keyword_location@, c.can_remove, c.required)
}

pub open spec fn children_view(v: Seq<ChildSpec>) -> Seq<(Seq<char>, SchemaModel, Seq<char>, bool, bool)> {
    Seq::new(v.len(), |i: int| child_view(v[i]))
}

// ── Property order ──

/// Infinity: the order of a property without a numeric `x-order`.
pub open spec fn infinity_bits() -> u64 {
    0x7ff0_0000_0000_0000
}

/// A property schema's `x-order` extension, as binary64 bits.
pub open spec fn x_order(s: SchemaModel) -> u64 {
    match map_get(s.extensions, "x-order"@) {
        Some(Json::Number(n)) => number_bits(n),
        _ => infinity_bits(),
    }
}

pub open spec fn order_before(a: SchemaModel, b: SchemaModel) -> bool {
    spec_f64_lt(x_order(a), x_order(b))
}

/// Insert an entry into a list sorted by `x-order`, after every entry it
/// does not come before.
pub open spec fn sorted_insert(s: Seq<(Seq<char>, SchemaModel)>, x: (Seq<char>, SchemaModel)) -> Seq<(Seq<char>, SchemaModel)>
    decreases s.len(),
{
    if s.len() == 0 {
        seq![x]
    } else if order_before(x.1, s.last().1) {
        sorted_insert(s.drop_last(), x).push(s.last())
    } else {
        s.push(x)
    }
}

/// The first `n` entries, stably sorted by `x-order`.
pub open spec fn sort_by_order(s: Seq<(Seq<char>, SchemaModel)>, n: nat) -> Seq<(Seq<char>, SchemaModel)>
    decreases n,
{
    if n == 0 || n > s.len() {
        Seq::empty()
    } else {
        sorted_insert(sort_by_order(s, (n - 1) as nat), s[n - 1])
    }
}

fn order_of(s: &Schema) -> (r: u64)
    ensures
        r == x_order(s@),
{
    proof {
        lemma_schema_fields(*s);
    }
    let ghost m = ext_model(s.extensions@);
    let mut i: usize = 0;
    while i < s.extensions.len()
        invariant
            i <= s.extensions@.len(),
            m == ext_model(s.extensions@),
            m == s@.extensions,
            forall|t: int| 0 <= t < i ==> m[t].0 != "x-order"@,
        decreases s.extensions.len() - i,
    {
        assert(m[i as int] == (s.extensions@[i as int].0@, s.extensions@[i as int].1@));
        if str_eq(s.extensions[i].0.as_str(), "x-order") {
            proof {
                lemma_map_find_first(m, "x-order"@, i as int);
            }
            return match &s.extensions[i].1 {
                JsonValue::Number(n) => number_to_f64_bits(n),
                _ => 0x7ff0_0000_0000_0000,
            };
        }
        i = i + 1;
    }
    proof {
        lemma_map_find_none(m, "x-order"@);
    }
    0x7ff0_0000_0000_0000
}

proof fn lemma_sorted_insert_at(s: Seq<(Seq<char>, SchemaModel)>, x: (Seq<char>, SchemaModel), j: int)
    requires
        0 <= j <= s.len(),
        forall|t: int| j <= t < s.len() ==> order_before(x.1, #[trigger] s[t].1),
        j > 0 ==> !order_before(x.1, s[j - 1].1),
    ensures
        sorted_insert(s, x) == s.take(j).push(x) + s.skip(j),
    decreases s.len(),
{
    if s.len() == 0 {
        assert(s.take(j).push(x) + s.skip(j) =~= seq![x]);
    } else if j == s.len() {
        assert(s.take(j) =~= s);
        assert(s.skip(j) =~= Seq::<(Seq<char>, SchemaModel)>::empty());
        assert(s.take(j).push(x) + s.skip(j) =~= s.push(x));
    } else {
        let d = s.drop_last();
        assert(order_before(x.1, s[s.len() - 1].1));
        assert forall|t: int| j <= t < d.len() implies order_before(x.1, #[trigger] d[t].1) by {
            assert(d[t] == s[t]);
        }
        if j > 0 {
            assert(d[j - 1] == s[j - 1]);
        }
        lemma_sorted_insert_at(d, x, j);
        assert(d.take(j) =~= s.take(j));
        assert((d.take(j).push(x) + d.skip(j)).push(s.last()) =~= s.take(j).push(x) + s.skip(j));
    }
}

/// Sort property entries stably by their `x-order`.
fn sort_properties(p: &Vec<(String, Schema)>) -> (r: Vec<(String, Schema)>)
    ensures
        schema_map_model(r@) == sort_by_order(schema_map_model(p@), p@.len()),
{
    let ghost pm = schema_map_model(p@);
    let mut out: Vec<(String, Schema)> = Vec::new();
    let mut keys: Vec<u64> = Vec::new();
    let mut i: usize = 0;
    while i < p.len()
        invariant
            i <= p@.len(),
            pm == schema_map_model(p@),
            schema_map_model(out@) == sort_by_order(pm, i as nat),
            keys@.len() == out@.len(),
            forall|t: int| 0 <= t < out@.len() ==> #[trigger] keys@[t] == x_order(out@[t].1@),
        decreases p.len() - i,
    {
        proof {
            lemma_schema_map_model_index(p@, i as int);
        }
        let k = order_of(&p[i].1);
        let ghost om = schema_map_model(out@);
        let ghost x = pm[i as int];
        let mut j: usize = out.len();
        while j > 0 && f64_lt(k, keys[j - 1])
            invariant
                j <= out@.len(),
                keys@.len() == out@.len(),
                om == schema_map_model(out@),
                k == x_order(x.1),
                forall|t: int| 0 <= t < out@.len() ==> #[trigger] keys@[t] == x_order(out@[t].1@),
                forall|t: int| j <= t < om.len() ==> order_before(x.1, #[trigger] om[t].1),
            decreases j,
        {
            proof {
                lemma_schema_map_model_index(out@, (j - 1) as int);
            }
            j = j - 1;
        }
        proof {
            if j > 0 {
                lemma_schema_map_model_index(out@, (j - 1) as int);
            }
            lemma_sorted_insert_at(om, x, j as int);
        }
        let entry = (p[i].0.clone(), p[i].1.deep_copy());
        let ghost before = out@;
        out.insert(j, entry);
        keys.insert(j, k);
        proof {
            assert forall|t: int| 0 <= t < out@.len() implies #[trigger] schema_map_model(out@)[t] == (om.take(j as int).push(x) + om.skip(j as int))[t] by {
                lemma_schema_map_model_index(out@, t);
                if t < j {
                    lemma_schema_map_model_index(before, t);
                } else if t > j {
                    lemma_schema_map_model_index(before, t - 1);
                }
            }
            assert(schema_map_model(out@) =~= om.take(j as int).push(x) + om.skip(j as int));
        }
        i = i + 1;
    }
    out
}


// ── Child fields ──

pub open spec fn object_keys(v: Json) -> Seq<Seq<char>> {
    match v {
        Json::Object(o) => Seq::new(o.len(), |i: int| o[i].0),
        _ => Seq::empty(),
    }
}

/// The declared properties, in `x-order` order, each not removable and
/// required when `required` names it.
pub open spec fn prop_specs(s: SchemaModel, kw: Seq<char>) -> Seq<(Seq<char>, SchemaModel, Seq<char>, bool, bool)> {
    match s.properties {
        Some(p) => {
            let sorted = sort_by_order(p, p.len());
            Seq::new(
                sorted.len(),
                |i: int| (sorted[i].0, sorted[i].1, kw + "/properties/"@ + sorted[i].0, false, req_has(s.required, sorted[i].0)),
            )
        },
        None => Seq::empty(),
    }
}

/// The keys among the first `m` of `keys` that the pattern of `e` matches.
pub open spec fn key_matches(e: (Seq<char>, SchemaModel), keys: Seq<Seq<char>>, kw: Seq<char>, m: nat) -> Seq<(Seq<char>, SchemaModel, Seq<char>, bool, bool)>
    decreases m,
{
    if m == 0 || m > keys.len() {
        Seq::empty()
    } else {
        key_matches(e, keys, kw, (m - 1) as nat) + if spec_safe_regex_test(e.0, keys[m - 1]) {
            seq![(keys[m - 1], e.1, kw + "/patternProperties/"@ + spec_escape(e.0), true, false)]
        } else {
            Seq::empty()
        }
    }
}

/// For each of the first `n` patterns in turn, the value's keys it matches.
pub open spec fn pattern_specs(pp: Seq<(Seq<char>, SchemaModel)>, keys: Seq<Seq<char>>, kw: Seq<char>, n: nat) -> Seq<(Seq<char>, SchemaModel, Seq<char>, bool, bool)>
    decreases n,
{
    if n == 0 || n > pp.len() {
        Seq::empty()
    } else {
        pattern_specs(pp, keys, kw, (n - 1) as nat) + key_matches(pp[n - 1], keys, kw, keys.len())
    }
}

pub open spec fn additional_schema(ap: AddPropsModel) -> SchemaModel {
    match ap {
        AddPropsModel::Schema(b) => *b,
        AddPropsModel::Bool(_) => schema_model_default(),
    }
}

/// Every key of the value under `additionalProperties`, unless it is
/// `false`.
pub open spec fn additional_specs(s: SchemaModel, keys: Seq<Seq<char>>, kw: Seq<char>) -> Seq<(Seq<char>, SchemaModel, Seq<char>, bool, bool)> {
    match s.additional_properties {
        Some(AddPropsModel::Bool(false)) => Seq::empty(),
        Some(ap) => Seq::new(keys.len(), |i: int| (keys[i], additional_schema(ap), kw + "/additionalProperties"@, true, false)),
        None => Seq::empty(),
    }
}

pub open spec fn prefix_count(s: SchemaModel) -> nat {
    match s.prefix_items {
        Some(p) => p.len(),
        None => 0,
    }
}

/// The items of an array value: those with a prefix schema (required,
/// not removable), then the rest under `items` (required, removable).
pub open spec fn array_specs(s: SchemaModel, v: Json, kw: Seq<char>) -> Seq<(Seq<char>, SchemaModel, Seq<char>, bool, bool)> {
    match v {
        Json::Array(a) => {
            let pl = prefix_count(s);
            let k = if a.len() < pl { a.len() } else { pl };
            (match s.prefix_items {
                Some(p) => Seq::new(k, |i: int| (decimal_text(i as nat), p[i], kw + "/prefixItems/"@ + decimal_text(i as nat), false, true)),
                None => Seq::empty(),
            }) + (match s.items {
                Some(it) => Seq::new(
                    if a.len() > pl { (a.len() - pl) as nat } else { 0 },
                    |i: int| (decimal_text((pl + i) as nat), *it, kw + "/items"@, true, true),
                ),
                None => Seq::empty(),
            })
        },
        _ => Seq::empty(),
    }
}

/// The child fields of a node, and whether entries can be added (for
/// objects and arrays; `None` for other types).
pub open spec fn spec_child_specs(s: SchemaModel, t: SchemaType, v: Json, kw: Seq<char>) -> (Seq<(Seq<char>, SchemaModel, Seq<char>, bool, bool)>, Option<bool>) {
    if t == SchemaType::Object {
        let keys = object_keys(v);
        (
            prop_specs(s, kw) + (match s.pattern_properties {
                Some(pp) => pattern_specs(pp, keys, kw, pp.len()),
                None => Seq::empty(),
            }) + additional_specs(s, keys, kw),
            Some(s.additional_properties is Some || s.pattern_properties is Some),
        )
    } else if t == SchemaType::Array {
        (array_specs(s, v, kw), Some(s.items is Some))
    } else {
        (Seq::empty(), None)
    }
}

fn push_child(v: &mut Vec<ChildSpec>, c: ChildSpec)
    ensures
        children_view(final(v)@) == children_view(old(v)@).push(child_view(c)),
{
    let ghost before = v@;
    let ghost cv = child_view(c);
    v.push(c);
    assert(children_view(v@) =~= children_view(before).push(cv));
}

fn append_children(v: &mut Vec<ChildSpec>, w: Vec<ChildSpec>)
    ensures
        children_view(final(v)@) == children_view(old(v)@) + children_view(w@),
{
    let mut w = w;
    let ghost a = v@;
    let ghost b = w@;
    v.append(&mut w);
    assert(children_view(v@) =~= children_view(a) + children_view(b));
}

fn value_keys(value: &JsonValue) -> (r: Vec<String>)
    ensures
        str_seq_model(r@) == object_keys(value@),
{
    let mut r: Vec<String> = Vec::new();
    match value {
        JsonValue::Object(o) => {
            let ghost ks = object_keys(value@);
            assert(value@ == Json::Object(crate::json::entries_view(o@))) by {
                assert(value@->Object_0 =~= crate::json::entries_view(o@));
            }
            let mut i: usize = 0;
            while i < o.len()
                invariant
                    i <= o@.len(),
                    ks == object_keys(value@),
                    value@ == Json::Object(crate::json::entries_view(o@)),
                    str_seq_model(r@) == ks.take(i as int),
                decreases o.len() - i,
            {
                let ghost before = r@;
                assert(ks[i as int] == o@[i as int].0@);
                r.push(o[i].0.clone());
                assert(str_seq_model(r@) =~= str_seq_model(before).push(o@[i as int].0@));
                assert(ks.take(i + 1) =~= ks.take(i as int).push(ks[i as int]));
                i = i + 1;
            }
            assert(ks.take(o@.len() as int) =~= ks);
        },
        _ => {
            assert(str_seq_model(r@) =~= object_keys(value@));
        },
    }
    r
}

fn prop_specs_exec(s: &Schema, kw: &str) -> (r: Vec<ChildSpec>)
    ensures
        children_view(r@) == prop_specs(s@, kw@),
{
    proof {
        lemma_schema_fields(*s);
    }
    let mut r: Vec<ChildSpec> = Vec::new();
    match &s.properties {
        Some(p) => {
            let sorted = sort_properties(p);
            let ghost sm = schema_map_model(sorted@);
            let ghost target = prop_specs(s@, kw@);
            let mut i: usize = 0;
            while i < sorted.len()
                invariant
                    i <= sorted@.len(),
                    sm == schema_map_model(sorted@),
                    target == prop_specs(s@, kw@),
                    s@.properties is Some,
                    sm == sort_by_order(s@.properties->0, s@.properties->0.len()),
                    target.len() == sm.len(),
                    children_view(r@) == target.take(i as int),
                decreases sorted.len() - i,
            {
                proof {
                    lemma_schema_map_model_index(sorted@, i as int);
                }
                let req = match &s.required {
                    Some(names) => names_contain(names, sorted[i].0.as_str()),
                    None => false,
                };
                let c = ChildSpec {
                    key: sorted[i].0.clone(),
                    schema: sorted[i].1.deep_copy(),
                    keyword_location: {
                        let mut t = to_owned_string(kw);
                        crate::text::push_str(&mut t, "/properties/");
                        crate::text::push_str(&mut t, sorted[i].0.as_str());
                        t
                    },
                    can_remove: false,
                    required: req,
                };
                assert(child_view(c) == target[i as int]);
                push_child(&mut r, c);
                assert(target.take(i + 1) =~= target.take(i as int).push(target[i as int]));
                i = i + 1;
            }
            assert(target.take(sorted@.len() as int) =~= target);
        },
        None => {
            assert(children_view(r@) =~= prop_specs(s@, kw@));
        },
    }
    r
}

fn key_matches_exec(pattern: &str, sub: &Schema, keys: &Vec<String>, kw: &str) -> (r: Vec<ChildSpec>)
    ensures
        children_view(r@) == key_matches((pattern@, sub@), str_seq_model(keys@), kw@, keys@.len()),
{
    let ghost ks = str_seq_model(keys@);
    let mut r: Vec<ChildSpec> = Vec::new();
    let mut i: usize = 0;
    while i < keys.len()
        invariant
            i <= keys@.len(),
            ks == str_seq_model(keys@),
            children_view(r@) == key_matches((pattern@, sub@), ks, kw@, i as nat),
        decreases keys.len() - i,
    {
        if safe_regex_test(pattern, keys[i].as_str()) {
            let e = json_pointer_escape(pattern);
            let c = ChildSpec {
                key: keys[i].clone(),
                schema: sub.deep_copy(),
                keyword_location: {
                    let mut t = to_owned_string(kw);
                    crate::text::push_str(&mut t, "/patternProperties/");
                    crate::text::push_str(&mut t, e.as_str());
                    t
                },
                can_remove: true,
                required: false,
            };
            let ghost before = children_view(r@);
            push_child(&mut r, c);
            assert(children_view(r@) =~= key_matches((pattern@, sub@), ks, kw@, (i + 1) as nat));
        } else {
            assert(key_matches((pattern@, sub@), ks, kw@, (i + 1) as nat) =~= key_matches((pattern@, sub@), ks, kw@, i as nat));
        }
        i = i + 1;
    }
    r
}

fn pattern_specs_exec(pp: &Vec<(String, Schema)>, keys: &Vec<String>, kw: &str) -> (r: Vec<ChildSpec>)
    ensures
        children_view(r@) == pattern_specs(schema_map_model(pp@), str_seq_model(keys@), kw@, pp@.len()),
{
    let ghost pm = schema_map_model(pp@);
    let mut r: Vec<ChildSpec> = Vec::new();
    let mut j: usize = 0;
    while j < pp.len()
        invariant
            j <= pp@.len(),
            pm == schema_map_model(pp@),
            children_view(r@) == pattern_specs(pm, str_seq_model(keys@), kw@, j as nat),
        decreases pp.len() - j,
    {
        proof {
            lemma_schema_map_model_index(pp@, j as int);
        }
        let m = key_matches_exec(pp[j].0.as_str(), &pp[j].1, keys, kw);
        append_children(&mut r, m);
        j = j + 1;
    }
    r
}

fn additional_specs_exec(s: &Schema, keys: &Vec<String>, kw: &str) -> (r: Vec<ChildSpec>)
    ensures
        children_view(r@) == additional_specs(s@, str_seq_model(keys@), kw@),
{
    proof {
        lemma_schema_fields(*s);
    }
    let mut r: Vec<ChildSpec> = Vec::new();
    let sub: Schema = match &s.additional_properties {
        Some(AdditionalProperties::Bool(false)) => {
            assert(children_view(r@) =~= additional_specs(s@, str_seq_model(keys@), kw@));
            return r;
        },
        Some(AdditionalProperties::Schema(b)) => (**b).deep_copy(),
        Some(AdditionalProperties::Bool(true)) => Schema::new(),
        None => {
            assert(children_view(r@) =~= additional_specs(s@, str_seq_model(keys@), kw@));
            return r;
        },
    };
    let ghost target = additional_specs(s@, str_seq_model(keys@), kw@);
    assert(sub@ == additional_schema(s@.additional_properties->0));
    let mut i: usize = 0;
    while i < keys.len()
        invariant
            i <= keys@.len(),
            target == additional_specs(s@, str_seq_model(keys@), kw@),
            target.len() == keys@.len(),
            s@.additional_properties is Some,
            sub@ == additional_schema(s@.additional_properties->0),
            !(s@.additional_properties->0 == AddPropsModel::Bool(false)),
            children_view(r@) == target.take(i as int),
        decreases keys.len() - i,
    {
        let c = ChildSpec {
            key: keys[i].clone(),
            schema: sub.deep_copy(),
            keyword_location: concat2(kw, "/additionalProperties"),
            can_remove: true,
            required: false,
        };
        assert(child_view(c) == target[i as int]);
        push_child(&mut r, c);
        assert(target.take(i + 1) =~= target.take(i as int).push(target[i as int]));
        i = i + 1;
    }
    assert(target.take(keys@.len() as int) =~= target);
    r
}

fn array_specs_exec(s: &Schema, value: &JsonValue, kw: &str) -> (r: Vec<ChildSpec>)
    ensures
        children_view(r@) == array_specs(s@, value@, kw@),
{
    proof {
        lemma_schema_fields(*s);
    }
    let mut r: Vec<ChildSpec> = Vec::new();
    let arr = match value {
        JsonValue::Array(a) => a,
        _ => {
            assert(children_view(r@) =~= array_specs(s@, value@, kw@));
            return r;
        },
    };
    let len = arr.len();
    assert(value@->Array_0.len() == len);
    let pl: usize = match &s.prefix_items {
        Some(p) => p.len(),
        None => 0,
    };
    let ghost first: Seq<(Seq<char>, SchemaModel, Seq<char>, bool, bool)> = match s@.prefix_items {
        Some(p) => Seq::new(if len < pl { len as nat } else { pl as nat }, |i: int| (decimal_text(i as nat), p[i], kw@ + "/prefixItems/"@ + decimal_text(i as nat), false, true)),
        None => Seq::empty(),
    };
    if let Some(p) = &s.prefix_items {
        let k = if len < pl { len } else { pl };
        let mut i: usize = 0;
        while i < k
            invariant
                i <= k,
                k <= p@.len(),
                s@.prefix_items == Some(schemas_model(p@)),
                first.len() == k,
                first == Seq::new(k as nat, |i: int| (decimal_text(i as nat), schemas_model(p@)[i], kw@ + "/prefixItems/"@ + decimal_text(i as nat), false, true)),
                children_view(r@) == first.take(i as int),
            decreases k - i,
        {
            proof {
                lemma_schemas_model_index(p@, i as int);
            }
            let t = usize_to_text(i);
            let c = ChildSpec {
                key: usize_to_text(i),
                schema: p[i].deep_copy(),
                keyword_location: {
                    let mut u = to_owned_string(kw);
                    crate::text::push_str(&mut u, "/prefixItems/");
                    crate::text::push_str(&mut u, t.as_str());
                    u
                },
                can_remove: false,
                required: true,
            };
            assert(child_view(c) == first[i as int]);
            push_child(&mut r, c);
            assert(first.take(i + 1) =~= first.take(i as int).push(first[i as int]));
            i = i + 1;
        }
        assert(first.take(k as int) =~= first);
    } else {
        assert(children_view(r@) =~= first);
    }
    let ghost second: Seq<(Seq<char>, SchemaModel, Seq<char>, bool, bool)> = match s@.items {
        Some(it) => Seq::new(if len > pl { (len - pl) as nat } else { 0 }, |i: int| (decimal_text((pl + i) as nat), *it, kw@ + "/items"@, true, true)),
        None => Seq::empty(),
    };
    if let Some(it) = &s.items {
        let mut items: Vec<ChildSpec> = Vec::new();
        let mut i: usize = pl;
        while i < len
            invariant
                pl <= i,
                i <= len || i == pl,
                i > pl ==> i <= len,
                s@.items == Some(Box::new((**it)@)),
                second == Seq::new(if len > pl { (len - pl) as nat } else { 0 }, |i: int| (decimal_text((pl + i) as nat), (**it)@, kw@ + "/items"@, true, true)),
                children_view(items@) == second.take(i - pl),
            decreases len - i,
        {
            let c = ChildSpec {
                key: usize_to_text(i),
                schema: (**it).deep_copy(),
                keyword_location: concat2(kw, "/items"),
                can_remove: true,
                required: true,
            };
            assert(child_view(c) == second[i - pl]);
            push_child(&mut items, c);
            assert(second.take(i + 1 - pl) =~= second.take(i - pl).push(second[i - pl]));
            i = i + 1;
        }
        if len > pl {
            assert(second.take(len - pl) =~= second);
        } else {
            assert(children_view(items@) =~= second);
        }
        append_children(&mut r, items);
    } else {
        assert(children_view(r@) =~= first + second);
    }
    r
}

/// The child fields of a node (see `spec_child_specs`).
pub fn compute_children(effective: &Schema, type_: SchemaType, value: &JsonValue, kw: &str) -> (r: (Vec<ChildSpec>, Option<bool>))
    ensures
        (children_view(r.0@), r.1) == spec_child_specs(effective@, type_, value@, kw@),
{
    proof {
        lemma_schema_fields(*effective);
    }
    match type_ {
        SchemaType::Object => {
            let keys = value_keys(value);
            let mut r = prop_specs_exec(effective, kw);
            match &effective.pattern_properties {
                Some(pp) => append_children(&mut r, pattern_specs_exec(pp, &keys, kw)),
                None => {
                    assert(children_view(r@) + Seq::empty() =~= children_view(r@));
                },
            }
            append_children(&mut r, additional_specs_exec(effective, &keys, kw));
            let can_add = effective.additional_properties.is_some() || effective.pattern_properties.is_some();
            (r, Some(can_add))
        },
        SchemaType::Array => {
            let r = array_specs_exec(effective, value, kw);
            (r, Some(effective.items.is_some()))
        },
        _ => {
            let r: Vec<ChildSpec> = Vec::new();
            assert(children_view(r@) =~= Seq::<(Seq<char>, SchemaModel, Seq<char>, bool, bool)>::empty());
            (r, None)
        },
    }
}

} // verus!
