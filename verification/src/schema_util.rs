//! `$ref` resolution and dereferencing, and the lookup of the subschema
//! that applies to a property or an array index.
use vstd::prelude::*;
use crate::default::{names_contain, req_has};
use crate::effective::{ov_opt, insert_all, insert_all_exec, map_get, map_find, pick_str, pick_json, pick_json_list,
    pick_str_list, pick_dep_req, pick_list, pick_box, pick_map, pick_add_props};
use crate::pointer::{spec_unescape, json_pointer_unescape, slice_tail};
use crate::schema::{AdditionalProperties, AddPropsModel, Schema, SchemaModel, SchemaTypeValue, lemma_schema_fields,
    lemma_schema_map_model_index, lemma_schemas_model_index, schema_map_model, schemas_model, str_seq_model,
    schema_map_opt_model, schema_list_model, schema_box_model, add_props_model, type_opt_model, str_opt_model,
    schema_model_default, clone_opt_str, clone_opt_type, json_opt_model, json_list_model, dep_req_model, str_list_model};
use crate::json::JsonValue;
use crate::text::{chars_of, string_from_chars, split_on, split_exec, spec_parse_usize, parse_usize, replace_char,
    replace_char_exec, decimal_text, usize_to_text, str_eq};
use crate::util::{spec_safe_regex_test, safe_regex_test};
use crate::validate::concat2;

verus! {

/// The subschema for a property key or an array index.
pub struct SubSchemaResult {
    pub schema: Schema,
    /// The keyword path it was found under (`properties/name`, `items`,
    /// ...); empty when none applies.
    pub keyword_location_token: String,
    pub required: bool,
}

pub open spec fn schema_opt_view(o: Option<Schema>) -> Option<SchemaModel> {
    match o {
        Some(s) => Some(s@),
        None => None,
    }
}

fn pick_type(b: &Option<SchemaTypeValue>, o: &Option<SchemaTypeValue>) -> (r: Option<SchemaTypeValue>)
    ensures
        type_opt_model(r) == ov_opt(type_opt_model(*b), type_opt_model(*o)),
{
    if o.is_some() { clone_opt_type(o) } else { clone_opt_type(b) }
}

pub proof fn lemma_map_find_first<V>(m: Seq<(Seq<char>, V)>, k: Seq<char>, i: int)
    requires
        0 <= i < m.len(),
        m[i].0 == k,
        forall|t: int| 0 <= t < i ==> m[t].0 != k,
    ensures
        map_find(m, k) == Some(i),
    decreases i,
{
    if i > 0 {
        lemma_map_find_first(m.skip(1), k, i - 1);
    }
}

pub proof fn lemma_map_find_none<V>(m: Seq<(Seq<char>, V)>, k: Seq<char>)
    requires
        forall|t: int| 0 <= t < m.len() ==> m[t].0 != k,
    ensures
        map_find(m, k) is None,
    decreases m.len(),
{
    if m.len() > 0 {
        lemma_map_find_none(m.skip(1), k);
    }
}

/// The position of the entry for `k`.
fn map_lookup(m: &Vec<(String, Schema)>, k: &str) -> (r: Option<usize>)
    ensures
        match r {
            Some(i) => i < m@.len() && map_get(schema_map_model(m@), k@) == Some(m@[i as int].1@),
            None => map_get(schema_map_model(m@), k@) is None,
        },
{
    let ghost pm = schema_map_model(m@);
    let mut i: usize = 0;
    while i < m.len()
        invariant
            i <= m@.len(),
            pm == schema_map_model(m@),
            forall|t: int| 0 <= t < i ==> pm[t].0 != k@,
        decreases m.len() - i,
    {
        proof {
            lemma_schema_map_model_index(m@, i as int);
        }
        if str_eq(m[i].0.as_str(), k) {
            proof {
                lemma_map_find_first(pm, k@, i as int);
            }
            return Some(i);
        }
        i = i + 1;
    }
    proof {
        lemma_map_find_none(pm, k@);
    }
    None
}

/// Follow reference tokens through a schema: `properties`,
/// `patternProperties`, `$defs` and `dependentSchemas` take the next token
/// as a key; `allOf`, `anyOf`, `oneOf` and `prefixItems` take it as an
/// index; the keywords holding one schema, and `additionalProperties`
/// holding a schema, take no token. Anything else leads nowhere.
pub open spec fn spec_walk(s: SchemaModel, segs: Seq<Seq<char>>) -> Option<SchemaModel>
    decreases segs.len(),
{
    if segs.len() == 0 {
        Some(s)
    } else {
        let seg = segs[0];
        let rest = segs.skip(1);
        if seg == "properties"@ {
            match s.properties {
                Some(m) => if rest.len() > 0 {
                    match map_get(m, rest[0]) {
                        Some(c) => spec_walk(c, rest.skip(1)),
                        None => None,
                    }
                } else {
                    None
                },
                None => None,
            }
        } else if seg == "patternProperties"@ {
            match s.pattern_properties {
                Some(m) => if rest.len() > 0 {
                    match map_get(m, rest[0]) {
                        Some(c) => spec_walk(c, rest.skip(1)),
                        None => None,
                    }
                } else {
                    None
                },
                None => None,
            }
        } else if seg == "$defs"@ {
            match s.defs {
                Some(m) => if rest.len() > 0 {
                    match map_get(m, rest[0]) {
                        Some(c) => spec_walk(c, rest.skip(1)),
                        None => None,
                    }
                } else {
                    None
                },
                None => None,
            }
        } else if seg == "dependentSchemas"@ {
            match s.dependent_schemas {
                Some(m) => if rest.len() > 0 {
                    match map_get(m, rest[0]) {
                        Some(c) => spec_walk(c, rest.skip(1)),
                        None => None,
                    }
                } else {
                    None
                },
                None => None,
            }
        } else if seg == "allOf"@ {
            match s.all_of {
                Some(l) => if rest.len() > 0 {
                    match spec_parse_usize(rest[0]) {
                        Some(i) => if i < l.len() {
                            spec_walk(l[i as int], rest.skip(1))
                        } else {
                            None
                        },
                        None => None,
                    }
                } else {
                    None
                },
                None => None,
            }
        } else if seg == "anyOf"@ {
            match s.any_of {
                Some(l) => if rest.len() > 0 {
                    match spec_parse_usize(rest[0]) {
                        Some(i) => if i < l.len() {
                            spec_walk(l[i as int], rest.skip(1))
                        } else {
                            None
                        },
                        None => None,
                    }
                } else {
                    None
                },
                None => None,
            }
        } else if seg == "oneOf"@ {
            match s.one_of {
                Some(l) => if rest.len() > 0 {
                    match spec_parse_usize(rest[0]) {
                        Some(i) => if i < l.len() {
                            spec_walk(l[i as int], rest.skip(1))
                        } else {
                            None
                        },
                        None => None,
                    }
                } else {
                    None
                },
                None => None,
            }
        } else if seg == "prefixItems"@ {
            match s.prefix_items {
                Some(l) => if rest.len() > 0 {
                    match spec_parse_usize(rest[0]) {
                        Some(i) => if i < l.len() {
                            spec_walk(l[i as int], rest.skip(1))
                        } else {
                            None
                        },
                        None => None,
                    }
                } else {
                    None
                },
                None => None,
            }
        } else if seg == "items"@ {
            match s.items {
                Some(b) => spec_walk(*b, rest),
                None => None,
            }
        } else if seg == "if"@ {
            match s.if_ {
                Some(b) => spec_walk(*b, rest),
                None => None,
            }
        } else if seg == "then"@ {
            match s.then_ {
                Some(b) => spec_walk(*b, rest),
                None => None,
            }
        } else if seg == "else"@ {
            match s.else_ {
                Some(b) => spec_walk(*b, rest),
                None => None,
            }
        } else if seg == "not"@ {
            match s.not {
                Some(b) => spec_walk(*b, rest),
                None => None,
            }
        } else if seg == "contains"@ {
            match s.contains {
                Some(b) => spec_walk(*b, rest),
                None => None,
            }
        } else if seg == "propertyNames"@ {
            match s.property_names {
                Some(b) => spec_walk(*b, rest),
                None => None,
            }
        } else if seg == "unevaluatedItems"@ {
            match s.unevaluated_items {
                Some(b) => spec_walk(*b, rest),
                None => None,
            }
        } else if seg == "unevaluatedProperties"@ {
            match s.unevaluated_properties {
                Some(b) => spec_walk(*b, rest),
                None => None,
            }
        } else if seg == "contentSchema"@ {
            match s.content_schema {
                Some(b) => spec_walk(*b, rest),
                None => None,
            }
        } else if seg == "additionalProperties"@ {
            match s.additional_properties {
                Some(AddPropsModel::Schema(b)) => spec_walk(*b, rest),
                _ => None,
            }
        } else {
            None
        }
    }
}

fn walk_map(m: &Option<Vec<(String, Schema)>>, segs: &Vec<String>, next: usize) -> (r: Option<Schema>)
    requires
        1 <= next <= segs@.len(),
    ensures
        schema_opt_view(r) == match schema_map_opt_model(*m) {
            Some(mm) => if next < segs@.len() {
                match map_get(mm, segs@[next as int]@) {
                    Some(c) => spec_walk(c, str_seq_model(segs@).skip(next + 1)),
                    None => None,
                }
            } else {
                None
            },
            None => None,
        },
    decreases segs@.len() - next + 1, 0nat,
{
    match m {
        Some(map) => {
            if next < segs.len() {
                match map_lookup(map, segs[next].as_str()) {
                    Some(i) => {
                        proof {
                            lemma_schema_map_model_index(map@, i as int);
                        }
                        resolve_ref_walk(&map[i].1, segs, next + 1)
                    },
                    None => None,
                }
            } else {
                None
            }
        },
        None => None,
    }
}

fn walk_list(l: &Option<Vec<Schema>>, segs: &Vec<String>, next: usize) -> (r: Option<Schema>)
    requires
        1 <= next <= segs@.len(),
    ensures
        schema_opt_view(r) == match schema_list_model(*l) {
            Some(ll) => if next < segs@.len() {
                match spec_parse_usize(segs@[next as int]@) {
                    Some(i) => if i < ll.len() {
                        spec_walk(ll[i as int], str_seq_model(segs@).skip(next + 1))
                    } else {
                        None
                    },
                    None => None,
                }
            } else {
                None
            },
            None => None,
        },
    decreases segs@.len() - next + 1, 0nat,
{
    match l {
        Some(v) => {
            if next < segs.len() {
                match parse_usize(segs[next].as_str()) {
                    Some(i) => {
                        if i < v.len() {
                            proof {
                                lemma_schemas_model_index(v@, i as int);
                            }
                            resolve_ref_walk(&v[i], segs, next + 1)
                        } else {
                            None
                        }
                    },
                    None => None,
                }
            } else {
                None
            }
        },
        None => None,
    }
}

fn resolve_ref_walk(schema: &Schema, segs: &Vec<String>, start: usize) -> (r: Option<Schema>)
    requires
        start <= segs@.len(),
    ensures
        schema_opt_view(r) == spec_walk(schema@, str_seq_model(segs@).skip(start as int)),
    decreases segs@.len() - start, 1nat,
{
    proof {
        lemma_schema_fields(*schema);
    }
    let ghost ss = str_seq_model(segs@).skip(start as int);
    if start == segs.len() {
        assert(ss.len() == 0);
        return Some(schema.deep_copy());
    }
    assert(ss[0] == segs@[start as int]@);
    assert(ss.skip(1) =~= str_seq_model(segs@).skip(start + 1));
    assert(ss.skip(1).len() > 0 ==> ss.skip(1)[0] == segs@[start + 1]@);
    assert(ss.skip(1).len() > 0 ==> ss.skip(1).skip(1) =~= str_seq_model(segs@).skip(start + 2));
    let seg = segs[start].as_str();
    if str_eq(seg, "properties") {
        walk_map(&schema.properties, segs, start + 1)
    } else if str_eq(seg, "patternProperties") {
        walk_map(&schema.pattern_properties, segs, start + 1)
    } else if str_eq(seg, "$defs") {
        walk_map(&schema.defs, segs, start + 1)
    } else if str_eq(seg, "dependentSchemas") {
        walk_map(&schema.dependent_schemas, segs, start + 1)
    } else if str_eq(seg, "allOf") {
        walk_list(&schema.all_of, segs, start + 1)
    } else if str_eq(seg, "anyOf") {
        walk_list(&schema.any_of, segs, start + 1)
    } else if str_eq(seg, "oneOf") {
        walk_list(&schema.one_of, segs, start + 1)
    } else if str_eq(seg, "prefixItems") {
        walk_list(&schema.prefix_items, segs, start + 1)
    } else if str_eq(seg, "items") {
        match &schema.items {
            Some(b) => resolve_ref_walk(&**b, segs, start + 1),
            None => None,
        }
    } else if str_eq(seg, "if") {
        match &schema.if_ {
            Some(b) => resolve_ref_walk(&**b, segs, start + 1),
            None => None,
        }
    } else if str_eq(seg, "then") {
        match &schema.then_ {
            Some(b) => resolve_ref_walk(&**b, segs, start + 1),
            None => None,
        }
    } else if str_eq(seg, "else") {
        match &schema.else_ {
            Some(b) => resolve_ref_walk(&**b, segs, start + 1),
            None => None,
        }
    } else if str_eq(seg, "not") {
        match &schema.not {
            Some(b) => resolve_ref_walk(&**b, segs, start + 1),
            None => None,
        }
    } else if str_eq(seg, "contains") {
        match &schema.contains {
            Some(b) => resolve_ref_walk(&**b, segs, start + 1),
            None => None,
        }
    } else if str_eq(seg, "propertyNames") {
        match &schema.property_names {
            Some(b) => resolve_ref_walk(&**b, segs, start + 1),
            None => None,
        }
    } else if str_eq(seg, "unevaluatedItems") {
        match &schema.unevaluated_items {
            Some(b) => resolve_ref_walk(&**b, segs, start + 1),
            None => None,
        }
    } else if str_eq(seg, "unevaluatedProperties") {
        match &schema.unevaluated_properties {
            Some(b) => resolve_ref_walk(&**b, segs, start + 1),
            None => None,
        }
    } else if str_eq(seg, "contentSchema") {
        match &schema.content_schema {
            Some(b) => resolve_ref_walk(&**b, segs, start + 1),
            None => None,
        }
    } else if str_eq(seg, "additionalProperties") {
        match &schema.additional_properties {
            Some(AdditionalProperties::Schema(b)) => resolve_ref_walk(&**b, segs, start + 1),
            _ => None,
        }
    } else {
        None
    }
}


/// The reference tokens of a fragment's pointer.
pub open spec fn ref_tokens(p: Seq<char>) -> Seq<Seq<char>> {
    split_on(p, '/').map_values(|t: Seq<char>| spec_unescape(t))
}

/// What an internal reference (`#` and a JSON pointer) designates in the
/// root schema: the root for `#`; nothing for other references.
pub open spec fn spec_resolve_ref(r: Seq<char>, root: SchemaModel) -> Option<SchemaModel> {
    if !(r.len() > 0 && r[0] == '#') {
        None
    } else if r.len() == 1 {
        Some(root)
    } else if r[1] != '/' {
        None
    } else {
        spec_walk(root, ref_tokens(r.skip(2)))
    }
}

/// Resolve an internal `$ref` against the root schema.
pub fn resolve_ref(ref_str: &str, root_schema: &Schema) -> (r: Option<Schema>)
    ensures
        schema_opt_view(r) == spec_resolve_ref(ref_str@, root_schema@),
{
    let cs = chars_of(ref_str);
    if cs.len() == 0 || cs[0] != '#' {
        return None;
    }
    if cs.len() == 1 {
        return Some(root_schema.deep_copy());
    }
    if cs[1] != '/' {
        return None;
    }
    let tail = slice_tail(&cs, 2);
    let pointer = string_from_chars(tail.as_slice());
    let parts = split_exec(pointer.as_str(), '/');
    let ghost toks = ref_tokens(ref_str@.skip(2));
    let mut segs: Vec<String> = Vec::new();
    let mut i: usize = 0;
    while i < parts.len()
        invariant
            i <= parts@.len(),
            parts@.len() == split_on(pointer@, '/').len(),
            forall|j: int| 0 <= j < parts@.len() ==> #[trigger] parts@[j]@ == split_on(pointer@, '/')[j],
            pointer@ == ref_str@.skip(2),
            toks == ref_tokens(ref_str@.skip(2)),
            str_seq_model(segs@) == toks.take(i as int),
        decreases parts.len() - i,
    {
        let u = json_pointer_unescape(parts[i].as_str());
        assert(toks[i as int] == u@);
        let ghost before = segs@;
        segs.push(u);
        assert(str_seq_model(segs@) =~= str_seq_model(before).push(u@));
        assert(toks.take(i + 1) =~= toks.take(i as int).push(toks[i as int]));
        i = i + 1;
    }
    assert(toks.take(parts@.len() as int) =~= toks);
    assert(str_seq_model(segs@).skip(0) =~= toks);
    resolve_ref_walk(root_schema, &segs, 0)
}

/// The first pattern at or after `i` that matches `key`.
pub open spec fn first_pattern(pp: Seq<(Seq<char>, SchemaModel)>, key: Seq<char>, i: nat) -> Option<nat>
    decreases pp.len() - i,
{
    if i >= pp.len() {
        None
    } else if spec_safe_regex_test(pp[i as int].0, key) {
        Some(i)
    } else {
        first_pattern(pp, key, i + 1)
    }
}

/// The subschema for a key: a prefix item or the items for an index, else
/// the property's schema, else the first matching pattern's, else a
/// schema-valued `additionalProperties`, else the empty schema; with its
/// keyword path and whether the property is required.
pub open spec fn spec_sub_schema(s: SchemaModel, key: Seq<char>) -> (SchemaModel, Seq<char>, bool) {
    let idx = spec_parse_usize(key);
    if idx is Some && s.prefix_items is Some && (idx->0 as nat) < s.prefix_items->0.len() {
        (s.prefix_items->0[idx->0 as int], "prefixItems/"@ + decimal_text(idx->0 as nat), true)
    } else if idx is Some && s.items is Some {
        (*s.items->0, "items"@, true)
    } else if s.properties is Some && map_get(s.properties->0, key) is Some {
        (map_get(s.properties->0, key)->0, "properties/"@ + key, req_has(s.required, key))
    } else if s.pattern_properties is Some && first_pattern(s.pattern_properties->0, key, 0) is Some {
        let p = s.pattern_properties->0[first_pattern(s.pattern_properties->0, key, 0)->0 as int];
        (p.1, "patternProperties/"@ + replace_char(replace_char(p.0, '/', "~1"@), '~', "~0"@), false)
    } else if s.additional_properties matches Some(AddPropsModel::Schema(_)) {
        (*s.additional_properties->0->Schema_0, "additionalProperties"@, false)
    } else {
        (schema_model_default(), Seq::empty(), false)
    }
}

/// Look up the subschema for a property key or an array index.
#[verifier::loop_isolation(false)]
pub fn get_sub_schema(schema: &Schema, key: &str) -> (r: SubSchemaResult)
    ensures
        (r.schema@, r.keyword_location_token@, r.required) == spec_sub_schema(schema@, key@),
{
    proof {
        lemma_schema_fields(*schema);
    }
    match parse_usize(key) {
        Some(idx) => {
            if let Some(p) = &schema.prefix_items {
                if idx < p.len() {
                    proof {
                        lemma_schemas_model_index(p@, idx as int);
                    }
                    let t = usize_to_text(idx);
                    return SubSchemaResult {
                        schema: p[idx].deep_copy(),
                        keyword_location_token: concat2("prefixItems/", t.as_str()),
                        required: true,
                    };
                }
            }
            if let Some(it) = &schema.items {
                return SubSchemaResult {
                    schema: (**it).deep_copy(),
                    keyword_location_token: crate::text::to_owned_string("items"),
                    required: true,
                };
            }
        },
        None => {},
    }
    if let Some(props) = &schema.properties {
        if let Some(i) = map_lookup(props, key) {
            let req = match &schema.required {
                Some(r) => names_contain(r, key),
                None => false,
            };
            return SubSchemaResult {
                schema: props[i].1.deep_copy(),
                keyword_location_token: concat2("properties/", key),
                required: req,
            };
        }
    }
    if let Some(pp) = &schema.pattern_properties {
        let ghost pm = schema_map_model(pp@);
        let mut j: usize = 0;
        while j < pp.len()
            invariant
                j <= pp@.len(),
                pm == schema_map_model(pp@),
                first_pattern(pm, key@, j as nat) == first_pattern(pm, key@, 0),
            decreases pp.len() - j,
        {
            proof {
                lemma_schema_map_model_index(pp@, j as int);
            }
            assert(pm[j as int].0 == pp@[j as int].0@);
            assert(pm[j as int].1 == pp@[j as int].1@);
            if safe_regex_test(pp[j].0.as_str(), key) {
                let a = replace_char_exec(pp[j].0.as_str(), '/', "~1");
                let escaped = replace_char_exec(a.as_str(), '~', "~0");
                return SubSchemaResult {
                    schema: pp[j].1.deep_copy(),
                    keyword_location_token: concat2("patternProperties/", escaped.as_str()),
                    required: false,
                };
            }
            j = j + 1;
        }
    }
    if let Some(AdditionalProperties::Schema(b)) = &schema.additional_properties {
        return SubSchemaResult {
            schema: (**b).deep_copy(),
            keyword_location_token: crate::text::to_owned_string("additionalProperties"),
            required: false,
        };
    }
    SubSchemaResult { schema: Schema::new(), keyword_location_token: String::new(), required: false }
}

/// `overlay` over `base`: each keyword the overlay has replaces the base's,
/// except `$ref`, which stays the base's; the overlay's extensions are
/// inserted over the base's.
pub open spec fn spec_merge_overlay(b: SchemaModel, o: SchemaModel) -> SchemaModel {
    SchemaModel {
        schema: ov_opt(b.schema, o.schema),
        id: ov_opt(b.id, o.id),
        anchor: ov_opt(b.anchor, o.anchor),
        dynamic_anchor: ov_opt(b.dynamic_anchor, o.dynamic_anchor),
        ref_: b.ref_,
        dynamic_ref: ov_opt(b.dynamic_ref, o.dynamic_ref),
        defs: ov_opt(b.defs, o.defs),
        comment: ov_opt(b.comment, o.comment),
        title: ov_opt(b.title, o.title),
        description: ov_opt(b.description, o.description),
        default: ov_opt(b.default, o.default),
        deprecated: ov_opt(b.deprecated, o.deprecated),
        read_only: ov_opt(b.read_only, o.read_only),
        write_only: ov_opt(b.write_only, o.write_only),
        examples: ov_opt(b.examples, o.examples),
        type_: ov_opt(b.type_, o.type_),
        enum_: ov_opt(b.enum_, o.enum_),
        const_: ov_opt(b.const_, o.const_),
        multiple_of: ov_opt(b.multiple_of, o.multiple_of),
        maximum: ov_opt(b.maximum, o.maximum),
        exclusive_maximum: ov_opt(b.exclusive_maximum, o.exclusive_maximum),
        minimum: ov_opt(b.minimum, o.minimum),
        exclusive_minimum: ov_opt(b.exclusive_minimum, o.exclusive_minimum),
        max_length: ov_opt(b.max_length, o.max_length),
        min_length: ov_opt(b.min_length, o.min_length),
        pattern: ov_opt(b.pattern, o.pattern),
        format: ov_opt(b.format, o.format),
        max_items: ov_opt(b.max_items, o.max_items),
        min_items: ov_opt(b.min_items, o.min_items),
        unique_items: ov_opt(b.unique_items, o.unique_items),
        max_contains: ov_opt(b.max_contains, o.max_contains),
        min_contains: ov_opt(b.min_contains, o.min_contains),
        max_properties: ov_opt(b.max_properties, o.max_properties),
        min_properties: ov_opt(b.min_properties, o.min_properties),
        required: ov_opt(b.required, o.required),
        dependent_required: ov_opt(b.dependent_required, o.dependent_required),
        all_of: ov_opt(b.all_of, o.all_of),
        any_of: ov_opt(b.any_of, o.any_of),
        one_of: ov_opt(b.one_of, o.one_of),
        not: ov_opt(b.not, o.not),
        if_: ov_opt(b.if_, o.if_),
        then_: ov_opt(b.then_, o.then_),
        else_: ov_opt(b.else_, o.else_),
        dependent_schemas: ov_opt(b.dependent_schemas, o.dependent_schemas),
        prefix_items: ov_opt(b.prefix_items, o.prefix_items),
        items: ov_opt(b.items, o.items),
        contains: ov_opt(b.contains, o.contains),
        properties: ov_opt(b.properties, o.properties),
        pattern_properties: ov_opt(b.pattern_properties, o.pattern_properties),
        additional_properties: ov_opt(b.additional_properties, o.additional_properties),
        property_names: ov_opt(b.property_names, o.property_names),
        unevaluated_items: ov_opt(b.unevaluated_items, o.unevaluated_items),
        unevaluated_properties: ov_opt(b.unevaluated_properties, o.unevaluated_properties),
        content_encoding: ov_opt(b.content_encoding, o.content_encoding),
        content_media_type: ov_opt(b.content_media_type, o.content_media_type),
        content_schema: ov_opt(b.content_schema, o.content_schema),
        extensions: insert_all(b.extensions, o.extensions),
    }
}

fn overlay_part_0(base: &Schema, overlay: &Schema) -> (r: (Option<String>, Option<String>, Option<String>, Option<String>, Option<String>, Option<Vec<(String, Schema)>>, Option<String>, Option<String>))
    ensures
        str_opt_model(r.0) == ov_opt(base@.schema, overlay@.schema),
        str_opt_model(r.1) == ov_opt(base@.id, overlay@.id),
        str_opt_model(r.2) == ov_opt(base@.anchor, overlay@.anchor),
        str_opt_model(r.3) == ov_opt(base@.dynamic_anchor, overlay@.dynamic_anchor),
        str_opt_model(r.4) == ov_opt(base@.dynamic_ref, overlay@.dynamic_ref),
        schema_map_opt_model(r.5) == ov_opt(base@.defs, overlay@.defs),
        str_opt_model(r.6) == ov_opt(base@.comment, overlay@.comment),
        str_opt_model(r.7) == ov_opt(base@.title, overlay@.title),
{
    proof {
        lemma_schema_fields(*base);
        lemma_schema_fields(*overlay);
    }
    (
        pick_str(&base.schema, &overlay.schema),
        pick_str(&base.id, &overlay.id),
        pick_str(&base.anchor, &overlay.anchor),
        pick_str(&base.dynamic_anchor, &overlay.dynamic_anchor),
        pick_str(&base.dynamic_ref, &overlay.dynamic_ref),
        pick_map(&base.defs, &overlay.defs),
        pick_str(&base.comment, &overlay.comment),
        pick_str(&base.title, &overlay.title),
    )
}

fn overlay_part_1(base: &Schema, overlay: &Schema) -> (r: (Option<String>, Option<JsonValue>, Option<bool>, Option<bool>, Option<bool>, Option<Vec<JsonValue>>, Option<SchemaTypeValue>, Option<Vec<JsonValue>>))
    ensures
        str_opt_model(r.0) == ov_opt(base@.description, overlay@.description),
        json_opt_model(r.1) == ov_opt(base@.default, overlay@.default),
        r.2 == ov_opt(base@.deprecated, overlay@.deprecated),
        r.3 == ov_opt(base@.read_only, overlay@.read_only),
        r.4 == ov_opt(base@.write_only, overlay@.write_only),
        json_list_model(r.5) == ov_opt(base@.examples, overlay@.examples),
        type_opt_model(r.6) == ov_opt(base@.type_, overlay@.type_),
        json_list_model(r.7) == ov_opt(base@.enum_, overlay@.enum_),
{
    proof {
        lemma_schema_fields(*base);
        lemma_schema_fields(*overlay);
    }
    (
        pick_str(&base.description, &overlay.description),
        pick_json(&base.default, &overlay.default),
        if overlay.deprecated.is_some() { overlay.deprecated } else { base.deprecated },
        if overlay.read_only.is_some() { overlay.read_only } else { base.read_only },
        if overlay.write_only.is_some() { overlay.write_only } else { base.write_only },
        pick_json_list(&base.examples, &overlay.examples),
        pick_type(&base.type_, &overlay.type_),
        pick_json_list(&base.enum_, &overlay.enum_),
    )
}

fn overlay_part_2(base: &Schema, overlay: &Schema) -> (r: (Option<JsonValue>, Option<u64>, Option<u64>, Option<u64>, Option<u64>, Option<u64>, Option<u64>, Option<u64>))
    ensures
        json_opt_model(r.0) == ov_opt(base@.const_, overlay@.const_),
        r.1 == ov_opt(base@.multiple_of, overlay@.multiple_of),
        r.2 == ov_opt(base@.maximum, overlay@.maximum),
        r.3 == ov_opt(base@.exclusive_maximum, overlay@.exclusive_maximum),
        r.4 == ov_opt(base@.minimum, overlay@.minimum),
        r.5 == ov_opt(base@.exclusive_minimum, overlay@.exclusive_minimum),
        r.6 == ov_opt(base@.max_length, overlay@.max_length),
        r.7 == ov_opt(base@.min_length, overlay@.min_length),
{
    proof {
        lemma_schema_fields(*base);
        lemma_schema_fields(*overlay);
    }
    (
        pick_json(&base.const_, &overlay.const_),
        if overlay.multiple_of.is_some() { overlay.multiple_of } else { base.multiple_of },
        if overlay.maximum.is_some() { overlay.maximum } else { base.maximum },
        if overlay.exclusive_maximum.is_some() { overlay.exclusive_maximum } else { base.exclusive_maximum },
        if overlay.minimum.is_some() { overlay.minimum } else { base.minimum },
        if overlay.exclusive_minimum.is_some() { overlay.exclusive_minimum } else { base.exclusive_minimum },
        if overlay.max_length.is_some() { overlay.max_length } else { base.max_length },
        if overlay.min_length.is_some() { overlay.min_length } else { base.min_length },
    )
}

fn overlay_part_3(base: &Schema, overlay: &Schema) -> (r: (Option<String>, Option<String>, Option<u64>, Option<u64>, Option<bool>, Option<u64>, Option<u64>, Option<u64>))
    ensures
        str_opt_model(r.0) == ov_opt(base@.pattern, overlay@.pattern),
        str_opt_model(r.1) == ov_opt(base@.format, overlay@.format),
        r.2 == ov_opt(base@.max_items, overlay@.max_items),
        r.3 == ov_opt(base@.min_items, overlay@.min_items),
        r.4 == ov_opt(base@.unique_items, overlay@.unique_items),
        r.5 == ov_opt(base@.max_contains, overlay@.max_contains),
        r.6 == ov_opt(base@.min_contains, overlay@.min_contains),
        r.7 == ov_opt(base@.max_properties, overlay@.max_properties),
{
    proof {
        lemma_schema_fields(*base);
        lemma_schema_fields(*overlay);
    }
    (
        pick_str(&base.pattern, &overlay.pattern),
        pick_str(&base.format, &overlay.format),
        if overlay.max_items.is_some() { overlay.max_items } else { base.max_items },
        if overlay.min_items.is_some() { overlay.min_items } else { base.min_items },
        if overlay.unique_items.is_some() { overlay.unique_items } else { base.unique_items },
        if overlay.max_contains.is_some() { overlay.max_contains } else { base.max_contains },
        if overlay.min_contains.is_some() { overlay.min_contains } else { base.min_contains },
        if overlay.max_properties.is_some() { overlay.max_properties } else { base.max_properties },
    )
}

fn overlay_part_4(base: &Schema, overlay: &Schema) -> (r: (Option<u64>, Option<Vec<String>>, Option<Vec<(String, Vec<String>)>>, Option<Vec<Schema>>, Option<Vec<Schema>>, Option<Vec<Schema>>, Option<Box<Schema>>, Option<Box<Schema>>))
    ensures
        r.0 == ov_opt(base@.min_properties, overlay@.min_properties),
        str_list_model(r.1) == ov_opt(base@.required, overlay@.required),
        dep_req_model(r.2) == ov_opt(base@.dependent_required, overlay@.dependent_required),
        schema_list_model(r.3) == ov_opt(base@.all_of, overlay@.all_of),
        schema_list_model(r.4) == ov_opt(base@.any_of, overlay@.any_of),
        schema_list_model(r.5) == ov_opt(base@.one_of, overlay@.one_of),
        schema_box_model(r.6) == ov_opt(base@.not, overlay@.not),
        schema_box_model(r.7) == ov_opt(base@.if_, overlay@.if_),
{
    proof {
        lemma_schema_fields(*base);
        lemma_schema_fields(*overlay);
    }
    (
        if overlay.min_properties.is_some() { overlay.min_properties } else { base.min_properties },
        pick_str_list(&base.required, &overlay.required),
        pick_dep_req(&base.dependent_required, &overlay.dependent_required),
        pick_list(&base.all_of, &overlay.all_of),
        pick_list(&base.any_of, &overlay.any_of),
        pick_list(&base.one_of, &overlay.one_of),
        pick_box(&base.not, &overlay.not),
        pick_box(&base.if_, &overlay.if_),
    )
}

fn overlay_part_5(base: &Schema, overlay: &Schema) -> (r: (Option<Box<Schema>>, Option<Box<Schema>>, Option<Vec<(String, Schema)>>, Option<Vec<Schema>>, Option<Box<Schema>>, Option<Box<Schema>>, Option<Vec<(String, Schema)>>, Option<Vec<(String, Schema)>>))
    ensures
        schema_box_model(r.0) == ov_opt(base@.then_, overlay@.then_),
        schema_box_model(r.1) == ov_opt(base@.else_, overlay@.else_),
        schema_map_opt_model(r.2) == ov_opt(base@.dependent_schemas, overlay@.dependent_schemas),
        schema_list_model(r.3) == ov_opt(base@.prefix_items, overlay@.prefix_items),
        schema_box_model(r.4) == ov_opt(base@.items, overlay@.items),
        schema_box_model(r.5) == ov_opt(base@.contains, overlay@.contains),
        schema_map_opt_model(r.6) == ov_opt(base@.properties, overlay@.properties),
        schema_map_opt_model(r.7) == ov_opt(base@.pattern_properties, overlay@.pattern_properties),
{
    proof {
        lemma_schema_fields(*base);
        lemma_schema_fields(*overlay);
    }
    (
        pick_box(&base.then_, &overlay.then_),
        pick_box(&base.else_, &overlay.else_),
        pick_map(&base.dependent_schemas, &overlay.dependent_schemas),
        pick_list(&base.prefix_items, &overlay.prefix_items),
        pick_box(&base.items, &overlay.items),
        pick_box(&base.contains, &overlay.contains),
        pick_map(&base.properties, &overlay.properties),
        pick_map(&base.pattern_properties, &overlay.pattern_properties),
    )
}

fn overlay_part_6(base: &Schema, overlay: &Schema) -> (r: (Option<AdditionalProperties>, Option<Box<Schema>>, Option<Box<Schema>>, Option<Box<Schema>>, Option<String>, Option<String>, Option<Box<Schema>>))
    ensures
        add_props_model(r.0) == ov_opt(base@.additional_properties, overlay@.additional_properties),
        schema_box_model(r.1) == ov_opt(base@.property_names, overlay@.property_names),
        schema_box_model(r.2) == ov_opt(base@.unevaluated_items, overlay@.unevaluated_items),
        schema_box_model(r.3) == ov_opt(base@.unevaluated_properties, overlay@.unevaluated_properties),
        str_opt_model(r.4) == ov_opt(base@.content_encoding, overlay@.content_encoding),
        str_opt_model(r.5) == ov_opt(base@.content_media_type, overlay@.content_media_type),
        schema_box_model(r.6) == ov_opt(base@.content_schema, overlay@.content_schema),
{
    proof {
        lemma_schema_fields(*base);
        lemma_schema_fields(*overlay);
    }
    (
        pick_add_props(&base.additional_properties, &overlay.additional_properties),
        pick_box(&base.property_names, &overlay.property_names),
        pick_box(&base.unevaluated_items, &overlay.unevaluated_items),
        pick_box(&base.unevaluated_properties, &overlay.unevaluated_properties),
        pick_str(&base.content_encoding, &overlay.content_encoding),
        pick_str(&base.content_media_type, &overlay.content_media_type),
        pick_box(&base.content_schema, &overlay.content_schema),
    )
}

/// Merge `overlay` over `base` (see `spec_merge_overlay`).
fn merge_schemas(base: &Schema, overlay: &Schema) -> (r: Schema)
    ensures
        r@ == spec_merge_overlay(base@, overlay@),
{
    proof {
        lemma_schema_fields(*base);
        lemma_schema_fields(*overlay);
    }
    let (f_schema, f_id, f_anchor, f_dynamic_anchor, f_dynamic_ref, f_defs, f_comment, f_title) = overlay_part_0(base, overlay);
    let (f_description, f_default, f_deprecated, f_read_only, f_write_only, f_examples, f_type_, f_enum_) = overlay_part_1(base, overlay);
    let (f_const_, f_multiple_of, f_maximum, f_exclusive_maximum, f_minimum, f_exclusive_minimum, f_max_length, f_min_length) = overlay_part_2(base, overlay);
    let (f_pattern, f_format, f_max_items, f_min_items, f_unique_items, f_max_contains, f_min_contains, f_max_properties) = overlay_part_3(base, overlay);
    let (f_min_properties, f_required, f_dependent_required, f_all_of, f_any_of, f_one_of, f_not, f_if_) = overlay_part_4(base, overlay);
    let (f_then_, f_else_, f_dependent_schemas, f_prefix_items, f_items, f_contains, f_properties, f_pattern_properties) = overlay_part_5(base, overlay);
    let (f_additional_properties, f_property_names, f_unevaluated_items, f_unevaluated_properties, f_content_encoding, f_content_media_type, f_content_schema) = overlay_part_6(base, overlay);
    let f_ref_ = clone_opt_str(&base.ref_);
    let f_extensions = insert_all_exec(&base.extensions, &overlay.extensions);
    let r = Schema {
        schema: f_schema,
        id: f_id,
        anchor: f_anchor,
        dynamic_anchor: f_dynamic_anchor,
        ref_: f_ref_,
        dynamic_ref: f_dynamic_ref,
        defs: f_defs,
        comment: f_comment,
        title: f_title,
        description: f_description,
        default: f_default,
        deprecated: f_deprecated,
        read_only: f_read_only,
        write_only: f_write_only,
        examples: f_examples,
        type_: f_type_,
        enum_: f_enum_,
        const_: f_const_,
        multiple_of: f_multiple_of,
        maximum: f_maximum,
        exclusive_maximum: f_exclusive_maximum,
        minimum: f_minimum,
        exclusive_minimum: f_exclusive_minimum,
        max_length: f_max_length,
        min_length: f_min_length,
        pattern: f_pattern,
        format: f_format,
        max_items: f_max_items,
        min_items: f_min_items,
        unique_items: f_unique_items,
        max_contains: f_max_contains,
        min_contains: f_min_contains,
        max_properties: f_max_properties,
        min_properties: f_min_properties,
        required: f_required,
        dependent_required: f_dependent_required,
        all_of: f_all_of,
        any_of: f_any_of,
        one_of: f_one_of,
        not: f_not,
        if_: f_if_,
        then_: f_then_,
        else_: f_else_,
        dependent_schemas: f_dependent_schemas,
        prefix_items: f_prefix_items,
        items: f_items,
        contains: f_contains,
        properties: f_properties,
        pattern_properties: f_pattern_properties,
        additional_properties: f_additional_properties,
        property_names: f_property_names,
        unevaluated_items: f_unevaluated_items,
        unevaluated_properties: f_unevaluated_properties,
        content_encoding: f_content_encoding,
        content_media_type: f_content_media_type,
        content_schema: f_content_schema,
        extensions: f_extensions,
    };
    proof {
        lemma_schema_fields(r);
    }
    r
}

/// Every `$ref` of a schema tree dereferenced: the schema dereferenced one
/// level, its `$ref` dropped, and each subschema (of the maps, boxes,
/// `additionalProperties` and lists) dereferenced in turn, one level
/// deeper; below depth 100 the schema is left as it is.
pub open spec fn spec_deref_deep(s: SchemaModel, root: SchemaModel, depth: nat) -> SchemaModel
    decreases (if depth > 100 { 0 } else { 101 - depth }) as nat, 2nat,
{
    if depth > 100 {
        s
    } else {
        let m = spec_deref(s, root);
        SchemaModel {
            ref_: None,
            properties: deep_map(m.properties, root, depth),
            pattern_properties: deep_map(m.pattern_properties, root, depth),
            defs: deep_map(m.defs, root, depth),
            dependent_schemas: deep_map(m.dependent_schemas, root, depth),
            items: deep_box(m.items, root, depth),
            if_: deep_box(m.if_, root, depth),
            then_: deep_box(m.then_, root, depth),
            else_: deep_box(m.else_, root, depth),
            not: deep_box(m.not, root, depth),
            contains: deep_box(m.contains, root, depth),
            property_names: deep_box(m.property_names, root, depth),
            unevaluated_items: deep_box(m.unevaluated_items, root, depth),
            unevaluated_properties: deep_box(m.unevaluated_properties, root, depth),
            content_schema: deep_box(m.content_schema, root, depth),
            additional_properties: deep_add_props(m.additional_properties, root, depth),
            all_of: deep_list(m.all_of, root, depth),
            any_of: deep_list(m.any_of, root, depth),
            one_of: deep_list(m.one_of, root, depth),
            prefix_items: deep_list(m.prefix_items, root, depth),
            ..m
        }
    }
}

pub open spec fn deep_box(o: Option<Box<SchemaModel>>, root: SchemaModel, depth: nat) -> Option<Box<SchemaModel>>
    decreases (if depth > 100 { 0 } else { 101 - depth }) as nat, 1nat,
{
    if depth > 100 {
        o
    } else {
        match o {
            Some(b) => Some(Box::new(spec_deref_deep(*b, root, depth + 1))),
            None => None,
        }
    }
}

pub open spec fn deep_add_props(o: Option<AddPropsModel>, root: SchemaModel, depth: nat) -> Option<AddPropsModel>
    decreases (if depth > 100 { 0 } else { 101 - depth }) as nat, 1nat,
{
    if depth > 100 {
        o
    } else {
        match o {
            Some(AddPropsModel::Schema(b)) => Some(AddPropsModel::Schema(Box::new(spec_deref_deep(*b, root, depth + 1)))),
            _ => o,
        }
    }
}

pub open spec fn deep_list(o: Option<Seq<SchemaModel>>, root: SchemaModel, depth: nat) -> Option<Seq<SchemaModel>>
    decreases (if depth > 100 { 0 } else { 101 - depth }) as nat, 1nat,
{
    if depth > 100 {
        o
    } else {
        match o {
            Some(l) => Some(Seq::new(l.len(), |i: int| spec_deref_deep(l[i], root, depth + 1))),
            None => None,
        }
    }
}

pub open spec fn deep_map(o: Option<Seq<(Seq<char>, SchemaModel)>>, root: SchemaModel, depth: nat) -> Option<Seq<(Seq<char>, SchemaModel)>>
    decreases (if depth > 100 { 0 } else { 101 - depth }) as nat, 1nat,
{
    if depth > 100 {
        o
    } else {
        match o {
            Some(l) => Some(Seq::new(l.len(), |i: int| (l[i].0, spec_deref_deep(l[i].1, root, depth + 1)))),
            None => None,
        }
    }
}

/// One level of `$ref`: the resolved schema with the schema's own keywords
/// over it (see `spec_merge_overlay`); the schema itself when it has no
/// `$ref` or the reference does not resolve.
pub open spec fn spec_deref(s: SchemaModel, root: SchemaModel) -> SchemaModel {
    match s.ref_ {
        Some(r) => match spec_resolve_ref(r, root) {
            Some(res) => spec_merge_overlay(res, s),
            None => s,
        },
        None => s,
    }
}

/// Resolve one level of `$ref`.
pub fn dereference_schema(schema: &Schema, root_schema: &Schema) -> (r: Schema)
    ensures
        r@ == spec_deref(schema@, root_schema@),
{
    proof {
        lemma_schema_fields(*schema);
    }
    match &schema.ref_ {
        Some(rs) => match resolve_ref(rs.as_str(), root_schema) {
            Some(res) => merge_schemas(&res, schema),
            None => schema.deep_copy(),
        },
        None => schema.deep_copy(),
    }
}

fn deep_box_exec(o: &Option<Box<Schema>>, root: &Schema, depth: usize) -> (r: Option<Box<Schema>>)
    requires
        depth <= 100,
    ensures
        schema_box_model(r) == deep_box(schema_box_model(*o), root@, depth as nat),
    decreases 101 - depth, 1nat,
{
    match o {
        Some(b) => Some(Box::new(dereference_deep_inner(&**b, root, depth + 1))),
        None => None,
    }
}

fn deep_add_props_exec(o: &Option<AdditionalProperties>, root: &Schema, depth: usize) -> (r: Option<AdditionalProperties>)
    requires
        depth <= 100,
    ensures
        add_props_model(r) == deep_add_props(add_props_model(*o), root@, depth as nat),
    decreases 101 - depth, 1nat,
{
    match o {
        Some(AdditionalProperties::Schema(b)) => Some(AdditionalProperties::Schema(Box::new(dereference_deep_inner(&**b, root, depth + 1)))),
        Some(AdditionalProperties::Bool(x)) => Some(AdditionalProperties::Bool(*x)),
        None => None,
    }
}

fn deep_list_exec(o: &Option<Vec<Schema>>, root: &Schema, depth: usize) -> (r: Option<Vec<Schema>>)
    requires
        depth <= 100,
    ensures
        schema_list_model(r) == deep_list(schema_list_model(*o), root@, depth as nat),
    decreases 101 - depth, 1nat,
{
    match o {
        Some(v) => {
            let ghost lm = schemas_model(v@);
            let ghost target = Seq::new(lm.len(), |i: int| spec_deref_deep(lm[i], root@, (depth + 1) as nat));
            let mut out: Vec<Schema> = Vec::new();
            let mut i: usize = 0;
            while i < v.len()
                invariant
                    i <= v@.len(),
                    depth <= 100,
                    lm == schemas_model(v@),
                    target == Seq::new(lm.len(), |i: int| spec_deref_deep(lm[i], root@, (depth + 1) as nat)),
                    schemas_model(out@) == target.take(i as int),
                    out@.len() == i,
                decreases v.len() - i,
            {
                proof {
                    lemma_schemas_model_index(v@, i as int);
                }
                let d = dereference_deep_inner(&v[i], root, depth + 1);
                let ghost before = out@;
                out.push(d);
                proof {
                    assert forall|j: int| 0 <= j < out@.len() implies #[trigger] schemas_model(out@)[j] == target.take(i + 1)[j] by {
                        lemma_schemas_model_index(out@, j);
                        if j < i {
                            lemma_schemas_model_index(before, j);
                            assert(schemas_model(before)[j] == target.take(i as int)[j]);
                        }
                    }
                    assert(schemas_model(out@) =~= target.take(i + 1));
                }
                i = i + 1;
            }
            assert(target.take(v@.len() as int) =~= target);
            Some(out)
        },
        None => None,
    }
}

fn deep_map_exec(o: &Option<Vec<(String, Schema)>>, root: &Schema, depth: usize) -> (r: Option<Vec<(String, Schema)>>)
    requires
        depth <= 100,
    ensures
        schema_map_opt_model(r) == deep_map(schema_map_opt_model(*o), root@, depth as nat),
    decreases 101 - depth, 1nat,
{
    match o {
        Some(v) => {
            let ghost lm = schema_map_model(v@);
            let ghost target = Seq::new(lm.len(), |i: int| (lm[i].0, spec_deref_deep(lm[i].1, root@, (depth + 1) as nat)));
            let mut out: Vec<(String, Schema)> = Vec::new();
            let mut i: usize = 0;
            while i < v.len()
                invariant
                    i <= v@.len(),
                    depth <= 100,
                    lm == schema_map_model(v@),
                    target == Seq::new(lm.len(), |i: int| (lm[i].0, spec_deref_deep(lm[i].1, root@, (depth + 1) as nat))),
                    schema_map_model(out@) == target.take(i as int),
                    out@.len() == i,
                decreases v.len() - i,
            {
                proof {
                    lemma_schema_map_model_index(v@, i as int);
                }
                let d = dereference_deep_inner(&v[i].1, root, depth + 1);
                let k = v[i].0.clone();
                let ghost before = out@;
                out.push((k, d));
                proof {
                    assert forall|j: int| 0 <= j < out@.len() implies #[trigger] schema_map_model(out@)[j] == target.take(i + 1)[j] by {
                        lemma_schema_map_model_index(out@, j);
                        if j < i {
                            lemma_schema_map_model_index(before, j);
                            assert(schema_map_model(before)[j] == target.take(i as int)[j]);
                        }
                    }
                    assert(schema_map_model(out@) =~= target.take(i + 1));
                }
                i = i + 1;
            }
            assert(target.take(v@.len() as int) =~= target);
            Some(out)
        },
        None => None,
    }
}

fn dereference_deep_inner(schema: &Schema, root_schema: &Schema, depth: usize) -> (r: Schema)
    ensures
        r@ == spec_deref_deep(schema@, root_schema@, depth as nat),
    decreases (if depth > 100 { 0 } else { 101 - depth }), 2nat,
{
    if depth > 100 {
        return schema.deep_copy();
    }
    let mut result = dereference_schema(schema, root_schema);
    let ghost m0 = result;
    proof {
        lemma_schema_fields(m0);
    }
    result.ref_ = None;
    let v_properties = deep_map_exec(&result.properties, root_schema, depth);
    result.properties = v_properties;
    let v_pattern_properties = deep_map_exec(&result.pattern_properties, root_schema, depth);
    result.pattern_properties = v_pattern_properties;
    let v_defs = deep_map_exec(&result.defs, root_schema, depth);
    result.defs = v_defs;
    let v_dependent_schemas = deep_map_exec(&result.dependent_schemas, root_schema, depth);
    result.dependent_schemas = v_dependent_schemas;
    let v_items = deep_box_exec(&result.items, root_schema, depth);
    result.items = v_items;
    let v_if_ = deep_box_exec(&result.if_, root_schema, depth);
    result.if_ = v_if_;
    let v_then_ = deep_box_exec(&result.then_, root_schema, depth);
    result.then_ = v_then_;
    let v_else_ = deep_box_exec(&result.else_, root_schema, depth);
    result.else_ = v_else_;
    let v_not = deep_box_exec(&result.not, root_schema, depth);
    result.not = v_not;
    let v_contains = deep_box_exec(&result.contains, root_schema, depth);
    result.contains = v_contains;
    let v_property_names = deep_box_exec(&result.property_names, root_schema, depth);
    result.property_names = v_property_names;
    let v_unevaluated_items = deep_box_exec(&result.unevaluated_items, root_schema, depth);
    result.unevaluated_items = v_unevaluated_items;
    let v_unevaluated_properties = deep_box_exec(&result.unevaluated_properties, root_schema, depth);
    result.unevaluated_properties = v_unevaluated_properties;
    let v_content_schema = deep_box_exec(&result.content_schema, root_schema, depth);
    result.content_schema = v_content_schema;
    let v_ap = deep_add_props_exec(&result.additional_properties, root_schema, depth);
    result.additional_properties = v_ap;
    let v_all_of = deep_list_exec(&result.all_of, root_schema, depth);
    result.all_of = v_all_of;
    let v_any_of = deep_list_exec(&result.any_of, root_schema, depth);
    result.any_of = v_any_of;
    let v_one_of = deep_list_exec(&result.one_of, root_schema, depth);
    result.one_of = v_one_of;
    let v_prefix_items = deep_list_exec(&result.prefix_items, root_schema, depth);
    result.prefix_items = v_prefix_items;
    proof {
        lemma_schema_fields(result);
    }
    result
}

/// Dereference every `$ref` of a schema tree against `root_schema`.
pub fn dereference_schema_deep(schema: &Schema, root_schema: &Schema) -> (r: Schema)
    ensures
        r@ == spec_deref_deep(schema@, root_schema@, 0),
{
    dereference_deep_inner(schema, root_schema, 0)
}

/// A reference `#/$defs/<name>`, the name written as a pointer token,
/// designates the schema that the root's `$defs` holds under that name.
pub proof fn law_resolve_defs_ref(root: SchemaModel, name: Seq<char>, d: SchemaModel)
    requires
        root.defs matches Some(m) && map_get(m, name) == Some(d),
    ensures
        spec_resolve_ref("#/$defs/"@ + crate::pointer::spec_escape(name), root) == Some(d),
{
    reveal_strlit("#/$defs/");
    reveal_strlit("$defs");
    reveal_strlit("properties");
    reveal_strlit("patternProperties");
    let e = crate::pointer::spec_escape(name);
    let defs = "$defs"@;
    let r = "#/$defs/"@ + e;
    assert(r[0] == '#' && r[1] == '/' && r.len() > 1);
    assert(r.skip(2) =~= defs + seq!['/'] + e);
    assert(!defs.contains('/') && !defs.contains('~')) by {
        assert forall|i: int| 0 <= i < defs.len() implies defs[i] != '/' && defs[i] != '~' by {}
    }
    crate::pointer::lemma_escape_no_slash(name);
    crate::pointer::lemma_split_append_sep(defs, e);
    crate::pointer::lemma_split_no_sep(defs);
    crate::pointer::lemma_escape_plain(defs);
    crate::pointer::law_unescape_escape(defs);
    crate::pointer::law_unescape_escape(name);
    let toks = ref_tokens(r.skip(2));
    assert(split_on(r.skip(2), '/') =~= seq![defs, e]);
    assert(toks =~= seq![defs, name]);
    assert(defs.len() != "properties"@.len() && defs.len() != "patternProperties"@.len());
    let rest = toks.skip(1);
    assert(rest =~= seq![name]);
    assert(rest.skip(1) =~= Seq::<Seq<char>>::empty());
    assert(spec_walk(d, rest.skip(1)) == Some(d));
}

/// A reference `#/properties/<name>`, the name written as a pointer token,
/// designates the schema of that property of the root.
pub proof fn law_resolve_property_ref(root: SchemaModel, name: Seq<char>, d: SchemaModel)
    requires
        root.properties matches Some(m) && map_get(m, name) == Some(d),
    ensures
        spec_resolve_ref("#/properties/"@ + crate::pointer::spec_escape(name), root) == Some(d),
{
    reveal_strlit("#/properties/");
    reveal_strlit("properties");
    let e = crate::pointer::spec_escape(name);
    let kw = "properties"@;
    let r = "#/properties/"@ + e;
    assert(r[0] == '#' && r[1] == '/' && r.len() > 1);
    assert(r.skip(2) =~= kw + seq!['/'] + e);
    assert(!kw.contains('/') && !kw.contains('~')) by {
        assert forall|i: int| 0 <= i < kw.len() implies kw[i] != '/' && kw[i] != '~' by {}
    }
    crate::pointer::lemma_escape_no_slash(name);
    crate::pointer::lemma_split_append_sep(kw, e);
    crate::pointer::lemma_split_no_sep(kw);
    crate::pointer::lemma_escape_plain(kw);
    crate::pointer::law_unescape_escape(kw);
    crate::pointer::law_unescape_escape(name);
    let toks = ref_tokens(r.skip(2));
    assert(split_on(r.skip(2), '/') =~= seq![kw, e]);
    assert(toks =~= seq![kw, name]);
    let rest = toks.skip(1);
    assert(rest =~= seq![name]);
    assert(rest.skip(1) =~= Seq::<Seq<char>>::empty());
    assert(spec_walk(d, rest.skip(1)) == Some(d));
}

} // verus!
