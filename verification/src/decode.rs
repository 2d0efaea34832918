//! Reading a schema from a JSON document: each keyword from its member,
//! every other member kept as an extension.
use vstd::prelude::*;
use crate::json::{Json, JsonNumber, JsonValue, entries_view, lemma_array_view, lemma_object_view};
use crate::schema::{
    AdditionalProperties, AddPropsModel, Schema, SchemaModel, SchemaTypeValue, TypeModel, add_props_model,
    clone_json_vec, dep_req_model, dep_req_seq_model, ext_model, json_list_model, json_opt_model, json_seq_model,
    schema_box_model, schema_list_model, schema_map_model, schema_map_opt_model, schemas_model, str_list_model,
    str_opt_model, str_seq_model, type_opt_model,
};
use crate::number::{number_bits, number_to_f64_bits};
use crate::effective::{map_find, map_get, find_key, lemma_key_pos_bounds, lemma_map_find_key_pos};
use crate::text::str_eq;

verus! {

// ── The reading of one member ──

/// A string keyword: absent or `null` gives nothing, a string gives
/// itself, any other value is an error (`None`).
pub open spec fn dec_str(f: Option<Json>) -> Option<Option<Seq<char>>> {
    match f {
        None => Some(None),
        Some(Json::Null) => Some(None),
        Some(Json::Str(s)) => Some(Some(s)),
        Some(_) => None,
    }
}

/// A boolean keyword.
pub open spec fn dec_bool(f: Option<Json>) -> Option<Option<bool>> {
    match f {
        None => Some(None),
        Some(Json::Null) => Some(None),
        Some(Json::Bool(b)) => Some(Some(b)),
        Some(_) => None,
    }
}

/// A count keyword: a non-negative integer.
pub open spec fn dec_count(f: Option<Json>) -> Option<Option<u64>> {
    match f {
        None => Some(None),
        Some(Json::Null) => Some(None),
        Some(Json::Number(JsonNumber::PosInt(n))) => Some(Some(n)),
        Some(_) => None,
    }
}

/// A numeric bound: any number, as the bits of its binary64 value.
pub open spec fn dec_number(f: Option<Json>) -> Option<Option<u64>> {
    match f {
        None => Some(None),
        Some(Json::Null) => Some(None),
        Some(Json::Number(n)) => Some(Some(number_bits(n))),
        Some(_) => None,
    }
}

/// `exclusiveMaximum` / `exclusiveMinimum`: a number as in `dec_number`;
/// the Draft-04 boolean form gives nothing here and is kept as an
/// extension for the normalizer.
pub open spec fn dec_bound(f: Option<Json>) -> Option<Option<u64>> {
    match f {
        Some(Json::Bool(_)) => Some(None),
        _ => dec_number(f),
    }
}

/// Whether a member is a Draft-04 form of a keyword, kept as an extension:
/// a boolean `exclusiveMaximum` or `exclusiveMinimum`, or an array `items`.
pub open spec fn is_legacy_member(k: Seq<char>, v: Json) -> bool {
    ||| (k == "exclusiveMaximum"@ || k == "exclusiveMinimum"@) && v is Bool
    ||| k == "items"@ && v is Array
}

/// A keyword holding any value; a present `null` is kept.
pub open spec fn dec_value(f: Option<Json>) -> Option<Option<Json>> {
    match f {
        None => Some(None),
        Some(x) => Some(Some(x)),
    }
}

/// A keyword holding a list of values.
pub open spec fn dec_values(f: Option<Json>) -> Option<Option<Seq<Json>>> {
    match f {
        None => Some(None),
        Some(Json::Null) => Some(None),
        Some(Json::Array(a)) => Some(Some(a)),
        Some(_) => None,
    }
}

pub open spec fn all_strs(a: Seq<Json>) -> bool {
    forall|i: int| 0 <= i < a.len() ==> #[trigger] a[i] is Str
}

pub open spec fn strs_of(a: Seq<Json>) -> Seq<Seq<char>> {
    Seq::new(a.len(), |i: int| a[i]->Str_0)
}

/// A keyword holding a list of strings.
pub open spec fn dec_names(f: Option<Json>) -> Option<Option<Seq<Seq<char>>>> {
    match f {
        None => Some(None),
        Some(Json::Null) => Some(None),
        Some(Json::Array(a)) => if all_strs(a) { Some(Some(strs_of(a))) } else { None },
        Some(_) => None,
    }
}

/// `type`: a string, or a list of strings.
pub open spec fn dec_type(f: Option<Json>) -> Option<Option<TypeModel>> {
    match f {
        None => Some(None),
        Some(Json::Null) => Some(None),
        Some(Json::Str(s)) => Some(Some(TypeModel::Single(s))),
        Some(Json::Array(a)) => if all_strs(a) { Some(Some(TypeModel::Array(strs_of(a)))) } else { None },
        Some(_) => None,
    }
}

pub open spec fn is_names(v: Json) -> bool {
    v is Array && all_strs(v->Array_0)
}

/// `dependentRequired`: an object whose members are lists of strings.
pub open spec fn dec_dep_req(f: Option<Json>) -> Option<Option<Seq<(Seq<char>, Seq<Seq<char>>)>>> {
    match f {
        None => Some(None),
        Some(Json::Null) => Some(None),
        Some(Json::Object(o)) => if forall|i: int| 0 <= i < o.len() ==> #[trigger] is_names(o[i].1) {
            Some(Some(Seq::new(o.len(), |i: int| (o[i].0, strs_of(o[i].1->Array_0)))))
        } else {
            None
        },
        Some(_) => None,
    }
}

/// The members of an object that are not keywords, and the Draft-04 forms
/// of keywords, in order.
pub open spec fn unknown_entries(m: Seq<(Seq<char>, Json)>) -> Seq<(Seq<char>, Json)>
    decreases m.len(),
{
    if m.len() == 0 {
        m
    } else {
        let r = unknown_entries(m.drop_last());
        if is_keyword(m.last().0) && !is_legacy_member(m.last().0, m.last().1) { r } else { r.push(m.last()) }
    }
}

// ── Members holding schemas ──

/// A keyword holding one schema.
pub open spec fn dec_box(j: Json, k: Seq<char>) -> Option<Option<Box<SchemaModel>>>
    decreases j, 0int,
{
    match j {
        Json::Object(m) => match map_find(m, k) {
            Some(i) => if 0 <= i < m.len() {
                match m[i].1 {
                    Json::Null => Some(None),
                    _ => match decode_schema(m[i].1) {
                        Some(s) => Some(Some(Box::new(s))),
                        None => None,
                    },
                }
            } else {
                Some(None)
            },
            None => Some(None),
        },
        _ => Some(None),
    }
}

/// `items`: one schema; the Draft-04 array form gives nothing here and is
/// kept as an extension.
pub open spec fn dec_items(j: Json, k: Seq<char>) -> Option<Option<Box<SchemaModel>>>
    decreases j, 0int,
{
    match j {
        Json::Object(m) => match map_find(m, k) {
            Some(i) => if 0 <= i < m.len() {
                match m[i].1 {
                    Json::Null => Some(None),
                    Json::Array(_) => Some(None),
                    _ => match decode_schema(m[i].1) {
                        Some(s) => Some(Some(Box::new(s))),
                        None => None,
                    },
                }
            } else {
                Some(None)
            },
            None => Some(None),
        },
        _ => Some(None),
    }
}

/// `additionalProperties`: a boolean or a schema.
pub open spec fn dec_add(j: Json, k: Seq<char>) -> Option<Option<AddPropsModel>>
    decreases j, 0int,
{
    match j {
        Json::Object(m) => match map_find(m, k) {
            Some(i) => if 0 <= i < m.len() {
                match m[i].1 {
                    Json::Null => Some(None),
                    Json::Bool(b) => Some(Some(AddPropsModel::Bool(b))),
                    _ => match decode_schema(m[i].1) {
                        Some(s) => Some(Some(AddPropsModel::Schema(Box::new(s)))),
                        None => None,
                    },
                }
            } else {
                Some(None)
            },
            None => Some(None),
        },
        _ => Some(None),
    }
}

/// Every schema of a list read, in order; `None` if one does not read.
pub open spec fn decode_all(a: Seq<Json>) -> Option<Seq<SchemaModel>>
    decreases a, 0int,
{
    if a.len() == 0 {
        Some(Seq::empty())
    } else {
        match (decode_all(a.subrange(0, a.len() - 1)), decode_schema(a[a.len() - 1])) {
            (Some(r), Some(s)) => Some(r.push(s)),
            _ => None,
        }
    }
}

/// Every member of a map read as a schema, in order.
pub open spec fn decode_members(o: Seq<(Seq<char>, Json)>) -> Option<Seq<(Seq<char>, SchemaModel)>>
    decreases o, 0int,
{
    if o.len() == 0 {
        Some(Seq::empty())
    } else {
        match (decode_members(o.subrange(0, o.len() - 1)), decode_schema(o[o.len() - 1].1)) {
            (Some(r), Some(s)) => Some(r.push((o[o.len() - 1].0, s))),
            _ => None,
        }
    }
}

/// A keyword holding a list of schemas; every element must read.
pub open spec fn dec_list(j: Json, k: Seq<char>) -> Option<Option<Seq<SchemaModel>>>
    decreases j, 0int,
{
    match j {
        Json::Object(m) => match map_find(m, k) {
            Some(i) => if 0 <= i < m.len() {
                match m[i].1 {
                    Json::Null => Some(None),
                    Json::Array(a) => match decode_all(a) {
                        Some(r) => Some(Some(r)),
                        None => None,
                    },
                    _ => None,
                }
            } else {
                Some(None)
            },
            None => Some(None),
        },
        _ => Some(None),
    }
}

/// A keyword holding a map of schemas; every member must read.
pub open spec fn dec_map(j: Json, k: Seq<char>) -> Option<Option<Seq<(Seq<char>, SchemaModel)>>>
    decreases j, 0int,
{
    match j {
        Json::Object(m) => match map_find(m, k) {
            Some(i) => if 0 <= i < m.len() {
                match m[i].1 {
                    Json::Null => Some(None),
                    Json::Object(o) => match decode_members(o) {
                        Some(r) => Some(Some(r)),
                        None => None,
                    },
                    _ => None,
                }
            } else {
                Some(None)
            },
            None => Some(None),
        },
        _ => Some(None),
    }
}

/// Whether a member name is one of the schema keywords.
pub open spec fn is_keyword(k: Seq<char>) -> bool {
    k == "$schema"@
    || k == "$id"@
    || k == "$anchor"@
    || k == "$dynamicAnchor"@
    || k == "$ref"@
    || k == "$dynamicRef"@
    || k == "$defs"@
    || k == "$comment"@
    || k == "title"@
    || k == "description"@
    || k == "default"@
    || k == "deprecated"@
    || k == "readOnly"@
    || k == "writeOnly"@
    || k == "examples"@
    || k == "type"@
    || k == "enum"@
    || k == "const"@
    || k == "multipleOf"@
    || k == "maximum"@
    || k == "exclusiveMaximum"@
    || k == "minimum"@
    || k == "exclusiveMinimum"@
    || k == "maxLength"@
    || k == "minLength"@
    || k == "pattern"@
    || k == "format"@
    || k == "maxItems"@
    || k == "minItems"@
    || k == "uniqueItems"@
    || k == "maxContains"@
    || k == "minContains"@
    || k == "maxProperties"@
    || k == "minProperties"@
    || k == "required"@
    || k == "dependentRequired"@
    || k == "allOf"@
    || k == "anyOf"@
    || k == "oneOf"@
    || k == "not"@
    || k == "if"@
    || k == "then"@
    || k == "else"@
    || k == "dependentSchemas"@
    || k == "prefixItems"@
    || k == "items"@
    || k == "contains"@
    || k == "properties"@
    || k == "patternProperties"@
    || k == "additionalProperties"@
    || k == "propertyNames"@
    || k == "unevaluatedItems"@
    || k == "unevaluatedProperties"@
    || k == "contentEncoding"@
    || k == "contentMediaType"@
    || k == "contentSchema"@
}

/// The keywords `$schema`, `$id`, `$anchor`, `$dynamicAnchor`, `$ref`, `$dynamicRef`, `$defs`, `$comment` of an object.
pub open spec fn keywords_0(j: Json) -> Option<(Option<Seq<char>>, Option<Seq<char>>, Option<Seq<char>>, Option<Seq<char>>, Option<Seq<char>>, Option<Seq<char>>, Option<Seq<(Seq<char>, SchemaModel)>>, Option<Seq<char>>)>
    decreases j, 1int,
{
    match j {
        Json::Object(m) => {
            let f_schema = dec_str(map_get(m, "$schema"@));
            let f_id = dec_str(map_get(m, "$id"@));
            let f_anchor = dec_str(map_get(m, "$anchor"@));
            let f_dynamic_anchor = dec_str(map_get(m, "$dynamicAnchor"@));
            let f_ref_ = dec_str(map_get(m, "$ref"@));
            let f_dynamic_ref = dec_str(map_get(m, "$dynamicRef"@));
            let f_defs = dec_map(j, "$defs"@);
            let f_comment = dec_str(map_get(m, "$comment"@));
            if f_schema is Some && f_id is Some && f_anchor is Some && f_dynamic_anchor is Some && f_ref_ is Some && f_dynamic_ref is Some && f_defs is Some && f_comment is Some {
                Some((f_schema->Some_0, f_id->Some_0, f_anchor->Some_0, f_dynamic_anchor->Some_0, f_ref_->Some_0, f_dynamic_ref->Some_0, f_defs->Some_0, f_comment->Some_0))
            } else {
                None
            }
        },
        _ => None,
    }
}

/// The keywords `title`, `description`, `default`, `deprecated`, `readOnly`, `writeOnly`, `examples`, `type` of an object.
pub open spec fn keywords_1(j: Json) -> Option<(Option<Seq<char>>, Option<Seq<char>>, Option<Json>, Option<bool>, Option<bool>, Option<bool>, Option<Seq<Json>>, Option<TypeModel>)>
    decreases j, 1int,
{
    match j {
        Json::Object(m) => {
            let f_title = dec_str(map_get(m, "title"@));
            let f_description = dec_str(map_get(m, "description"@));
            let f_default = dec_value(map_get(m, "default"@));
            let f_deprecated = dec_bool(map_get(m, "deprecated"@));
            let f_read_only = dec_bool(map_get(m, "readOnly"@));
            let f_write_only = dec_bool(map_get(m, "writeOnly"@));
            let f_examples = dec_values(map_get(m, "examples"@));
            let f_type_ = dec_type(map_get(m, "type"@));
            if f_title is Some && f_description is Some && f_default is Some && f_deprecated is Some && f_read_only is Some && f_write_only is Some && f_examples is Some && f_type_ is Some {
                Some((f_title->Some_0, f_description->Some_0, f_default->Some_0, f_deprecated->Some_0, f_read_only->Some_0, f_write_only->Some_0, f_examples->Some_0, f_type_->Some_0))
            } else {
                None
            }
        },
        _ => None,
    }
}

/// The keywords `enum`, `const`, `multipleOf`, `maximum`, `exclusiveMaximum`, `minimum`, `exclusiveMinimum`, `maxLength` of an object.
pub open spec fn keywords_2(j: Json) -> Option<(Option<Seq<Json>>, Option<Json>, Option<u64>, Option<u64>, Option<u64>, Option<u64>, Option<u64>, Option<u64>)>
    decreases j, 1int,
{
    match j {
        Json::Object(m) => {
            let f_enum_ = dec_values(map_get(m, "enum"@));
            let f_const_ = dec_value(map_get(m, "const"@));
            let f_multiple_of = dec_number(map_get(m, "multipleOf"@));
            let f_maximum = dec_number(map_get(m, "maximum"@));
            let f_exclusive_maximum = dec_bound(map_get(m, "exclusiveMaximum"@));
            let f_minimum = dec_number(map_get(m, "minimum"@));
            let f_exclusive_minimum = dec_bound(map_get(m, "exclusiveMinimum"@));
            let f_max_length = dec_count(map_get(m, "maxLength"@));
            if f_enum_ is Some && f_const_ is Some && f_multiple_of is Some && f_maximum is Some && f_exclusive_maximum is Some && f_minimum is Some && f_exclusive_minimum is Some && f_max_length is Some {
                Some((f_enum_->Some_0, f_const_->Some_0, f_multiple_of->Some_0, f_maximum->Some_0, f_exclusive_maximum->Some_0, f_minimum->Some_0, f_exclusive_minimum->Some_0, f_max_length->Some_0))
            } else {
                None
            }
        },
        _ => None,
    }
}

/// The keywords `minLength`, `pattern`, `format`, `maxItems`, `minItems`, `uniqueItems`, `maxContains`, `minContains` of an object.
pub open spec fn keywords_3(j: Json) -> Option<(Option<u64>, Option<Seq<char>>, Option<Seq<char>>, Option<u64>, Option<u64>, Option<bool>, Option<u64>, Option<u64>)>
    decreases j, 1int,
{
    match j {
        Json::Object(m) => {
            let f_min_length = dec_count(map_get(m, "minLength"@));
            let f_pattern = dec_str(map_get(m, "pattern"@));
            let f_format = dec_str(map_get(m, "format"@));
            let f_max_items = dec_count(map_get(m, "maxItems"@));
            let f_min_items = dec_count(map_get(m, "minItems"@));
            let f_unique_items = dec_bool(map_get(m, "uniqueItems"@));
            let f_max_contains = dec_count(map_get(m, "maxContains"@));
            let f_min_contains = dec_count(map_get(m, "minContains"@));
            if f_min_length is Some && f_pattern is Some && f_format is Some && f_max_items is Some && f_min_items is Some && f_unique_items is Some && f_max_contains is Some && f_min_contains is Some {
                Some((f_min_length->Some_0, f_pattern->Some_0, f_format->Some_0, f_max_items->Some_0, f_min_items->Some_0, f_unique_items->Some_0, f_max_contains->Some_0, f_min_contains->Some_0))
            } else {
                None
            }
        },
        _ => None,
    }
}

/// The keywords `maxProperties`, `minProperties`, `required`, `dependentRequired`, `allOf`, `anyOf`, `oneOf`, `not` of an object.
pub open spec fn keywords_4(j: Json) -> Option<(Option<u64>, Option<u64>, Option<Seq<Seq<char>>>, Option<Seq<(Seq<char>, Seq<Seq<char>>)>>, Option<Seq<SchemaModel>>, Option<Seq<SchemaModel>>, Option<Seq<SchemaModel>>, Option<Box<SchemaModel>>)>
    decreases j, 1int,
{
    match j {
        Json::Object(m) => {
            let f_max_properties = dec_count(map_get(m, "maxProperties"@));
            let f_min_properties = dec_count(map_get(m, "minProperties"@));
            let f_required = dec_names(map_get(m, "required"@));
            let f_dependent_required = dec_dep_req(map_get(m, "dependentRequired"@));
            let f_all_of = dec_list(j, "allOf"@);
            let f_any_of = dec_list(j, "anyOf"@);
            let f_one_of = dec_list(j, "oneOf"@);
            let f_not = dec_box(j, "not"@);
            if f_max_properties is Some && f_min_properties is Some && f_required is Some && f_dependent_required is Some && f_all_of is Some && f_any_of is Some && f_one_of is Some && f_not is Some {
                Some((f_max_properties->Some_0, f_min_properties->Some_0, f_required->Some_0, f_dependent_required->Some_0, f_all_of->Some_0, f_any_of->Some_0, f_one_of->Some_0, f_not->Some_0))
            } else {
                None
            }
        },
        _ => None,
    }
}

/// The keywords `if`, `then`, `else`, `dependentSchemas`, `prefixItems`, `items`, `contains`, `properties` of an object.
pub open spec fn keywords_5(j: Json) -> Option<(Option<Box<SchemaModel>>, Option<Box<SchemaModel>>, Option<Box<SchemaModel>>, Option<Seq<(Seq<char>, SchemaModel)>>, Option<Seq<SchemaModel>>, Option<Box<SchemaModel>>, Option<Box<SchemaModel>>, Option<Seq<(Seq<char>, SchemaModel)>>)>
    decreases j, 1int,
{
    match j {
        Json::Object(m) => {
            let f_if_ = dec_box(j, "if"@);
            let f_then_ = dec_box(j, "then"@);
            let f_else_ = dec_box(j, "else"@);
            let f_dependent_schemas = dec_map(j, "dependentSchemas"@);
            let f_prefix_items = dec_list(j, "prefixItems"@);
            let f_items = dec_items(j, "items"@);
            let f_contains = dec_box(j, "contains"@);
            let f_properties = dec_map(j, "properties"@);
            if f_if_ is Some && f_then_ is Some && f_else_ is Some && f_dependent_schemas is Some && f_prefix_items is Some && f_items is Some && f_contains is Some && f_properties is Some {
                Some((f_if_->Some_0, f_then_->Some_0, f_else_->Some_0, f_dependent_schemas->Some_0, f_prefix_items->Some_0, f_items->Some_0, f_contains->Some_0, f_properties->Some_0))
            } else {
                None
            }
        },
        _ => None,
    }
}

/// The keywords `patternProperties`, `additionalProperties`, `propertyNames`, `unevaluatedItems`, `unevaluatedProperties`, `contentEncoding`, `contentMediaType`, `contentSchema` of an object.
pub open spec fn keywords_6(j: Json) -> Option<(Option<Seq<(Seq<char>, SchemaModel)>>, Option<AddPropsModel>, Option<Box<SchemaModel>>, Option<Box<SchemaModel>>, Option<Box<SchemaModel>>, Option<Seq<char>>, Option<Seq<char>>, Option<Box<SchemaModel>>)>
    decreases j, 1int,
{
    match j {
        Json::Object(m) => {
            let f_pattern_properties = dec_map(j, "patternProperties"@);
            let f_additional_properties = dec_add(j, "additionalProperties"@);
            let f_property_names = dec_box(j, "propertyNames"@);
            let f_unevaluated_items = dec_box(j, "unevaluatedItems"@);
            let f_unevaluated_properties = dec_box(j, "unevaluatedProperties"@);
            let f_content_encoding = dec_str(map_get(m, "contentEncoding"@));
            let f_content_media_type = dec_str(map_get(m, "contentMediaType"@));
            let f_content_schema = dec_box(j, "contentSchema"@);
            if f_pattern_properties is Some && f_additional_properties is Some && f_property_names is Some && f_unevaluated_items is Some && f_unevaluated_properties is Some && f_content_encoding is Some && f_content_media_type is Some && f_content_schema is Some {
                Some((f_pattern_properties->Some_0, f_additional_properties->Some_0, f_property_names->Some_0, f_unevaluated_items->Some_0, f_unevaluated_properties->Some_0, f_content_encoding->Some_0, f_content_media_type->Some_0, f_content_schema->Some_0))
            } else {
                None
            }
        },
        _ => None,
    }
}

/// The schema a JSON document reads as: an object, each keyword member
/// read by its kind (an absent or `null` member gives nothing), every other
/// member kept as an extension, in order; `None` when the document is not
/// an object or a keyword member (at any depth) holds a value of the wrong
/// kind.
pub open spec fn decode_schema(j: Json) -> Option<SchemaModel>
    decreases j, 2int,
{
    match j {
        Json::Object(m) => {
            let g0 = keywords_0(j);
            let g1 = keywords_1(j);
            let g2 = keywords_2(j);
            let g3 = keywords_3(j);
            let g4 = keywords_4(j);
            let g5 = keywords_5(j);
            let g6 = keywords_6(j);
            if g0 is Some && g1 is Some && g2 is Some && g3 is Some && g4 is Some && g5 is Some && g6 is Some {
                Some(SchemaModel {
                    schema: g0->Some_0.0,
                    id: g0->Some_0.1,
                    anchor: g0->Some_0.2,
                    dynamic_anchor: g0->Some_0.3,
                    ref_: g0->Some_0.4,
                    dynamic_ref: g0->Some_0.5,
                    defs: g0->Some_0.6,
                    comment: g0->Some_0.7,
                    title: g1->Some_0.0,
                    description: g1->Some_0.1,
                    default: g1->Some_0.2,
                    deprecated: g1->Some_0.3,
                    read_only: g1->Some_0.4,
                    write_only: g1->Some_0.5,
                    examples: g1->Some_0.6,
                    type_: g1->Some_0.7,
                    enum_: g2->Some_0.0,
                    const_: g2->Some_0.1,
                    multiple_of: g2->Some_0.2,
                    maximum: g2->Some_0.3,
                    exclusive_maximum: g2->Some_0.4,
                    minimum: g2->Some_0.5,
                    exclusive_minimum: g2->Some_0.6,
                    max_length: g2->Some_0.7,
                    min_length: g3->Some_0.0,
                    pattern: g3->Some_0.1,
                    format: g3->Some_0.2,
                    max_items: g3->Some_0.3,
                    min_items: g3->Some_0.4,
                    unique_items: g3->Some_0.5,
                    max_contains: g3->Some_0.6,
                    min_contains: g3->Some_0.7,
                    max_properties: g4->Some_0.0,
                    min_properties: g4->Some_0.1,
                    required: g4->Some_0.2,
                    dependent_required: g4->Some_0.3,
                    all_of: g4->Some_0.4,
                    any_of: g4->Some_0.5,
                    one_of: g4->Some_0.6,
                    not: g4->Some_0.7,
                    if_: g5->Some_0.0,
                    then_: g5->Some_0.1,
                    else_: g5->Some_0.2,
                    dependent_schemas: g5->Some_0.3,
                    prefix_items: g5->Some_0.4,
                    items: g5->Some_0.5,
                    contains: g5->Some_0.6,
                    properties: g5->Some_0.7,
                    pattern_properties: g6->Some_0.0,
                    additional_properties: g6->Some_0.1,
                    property_names: g6->Some_0.2,
                    unevaluated_items: g6->Some_0.3,
                    unevaluated_properties: g6->Some_0.4,
                    content_encoding: g6->Some_0.5,
                    content_media_type: g6->Some_0.6,
                    content_schema: g6->Some_0.7,
                    extensions: unknown_entries(m),
                })
            } else {
                None
            }
        },
        _ => None,
    }
}

// ── Reading, executable ──

pub open spec fn opt_view(f: Option<&JsonValue>) -> Option<Json> {
    match f {
        Some(x) => Some(x@),
        None => None,
    }
}

pub open spec fn lift_str(r: Option<Option<String>>) -> Option<Option<Seq<char>>> {
    match r {
        Some(o) => Some(str_opt_model(o)),
        None => None,
    }
}

pub open spec fn lift_json(r: Option<Option<JsonValue>>) -> Option<Option<Json>> {
    match r {
        Some(o) => Some(json_opt_model(o)),
        None => None,
    }
}

pub open spec fn lift_values(r: Option<Option<Vec<JsonValue>>>) -> Option<Option<Seq<Json>>> {
    match r {
        Some(o) => Some(json_list_model(o)),
        None => None,
    }
}

pub open spec fn lift_names(r: Option<Option<Vec<String>>>) -> Option<Option<Seq<Seq<char>>>> {
    match r {
        Some(o) => Some(str_list_model(o)),
        None => None,
    }
}

pub open spec fn lift_type(r: Option<Option<SchemaTypeValue>>) -> Option<Option<TypeModel>> {
    match r {
        Some(o) => Some(type_opt_model(o)),
        None => None,
    }
}

pub open spec fn lift_dep(r: Option<Option<Vec<(String, Vec<String>)>>>) -> Option<Option<Seq<(Seq<char>, Seq<Seq<char>>)>>> {
    match r {
        Some(o) => Some(dep_req_model(o)),
        None => None,
    }
}

pub open spec fn lift_box(r: Option<Option<Box<Schema>>>) -> Option<Option<Box<SchemaModel>>> {
    match r {
        Some(o) => Some(schema_box_model(o)),
        None => None,
    }
}

pub open spec fn lift_add(r: Option<Option<AdditionalProperties>>) -> Option<Option<AddPropsModel>> {
    match r {
        Some(o) => Some(add_props_model(o)),
        None => None,
    }
}

pub open spec fn lift_list(r: Option<Option<Vec<Schema>>>) -> Option<Option<Seq<SchemaModel>>> {
    match r {
        Some(o) => Some(schema_list_model(o)),
        None => None,
    }
}

pub open spec fn lift_map(r: Option<Option<Vec<(String, Schema)>>>) -> Option<Option<Seq<(Seq<char>, SchemaModel)>>> {
    match r {
        Some(o) => Some(schema_map_opt_model(o)),
        None => None,
    }
}

/// The member under `k`.
fn member<'a>(m: &'a Vec<(String, JsonValue)>, k: &str) -> (r: Option<&'a JsonValue>)
    ensures
        opt_view(r) == map_get(entries_view(m@), k@),
{
    proof {
        lemma_key_pos_bounds(m@, k@);
        lemma_map_find_key_pos(m@, entries_view(m@), k@);
    }
    match find_key(m, k) {
        Some(i) => Some(&m[i].1),
        None => None,
    }
}

fn read_str(f: Option<&JsonValue>) -> (r: Option<Option<String>>)
    ensures
        lift_str(r) == dec_str(opt_view(f)),
{
    match f {
        None => Some(None),
        Some(JsonValue::Null) => Some(None),
        Some(JsonValue::String(s)) => Some(Some(s.clone())),
        Some(_) => None,
    }
}

fn read_bool(f: Option<&JsonValue>) -> (r: Option<Option<bool>>)
    ensures
        r == dec_bool(opt_view(f)),
{
    match f {
        None => Some(None),
        Some(JsonValue::Null) => Some(None),
        Some(JsonValue::Bool(b)) => Some(Some(*b)),
        Some(_) => None,
    }
}

fn read_count(f: Option<&JsonValue>) -> (r: Option<Option<u64>>)
    ensures
        r == dec_count(opt_view(f)),
{
    match f {
        None => Some(None),
        Some(JsonValue::Null) => Some(None),
        Some(JsonValue::Number(JsonNumber::PosInt(n))) => Some(Some(*n)),
        Some(_) => None,
    }
}

fn read_number(f: Option<&JsonValue>) -> (r: Option<Option<u64>>)
    ensures
        r == dec_number(opt_view(f)),
{
    match f {
        None => Some(None),
        Some(JsonValue::Null) => Some(None),
        Some(JsonValue::Number(n)) => Some(Some(number_to_f64_bits(n))),
        Some(_) => None,
    }
}

fn read_bound(f: Option<&JsonValue>) -> (r: Option<Option<u64>>)
    ensures
        r == dec_bound(opt_view(f)),
{
    match f {
        Some(JsonValue::Bool(_)) => Some(None),
        _ => read_number(f),
    }
}

/// Whether a member is a Draft-04 form of a keyword.
fn is_legacy(k: &str, v: &JsonValue) -> (r: bool)
    ensures
        r == is_legacy_member(k@, v@),
{
    match v {
        JsonValue::Bool(_) => str_eq(k, "exclusiveMaximum") || str_eq(k, "exclusiveMinimum"),
        JsonValue::Array(_) => str_eq(k, "items"),
        _ => false,
    }
}

fn read_value(f: Option<&JsonValue>) -> (r: Option<Option<JsonValue>>)
    ensures
        lift_json(r) == dec_value(opt_view(f)),
{
    match f {
        None => Some(None),
        Some(x) => Some(Some(x.deep_copy())),
    }
}

fn read_values(f: Option<&JsonValue>) -> (r: Option<Option<Vec<JsonValue>>>)
    ensures
        lift_values(r) == dec_values(opt_view(f)),
{
    match f {
        None => Some(None),
        Some(JsonValue::Null) => Some(None),
        Some(JsonValue::Array(a)) => {
            proof {
                lemma_array_view(*f.unwrap());
                assert(json_seq_model(a@) =~= a@.map_values(|x: JsonValue| x@));
            }
            Some(Some(clone_json_vec(a)))
        },
        Some(_) => None,
    }
}

/// The strings of a list, if every element is one.
fn read_string_list(a: &Vec<JsonValue>) -> (r: Option<Vec<String>>)
    ensures
        match r {
            Some(v) => all_strs(json_seq_model(a@)) && str_seq_model(v@) == strs_of(json_seq_model(a@)),
            None => !all_strs(json_seq_model(a@)),
        },
{
    let mut out: Vec<String> = Vec::new();
    let mut i: usize = 0;
    while i < a.len()
        invariant
            i <= a@.len(),
            out@.len() == i,
            forall|p: int| 0 <= p < i ==> (#[trigger] json_seq_model(a@)[p]) is Str,
            forall|p: int| 0 <= p < i ==> #[trigger] out@[p]@ == json_seq_model(a@)[p]->Str_0,
        decreases a.len() - i,
    {
        match &a[i] {
            JsonValue::String(s) => {
                out.push(s.clone());
            },
            _ => {
                assert(!(json_seq_model(a@)[i as int] is Str));
                return None;
            },
        }
        i = i + 1;
    }
    assert(str_seq_model(out@) =~= strs_of(json_seq_model(a@)));
    Some(out)
}

fn read_names(f: Option<&JsonValue>) -> (r: Option<Option<Vec<String>>>)
    ensures
        lift_names(r) == dec_names(opt_view(f)),
{
    match f {
        None => Some(None),
        Some(JsonValue::Null) => Some(None),
        Some(JsonValue::Array(a)) => {
            proof {
                lemma_array_view(*f.unwrap());
                assert(json_seq_model(a@) =~= a@.map_values(|x: JsonValue| x@));
            }
            match read_string_list(a) {
                Some(v) => Some(Some(v)),
                None => None,
            }
        },
        Some(_) => None,
    }
}

fn read_type(f: Option<&JsonValue>) -> (r: Option<Option<SchemaTypeValue>>)
    ensures
        lift_type(r) == dec_type(opt_view(f)),
{
    match f {
        None => Some(None),
        Some(JsonValue::Null) => Some(None),
        Some(JsonValue::String(s)) => Some(Some(SchemaTypeValue::Single(s.clone()))),
        Some(JsonValue::Array(a)) => {
            proof {
                lemma_array_view(*f.unwrap());
                assert(json_seq_model(a@) =~= a@.map_values(|x: JsonValue| x@));
            }
            match read_string_list(a) {
                Some(v) => Some(Some(SchemaTypeValue::Array(v))),
                None => None,
            }
        },
        Some(_) => None,
    }
}

#[verifier::loop_isolation(false)]
fn read_dep_req(f: Option<&JsonValue>) -> (r: Option<Option<Vec<(String, Vec<String>)>>>)
    ensures
        lift_dep(r) == dec_dep_req(opt_view(f)),
{
    match f {
        None => Some(None),
        Some(JsonValue::Null) => Some(None),
        Some(JsonValue::Object(o)) => {
            let ghost ov = entries_view(o@);
            proof {
                lemma_object_view(*f.unwrap());
            }
            let mut out: Vec<(String, Vec<String>)> = Vec::new();
            let mut i: usize = 0;
            while i < o.len()
                invariant
                    i <= o@.len(),
                    out@.len() == i,
                    forall|p: int| 0 <= p < i ==> #[trigger] is_names(ov[p].1),
                    forall|p: int| 0 <= p < i ==> #[trigger] dep_req_seq_model(out@)[p] == (ov[p].0, strs_of(ov[p].1->Array_0)),
                decreases o.len() - i,
            {
                match &o[i].1 {
                    JsonValue::Array(a) => {
                        proof {
                            lemma_array_view(o@[i as int].1);
                            assert(json_seq_model(a@) =~= a@.map_values(|x: JsonValue| x@));
                        }
                        match read_string_list(a) {
                            Some(v) => {
                                let ghost before = out@;
                                out.push((o[i].0.clone(), v));
                                proof {
                                    assert forall|p: int| 0 <= p < i + 1 implies #[trigger] dep_req_seq_model(out@)[p] == (ov[p].0, strs_of(ov[p].1->Array_0)) by {
                                        if p < i {
                                            assert(out@[p] == before[p]);
                                            assert(dep_req_seq_model(before)[p] == (ov[p].0, strs_of(ov[p].1->Array_0)));
                                        }
                                    }
                                }
                            },
                            None => {
                                assert(!is_names(ov[i as int].1));
                                return None;
                            },
                        }
                    },
                    _ => {
                        assert(!is_names(ov[i as int].1));
                        return None;
                    },
                }
                i = i + 1;
            }
            assert(dep_req_seq_model(out@) =~= Seq::new(ov.len(), |p: int| (ov[p].0, strs_of(ov[p].1->Array_0))));
            Some(Some(out))
        },
        Some(_) => None,
    }
}

/// Whether a member name is a schema keyword.
fn is_keyword_name(k: &str) -> (r: bool)
    ensures
        r == is_keyword(k@),
{
    str_eq(k, "$schema")
        || str_eq(k, "$id")
        || str_eq(k, "$anchor")
        || str_eq(k, "$dynamicAnchor")
        || str_eq(k, "$ref")
        || str_eq(k, "$dynamicRef")
        || str_eq(k, "$defs")
        || str_eq(k, "$comment")
        || str_eq(k, "title")
        || str_eq(k, "description")
        || str_eq(k, "default")
        || str_eq(k, "deprecated")
        || str_eq(k, "readOnly")
        || str_eq(k, "writeOnly")
        || str_eq(k, "examples")
        || str_eq(k, "type")
        || str_eq(k, "enum")
        || str_eq(k, "const")
        || str_eq(k, "multipleOf")
        || str_eq(k, "maximum")
        || str_eq(k, "exclusiveMaximum")
        || str_eq(k, "minimum")
        || str_eq(k, "exclusiveMinimum")
        || str_eq(k, "maxLength")
        || str_eq(k, "minLength")
        || str_eq(k, "pattern")
        || str_eq(k, "format")
        || str_eq(k, "maxItems")
        || str_eq(k, "minItems")
        || str_eq(k, "uniqueItems")
        || str_eq(k, "maxContains")
        || str_eq(k, "minContains")
        || str_eq(k, "maxProperties")
        || str_eq(k, "minProperties")
        || str_eq(k, "required")
        || str_eq(k, "dependentRequired")
        || str_eq(k, "allOf")
        || str_eq(k, "anyOf")
        || str_eq(k, "oneOf")
        || str_eq(k, "not")
        || str_eq(k, "if")
        || str_eq(k, "then")
        || str_eq(k, "else")
        || str_eq(k, "dependentSchemas")
        || str_eq(k, "prefixItems")
        || str_eq(k, "items")
        || str_eq(k, "contains")
        || str_eq(k, "properties")
        || str_eq(k, "patternProperties")
        || str_eq(k, "additionalProperties")
        || str_eq(k, "propertyNames")
        || str_eq(k, "unevaluatedItems")
        || str_eq(k, "unevaluatedProperties")
        || str_eq(k, "contentEncoding")
        || str_eq(k, "contentMediaType")
        || str_eq(k, "contentSchema")
}

/// The members that are not keywords, and the Draft-04 forms of
/// keywords, copied in order.
fn unknown_members(m: &Vec<(String, JsonValue)>) -> (r: Vec<(String, JsonValue)>)
    ensures
        ext_model(r@) == unknown_entries(entries_view(m@)),
{
    let ghost ev = entries_view(m@);
    let mut out: Vec<(String, JsonValue)> = Vec::new();
    let mut i: usize = 0;
    assert(ev.take(0) =~= Seq::<(Seq<char>, Json)>::empty());
    assert(ext_model(out@) =~= Seq::<(Seq<char>, Json)>::empty());
    while i < m.len()
        invariant
            i <= m@.len(),
            ev == entries_view(m@),
            ext_model(out@) == unknown_entries(ev.take(i as int)),
        decreases m.len() - i,
    {
        assert(ev.take(i + 1).drop_last() =~= ev.take(i as int));
        assert(ev.take(i + 1).last() == ev[i as int]);
        if !is_keyword_name(m[i].0.as_str()) || is_legacy(m[i].0.as_str(), &m[i].1) {
            let ghost before = out@;
            let k = m[i].0.clone();
            let c = m[i].1.deep_copy();
            out.push((k, c));
            assert(ext_model(out@) =~= ext_model(before).push(ev[i as int]));
        }
        i = i + 1;
    }
    assert(ev.take(m@.len() as int) =~= ev);
    out
}

// ── Members holding schemas, executable ──

fn read_box(v: &JsonValue, k: &str) -> (r: Option<Option<Box<Schema>>>)
    ensures
        lift_box(r) == dec_box(v@, k@),
    decreases v, 0int,
{
    match v {
        JsonValue::Object(m) => {
            proof {
                lemma_object_view(*v);
                lemma_key_pos_bounds(m@, k@);
                lemma_map_find_key_pos(m@, entries_view(m@), k@);
            }
            match find_key(m, k) {
                Some(i) => {
                    let e = &m[i].1;
                    if e.is_null() {
                        Some(None)
                    } else {
                        proof {
                            assert(decreases_to!(v => m@[i as int].1));
                        }
                        match schema_from_json(e) {
                            Some(s) => Some(Some(Box::new(s))),
                            None => None,
                        }
                    }
                },
                None => Some(None),
            }
        },
        _ => Some(None),
    }
}

fn read_items(v: &JsonValue, k: &str) -> (r: Option<Option<Box<Schema>>>)
    ensures
        lift_box(r) == dec_items(v@, k@),
    decreases v, 0int,
{
    match v {
        JsonValue::Object(m) => {
            proof {
                lemma_object_view(*v);
                lemma_key_pos_bounds(m@, k@);
                lemma_map_find_key_pos(m@, entries_view(m@), k@);
            }
            match find_key(m, k) {
                Some(i) => {
                    let e = &m[i].1;
                    if e.is_null() || e.is_array() {
                        Some(None)
                    } else {
                        proof {
                            assert(decreases_to!(v => m@[i as int].1));
                        }
                        match schema_from_json(e) {
                            Some(s) => Some(Some(Box::new(s))),
                            None => None,
                        }
                    }
                },
                None => Some(None),
            }
        },
        _ => Some(None),
    }
}

fn read_add(v: &JsonValue, k: &str) -> (r: Option<Option<AdditionalProperties>>)
    ensures
        lift_add(r) == dec_add(v@, k@),
    decreases v, 0int,
{
    match v {
        JsonValue::Object(m) => {
            proof {
                lemma_object_view(*v);
                lemma_key_pos_bounds(m@, k@);
                lemma_map_find_key_pos(m@, entries_view(m@), k@);
            }
            match find_key(m, k) {
                Some(i) => {
                    let e = &m[i].1;
                    match e {
                        JsonValue::Null => Some(None),
                        JsonValue::Bool(b) => Some(Some(AdditionalProperties::Bool(*b))),
                        _ => {
                            proof {
                                assert(decreases_to!(v => m@[i as int].1));
                            }
                            match schema_from_json(e) {
                                Some(s) => Some(Some(AdditionalProperties::Schema(Box::new(s)))),
                                None => None,
                            }
                        },
                    }
                },
                None => Some(None),
            }
        },
        _ => Some(None),
    }
}

proof fn lemma_decode_all_prefix(a: Seq<Json>, n: int)
    requires
        0 <= n <= a.len(),
        decode_all(a.take(n)) is None,
    ensures
        decode_all(a) is None,
    decreases a.len(),
{
    if n < a.len() {
        let b = a.subrange(0, a.len() - 1);
        assert(b.take(n) =~= a.take(n));
        lemma_decode_all_prefix(b, n);
    } else {
        assert(a.take(n) =~= a);
    }
}

proof fn lemma_decode_members_prefix(o: Seq<(Seq<char>, Json)>, n: int)
    requires
        0 <= n <= o.len(),
        decode_members(o.take(n)) is None,
    ensures
        decode_members(o) is None,
    decreases o.len(),
{
    if n < o.len() {
        let b = o.subrange(0, o.len() - 1);
        assert(b.take(n) =~= o.take(n));
        lemma_decode_members_prefix(b, n);
    } else {
        assert(o.take(n) =~= o);
    }
}

#[verifier::loop_isolation(false)]
fn read_list(v: &JsonValue, k: &str) -> (r: Option<Option<Vec<Schema>>>)
    ensures
        lift_list(r) == dec_list(v@, k@),
    decreases v, 0int,
{
    match v {
        JsonValue::Object(m) => {
            proof {
                lemma_object_view(*v);
                lemma_key_pos_bounds(m@, k@);
                lemma_map_find_key_pos(m@, entries_view(m@), k@);
            }
            match find_key(m, k) {
                Some(i) => {
                    let e = &m[i].1;
                    assert(entries_view(m@)[i as int].1 == e@);
                    match e {
                        JsonValue::Null => Some(None),
                        JsonValue::Array(a) => {
                            let ghost av = e@->Array_0;
                            proof {
                                lemma_array_view(*e);
                                assert(decreases_to!(v => m@[i as int].1));
                                assert(av.take(0) =~= Seq::<Json>::empty());
                                assert(schemas_model(Seq::<Schema>::empty()) =~= Seq::<SchemaModel>::empty());
                            }
                            let mut out: Vec<Schema> = Vec::new();
                            let mut q: usize = 0;
                            while q < a.len()
                                invariant
                                    q <= a@.len(),
                                    decode_all(av.take(q as int)) == Some(schemas_model(out@)),
                                decreases a.len() - q,
                            {
                                proof {
                                    assert(decreases_to!(*e => a@[q as int]));
                                    assert(av[q as int] == a@[q as int]@);
                                    assert(av.take(q + 1).subrange(0, q as int) =~= av.take(q as int));
                                    assert(av.take(q + 1)[q as int] == av[q as int]);
                                }
                                match schema_from_json(&a[q]) {
                                    Some(s) => {
                                        let ghost before = out@;
                                        out.push(s);
                                        proof {
                                            assert(schemas_model(out@) =~= schemas_model(before).push(s@));
                                        }
                                    },
                                    None => {
                                        proof {
                                            lemma_decode_all_prefix(av, q + 1);
                                        }
                                        return None;
                                    },
                                }
                                q = q + 1;
                            }
                            proof {
                                assert(av.take(av.len() as int) =~= av);
                            }
                            Some(Some(out))
                        },
                        _ => None,
                    }
                },
                None => Some(None),
            }
        },
        _ => Some(None),
    }
}

#[verifier::loop_isolation(false)]
fn read_map(v: &JsonValue, k: &str) -> (r: Option<Option<Vec<(String, Schema)>>>)
    ensures
        lift_map(r) == dec_map(v@, k@),
    decreases v, 0int,
{
    match v {
        JsonValue::Object(m) => {
            proof {
                lemma_object_view(*v);
                lemma_key_pos_bounds(m@, k@);
                lemma_map_find_key_pos(m@, entries_view(m@), k@);
            }
            match find_key(m, k) {
                Some(i) => {
                    let e = &m[i].1;
                    assert(entries_view(m@)[i as int].1 == e@);
                    match e {
                        JsonValue::Null => Some(None),
                        JsonValue::Object(o) => {
                            let ghost ov = e@->Object_0;
                            proof {
                                lemma_object_view(*e);
                                assert(decreases_to!(v => m@[i as int].1));
                                assert(ov.take(0) =~= Seq::<(Seq<char>, Json)>::empty());
                                assert(schema_map_model(Seq::<(String, Schema)>::empty()) =~= Seq::<(Seq<char>, SchemaModel)>::empty());
                            }
                            let mut out: Vec<(String, Schema)> = Vec::new();
                            let mut q: usize = 0;
                            while q < o.len()
                                invariant
                                    q <= o@.len(),
                                    decode_members(ov.take(q as int)) == Some(schema_map_model(out@)),
                                decreases o.len() - q,
                            {
                                proof {
                                    assert(decreases_to!(*e => o@[q as int].1));
                                    assert(ov[q as int] == (o@[q as int].0@, o@[q as int].1@));
                                    assert(ov.take(q + 1).subrange(0, q as int) =~= ov.take(q as int));
                                    assert(ov.take(q + 1)[q as int] == ov[q as int]);
                                }
                                match schema_from_json(&o[q].1) {
                                    Some(s) => {
                                        let ghost before = out@;
                                        let key = o[q].0.clone();
                                        out.push((key, s));
                                        proof {
                                            assert(schema_map_model(out@) =~= schema_map_model(before).push((ov[q as int].0, s@)));
                                        }
                                    },
                                    None => {
                                        proof {
                                            lemma_decode_members_prefix(ov, q + 1);
                                        }
                                        return None;
                                    },
                                }
                                q = q + 1;
                            }
                            proof {
                                assert(ov.take(ov.len() as int) =~= ov);
                            }
                            Some(Some(out))
                        },
                        _ => None,
                    }
                },
                None => Some(None),
            }
        },
        _ => Some(None),
    }
}

pub open spec fn lift_keywords_0(r: Option<(Option<String>, Option<String>, Option<String>, Option<String>, Option<String>, Option<String>, Option<Vec<(String, Schema)>>, Option<String>)>) -> Option<(Option<Seq<char>>, Option<Seq<char>>, Option<Seq<char>>, Option<Seq<char>>, Option<Seq<char>>, Option<Seq<char>>, Option<Seq<(Seq<char>, SchemaModel)>>, Option<Seq<char>>)> {
    match r {
        Some(t) => Some((str_opt_model(t.0), str_opt_model(t.1), str_opt_model(t.2), str_opt_model(t.3), str_opt_model(t.4), str_opt_model(t.5), schema_map_opt_model(t.6), str_opt_model(t.7))),
        None => None,
    }
}

fn read_keywords_0(v: &JsonValue) -> (r: Option<(Option<String>, Option<String>, Option<String>, Option<String>, Option<String>, Option<String>, Option<Vec<(String, Schema)>>, Option<String>)>)
    ensures
        lift_keywords_0(r) == keywords_0(v@),
    decreases v, 1int,
{
    match v {
        JsonValue::Object(m) => {
            proof {
                lemma_object_view(*v);
            }
            let f_schema = read_str(member(m, "$schema"));
            let f_id = read_str(member(m, "$id"));
            let f_anchor = read_str(member(m, "$anchor"));
            let f_dynamic_anchor = read_str(member(m, "$dynamicAnchor"));
            let f_ref_ = read_str(member(m, "$ref"));
            let f_dynamic_ref = read_str(member(m, "$dynamicRef"));
            let f_defs = read_map(v, "$defs");
            let f_comment = read_str(member(m, "$comment"));
            if f_schema.is_none() || f_id.is_none() || f_anchor.is_none() || f_dynamic_anchor.is_none() || f_ref_.is_none() || f_dynamic_ref.is_none() || f_defs.is_none() || f_comment.is_none() {
                return None;
            }
            Some((f_schema.unwrap(), f_id.unwrap(), f_anchor.unwrap(), f_dynamic_anchor.unwrap(), f_ref_.unwrap(), f_dynamic_ref.unwrap(), f_defs.unwrap(), f_comment.unwrap()))
        },
        _ => None,
    }
}

pub open spec fn lift_keywords_1(r: Option<(Option<String>, Option<String>, Option<JsonValue>, Option<bool>, Option<bool>, Option<bool>, Option<Vec<JsonValue>>, Option<SchemaTypeValue>)>) -> Option<(Option<Seq<char>>, Option<Seq<char>>, Option<Json>, Option<bool>, Option<bool>, Option<bool>, Option<Seq<Json>>, Option<TypeModel>)> {
    match r {
        Some(t) => Some((str_opt_model(t.0), str_opt_model(t.1), json_opt_model(t.2), t.3, t.4, t.5, json_list_model(t.6), type_opt_model(t.7))),
        None => None,
    }
}

fn read_keywords_1(v: &JsonValue) -> (r: Option<(Option<String>, Option<String>, Option<JsonValue>, Option<bool>, Option<bool>, Option<bool>, Option<Vec<JsonValue>>, Option<SchemaTypeValue>)>)
    ensures
        lift_keywords_1(r) == keywords_1(v@),
    decreases v, 1int,
{
    match v {
        JsonValue::Object(m) => {
            proof {
                lemma_object_view(*v);
            }
            let f_title = read_str(member(m, "title"));
            let f_description = read_str(member(m, "description"));
            let f_default = read_value(member(m, "default"));
            let f_deprecated = read_bool(member(m, "deprecated"));
            let f_read_only = read_bool(member(m, "readOnly"));
            let f_write_only = read_bool(member(m, "writeOnly"));
            let f_examples = read_values(member(m, "examples"));
            let f_type_ = read_type(member(m, "type"));
            if f_title.is_none() || f_description.is_none() || f_default.is_none() || f_deprecated.is_none() || f_read_only.is_none() || f_write_only.is_none() || f_examples.is_none() || f_type_.is_none() {
                return None;
            }
            Some((f_title.unwrap(), f_description.unwrap(), f_default.unwrap(), f_deprecated.unwrap(), f_read_only.unwrap(), f_write_only.unwrap(), f_examples.unwrap(), f_type_.unwrap()))
        },
        _ => None,
    }
}

pub open spec fn lift_keywords_2(r: Option<(Option<Vec<JsonValue>>, Option<JsonValue>, Option<u64>, Option<u64>, Option<u64>, Option<u64>, Option<u64>, Option<u64>)>) -> Option<(Option<Seq<Json>>, Option<Json>, Option<u64>, Option<u64>, Option<u64>, Option<u64>, Option<u64>, Option<u64>)> {
    match r {
        Some(t) => Some((json_list_model(t.0), json_opt_model(t.1), t.2, t.3, t.4, t.5, t.6, t.7)),
        None => None,
    }
}

fn read_keywords_2(v: &JsonValue) -> (r: Option<(Option<Vec<JsonValue>>, Option<JsonValue>, Option<u64>, Option<u64>, Option<u64>, Option<u64>, Option<u64>, Option<u64>)>)
    ensures
        lift_keywords_2(r) == keywords_2(v@),
    decreases v, 1int,
{
    match v {
        JsonValue::Object(m) => {
            proof {
                lemma_object_view(*v);
            }
            let f_enum_ = read_values(member(m, "enum"));
            let f_const_ = read_value(member(m, "const"));
            let f_multiple_of = read_number(member(m, "multipleOf"));
            let f_maximum = read_number(member(m, "maximum"));
            let f_exclusive_maximum = read_bound(member(m, "exclusiveMaximum"));
            let f_minimum = read_number(member(m, "minimum"));
            let f_exclusive_minimum = read_bound(member(m, "exclusiveMinimum"));
            let f_max_length = read_count(member(m, "maxLength"));
            if f_enum_.is_none() || f_const_.is_none() || f_multiple_of.is_none() || f_maximum.is_none() || f_exclusive_maximum.is_none() || f_minimum.is_none() || f_exclusive_minimum.is_none() || f_max_length.is_none() {
                return None;
            }
            Some((f_enum_.unwrap(), f_const_.unwrap(), f_multiple_of.unwrap(), f_maximum.unwrap(), f_exclusive_maximum.unwrap(), f_minimum.unwrap(), f_exclusive_minimum.unwrap(), f_max_length.unwrap()))
        },
        _ => None,
    }
}

pub open spec fn lift_keywords_3(r: Option<(Option<u64>, Option<String>, Option<String>, Option<u64>, Option<u64>, Option<bool>, Option<u64>, Option<u64>)>) -> Option<(Option<u64>, Option<Seq<char>>, Option<Seq<char>>, Option<u64>, Option<u64>, Option<bool>, Option<u64>, Option<u64>)> {
    match r {
        Some(t) => Some((t.0, str_opt_model(t.1), str_opt_model(t.2), t.3, t.4, t.5, t.6, t.7)),
        None => None,
    }
}

fn read_keywords_3(v: &JsonValue) -> (r: Option<(Option<u64>, Option<String>, Option<String>, Option<u64>, Option<u64>, Option<bool>, Option<u64>, Option<u64>)>)
    ensures
        lift_keywords_3(r) == keywords_3(v@),
    decreases v, 1int,
{
    match v {
        JsonValue::Object(m) => {
            proof {
                lemma_object_view(*v);
            }
            let f_min_length = read_count(member(m, "minLength"));
            let f_pattern = read_str(member(m, "pattern"));
            let f_format = read_str(member(m, "format"));
            let f_max_items = read_count(member(m, "maxItems"));
            let f_min_items = read_count(member(m, "minItems"));
            let f_unique_items = read_bool(member(m, "uniqueItems"));
            let f_max_contains = read_count(member(m, "maxContains"));
            let f_min_contains = read_count(member(m, "minContains"));
            if f_min_length.is_none() || f_pattern.is_none() || f_format.is_none() || f_max_items.is_none() || f_min_items.is_none() || f_unique_items.is_none() || f_max_contains.is_none() || f_min_contains.is_none() {
                return None;
            }
            Some((f_min_length.unwrap(), f_pattern.unwrap(), f_format.unwrap(), f_max_items.unwrap(), f_min_items.unwrap(), f_unique_items.unwrap(), f_max_contains.unwrap(), f_min_contains.unwrap()))
        },
        _ => None,
    }
}

pub open spec fn lift_keywords_4(r: Option<(Option<u64>, Option<u64>, Option<Vec<String>>, Option<Vec<(String, Vec<String>)>>, Option<Vec<Schema>>, Option<Vec<Schema>>, Option<Vec<Schema>>, Option<Box<Schema>>)>) -> Option<(Option<u64>, Option<u64>, Option<Seq<Seq<char>>>, Option<Seq<(Seq<char>, Seq<Seq<char>>)>>, Option<Seq<SchemaModel>>, Option<Seq<SchemaModel>>, Option<Seq<SchemaModel>>, Option<Box<SchemaModel>>)> {
    match r {
        Some(t) => Some((t.0, t.1, str_list_model(t.2), dep_req_model(t.3), schema_list_model(t.4), schema_list_model(t.5), schema_list_model(t.6), schema_box_model(t.7))),
        None => None,
    }
}

fn read_keywords_4(v: &JsonValue) -> (r: Option<(Option<u64>, Option<u64>, Option<Vec<String>>, Option<Vec<(String, Vec<String>)>>, Option<Vec<Schema>>, Option<Vec<Schema>>, Option<Vec<Schema>>, Option<Box<Schema>>)>)
    ensures
        lift_keywords_4(r) == keywords_4(v@),
    decreases v, 1int,
{
    match v {
        JsonValue::Object(m) => {
            proof {
                lemma_object_view(*v);
            }
            let f_max_properties = read_count(member(m, "maxProperties"));
            let f_min_properties = read_count(member(m, "minProperties"));
            let f_required = read_names(member(m, "required"));
            let f_dependent_required = read_dep_req(member(m, "dependentRequired"));
            let f_all_of = read_list(v, "allOf");
            let f_any_of = read_list(v, "anyOf");
            let f_one_of = read_list(v, "oneOf");
            let f_not = read_box(v, "not");
            if f_max_properties.is_none() || f_min_properties.is_none() || f_required.is_none() || f_dependent_required.is_none() || f_all_of.is_none() || f_any_of.is_none() || f_one_of.is_none() || f_not.is_none() {
                return None;
            }
            Some((f_max_properties.unwrap(), f_min_properties.unwrap(), f_required.unwrap(), f_dependent_required.unwrap(), f_all_of.unwrap(), f_any_of.unwrap(), f_one_of.unwrap(), f_not.unwrap()))
        },
        _ => None,
    }
}

pub open spec fn lift_keywords_5(r: Option<(Option<Box<Schema>>, Option<Box<Schema>>, Option<Box<Schema>>, Option<Vec<(String, Schema)>>, Option<Vec<Schema>>, Option<Box<Schema>>, Option<Box<Schema>>, Option<Vec<(String, Schema)>>)>) -> Option<(Option<Box<SchemaModel>>, Option<Box<SchemaModel>>, Option<Box<SchemaModel>>, Option<Seq<(Seq<char>, SchemaModel)>>, Option<Seq<SchemaModel>>, Option<Box<SchemaModel>>, Option<Box<SchemaModel>>, Option<Seq<(Seq<char>, SchemaModel)>>)> {
    match r {
        Some(t) => Some((schema_box_model(t.0), schema_box_model(t.1), schema_box_model(t.2), schema_map_opt_model(t.3), schema_list_model(t.4), schema_box_model(t.5), schema_box_model(t.6), schema_map_opt_model(t.7))),
        None => None,
    }
}

fn read_keywords_5(v: &JsonValue) -> (r: Option<(Option<Box<Schema>>, Option<Box<Schema>>, Option<Box<Schema>>, Option<Vec<(String, Schema)>>, Option<Vec<Schema>>, Option<Box<Schema>>, Option<Box<Schema>>, Option<Vec<(String, Schema)>>)>)
    ensures
        lift_keywords_5(r) == keywords_5(v@),
    decreases v, 1int,
{
    match v {
        JsonValue::Object(m) => {
            proof {
                lemma_object_view(*v);
            }
            let f_if_ = read_box(v, "if");
            let f_then_ = read_box(v, "then");
            let f_else_ = read_box(v, "else");
            let f_dependent_schemas = read_map(v, "dependentSchemas");
            let f_prefix_items = read_list(v, "prefixItems");
            let f_items = read_items(v, "items");
            let f_contains = read_box(v, "contains");
            let f_properties = read_map(v, "properties");
            if f_if_.is_none() || f_then_.is_none() || f_else_.is_none() || f_dependent_schemas.is_none() || f_prefix_items.is_none() || f_items.is_none() || f_contains.is_none() || f_properties.is_none() {
                return None;
            }
            Some((f_if_.unwrap(), f_then_.unwrap(), f_else_.unwrap(), f_dependent_schemas.unwrap(), f_prefix_items.unwrap(), f_items.unwrap(), f_contains.unwrap(), f_properties.unwrap()))
        },
        _ => None,
    }
}

pub open spec fn lift_keywords_6(r: Option<(Option<Vec<(String, Schema)>>, Option<AdditionalProperties>, Option<Box<Schema>>, Option<Box<Schema>>, Option<Box<Schema>>, Option<String>, Option<String>, Option<Box<Schema>>)>) -> Option<(Option<Seq<(Seq<char>, SchemaModel)>>, Option<AddPropsModel>, Option<Box<SchemaModel>>, Option<Box<SchemaModel>>, Option<Box<SchemaModel>>, Option<Seq<char>>, Option<Seq<char>>, Option<Box<SchemaModel>>)> {
    match r {
        Some(t) => Some((schema_map_opt_model(t.0), add_props_model(t.1), schema_box_model(t.2), schema_box_model(t.3), schema_box_model(t.4), str_opt_model(t.5), str_opt_model(t.6), schema_box_model(t.7))),
        None => None,
    }
}

fn read_keywords_6(v: &JsonValue) -> (r: Option<(Option<Vec<(String, Schema)>>, Option<AdditionalProperties>, Option<Box<Schema>>, Option<Box<Schema>>, Option<Box<Schema>>, Option<String>, Option<String>, Option<Box<Schema>>)>)
    ensures
        lift_keywords_6(r) == keywords_6(v@),
    decreases v, 1int,
{
    match v {
        JsonValue::Object(m) => {
            proof {
                lemma_object_view(*v);
            }
            let f_pattern_properties = read_map(v, "patternProperties");
            let f_additional_properties = read_add(v, "additionalProperties");
            let f_property_names = read_box(v, "propertyNames");
            let f_unevaluated_items = read_box(v, "unevaluatedItems");
            let f_unevaluated_properties = read_box(v, "unevaluatedProperties");
            let f_content_encoding = read_str(member(m, "contentEncoding"));
            let f_content_media_type = read_str(member(m, "contentMediaType"));
            let f_content_schema = read_box(v, "contentSchema");
            if f_pattern_properties.is_none() || f_additional_properties.is_none() || f_property_names.is_none() || f_unevaluated_items.is_none() || f_unevaluated_properties.is_none() || f_content_encoding.is_none() || f_content_media_type.is_none() || f_content_schema.is_none() {
                return None;
            }
            Some((f_pattern_properties.unwrap(), f_additional_properties.unwrap(), f_property_names.unwrap(), f_unevaluated_items.unwrap(), f_unevaluated_properties.unwrap(), f_content_encoding.unwrap(), f_content_media_type.unwrap(), f_content_schema.unwrap()))
        },
        _ => None,
    }
}

/// Read a schema from a JSON document: `Some` exactly when the document
/// reads as one (see `decode_schema`).
#[verifier::rlimit(100)]
#[verifier::spinoff_prover]
pub fn schema_from_json(v: &JsonValue) -> (r: Option<Schema>)
    ensures
        match r {
            Some(s) => decode_schema(v@) == Some(s@),
            None => decode_schema(v@) is None,
        },
    decreases v, 2int,
{
    match v {
        JsonValue::Object(m) => {
            proof {
                lemma_object_view(*v);
            }
            let g0 = read_keywords_0(v);
            let g1 = read_keywords_1(v);
            let g2 = read_keywords_2(v);
            let g3 = read_keywords_3(v);
            let g4 = read_keywords_4(v);
            let g5 = read_keywords_5(v);
            let g6 = read_keywords_6(v);
            if g0.is_none() || g1.is_none() || g2.is_none() || g3.is_none() || g4.is_none() || g5.is_none() || g6.is_none() {
                return None;
            }
            let (f_schema, f_id, f_anchor, f_dynamic_anchor, f_ref_, f_dynamic_ref, f_defs, f_comment) = g0.unwrap();
            let (f_title, f_description, f_default, f_deprecated, f_read_only, f_write_only, f_examples, f_type_) = g1.unwrap();
            let (f_enum_, f_const_, f_multiple_of, f_maximum, f_exclusive_maximum, f_minimum, f_exclusive_minimum, f_max_length) = g2.unwrap();
            let (f_min_length, f_pattern, f_format, f_max_items, f_min_items, f_unique_items, f_max_contains, f_min_contains) = g3.unwrap();
            let (f_max_properties, f_min_properties, f_required, f_dependent_required, f_all_of, f_any_of, f_one_of, f_not) = g4.unwrap();
            let (f_if_, f_then_, f_else_, f_dependent_schemas, f_prefix_items, f_items, f_contains, f_properties) = g5.unwrap();
            let (f_pattern_properties, f_additional_properties, f_property_names, f_unevaluated_items, f_unevaluated_properties, f_content_encoding, f_content_media_type, f_content_schema) = g6.unwrap();
            let ext = unknown_members(m);
            let s = Schema {
                schema: f_schema,
                id: f_id,
                anchor: f_anchor,
                dynamic_anchor: f_dynamic_anchor,
                ref_: f_ref_,
                dynamic_ref: f_dynamic_ref,
                defs: f_defs,
                comment: f_comment,
                title: f_title,
                description: f_description,
                default: f_default,
                deprecated: f_deprecated,
                read_only: f_read_only,
                write_only: f_write_only,
                examples: f_examples,
                type_: f_type_,
                enum_: f_enum_,
                const_: f_const_,
                multiple_of: f_multiple_of,
                maximum: f_maximum,
                exclusive_maximum: f_exclusive_maximum,
                minimum: f_minimum,
                exclusive_minimum: f_exclusive_minimum,
                max_length: f_max_length,
                min_length: f_min_length,
                pattern: f_pattern,
                format: f_format,
                max_items: f_max_items,
                min_items: f_min_items,
                unique_items: f_unique_items,
                max_contains: f_max_contains,
                min_contains: f_min_contains,
                max_properties: f_max_properties,
                min_properties: f_min_properties,
                required: f_required,
                dependent_required: f_dependent_required,
                all_of: f_all_of,
                any_of: f_any_of,
                one_of: f_one_of,
                not: f_not,
                if_: f_if_,
                then_: f_then_,
                else_: f_else_,
                dependent_schemas: f_dependent_schemas,
                prefix_items: f_prefix_items,
                items: f_items,
                contains: f_contains,
                properties: f_properties,
                pattern_properties: f_pattern_properties,
                additional_properties: f_additional_properties,
                property_names: f_property_names,
                unevaluated_items: f_unevaluated_items,
                unevaluated_properties: f_unevaluated_properties,
                content_encoding: f_content_encoding,
                content_media_type: f_content_media_type,
                content_schema: f_content_schema,
                extensions: ext,
            };
            Some(s)
        },
        _ => None,
    }
}


} // verus!
