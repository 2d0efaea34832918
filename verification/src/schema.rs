//! The JSON Schema (2020-12) data model: schema documents, type names,
//! validation output, and their mathematical models.
use vstd::prelude::*;
use crate::json::{Json, JsonValue, json_equal};
use crate::text::str_eq;

verus! {

/// The `type` keyword: one type name or a list of them.
#[derive(Debug)]
pub enum SchemaTypeValue {
    Single(String),
    Array(Vec<String>),
}

/// `additionalProperties`: a boolean or a schema.
#[derive(Debug)]
pub enum AdditionalProperties {
    Bool(bool),
    Schema(Box<Schema>),
}

/// The type a value is treated as.
#[derive(Debug, Clone, Copy, PartialEq, Eq, Structural, Hash)]
pub enum SchemaType {
    String,
    Number,
    Integer,
    Boolean,
    Object,
    Array,
    Null,
    Unknown,
}

/// The model of the `type` keyword.
pub enum TypeModel {
    Single(Seq<char>),
    Array(Seq<Seq<char>>),
}

/// The model of `additionalProperties`.
pub enum AddPropsModel {
    Bool(bool),
    Schema(Box<SchemaModel>),
}

/// A JSON Schema. Numeric bounds are binary64 values given by their
/// IEEE-754 bits; maps keep their entries in the order they were given.
#[derive(Debug)]
pub struct Schema {
    pub schema: Option<String>,
    pub id: Option<String>,
    pub anchor: Option<String>,
    pub dynamic_anchor: Option<String>,
    pub ref_: Option<String>,
    pub dynamic_ref: Option<String>,
    pub defs: Option<Vec<(String, Schema)>>,
    pub comment: Option<String>,
    pub title: Option<String>,
    pub description: Option<String>,
    pub default: Option<JsonValue>,
    pub deprecated: Option<bool>,
    pub read_only: Option<bool>,
    pub write_only: Option<bool>,
    pub examples: Option<Vec<JsonValue>>,
    pub type_: Option<SchemaTypeValue>,
    pub enum_: Option<Vec<JsonValue>>,
    pub const_: Option<JsonValue>,
    pub multiple_of: Option<u64>,
    pub maximum: Option<u64>,
    pub exclusive_maximum: Option<u64>,
    pub minimum: Option<u64>,
    pub exclusive_minimum: Option<u64>,
    pub max_length: Option<u64>,
    pub min_length: Option<u64>,
    pub pattern: Option<String>,
    pub format: Option<String>,
    pub max_items: Option<u64>,
    pub min_items: Option<u64>,
    pub unique_items: Option<bool>,
    pub max_contains: Option<u64>,
    pub min_contains: Option<u64>,
    pub max_properties: Option<u64>,
    pub min_properties: Option<u64>,
    pub required: Option<Vec<String>>,
    pub dependent_required: Option<Vec<(String, Vec<String>)>>,
    pub all_of: Option<Vec<Schema>>,
    pub any_of: Option<Vec<Schema>>,
    pub one_of: Option<Vec<Schema>>,
    pub not: Option<Box<Schema>>,
    pub if_: Option<Box<Schema>>,
    pub then_: Option<Box<Schema>>,
    pub else_: Option<Box<Schema>>,
    pub dependent_schemas: Option<Vec<(String, Schema)>>,
    pub prefix_items: Option<Vec<Schema>>,
    pub items: Option<Box<Schema>>,
    pub contains: Option<Box<Schema>>,
    pub properties: Option<Vec<(String, Schema)>>,
    pub pattern_properties: Option<Vec<(String, Schema)>>,
    pub additional_properties: Option<AdditionalProperties>,
    pub property_names: Option<Box<Schema>>,
    pub unevaluated_items: Option<Box<Schema>>,
    pub unevaluated_properties: Option<Box<Schema>>,
    pub content_encoding: Option<String>,
    pub content_media_type: Option<String>,
    pub content_schema: Option<Box<Schema>>,
    pub extensions: Vec<(String, JsonValue)>,
}

/// The mathematical model of a schema.
pub struct SchemaModel {
    pub schema: Option<Seq<char>>,
    pub id: Option<Seq<char>>,
    pub anchor: Option<Seq<char>>,
    pub dynamic_anchor: Option<Seq<char>>,
    pub ref_: Option<Seq<char>>,
    pub dynamic_ref: Option<Seq<char>>,
    pub defs: Option<Seq<(Seq<char>, SchemaModel)>>,
    pub comment: Option<Seq<char>>,
    pub title: Option<Seq<char>>,
    pub description: Option<Seq<char>>,
    pub default: Option<Json>,
    pub deprecated: Option<bool>,
    pub read_only: Option<bool>,
    pub write_only: Option<bool>,
    pub examples: Option<Seq<Json>>,
    pub type_: Option<TypeModel>,
    pub enum_: Option<Seq<Json>>,
    pub const_: Option<Json>,
    pub multiple_of: Option<u64>,
    pub maximum: Option<u64>,
    pub exclusive_maximum: Option<u64>,
    pub minimum: Option<u64>,
    pub exclusive_minimum: Option<u64>,
    pub max_length: Option<u64>,
    pub min_length: Option<u64>,
    pub pattern: Option<Seq<char>>,
    pub format: Option<Seq<char>>,
    pub max_items: Option<u64>,
    pub min_items: Option<u64>,
    pub unique_items: Option<bool>,
    pub max_contains: Option<u64>,
    pub min_contains: Option<u64>,
    pub max_properties: Option<u64>,
    pub min_properties: Option<u64>,
    pub required: Option<Seq<Seq<char>>>,
    pub dependent_required: Option<Seq<(Seq<char>, Seq<Seq<char>>)>>,
    pub all_of: Option<Seq<SchemaModel>>,
    pub any_of: Option<Seq<SchemaModel>>,
    pub one_of: Option<Seq<SchemaModel>>,
    pub not: Option<Box<SchemaModel>>,
    pub if_: Option<Box<SchemaModel>>,
    pub then_: Option<Box<SchemaModel>>,
    pub else_: Option<Box<SchemaModel>>,
    pub dependent_schemas: Option<Seq<(Seq<char>, SchemaModel)>>,
    pub prefix_items: Option<Seq<SchemaModel>>,
    pub items: Option<Box<SchemaModel>>,
    pub contains: Option<Box<SchemaModel>>,
    pub properties: Option<Seq<(Seq<char>, SchemaModel)>>,
    pub pattern_properties: Option<Seq<(Seq<char>, SchemaModel)>>,
    pub additional_properties: Option<AddPropsModel>,
    pub property_names: Option<Box<SchemaModel>>,
    pub unevaluated_items: Option<Box<SchemaModel>>,
    pub unevaluated_properties: Option<Box<SchemaModel>>,
    pub content_encoding: Option<Seq<char>>,
    pub content_media_type: Option<Seq<char>>,
    pub content_schema: Option<Box<SchemaModel>>,
    pub extensions: Seq<(Seq<char>, Json)>,
}

// ── Models of the field kinds ──

pub open spec fn str_opt_model(o: Option<String>) -> Option<Seq<char>> {
    match o {
        Some(s) => Some(s@),
        None => None,
    }
}

pub open spec fn json_opt_model(o: Option<JsonValue>) -> Option<Json> {
    match o {
        Some(j) => Some(j@),
        None => None,
    }
}

pub open spec fn json_seq_model(v: Seq<JsonValue>) -> Seq<Json> {
    Seq::new(v.len(), |i: int| v[i]@)
}

pub open spec fn json_list_model(o: Option<Vec<JsonValue>>) -> Option<Seq<Json>> {
    match o {
        Some(v) => Some(json_seq_model(v@)),
        None => None,
    }
}

pub open spec fn str_seq_model(v: Seq<String>) -> Seq<Seq<char>> {
    Seq::new(v.len(), |i: int| v[i]@)
}

pub open spec fn str_list_model(o: Option<Vec<String>>) -> Option<Seq<Seq<char>>> {
    match o {
        Some(v) => Some(str_seq_model(v@)),
        None => None,
    }
}

pub open spec fn type_model(t: SchemaTypeValue) -> TypeModel {
    match t {
        SchemaTypeValue::Single(s) => TypeModel::Single(s@),
        SchemaTypeValue::Array(v) => TypeModel::Array(str_seq_model(v@)),
    }
}

pub open spec fn type_opt_model(o: Option<SchemaTypeValue>) -> Option<TypeModel> {
    match o {
        Some(t) => Some(type_model(t)),
        None => None,
    }
}

pub open spec fn dep_req_seq_model(v: Seq<(String, Vec<String>)>) -> Seq<(Seq<char>, Seq<Seq<char>>)> {
    Seq::new(v.len(), |i: int| (v[i].0@, str_seq_model(v[i].1@)))
}

pub open spec fn dep_req_model(o: Option<Vec<(String, Vec<String>)>>) -> Option<Seq<(Seq<char>, Seq<Seq<char>>)>> {
    match o {
        Some(v) => Some(dep_req_seq_model(v@)),
        None => None,
    }
}

pub open spec fn ext_model(v: Seq<(String, JsonValue)>) -> Seq<(Seq<char>, Json)> {
    Seq::new(v.len(), |i: int| (v[i].0@, v[i].1@))
}

/// The models of a list of schemas.
pub open spec fn schemas_model(v: Seq<Schema>) -> Seq<SchemaModel>
    decreases v,
{
    Seq::new(v.len(), |i: int| if 0 <= i < v.len() { schema_model(v[i]) } else { schema_model_default() })
}

/// The model of a map of schemas.
pub open spec fn schema_map_model(m: Seq<(String, Schema)>) -> Seq<(Seq<char>, SchemaModel)>
    decreases m,
{
    Seq::new(m.len(), |i: int| if 0 <= i < m.len() { (m[i].0@, schema_model(m[i].1)) } else { (Seq::empty(), schema_model_default()) })
}

pub open spec fn schema_list_model(o: Option<Vec<Schema>>) -> Option<Seq<SchemaModel>>
    decreases o,
{
    match o {
        Some(v) => Some(schemas_model(v@)),
        None => None,
    }
}

pub open spec fn schema_map_opt_model(o: Option<Vec<(String, Schema)>>) -> Option<Seq<(Seq<char>, SchemaModel)>>
    decreases o,
{
    match o {
        Some(m) => Some(schema_map_model(m@)),
        None => None,
    }
}

pub open spec fn schema_box_model(o: Option<Box<Schema>>) -> Option<Box<SchemaModel>>
    decreases o,
{
    match o {
        Some(b) => Some(Box::new(schema_model(*b))),
        None => None,
    }
}

pub open spec fn add_props_model(o: Option<AdditionalProperties>) -> Option<AddPropsModel>
    decreases o,
{
    match o {
        Some(AdditionalProperties::Bool(b)) => Some(AddPropsModel::Bool(b)),
        Some(AdditionalProperties::Schema(b)) => Some(AddPropsModel::Schema(Box::new(schema_model(*b)))),
        None => None,
    }
}

/// The model of a schema.
pub open spec fn schema_model(s: Schema) -> SchemaModel
    decreases s,
{
    SchemaModel {
        schema: str_opt_model(s.schema),
        id: str_opt_model(s.id),
        anchor: str_opt_model(s.anchor),
        dynamic_anchor: str_opt_model(s.dynamic_anchor),
        ref_: str_opt_model(s.ref_),
        dynamic_ref: str_opt_model(s.dynamic_ref),
        defs: schema_map_opt_model(s.defs),
        comment: str_opt_model(s.comment),
        title: str_opt_model(s.title),
        description: str_opt_model(s.description),
        default: json_opt_model(s.default),
        deprecated: s.deprecated,
        read_only: s.read_only,
        write_only: s.write_only,
        examples: json_list_model(s.examples),
        type_: type_opt_model(s.type_),
        enum_: json_list_model(s.enum_),
        const_: json_opt_model(s.const_),
        multiple_of: s.multiple_of,
        maximum: s.maximum,
        exclusive_maximum: s.exclusive_maximum,
        minimum: s.minimum,
        exclusive_minimum: s.exclusive_minimum,
        max_length: s.max_length,
        min_length: s.min_length,
        pattern: str_opt_model(s.pattern),
        format: str_opt_model(s.format),
        max_items: s.max_items,
        min_items: s.min_items,
        unique_items: s.unique_items,
        max_contains: s.max_contains,
        min_contains: s.min_contains,
        max_properties: s.max_properties,
        min_properties: s.min_properties,
        required: str_list_model(s.required),
        dependent_required: dep_req_model(s.dependent_required),
        all_of: schema_list_model(s.all_of),
        any_of: schema_list_model(s.any_of),
        one_of: schema_list_model(s.one_of),
        not: schema_box_model(s.not),
        if_: schema_box_model(s.if_),
        then_: schema_box_model(s.then_),
        else_: schema_box_model(s.else_),
        dependent_schemas: schema_map_opt_model(s.dependent_schemas),
        prefix_items: schema_list_model(s.prefix_items),
        items: schema_box_model(s.items),
        contains: schema_box_model(s.contains),
        properties: schema_map_opt_model(s.properties),
        pattern_properties: schema_map_opt_model(s.pattern_properties),
        additional_properties: add_props_model(s.additional_properties),
        property_names: schema_box_model(s.property_names),
        unevaluated_items: schema_box_model(s.unevaluated_items),
        unevaluated_properties: schema_box_model(s.unevaluated_properties),
        content_encoding: str_opt_model(s.content_encoding),
        content_media_type: str_opt_model(s.content_media_type),
        content_schema: schema_box_model(s.content_schema),
        extensions: ext_model(s.extensions@),
    }
}

/// The model of a schema, field by field.
pub proof fn lemma_schema_fields(s: Schema)
    ensures
        s@.schema == str_opt_model(s.schema),
        s@.id == str_opt_model(s.id),
        s@.anchor == str_opt_model(s.anchor),
        s@.dynamic_anchor == str_opt_model(s.dynamic_anchor),
        s@.ref_ == str_opt_model(s.ref_),
        s@.dynamic_ref == str_opt_model(s.dynamic_ref),
        s@.defs == schema_map_opt_model(s.defs),
        s@.comment == str_opt_model(s.comment),
        s@.title == str_opt_model(s.title),
        s@.description == str_opt_model(s.description),
        s@.default == json_opt_model(s.default),
        s@.deprecated == s.deprecated,
        s@.read_only == s.read_only,
        s@.write_only == s.write_only,
        s@.examples == json_list_model(s.examples),
        s@.type_ == type_opt_model(s.type_),
        s@.enum_ == json_list_model(s.enum_),
        s@.const_ == json_opt_model(s.const_),
        s@.multiple_of == s.multiple_of,
        s@.maximum == s.maximum,
        s@.exclusive_maximum == s.exclusive_maximum,
        s@.minimum == s.minimum,
        s@.exclusive_minimum == s.exclusive_minimum,
        s@.max_length == s.max_length,
        s@.min_length == s.min_length,
        s@.pattern == str_opt_model(s.pattern),
        s@.format == str_opt_model(s.format),
        s@.max_items == s.max_items,
        s@.min_items == s.min_items,
        s@.unique_items == s.unique_items,
        s@.max_contains == s.max_contains,
        s@.min_contains == s.min_contains,
        s@.max_properties == s.max_properties,
        s@.min_properties == s.min_properties,
        s@.required == str_list_model(s.required),
        s@.dependent_required == dep_req_model(s.dependent_required),
        s@.all_of == schema_list_model(s.all_of),
        s@.any_of == schema_list_model(s.any_of),
        s@.one_of == schema_list_model(s.one_of),
        s@.not == schema_box_model(s.not),
        s@.if_ == schema_box_model(s.if_),
        s@.then_ == schema_box_model(s.then_),
        s@.else_ == schema_box_model(s.else_),
        s@.dependent_schemas == schema_map_opt_model(s.dependent_schemas),
        s@.prefix_items == schema_list_model(s.prefix_items),
        s@.items == schema_box_model(s.items),
        s@.contains == schema_box_model(s.contains),
        s@.properties == schema_map_opt_model(s.properties),
        s@.pattern_properties == schema_map_opt_model(s.pattern_properties),
        s@.additional_properties == add_props_model(s.additional_properties),
        s@.property_names == schema_box_model(s.property_names),
        s@.unevaluated_items == schema_box_model(s.unevaluated_items),
        s@.unevaluated_properties == schema_box_model(s.unevaluated_properties),
        s@.content_encoding == str_opt_model(s.content_encoding),
        s@.content_media_type == str_opt_model(s.content_media_type),
        s@.content_schema == schema_box_model(s.content_schema),
        s@.extensions == ext_model(s.extensions@),
{
    reveal(schema_model);
}

/// Schemas whose fields have equal models have equal models.
pub proof fn lemma_schema_eq_fields(a: Schema, b: Schema)
    requires
        str_opt_model(a.schema) == str_opt_model(b.schema),
        str_opt_model(a.id) == str_opt_model(b.id),
        str_opt_model(a.anchor) == str_opt_model(b.anchor),
        str_opt_model(a.dynamic_anchor) == str_opt_model(b.dynamic_anchor),
        str_opt_model(a.ref_) == str_opt_model(b.ref_),
        str_opt_model(a.dynamic_ref) == str_opt_model(b.dynamic_ref),
        schema_map_opt_model(a.defs) == schema_map_opt_model(b.defs),
        str_opt_model(a.comment) == str_opt_model(b.comment),
        str_opt_model(a.title) == str_opt_model(b.title),
        str_opt_model(a.description) == str_opt_model(b.description),
        json_opt_model(a.default) == json_opt_model(b.default),
        a.deprecated == b.deprecated,
        a.read_only == b.read_only,
        a.write_only == b.write_only,
        json_list_model(a.examples) == json_list_model(b.examples),
        type_opt_model(a.type_) == type_opt_model(b.type_),
        json_list_model(a.enum_) == json_list_model(b.enum_),
        json_opt_model(a.const_) == json_opt_model(b.const_),
        a.multiple_of == b.multiple_of,
        a.maximum == b.maximum,
        a.exclusive_maximum == b.exclusive_maximum,
        a.minimum == b.minimum,
        a.exclusive_minimum == b.exclusive_minimum,
        a.max_length == b.max_length,
        a.min_length == b.min_length,
        str_opt_model(a.pattern) == str_opt_model(b.pattern),
        str_opt_model(a.format) == str_opt_model(b.format),
        a.max_items == b.max_items,
        a.min_items == b.min_items,
        a.unique_items == b.unique_items,
        a.max_contains == b.max_contains,
        a.min_contains == b.min_contains,
        a.max_properties == b.max_properties,
        a.min_properties == b.min_properties,
        str_list_model(a.required) == str_list_model(b.required),
        dep_req_model(a.dependent_required) == dep_req_model(b.dependent_required),
        schema_list_model(a.all_of) == schema_list_model(b.all_of),
        schema_list_model(a.any_of) == schema_list_model(b.any_of),
        schema_list_model(a.one_of) == schema_list_model(b.one_of),
        schema_box_model(a.not) == schema_box_model(b.not),
        schema_box_model(a.if_) == schema_box_model(b.if_),
        schema_box_model(a.then_) == schema_box_model(b.then_),
        schema_box_model(a.else_) == schema_box_model(b.else_),
        schema_map_opt_model(a.dependent_schemas) == schema_map_opt_model(b.dependent_schemas),
        schema_list_model(a.prefix_items) == schema_list_model(b.prefix_items),
        schema_box_model(a.items) == schema_box_model(b.items),
        schema_box_model(a.contains) == schema_box_model(b.contains),
        schema_map_opt_model(a.properties) == schema_map_opt_model(b.properties),
        schema_map_opt_model(a.pattern_properties) == schema_map_opt_model(b.pattern_properties),
        add_props_model(a.additional_properties) == add_props_model(b.additional_properties),
        schema_box_model(a.property_names) == schema_box_model(b.property_names),
        schema_box_model(a.unevaluated_items) == schema_box_model(b.unevaluated_items),
        schema_box_model(a.unevaluated_properties) == schema_box_model(b.unevaluated_properties),
        str_opt_model(a.content_encoding) == str_opt_model(b.content_encoding),
        str_opt_model(a.content_media_type) == str_opt_model(b.content_media_type),
        schema_box_model(a.content_schema) == schema_box_model(b.content_schema),
        ext_model(a.extensions@) == ext_model(b.extensions@),
    ensures
        a@ == b@,
{
    reveal(schema_model);
}

/// The model of the schema with no keyword.
pub open spec fn schema_model_default() -> SchemaModel {
    SchemaModel {
        schema: None,
        id: None,
        anchor: None,
        dynamic_anchor: None,
        ref_: None,
        dynamic_ref: None,
        defs: None,
        comment: None,
        title: None,
        description: None,
        default: None,
        deprecated: None,
        read_only: None,
        write_only: None,
        examples: None,
        type_: None,
        enum_: None,
        const_: None,
        multiple_of: None,
        maximum: None,
        exclusive_maximum: None,
        minimum: None,
        exclusive_minimum: None,
        max_length: None,
        min_length: None,
        pattern: None,
        format: None,
        max_items: None,
        min_items: None,
        unique_items: None,
        max_contains: None,
        min_contains: None,
        max_properties: None,
        min_properties: None,
        required: None,
        dependent_required: None,
        all_of: None,
        any_of: None,
        one_of: None,
        not: None,
        if_: None,
        then_: None,
        else_: None,
        dependent_schemas: None,
        prefix_items: None,
        items: None,
        contains: None,
        properties: None,
        pattern_properties: None,
        additional_properties: None,
        property_names: None,
        unevaluated_items: None,
        unevaluated_properties: None,
        content_encoding: None,
        content_media_type: None,
        content_schema: None,
        extensions: Seq::empty(),
    }
}

impl View for Schema {
    type V = SchemaModel;

    open spec fn view(&self) -> SchemaModel {
        schema_model(*self)
    }
}

impl Schema {
    /// The schema with no keyword (it accepts every value).
    pub fn new() -> (r: Schema)
        ensures
            r@ == schema_model_default(),
    {
        let r = Schema {
            schema: None,
            id: None,
            anchor: None,
            dynamic_anchor: None,
            ref_: None,
            dynamic_ref: None,
            defs: None,
            comment: None,
            title: None,
            description: None,
            default: None,
            deprecated: None,
            read_only: None,
            write_only: None,
            examples: None,
            type_: None,
            enum_: None,
            const_: None,
            multiple_of: None,
            maximum: None,
            exclusive_maximum: None,
            minimum: None,
            exclusive_minimum: None,
            max_length: None,
            min_length: None,
            pattern: None,
            format: None,
            max_items: None,
            min_items: None,
            unique_items: None,
            max_contains: None,
            min_contains: None,
            max_properties: None,
            min_properties: None,
            required: None,
            dependent_required: None,
            all_of: None,
            any_of: None,
            one_of: None,
            not: None,
            if_: None,
            then_: None,
            else_: None,
            dependent_schemas: None,
            prefix_items: None,
            items: None,
            contains: None,
            properties: None,
            pattern_properties: None,
            additional_properties: None,
            property_names: None,
            unevaluated_items: None,
            unevaluated_properties: None,
            content_encoding: None,
            content_media_type: None,
            content_schema: None,
            extensions: Vec::new(),
        };
        proof {
                    assert(ext_model(r.extensions@) =~= Seq::<(Seq<char>, Json)>::empty());
        }
        r
    }

    fn copy_keywords_0(&self) -> (r: (Option<String>, Option<String>, Option<String>, Option<String>, Option<String>, Option<String>, Option<Vec<(String, Schema)>>, Option<String>))
        ensures
            str_opt_model(r.0) == str_opt_model(self.schema),
            str_opt_model(r.1) == str_opt_model(self.id),
            str_opt_model(r.2) == str_opt_model(self.anchor),
            str_opt_model(r.3) == str_opt_model(self.dynamic_anchor),
            str_opt_model(r.4) == str_opt_model(self.ref_),
            str_opt_model(r.5) == str_opt_model(self.dynamic_ref),
            schema_map_opt_model(r.6) == schema_map_opt_model(self.defs),
            str_opt_model(r.7) == str_opt_model(self.comment),
        decreases self, 0int,
    {
        let f_schema = clone_opt_str(&self.schema);
        let f_id = clone_opt_str(&self.id);
        let f_anchor = clone_opt_str(&self.anchor);
        let f_dynamic_anchor = clone_opt_str(&self.dynamic_anchor);
        let f_ref_ = clone_opt_str(&self.ref_);
        let f_dynamic_ref = clone_opt_str(&self.dynamic_ref);
        let f_defs = match &self.defs {
            Some(m) => {
                proof {
                    assert(decreases_to!(self => m));
                }
                Some(clone_schema_map(m))
            },
            None => None,
        };
        let f_comment = clone_opt_str(&self.comment);
        (f_schema, f_id, f_anchor, f_dynamic_anchor, f_ref_, f_dynamic_ref, f_defs, f_comment)
    }

    fn copy_keywords_1(&self) -> (r: (Option<String>, Option<String>, Option<JsonValue>, Option<bool>, Option<bool>, Option<bool>, Option<Vec<JsonValue>>, Option<SchemaTypeValue>))
        ensures
            str_opt_model(r.0) == str_opt_model(self.title),
            str_opt_model(r.1) == str_opt_model(self.description),
            json_opt_model(r.2) == json_opt_model(self.default),
            r.3 == self.deprecated,
            r.4 == self.read_only,
            r.5 == self.write_only,
            json_list_model(r.6) == json_list_model(self.examples),
            type_opt_model(r.7) == type_opt_model(self.type_),
        decreases self, 0int,
    {
        let f_title = clone_opt_str(&self.title);
        let f_description = clone_opt_str(&self.description);
        let f_default = clone_opt_json(&self.default);
        let f_deprecated = self.deprecated;
        let f_read_only = self.read_only;
        let f_write_only = self.write_only;
        let f_examples = clone_opt_json_list(&self.examples);
        let f_type_ = clone_opt_type(&self.type_);
        (f_title, f_description, f_default, f_deprecated, f_read_only, f_write_only, f_examples, f_type_)
    }

    fn copy_keywords_2(&self) -> (r: (Option<Vec<JsonValue>>, Option<JsonValue>, Option<u64>, Option<u64>, Option<u64>, Option<u64>, Option<u64>, Option<u64>))
        ensures
            json_list_model(r.0) == json_list_model(self.enum_),
            json_opt_model(r.1) == json_opt_model(self.const_),
            r.2 == self.multiple_of,
            r.3 == self.maximum,
            r.4 == self.exclusive_maximum,
            r.5 == self.minimum,
            r.6 == self.exclusive_minimum,
            r.7 == self.max_length,
        decreases self, 0int,
    {
        let f_enum_ = clone_opt_json_list(&self.enum_);
        let f_const_ = clone_opt_json(&self.const_);
        let f_multiple_of = self.multiple_of;
        let f_maximum = self.maximum;
        let f_exclusive_maximum = self.exclusive_maximum;
        let f_minimum = self.minimum;
        let f_exclusive_minimum = self.exclusive_minimum;
        let f_max_length = self.max_length;
        (f_enum_, f_const_, f_multiple_of, f_maximum, f_exclusive_maximum, f_minimum, f_exclusive_minimum, f_max_length)
    }

    fn copy_keywords_3(&self) -> (r: (Option<u64>, Option<String>, Option<String>, Option<u64>, Option<u64>, Option<bool>, Option<u64>, Option<u64>))
        ensures
            r.0 == self.min_length,
            str_opt_model(r.1) == str_opt_model(self.pattern),
            str_opt_model(r.2) == str_opt_model(self.format),
            r.3 == self.max_items,
            r.4 == self.min_items,
            r.5 == self.unique_items,
            r.6 == self.max_contains,
            r.7 == self.min_contains,
        decreases self, 0int,
    {
        let f_min_length = self.min_length;
        let f_pattern = clone_opt_str(&self.pattern);
        let f_format = clone_opt_str(&self.format);
        let f_max_items = self.max_items;
        let f_min_items = self.min_items;
        let f_unique_items = self.unique_items;
        let f_max_contains = self.max_contains;
        let f_min_contains = self.min_contains;
        (f_min_length, f_pattern, f_format, f_max_items, f_min_items, f_unique_items, f_max_contains, f_min_contains)
    }

    fn copy_keywords_4(&self) -> (r: (Option<u64>, Option<u64>, Option<Vec<String>>, Option<Vec<(String, Vec<String>)>>, Option<Vec<Schema>>, Option<Vec<Schema>>, Option<Vec<Schema>>, Option<Box<Schema>>))
        ensures
            r.0 == self.max_properties,
            r.1 == self.min_properties,
            str_list_model(r.2) == str_list_model(self.required),
            dep_req_model(r.3) == dep_req_model(self.dependent_required),
            schema_list_model(r.4) == schema_list_model(self.all_of),
            schema_list_model(r.5) == schema_list_model(self.any_of),
            schema_list_model(r.6) == schema_list_model(self.one_of),
            schema_box_model(r.7) == schema_box_model(self.not),
        decreases self, 0int,
    {
        let f_max_properties = self.max_properties;
        let f_min_properties = self.min_properties;
        let f_required = clone_opt_str_list(&self.required);
        let f_dependent_required = clone_opt_dep_req(&self.dependent_required);
        let f_all_of = match &self.all_of {
            Some(v) => {
                proof {
                    assert(decreases_to!(self => v));
                }
                Some(clone_schema_vec(v))
            },
            None => None,
        };
        let f_any_of = match &self.any_of {
            Some(v) => {
                proof {
                    assert(decreases_to!(self => v));
                }
                Some(clone_schema_vec(v))
            },
            None => None,
        };
        let f_one_of = match &self.one_of {
            Some(v) => {
                proof {
                    assert(decreases_to!(self => v));
                }
                Some(clone_schema_vec(v))
            },
            None => None,
        };
        let f_not = match &self.not {
            Some(b) => {
                proof {
                    assert(decreases_to!(self => **b));
                }
                Some(Box::new(b.deep_copy()))
            },
            None => None,
        };
        (f_max_properties, f_min_properties, f_required, f_dependent_required, f_all_of, f_any_of, f_one_of, f_not)
    }

    fn copy_keywords_5(&self) -> (r: (Option<Box<Schema>>, Option<Box<Schema>>, Option<Box<Schema>>, Option<Vec<(String, Schema)>>, Option<Vec<Schema>>, Option<Box<Schema>>, Option<Box<Schema>>, Option<Vec<(String, Schema)>>))
        ensures
            schema_box_model(r.0) == schema_box_model(self.if_),
            schema_box_model(r.1) == schema_box_model(self.then_),
            schema_box_model(r.2) == schema_box_model(self.else_),
            schema_map_opt_model(r.3) == schema_map_opt_model(self.dependent_schemas),
            schema_list_model(r.4) == schema_list_model(self.prefix_items),
            schema_box_model(r.5) == schema_box_model(self.items),
            schema_box_model(r.6) == schema_box_model(self.contains),
            schema_map_opt_model(r.7) == schema_map_opt_model(self.properties),
        decreases self, 0int,
    {
        let f_if_ = match &self.if_ {
            Some(b) => {
                proof {
                    assert(decreases_to!(self => **b));
                }
                Some(Box::new(b.deep_copy()))
            },
            None => None,
        };
        let f_then_ = match &self.then_ {
            Some(b) => {
                proof {
                    assert(decreases_to!(self => **b));
                }
                Some(Box::new(b.deep_copy()))
            },
            None => None,
        };
        let f_else_ = match &self.else_ {
            Some(b) => {
                proof {
                    assert(decreases_to!(self => **b));
                }
                Some(Box::new(b.deep_copy()))
            },
            None => None,
        };
        let f_dependent_schemas = match &self.dependent_schemas {
            Some(m) => {
                proof {
                    assert(decreases_to!(self => m));
                }
                Some(clone_schema_map(m))
            },
            None => None,
        };
        let f_prefix_items = match &self.prefix_items {
            Some(v) => {
                proof {
                    assert(decreases_to!(self => v));
                }
                Some(clone_schema_vec(v))
            },
            None => None,
        };
        let f_items = match &self.items {
            Some(b) => {
                proof {
                    assert(decreases_to!(self => **b));
                }
                Some(Box::new(b.deep_copy()))
            },
            None => None,
        };
        let f_contains = match &self.contains {
            Some(b) => {
                proof {
                    assert(decreases_to!(self => **b));
                }
                Some(Box::new(b.deep_copy()))
            },
            None => None,
        };
        let f_properties = match &self.properties {
            Some(m) => {
                proof {
                    assert(decreases_to!(self => m));
                }
                Some(clone_schema_map(m))
            },
            None => None,
        };
        (f_if_, f_then_, f_else_, f_dependent_schemas, f_prefix_items, f_items, f_contains, f_properties)
    }

    fn copy_keywords_6(&self) -> (r: (Option<Vec<(String, Schema)>>, Option<AdditionalProperties>, Option<Box<Schema>>, Option<Box<Schema>>, Option<Box<Schema>>, Option<String>, Option<String>, Option<Box<Schema>>))
        ensures
            schema_map_opt_model(r.0) == schema_map_opt_model(self.pattern_properties),
            add_props_model(r.1) == add_props_model(self.additional_properties),
            schema_box_model(r.2) == schema_box_model(self.property_names),
            schema_box_model(r.3) == schema_box_model(self.unevaluated_items),
            schema_box_model(r.4) == schema_box_model(self.unevaluated_properties),
            str_opt_model(r.5) == str_opt_model(self.content_encoding),
            str_opt_model(r.6) == str_opt_model(self.content_media_type),
            schema_box_model(r.7) == schema_box_model(self.content_schema),
        decreases self, 0int,
    {
        let f_pattern_properties = match &self.pattern_properties {
            Some(m) => {
                proof {
                    assert(decreases_to!(self => m));
                }
                Some(clone_schema_map(m))
            },
            None => None,
        };
        let f_additional_properties = match &self.additional_properties {
            Some(AdditionalProperties::Bool(b)) => Some(AdditionalProperties::Bool(*b)),
            Some(AdditionalProperties::Schema(b)) => {
                proof {
                    assert(decreases_to!(self => **b));
                }
                Some(AdditionalProperties::Schema(Box::new(b.deep_copy())))
            },
            None => None,
        };
        let f_property_names = match &self.property_names {
            Some(b) => {
                proof {
                    assert(decreases_to!(self => **b));
                }
                Some(Box::new(b.deep_copy()))
            },
            None => None,
        };
        let f_unevaluated_items = match &self.unevaluated_items {
            Some(b) => {
                proof {
                    assert(decreases_to!(self => **b));
                }
                Some(Box::new(b.deep_copy()))
            },
            None => None,
        };
        let f_unevaluated_properties = match &self.unevaluated_properties {
            Some(b) => {
                proof {
                    assert(decreases_to!(self => **b));
                }
                Some(Box::new(b.deep_copy()))
            },
            None => None,
        };
        let f_content_encoding = clone_opt_str(&self.content_encoding);
        let f_content_media_type = clone_opt_str(&self.content_media_type);
        let f_content_schema = match &self.content_schema {
            Some(b) => {
                proof {
                    assert(decreases_to!(self => **b));
                }
                Some(Box::new(b.deep_copy()))
            },
            None => None,
        };
        (f_pattern_properties, f_additional_properties, f_property_names, f_unevaluated_items, f_unevaluated_properties, f_content_encoding, f_content_media_type, f_content_schema)
    }

    /// A copy of the whole schema.
    pub fn deep_copy(&self) -> (r: Schema)
        ensures
            r@ == self@,
        decreases self, 1int,
    {
        let (f_schema, f_id, f_anchor, f_dynamic_anchor, f_ref_, f_dynamic_ref, f_defs, f_comment) = self.copy_keywords_0();
        let (f_title, f_description, f_default, f_deprecated, f_read_only, f_write_only, f_examples, f_type_) = self.copy_keywords_1();
        let (f_enum_, f_const_, f_multiple_of, f_maximum, f_exclusive_maximum, f_minimum, f_exclusive_minimum, f_max_length) = self.copy_keywords_2();
        let (f_min_length, f_pattern, f_format, f_max_items, f_min_items, f_unique_items, f_max_contains, f_min_contains) = self.copy_keywords_3();
        let (f_max_properties, f_min_properties, f_required, f_dependent_required, f_all_of, f_any_of, f_one_of, f_not) = self.copy_keywords_4();
        let (f_if_, f_then_, f_else_, f_dependent_schemas, f_prefix_items, f_items, f_contains, f_properties) = self.copy_keywords_5();
        let (f_pattern_properties, f_additional_properties, f_property_names, f_unevaluated_items, f_unevaluated_properties, f_content_encoding, f_content_media_type, f_content_schema) = self.copy_keywords_6();
        let f_extensions = clone_entries(&self.extensions);
        let r = Schema {
            schema: f_schema,
            id: f_id,
            anchor: f_anchor,
            dynamic_anchor: f_dynamic_anchor,
            ref_: f_ref_,
            dynamic_ref: f_dynamic_ref,
            defs: f_defs,
            comment: f_comment,
            title: f_title,
            description: f_description,
            default: f_default,
            deprecated: f_deprecated,
            read_only: f_read_only,
            write_only: f_write_only,
            examples: f_examples,
            type_: f_type_,
            enum_: f_enum_,
            const_: f_const_,
            multiple_of: f_multiple_of,
            maximum: f_maximum,
            exclusive_maximum: f_exclusive_maximum,
            minimum: f_minimum,
            exclusive_minimum: f_exclusive_minimum,
            max_length: f_max_length,
            min_length: f_min_length,
            pattern: f_pattern,
            format: f_format,
            max_items: f_max_items,
            min_items: f_min_items,
            unique_items: f_unique_items,
            max_contains: f_max_contains,
            min_contains: f_min_contains,
            max_properties: f_max_properties,
            min_properties: f_min_properties,
            required: f_required,
            dependent_required: f_dependent_required,
            all_of: f_all_of,
            any_of: f_any_of,
            one_of: f_one_of,
            not: f_not,
            if_: f_if_,
            then_: f_then_,
            else_: f_else_,
            dependent_schemas: f_dependent_schemas,
            prefix_items: f_prefix_items,
            items: f_items,
            contains: f_contains,
            properties: f_properties,
            pattern_properties: f_pattern_properties,
            additional_properties: f_additional_properties,
            property_names: f_property_names,
            unevaluated_items: f_unevaluated_items,
            unevaluated_properties: f_unevaluated_properties,
            content_encoding: f_content_encoding,
            content_media_type: f_content_media_type,
            content_schema: f_content_schema,
            extensions: f_extensions,
        };
        proof {
            lemma_schema_eq_fields(r, *self);
        }
        r
    }
}

impl Clone for Schema {
    fn clone(&self) -> (r: Self)
        ensures
            r@ == self@,
    {
        self.deep_copy()
    }
}

/// Whether two schemas agree on the keywords `$schema`, `$id`, `$anchor`, `$dynamicAnchor`, `$ref`, `$dynamicRef`, `$defs`, `$comment`.
pub open spec fn same_keywords_0(a: Schema, b: Schema) -> bool {
    &&& str_opt_model(a.schema) == str_opt_model(b.schema)
    &&& str_opt_model(a.id) == str_opt_model(b.id)
    &&& str_opt_model(a.anchor) == str_opt_model(b.anchor)
    &&& str_opt_model(a.dynamic_anchor) == str_opt_model(b.dynamic_anchor)
    &&& str_opt_model(a.ref_) == str_opt_model(b.ref_)
    &&& str_opt_model(a.dynamic_ref) == str_opt_model(b.dynamic_ref)
    &&& schema_map_opt_model(a.defs) == schema_map_opt_model(b.defs)
    &&& str_opt_model(a.comment) == str_opt_model(b.comment)
}

/// Whether two schemas agree on the keywords `title`, `description`, `default`, `deprecated`, `readOnly`, `writeOnly`, `examples`, `type`.
pub open spec fn same_keywords_1(a: Schema, b: Schema) -> bool {
    &&& str_opt_model(a.title) == str_opt_model(b.title)
    &&& str_opt_model(a.description) == str_opt_model(b.description)
    &&& json_opt_model(a.default) == json_opt_model(b.default)
    &&& a.deprecated == b.deprecated
    &&& a.read_only == b.read_only
    &&& a.write_only == b.write_only
    &&& json_list_model(a.examples) == json_list_model(b.examples)
    &&& type_opt_model(a.type_) == type_opt_model(b.type_)
}

/// Whether two schemas agree on the keywords `enum`, `const`, `multipleOf`, `maximum`, `exclusiveMaximum`, `minimum`, `exclusiveMinimum`, `maxLength`.
pub open spec fn same_keywords_2(a: Schema, b: Schema) -> bool {
    &&& json_list_model(a.enum_) == json_list_model(b.enum_)
    &&& json_opt_model(a.const_) == json_opt_model(b.const_)
    &&& a.multiple_of == b.multiple_of
    &&& a.maximum == b.maximum
    &&& a.exclusive_maximum == b.exclusive_maximum
    &&& a.minimum == b.minimum
    &&& a.exclusive_minimum == b.exclusive_minimum
    &&& a.max_length == b.max_length
}

/// Whether two schemas agree on the keywords `minLength`, `pattern`, `format`, `maxItems`, `minItems`, `uniqueItems`, `maxContains`, `minContains`.
pub open spec fn same_keywords_3(a: Schema, b: Schema) -> bool {
    &&& a.min_length == b.min_length
    &&& str_opt_model(a.pattern) == str_opt_model(b.pattern)
    &&& str_opt_model(a.format) == str_opt_model(b.format)
    &&& a.max_items == b.max_items
    &&& a.min_items == b.min_items
    &&& a.unique_items == b.unique_items
    &&& a.max_contains == b.max_contains
    &&& a.min_contains == b.min_contains
}

/// Whether two schemas agree on the keywords `maxProperties`, `minProperties`, `required`, `dependentRequired`, `allOf`, `anyOf`, `oneOf`, `not`.
pub open spec fn same_keywords_4(a: Schema, b: Schema) -> bool {
    &&& a.max_properties == b.max_properties
    &&& a.min_properties == b.min_properties
    &&& str_list_model(a.required) == str_list_model(b.required)
    &&& dep_req_model(a.dependent_required) == dep_req_model(b.dependent_required)
    &&& schema_list_model(a.all_of) == schema_list_model(b.all_of)
    &&& schema_list_model(a.any_of) == schema_list_model(b.any_of)
    &&& schema_list_model(a.one_of) == schema_list_model(b.one_of)
    &&& schema_box_model(a.not) == schema_box_model(b.not)
}

/// Whether two schemas agree on the keywords `if`, `then`, `else`, `dependentSchemas`, `prefixItems`, `items`, `contains`, `properties`.
pub open spec fn same_keywords_5(a: Schema, b: Schema) -> bool {
    &&& schema_box_model(a.if_) == schema_box_model(b.if_)
    &&& schema_box_model(a.then_) == schema_box_model(b.then_)
    &&& schema_box_model(a.else_) == schema_box_model(b.else_)
    &&& schema_map_opt_model(a.dependent_schemas) == schema_map_opt_model(b.dependent_schemas)
    &&& schema_list_model(a.prefix_items) == schema_list_model(b.prefix_items)
    &&& schema_box_model(a.items) == schema_box_model(b.items)
    &&& schema_box_model(a.contains) == schema_box_model(b.contains)
    &&& schema_map_opt_model(a.properties) == schema_map_opt_model(b.properties)
}

/// Whether two schemas agree on the keywords `patternProperties`, `additionalProperties`, `propertyNames`, `unevaluatedItems`, `unevaluatedProperties`, `contentEncoding`, `contentMediaType`, `contentSchema`.
pub open spec fn same_keywords_6(a: Schema, b: Schema) -> bool {
    &&& schema_map_opt_model(a.pattern_properties) == schema_map_opt_model(b.pattern_properties)
    &&& add_props_model(a.additional_properties) == add_props_model(b.additional_properties)
    &&& schema_box_model(a.property_names) == schema_box_model(b.property_names)
    &&& schema_box_model(a.unevaluated_items) == schema_box_model(b.unevaluated_items)
    &&& schema_box_model(a.unevaluated_properties) == schema_box_model(b.unevaluated_properties)
    &&& str_opt_model(a.content_encoding) == str_opt_model(b.content_encoding)
    &&& str_opt_model(a.content_media_type) == str_opt_model(b.content_media_type)
    &&& schema_box_model(a.content_schema) == schema_box_model(b.content_schema)
}

fn keywords_equal_0(a: &Schema, b: &Schema) -> (r: bool)
    ensures
        r == same_keywords_0(*a, *b),
    decreases a, 0int,
{
    let e_schema = eq_opt_str(&a.schema, &b.schema);
    if !e_schema {
        return false;
    }
    let e_id = eq_opt_str(&a.id, &b.id);
    if !e_id {
        return false;
    }
    let e_anchor = eq_opt_str(&a.anchor, &b.anchor);
    if !e_anchor {
        return false;
    }
    let e_dynamic_anchor = eq_opt_str(&a.dynamic_anchor, &b.dynamic_anchor);
    if !e_dynamic_anchor {
        return false;
    }
    let e_ref_ = eq_opt_str(&a.ref_, &b.ref_);
    if !e_ref_ {
        return false;
    }
    let e_dynamic_ref = eq_opt_str(&a.dynamic_ref, &b.dynamic_ref);
    if !e_dynamic_ref {
        return false;
    }
    let e_defs = match (&a.defs, &b.defs) {
        (Some(x), Some(y)) => {
            proof {
                assert(decreases_to!(a => x));
            }
            schema_map_equal(x, y)
        },
        (None, None) => true,
        _ => false,
    };
    if !e_defs {
        return false;
    }
    let e_comment = eq_opt_str(&a.comment, &b.comment);
    if !e_comment {
        return false;
    }
    true
}

fn keywords_equal_1(a: &Schema, b: &Schema) -> (r: bool)
    ensures
        r == same_keywords_1(*a, *b),
    decreases a, 0int,
{
    let e_title = eq_opt_str(&a.title, &b.title);
    if !e_title {
        return false;
    }
    let e_description = eq_opt_str(&a.description, &b.description);
    if !e_description {
        return false;
    }
    let e_default = eq_opt_json(&a.default, &b.default);
    if !e_default {
        return false;
    }
    let e_deprecated = a.deprecated == b.deprecated;
    if !e_deprecated {
        return false;
    }
    let e_read_only = a.read_only == b.read_only;
    if !e_read_only {
        return false;
    }
    let e_write_only = a.write_only == b.write_only;
    if !e_write_only {
        return false;
    }
    let e_examples = eq_opt_json_list(&a.examples, &b.examples);
    if !e_examples {
        return false;
    }
    let e_type_ = eq_opt_type(&a.type_, &b.type_);
    if !e_type_ {
        return false;
    }
    true
}

fn keywords_equal_2(a: &Schema, b: &Schema) -> (r: bool)
    ensures
        r == same_keywords_2(*a, *b),
    decreases a, 0int,
{
    let e_enum_ = eq_opt_json_list(&a.enum_, &b.enum_);
    if !e_enum_ {
        return false;
    }
    let e_const_ = eq_opt_json(&a.const_, &b.const_);
    if !e_const_ {
        return false;
    }
    let e_multiple_of = a.multiple_of == b.multiple_of;
    if !e_multiple_of {
        return false;
    }
    let e_maximum = a.maximum == b.maximum;
    if !e_maximum {
        return false;
    }
    let e_exclusive_maximum = a.exclusive_maximum == b.exclusive_maximum;
    if !e_exclusive_maximum {
        return false;
    }
    let e_minimum = a.minimum == b.minimum;
    if !e_minimum {
        return false;
    }
    let e_exclusive_minimum = a.exclusive_minimum == b.exclusive_minimum;
    if !e_exclusive_minimum {
        return false;
    }
    let e_max_length = a.max_length == b.max_length;
    if !e_max_length {
        return false;
    }
    true
}

fn keywords_equal_3(a: &Schema, b: &Schema) -> (r: bool)
    ensures
        r == same_keywords_3(*a, *b),
    decreases a, 0int,
{
    let e_min_length = a.min_length == b.min_length;
    if !e_min_length {
        return false;
    }
    let e_pattern = eq_opt_str(&a.pattern, &b.pattern);
    if !e_pattern {
        return false;
    }
    let e_format = eq_opt_str(&a.format, &b.format);
    if !e_format {
        return false;
    }
    let e_max_items = a.max_items == b.max_items;
    if !e_max_items {
        return false;
    }
    let e_min_items = a.min_items == b.min_items;
    if !e_min_items {
        return false;
    }
    let e_unique_items = a.unique_items == b.unique_items;
    if !e_unique_items {
        return false;
    }
    let e_max_contains = a.max_contains == b.max_contains;
    if !e_max_contains {
        return false;
    }
    let e_min_contains = a.min_contains == b.min_contains;
    if !e_min_contains {
        return false;
    }
    true
}

fn keywords_equal_4(a: &Schema, b: &Schema) -> (r: bool)
    ensures
        r == same_keywords_4(*a, *b),
    decreases a, 0int,
{
    let e_max_properties = a.max_properties == b.max_properties;
    if !e_max_properties {
        return false;
    }
    let e_min_properties = a.min_properties == b.min_properties;
    if !e_min_properties {
        return false;
    }
    let e_required = eq_opt_str_list(&a.required, &b.required);
    if !e_required {
        return false;
    }
    let e_dependent_required = eq_opt_dep_req(&a.dependent_required, &b.dependent_required);
    if !e_dependent_required {
        return false;
    }
    let e_all_of = match (&a.all_of, &b.all_of) {
        (Some(x), Some(y)) => {
            proof {
                assert(decreases_to!(a => x));
            }
            schema_vec_equal(x, y)
        },
        (None, None) => true,
        _ => false,
    };
    if !e_all_of {
        return false;
    }
    let e_any_of = match (&a.any_of, &b.any_of) {
        (Some(x), Some(y)) => {
            proof {
                assert(decreases_to!(a => x));
            }
            schema_vec_equal(x, y)
        },
        (None, None) => true,
        _ => false,
    };
    if !e_any_of {
        return false;
    }
    let e_one_of = match (&a.one_of, &b.one_of) {
        (Some(x), Some(y)) => {
            proof {
                assert(decreases_to!(a => x));
            }
            schema_vec_equal(x, y)
        },
        (None, None) => true,
        _ => false,
    };
    if !e_one_of {
        return false;
    }
    let e_not = match (&a.not, &b.not) {
        (Some(x), Some(y)) => {
            proof {
                assert(decreases_to!(a => **x));
            }
            schema_equal(x, y)
        },
        (None, None) => true,
        _ => false,
    };
    if !e_not {
        return false;
    }
    true
}

fn keywords_equal_5(a: &Schema, b: &Schema) -> (r: bool)
    ensures
        r == same_keywords_5(*a, *b),
    decreases a, 0int,
{
    let e_if_ = match (&a.if_, &b.if_) {
        (Some(x), Some(y)) => {
            proof {
                assert(decreases_to!(a => **x));
            }
            schema_equal(x, y)
        },
        (None, None) => true,
        _ => false,
    };
    if !e_if_ {
        return false;
    }
    let e_then_ = match (&a.then_, &b.then_) {
        (Some(x), Some(y)) => {
            proof {
                assert(decreases_to!(a => **x));
            }
            schema_equal(x, y)
        },
        (None, None) => true,
        _ => false,
    };
    if !e_then_ {
        return false;
    }
    let e_else_ = match (&a.else_, &b.else_) {
        (Some(x), Some(y)) => {
            proof {
                assert(decreases_to!(a => **x));
            }
            schema_equal(x, y)
        },
        (None, None) => true,
        _ => false,
    };
    if !e_else_ {
        return false;
    }
    let e_dependent_schemas = match (&a.dependent_schemas, &b.dependent_schemas) {
        (Some(x), Some(y)) => {
            proof {
                assert(decreases_to!(a => x));
            }
            schema_map_equal(x, y)
        },
        (None, None) => true,
        _ => false,
    };
    if !e_dependent_schemas {
        return false;
    }
    let e_prefix_items = match (&a.prefix_items, &b.prefix_items) {
        (Some(x), Some(y)) => {
            proof {
                assert(decreases_to!(a => x));
            }
            schema_vec_equal(x, y)
        },
        (None, None) => true,
        _ => false,
    };
    if !e_prefix_items {
        return false;
    }
    let e_items = match (&a.items, &b.items) {
        (Some(x), Some(y)) => {
            proof {
                assert(decreases_to!(a => **x));
            }
            schema_equal(x, y)
        },
        (None, None) => true,
        _ => false,
    };
    if !e_items {
        return false;
    }
    let e_contains = match (&a.contains, &b.contains) {
        (Some(x), Some(y)) => {
            proof {
                assert(decreases_to!(a => **x));
            }
            schema_equal(x, y)
        },
        (None, None) => true,
        _ => false,
    };
    if !e_contains {
        return false;
    }
    let e_properties = match (&a.properties, &b.properties) {
        (Some(x), Some(y)) => {
            proof {
                assert(decreases_to!(a => x));
            }
            schema_map_equal(x, y)
        },
        (None, None) => true,
        _ => false,
    };
    if !e_properties {
        return false;
    }
    true
}

fn keywords_equal_6(a: &Schema, b: &Schema) -> (r: bool)
    ensures
        r == same_keywords_6(*a, *b),
    decreases a, 0int,
{
    let e_pattern_properties = match (&a.pattern_properties, &b.pattern_properties) {
        (Some(x), Some(y)) => {
            proof {
                assert(decreases_to!(a => x));
            }
            schema_map_equal(x, y)
        },
        (None, None) => true,
        _ => false,
    };
    if !e_pattern_properties {
        return false;
    }
    let e_additional_properties = match (&a.additional_properties, &b.additional_properties) {
        (Some(AdditionalProperties::Bool(x)), Some(AdditionalProperties::Bool(y))) => *x == *y,
        (Some(AdditionalProperties::Schema(x)), Some(AdditionalProperties::Schema(y))) => {
            proof {
                assert(decreases_to!(a => **x));
            }
            schema_equal(x, y)
        },
        (None, None) => true,
        _ => false,
    };
    if !e_additional_properties {
        return false;
    }
    let e_property_names = match (&a.property_names, &b.property_names) {
        (Some(x), Some(y)) => {
            proof {
                assert(decreases_to!(a => **x));
            }
            schema_equal(x, y)
        },
        (None, None) => true,
        _ => false,
    };
    if !e_property_names {
        return false;
    }
    let e_unevaluated_items = match (&a.unevaluated_items, &b.unevaluated_items) {
        (Some(x), Some(y)) => {
            proof {
                assert(decreases_to!(a => **x));
            }
            schema_equal(x, y)
        },
        (None, None) => true,
        _ => false,
    };
    if !e_unevaluated_items {
        return false;
    }
    let e_unevaluated_properties = match (&a.unevaluated_properties, &b.unevaluated_properties) {
        (Some(x), Some(y)) => {
            proof {
                assert(decreases_to!(a => **x));
            }
            schema_equal(x, y)
        },
        (None, None) => true,
        _ => false,
    };
    if !e_unevaluated_properties {
        return false;
    }
    let e_content_encoding = eq_opt_str(&a.content_encoding, &b.content_encoding);
    if !e_content_encoding {
        return false;
    }
    let e_content_media_type = eq_opt_str(&a.content_media_type, &b.content_media_type);
    if !e_content_media_type {
        return false;
    }
    let e_content_schema = match (&a.content_schema, &b.content_schema) {
        (Some(x), Some(y)) => {
            proof {
                assert(decreases_to!(a => **x));
            }
            schema_equal(x, y)
        },
        (None, None) => true,
        _ => false,
    };
    if !e_content_schema {
        return false;
    }
    true
}

/// Equality of schemas: every keyword and every extension equal.
pub fn schema_equal(a: &Schema, b: &Schema) -> (r: bool)
    ensures
        r == (a@ == b@),
    decreases a, 1int,
{
    proof {
        lemma_schema_fields(*a);
        lemma_schema_fields(*b);
    }
    let r = keywords_equal_0(a, b)
        && keywords_equal_1(a, b)
        && keywords_equal_2(a, b)
        && keywords_equal_3(a, b)
        && keywords_equal_4(a, b)
        && keywords_equal_5(a, b)
        && keywords_equal_6(a, b)
        && entries_equal(&a.extensions, &b.extensions);
    proof {
        if r {
            lemma_schema_eq_fields(*a, *b);
        }
    }
    r
}

// ── Copies and equality of the field kinds ──

pub fn clone_opt_str(o: &Option<String>) -> (r: Option<String>)
    ensures
        str_opt_model(r) == str_opt_model(*o),
{
    match o {
        Some(s) => Some(s.clone()),
        None => None,
    }
}

pub fn eq_opt_str(a: &Option<String>, b: &Option<String>) -> (r: bool)
    ensures
        r == (str_opt_model(*a) == str_opt_model(*b)),
{
    match (a, b) {
        (Some(x), Some(y)) => str_eq(x.as_str(), y.as_str()),
        (None, None) => true,
        _ => false,
    }
}

pub fn clone_opt_json(o: &Option<JsonValue>) -> (r: Option<JsonValue>)
    ensures
        json_opt_model(r) == json_opt_model(*o),
{
    match o {
        Some(j) => Some(j.deep_copy()),
        None => None,
    }
}

pub fn eq_opt_json(a: &Option<JsonValue>, b: &Option<JsonValue>) -> (r: bool)
    ensures
        r == (json_opt_model(*a) == json_opt_model(*b)),
{
    match (a, b) {
        (Some(x), Some(y)) => json_equal(x, y),
        (None, None) => true,
        _ => false,
    }
}

/// A copy of a list of documents.
pub fn clone_json_vec(v: &Vec<JsonValue>) -> (r: Vec<JsonValue>)
    ensures
        json_seq_model(r@) == json_seq_model(v@),
{
    let mut r: Vec<JsonValue> = Vec::new();
    let mut i: usize = 0;
    while i < v.len()
        invariant
            i <= v@.len(),
            r@.len() == i,
            forall|k: int| 0 <= k < i ==> #[trigger] r@[k]@ == v@[k]@,
        decreases v.len() - i,
    {
        r.push(v[i].deep_copy());
        i = i + 1;
    }
    assert(json_seq_model(r@) =~= json_seq_model(v@));
    r
}

pub fn json_vec_equal(a: &Vec<JsonValue>, b: &Vec<JsonValue>) -> (r: bool)
    ensures
        r == (json_seq_model(a@) == json_seq_model(b@)),
{
    if a.len() != b.len() {
        assert(json_seq_model(a@).len() != json_seq_model(b@).len());
        return false;
    }
    let mut i: usize = 0;
    while i < a.len()
        invariant
            a@.len() == b@.len(),
            i <= a@.len(),
            forall|k: int| 0 <= k < i ==> #[trigger] a@[k]@ == b@[k]@,
        decreases a.len() - i,
    {
        if !json_equal(&a[i], &b[i]) {
            assert(json_seq_model(a@)[i as int] != json_seq_model(b@)[i as int]);
            return false;
        }
        i = i + 1;
    }
    assert(json_seq_model(a@) =~= json_seq_model(b@));
    true
}

pub fn clone_opt_json_list(o: &Option<Vec<JsonValue>>) -> (r: Option<Vec<JsonValue>>)
    ensures
        json_list_model(r) == json_list_model(*o),
{
    match o {
        Some(v) => Some(clone_json_vec(v)),
        None => None,
    }
}

pub fn eq_opt_json_list(a: &Option<Vec<JsonValue>>, b: &Option<Vec<JsonValue>>) -> (r: bool)
    ensures
        r == (json_list_model(*a) == json_list_model(*b)),
{
    match (a, b) {
        (Some(x), Some(y)) => json_vec_equal(x, y),
        (None, None) => true,
        _ => false,
    }
}

/// A copy of a list of strings.
pub fn clone_str_vec(v: &Vec<String>) -> (r: Vec<String>)
    ensures
        str_seq_model(r@) == str_seq_model(v@),
{
    let mut r: Vec<String> = Vec::new();
    let mut i: usize = 0;
    while i < v.len()
        invariant
            i <= v@.len(),
            r@.len() == i,
            forall|k: int| 0 <= k < i ==> #[trigger] r@[k]@ == v@[k]@,
        decreases v.len() - i,
    {
        r.push(v[i].clone());
        i = i + 1;
    }
    assert(str_seq_model(r@) =~= str_seq_model(v@));
    r
}

pub fn str_vec_equal(a: &Vec<String>, b: &Vec<String>) -> (r: bool)
    ensures
        r == (str_seq_model(a@) == str_seq_model(b@)),
{
    if a.len() != b.len() {
        assert(str_seq_model(a@).len() != str_seq_model(b@).len());
        return false;
    }
    let mut i: usize = 0;
    while i < a.len()
        invariant
            a@.len() == b@.len(),
            i <= a@.len(),
            forall|k: int| 0 <= k < i ==> #[trigger] a@[k]@ == b@[k]@,
        decreases a.len() - i,
    {
        if !str_eq(a[i].as_str(), b[i].as_str()) {
            assert(str_seq_model(a@)[i as int] != str_seq_model(b@)[i as int]);
            return false;
        }
        i = i + 1;
    }
    assert(str_seq_model(a@) =~= str_seq_model(b@));
    true
}

pub fn clone_opt_str_list(o: &Option<Vec<String>>) -> (r: Option<Vec<String>>)
    ensures
        str_list_model(r) == str_list_model(*o),
{
    match o {
        Some(v) => Some(clone_str_vec(v)),
        None => None,
    }
}

pub fn eq_opt_str_list(a: &Option<Vec<String>>, b: &Option<Vec<String>>) -> (r: bool)
    ensures
        r == (str_list_model(*a) == str_list_model(*b)),
{
    match (a, b) {
        (Some(x), Some(y)) => str_vec_equal(x, y),
        (None, None) => true,
        _ => false,
    }
}

pub fn clone_type(t: &SchemaTypeValue) -> (r: SchemaTypeValue)
    ensures
        type_model(r) == type_model(*t),
{
    match t {
        SchemaTypeValue::Single(s) => SchemaTypeValue::Single(s.clone()),
        SchemaTypeValue::Array(v) => SchemaTypeValue::Array(clone_str_vec(v)),
    }
}

pub fn clone_opt_type(o: &Option<SchemaTypeValue>) -> (r: Option<SchemaTypeValue>)
    ensures
        type_opt_model(r) == type_opt_model(*o),
{
    match o {
        Some(t) => Some(clone_type(t)),
        None => None,
    }
}

pub fn eq_opt_type(a: &Option<SchemaTypeValue>, b: &Option<SchemaTypeValue>) -> (r: bool)
    ensures
        r == (type_opt_model(*a) == type_opt_model(*b)),
{
    match (a, b) {
        (Some(SchemaTypeValue::Single(x)), Some(SchemaTypeValue::Single(y))) => str_eq(x.as_str(), y.as_str()),
        (Some(SchemaTypeValue::Array(x)), Some(SchemaTypeValue::Array(y))) => str_vec_equal(x, y),
        (None, None) => true,
        _ => false,
    }
}

pub fn clone_dep_req_vec(v: &Vec<(String, Vec<String>)>) -> (r: Vec<(String, Vec<String>)>)
    ensures
        dep_req_seq_model(r@) == dep_req_seq_model(v@),
{
    let mut r: Vec<(String, Vec<String>)> = Vec::new();
    let mut i: usize = 0;
    while i < v.len()
        invariant
            i <= v@.len(),
            r@.len() == i,
            forall|k: int| 0 <= k < i ==> #[trigger] r@[k].0@ == v@[k].0@,
            forall|k: int| 0 <= k < i ==> #[trigger] str_seq_model(r@[k].1@) == str_seq_model(v@[k].1@),
        decreases v.len() - i,
    {
        r.push((v[i].0.clone(), clone_str_vec(&v[i].1)));
        i = i + 1;
    }
    assert(dep_req_seq_model(r@) =~= dep_req_seq_model(v@));
    r
}

pub fn clone_opt_dep_req(o: &Option<Vec<(String, Vec<String>)>>) -> (r: Option<Vec<(String, Vec<String>)>>)
    ensures
        dep_req_model(r) == dep_req_model(*o),
{
    match o {
        Some(v) => Some(clone_dep_req_vec(v)),
        None => None,
    }
}

#[verifier::loop_isolation(false)]
pub fn eq_opt_dep_req(a: &Option<Vec<(String, Vec<String>)>>, b: &Option<Vec<(String, Vec<String>)>>) -> (r: bool)
    ensures
        r == (dep_req_model(*a) == dep_req_model(*b)),
{
    match (a, b) {
        (Some(x), Some(y)) => {
            if x.len() != y.len() {
                assert(dep_req_seq_model(x@).len() != dep_req_seq_model(y@).len());
                return false;
            }
            let mut i: usize = 0;
            while i < x.len()
                invariant
                    x@.len() == y@.len(),
                    i <= x@.len(),
                    forall|k: int| 0 <= k < i ==> #[trigger] dep_req_seq_model(x@)[k] == dep_req_seq_model(y@)[k],
                decreases x.len() - i,
            {
                if !str_eq(x[i].0.as_str(), y[i].0.as_str()) {
                    assert(dep_req_seq_model(x@)[i as int].0 != dep_req_seq_model(y@)[i as int].0);
                    return false;
                }
                if !str_vec_equal(&x[i].1, &y[i].1) {
                    assert(dep_req_seq_model(x@)[i as int].1 != dep_req_seq_model(y@)[i as int].1);
                    return false;
                }
                i = i + 1;
            }
            assert(dep_req_seq_model(x@) =~= dep_req_seq_model(y@));
            true
        },
        (None, None) => true,
        _ => false,
    }
}

/// A copy of a list of key/value entries.
pub fn clone_entries(v: &Vec<(String, JsonValue)>) -> (r: Vec<(String, JsonValue)>)
    ensures
        ext_model(r@) == ext_model(v@),
{
    let mut r: Vec<(String, JsonValue)> = Vec::new();
    let mut i: usize = 0;
    while i < v.len()
        invariant
            i <= v@.len(),
            r@.len() == i,
            forall|k: int| 0 <= k < i ==> #[trigger] r@[k].0@ == v@[k].0@,
            forall|k: int| 0 <= k < i ==> #[trigger] r@[k].1@ == v@[k].1@,
        decreases v.len() - i,
    {
        r.push((v[i].0.clone(), v[i].1.deep_copy()));
        i = i + 1;
    }
    assert(ext_model(r@) =~= ext_model(v@));
    r
}

pub fn entries_equal(a: &Vec<(String, JsonValue)>, b: &Vec<(String, JsonValue)>) -> (r: bool)
    ensures
        r == (ext_model(a@) == ext_model(b@)),
{
    if a.len() != b.len() {
        assert(ext_model(a@).len() != ext_model(b@).len());
        return false;
    }
    let mut i: usize = 0;
    while i < a.len()
        invariant
            a@.len() == b@.len(),
            i <= a@.len(),
            forall|k: int| 0 <= k < i ==> #[trigger] ext_model(a@)[k] == ext_model(b@)[k],
        decreases a.len() - i,
    {
        if !str_eq(a[i].0.as_str(), b[i].0.as_str()) || !json_equal(&a[i].1, &b[i].1) {
            assert(ext_model(a@)[i as int] != ext_model(b@)[i as int]);
            return false;
        }
        i = i + 1;
    }
    assert(ext_model(a@) =~= ext_model(b@));
    true
}

pub proof fn lemma_schemas_model_index(v: Seq<Schema>, i: int)
    requires
        0 <= i < v.len(),
    ensures
        schemas_model(v).len() == v.len(),
        schemas_model(v)[i] == schema_model(v[i]),
{
}

pub proof fn lemma_schema_map_model_index(v: Seq<(String, Schema)>, i: int)
    requires
        0 <= i < v.len(),
    ensures
        schema_map_model(v).len() == v.len(),
        schema_map_model(v)[i] == (v[i].0@, schema_model(v[i].1)),
{
}

/// A copy of a list of schemas.
pub fn clone_schema_vec(v: &Vec<Schema>) -> (r: Vec<Schema>)
    ensures
        schemas_model(r@) == schemas_model(v@),
    decreases v, 0int,
{
    let mut r: Vec<Schema> = Vec::new();
    let mut i: usize = 0;
    while i < v.len()
        invariant
            i <= v@.len(),
            r@.len() == i,
            forall|k: int| 0 <= k < i ==> #[trigger] schema_model(r@[k]) == schema_model(v@[k]),
        decreases v.len() - i,
    {
        proof {
            assert(decreases_to!(v => v@[i as int]));
        }
        r.push(v[i].deep_copy());
        i = i + 1;
    }
    assert forall|k: int| 0 <= k < v@.len() implies schemas_model(r@)[k] == schemas_model(v@)[k] by {
        lemma_schemas_model_index(r@, k);
        lemma_schemas_model_index(v@, k);
    }
    proof {
        if v@.len() > 0 {
            lemma_schemas_model_index(r@, 0);
            lemma_schemas_model_index(v@, 0);
        } else {
            assert(schemas_model(r@).len() == 0);
            assert(schemas_model(v@).len() == 0);
        }
    }
    assert(schemas_model(r@) =~= schemas_model(v@));
    r
}

/// A copy of a map of schemas.
pub fn clone_schema_map(v: &Vec<(String, Schema)>) -> (r: Vec<(String, Schema)>)
    ensures
        schema_map_model(r@) == schema_map_model(v@),
    decreases v, 0int,
{
    let mut r: Vec<(String, Schema)> = Vec::new();
    let mut i: usize = 0;
    while i < v.len()
        invariant
            i <= v@.len(),
            r@.len() == i,
            forall|k: int| 0 <= k < i ==> #[trigger] r@[k].0@ == v@[k].0@,
            forall|k: int| 0 <= k < i ==> #[trigger] schema_model(r@[k].1) == schema_model(v@[k].1),
        decreases v.len() - i,
    {
        proof {
            assert(decreases_to!(v => v@[i as int].1));
        }
        r.push((v[i].0.clone(), v[i].1.deep_copy()));
        i = i + 1;
    }
    assert forall|k: int| 0 <= k < v@.len() implies schema_map_model(r@)[k] == schema_map_model(v@)[k] by {
        lemma_schema_map_model_index(r@, k);
        lemma_schema_map_model_index(v@, k);
    }
    proof {
        if v@.len() > 0 {
            lemma_schema_map_model_index(r@, 0);
            lemma_schema_map_model_index(v@, 0);
        } else {
            assert(schema_map_model(r@).len() == 0);
            assert(schema_map_model(v@).len() == 0);
        }
    }
    assert(schema_map_model(r@) =~= schema_map_model(v@));
    r
}

pub fn schema_vec_equal(a: &Vec<Schema>, b: &Vec<Schema>) -> (r: bool)
    ensures
        r == (schemas_model(a@) == schemas_model(b@)),
    decreases a, 0int,
{
    if a.len() != b.len() {
        proof {
            if a@.len() > 0 {
                lemma_schemas_model_index(a@, 0);
            } else {
                assert(schemas_model(a@).len() == 0);
            }
            if b@.len() > 0 {
                lemma_schemas_model_index(b@, 0);
            } else {
                assert(schemas_model(b@).len() == 0);
            }
        }
        return false;
    }
    let mut i: usize = 0;
    while i < a.len()
        invariant
            a@.len() == b@.len(),
            i <= a@.len(),
            forall|k: int| 0 <= k < i ==> #[trigger] schema_model(a@[k]) == schema_model(b@[k]),
        decreases a.len() - i,
    {
        proof {
            assert(decreases_to!(a => a@[i as int]));
        }
        if !schema_equal(&a[i], &b[i]) {
            proof {
                lemma_schemas_model_index(a@, i as int);
                lemma_schemas_model_index(b@, i as int);
            }
            return false;
        }
        i = i + 1;
    }
    assert forall|k: int| 0 <= k < a@.len() implies schemas_model(a@)[k] == schemas_model(b@)[k] by {
        lemma_schemas_model_index(a@, k);
        lemma_schemas_model_index(b@, k);
    }
    proof {
        if a@.len() > 0 {
            lemma_schemas_model_index(a@, 0);
            lemma_schemas_model_index(b@, 0);
        } else {
            assert(schemas_model(a@).len() == 0);
            assert(schemas_model(b@).len() == 0);
        }
    }
    assert(schemas_model(a@) =~= schemas_model(b@));
    true
}

pub fn schema_map_equal(a: &Vec<(String, Schema)>, b: &Vec<(String, Schema)>) -> (r: bool)
    ensures
        r == (schema_map_model(a@) == schema_map_model(b@)),
    decreases a, 0int,
{
    if a.len() != b.len() {
        proof {
            if a@.len() > 0 {
                lemma_schema_map_model_index(a@, 0);
            } else {
                assert(schema_map_model(a@).len() == 0);
            }
            if b@.len() > 0 {
                lemma_schema_map_model_index(b@, 0);
            } else {
                assert(schema_map_model(b@).len() == 0);
            }
        }
        return false;
    }
    let mut i: usize = 0;
    while i < a.len()
        invariant
            a@.len() == b@.len(),
            i <= a@.len(),
            forall|k: int| 0 <= k < i ==> #[trigger] a@[k].0@ == b@[k].0@,
            forall|k: int| 0 <= k < i ==> #[trigger] schema_model(a@[k].1) == schema_model(b@[k].1),
        decreases a.len() - i,
    {
        proof {
            assert(decreases_to!(a => a@[i as int].1));
            lemma_schema_map_model_index(a@, i as int);
            lemma_schema_map_model_index(b@, i as int);
        }
        if !str_eq(a[i].0.as_str(), b[i].0.as_str()) {
            return false;
        }
        if !schema_equal(&a[i].1, &b[i].1) {
            return false;
        }
        i = i + 1;
    }
    assert forall|k: int| 0 <= k < a@.len() implies schema_map_model(a@)[k] == schema_map_model(b@)[k] by {
        lemma_schema_map_model_index(a@, k);
        lemma_schema_map_model_index(b@, k);
    }
    proof {
        if a@.len() > 0 {
            lemma_schema_map_model_index(a@, 0);
            lemma_schema_map_model_index(b@, 0);
        } else {
            assert(schema_map_model(a@).len() == 0);
            assert(schema_map_model(b@).len() == 0);
        }
    }
    assert(schema_map_model(a@) =~= schema_map_model(b@));
    true
}

} // verus!
