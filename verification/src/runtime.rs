//! The form runtime: a tree of field nodes mirroring a JSON value under a
//! schema. Each node holds its effective schema, type and validation error;
//! changing the value re-evaluates the nodes it affects (the node at the
//! changed path, its ancestors as needed, and the nodes that depend on the
//! changed path through conditions) and records change events.
use vstd::prelude::*;
use crate::children::{ChildSpec, compute_children, children_view, spec_child_specs};
use crate::default::{apply_defaults, get_default_value};
use crate::dependency::collect_dependencies;
use crate::json::{Json, JsonValue, get_json_pointer, set_json_pointer, remove_json_pointer, spec_get,
    spec_remove_pointer, spec_set_pointer, spec_set, empty_object, lemma_object_view, lemma_array_view};
use crate::pointer::{json_pointer_join, get_json_pointer_parent, parse_json_pointer, spec_parse_pointer, spec_join};
use crate::resolve::{EffectiveSchemaResult, resolve_effective_schema};
use crate::schema::{Schema, SchemaModel, SchemaType, schema_equal, lemma_schema_fields, str_seq_model};
use crate::schema_util::{dereference_schema_deep, get_sub_schema, spec_deref_deep};
use crate::text::{str_eq, to_owned_string, usize_to_text, decimal_text};
use crate::util::deep_equal;
use crate::validate::{Validator, ValidationOutput, ErrorMessage};

use crate::normalize::{DraftNormalizer, Normalizer, normalize_spec, read_or_empty, NORMALIZE_DEPTH};
verus! {

/// What changed.
#[derive(Debug, Clone, Copy, PartialEq, Eq, Structural)]
pub enum ChangeKind {
    Schema,
    Value,
    Error,
}

/// A change at a path.
#[derive(Debug)]
pub struct SchemaChangeEvent {
    pub kind: ChangeKind,
    pub path: String,
}

/// A field of the form.
#[derive(Debug)]
pub struct FieldNode {
    pub type_: SchemaType,
    pub schema: Schema,
    pub original_schema: Schema,
    pub error: Option<ValidationOutput>,
    pub children: Vec<usize>,
    pub instance_location: String,
    pub keyword_location: String,
    pub origin_keyword_location: Option<String>,
    pub version: u64,
    pub dependencies: Vec<String>,
    pub can_remove: bool,
    pub can_add: bool,
    pub required: bool,
    pub activated: bool,
}

/// The recursion budget of one rebuild: far beyond any form's depth.
pub const BUILD_BUDGET: u64 = 0xffff_ffff_ffff_ffff;

/// Whether writing `x` at `path` into a form's value `v` succeeds: the
/// whole value is replaced for `""` and `"#"`; otherwise a null value is
/// first made an empty object.
pub open spec fn spec_write_ok(v: Json, path: Seq<char>, x: Json) -> bool {
    if path.len() == 0 || path == "#"@ {
        true
    } else {
        spec_set_pointer(if v is Null { empty_object() } else { v }, path, x).0
    }
}

/// The value a form's value `v` becomes when `x` is written at `path`:
/// `x` itself for `""` and `"#"`; otherwise the pointer write, into an
/// empty object where `v` is null.
pub open spec fn spec_write(v: Json, path: Seq<char>, x: Json) -> Json {
    if path.len() == 0 || path == "#"@ {
        x
    } else {
        spec_set_pointer(if v is Null { empty_object() } else { v }, path, x).1
    }
}

/// The value at `path` in a form's value `v`: the whole value for `""` and
/// `"#"`.
pub open spec fn spec_value_at(v: Json, path: Seq<char>) -> Option<Json> {
    if path.len() == 0 || path == "#"@ {
        Some(v)
    } else {
        spec_get(v, spec_parse_pointer(path))
    }
}

/// A form's value once the field at `loc` holds an array: unchanged when it
/// does, else with an empty array written there.
pub open spec fn with_array_at(v: Json, loc: Seq<char>) -> Json {
    if spec_value_at(v, loc) matches Some(Json::Array(_)) {
        v
    } else {
        spec_write(v, loc, Json::Array(Seq::empty()))
    }
}

/// Where an item appended to the array field at `loc` of `v` goes: the
/// index after the last element.
pub open spec fn append_location(v: Json, loc: Seq<char>) -> Seq<char> {
    let n: nat = match spec_value_at(with_array_at(v, loc), loc) {
        Some(Json::Array(a)) => a.len(),
        _ => 0,
    };
    spec_join(loc, decimal_text(n))
}

/// Whether a write at a pointer succeeds does not depend on the value
/// written.
proof fn lemma_set_ok_any(v: Json, toks: Seq<Seq<char>>, x: Json, y: Json)
    ensures
        spec_set(v, toks, x).0 == spec_set(v, toks, y).0,
    decreases toks.len(),
{
    if toks.len() > 1 {
        match v {
            Json::Object(m) => {
                let child = match crate::json::obj_get(m, toks[0]) {
                    Some(c) => c,
                    None => empty_object(),
                };
                lemma_set_ok_any(child, toks.skip(1), x, y);
            },
            Json::Array(a) => match crate::text::spec_parse_usize(toks[0]) {
                Some(i) => {
                    let a2 = crate::json::extend_nulls(a, i as nat);
                    let child = if a2[i as int] is Null { empty_object() } else { a2[i as int] };
                    lemma_set_ok_any(child, toks.skip(1), x, y);
                },
                None => {},
            },
            _ => {
                lemma_set_ok_any(empty_object(), toks.skip(1), x, y);
            },
        }
    }
}

proof fn lemma_write_ok_any(v: Json, path: Seq<char>, x: Json, y: Json)
    ensures
        spec_write_ok(v, path, x) == spec_write_ok(v, path, y),
{
    if !(path.len() == 0 || path == "#"@) {
        let b = if v is Null { empty_object() } else { v };
        if path.len() > 0 {
            lemma_set_ok_any(b, spec_parse_pointer(path), x, y);
        }
    }
}

/// The root schema a runtime takes from a schema document: the document
/// read and normalized, then with every `$ref` replaced against itself.
pub open spec fn spec_root_schema(doc: Json) -> SchemaModel {
    let n = normalize_spec(read_or_empty(doc), NORMALIZE_DEPTH as nat);
    spec_deref_deep(n, n, 0)
}

/// Whether removing at `path` from a form's value `v` removes something.
pub open spec fn spec_remove_ok(v: Json, path: Seq<char>) -> bool {
    path.len() > 0 && spec_remove_pointer(v, path).0
}

/// The runtime of a form.
pub struct SchemaRuntime<V: Validator> {
    nodes: Vec<FieldNode>,
    value: JsonValue,
    version: u64,
    root_schema: Schema,
    validator: V,
    dependents_map: Vec<(String, Vec<usize>)>,
    updating_nodes: Vec<String>,
    pending_events: Vec<SchemaChangeEvent>,
}

pub open spec fn nodes_wf(nodes: Seq<FieldNode>) -> bool {
    &&& nodes.len() >= 1
    &&& forall|i: int, j: int|
        0 <= i < nodes.len() && 0 <= j < nodes[i].children@.len() ==> #[trigger] nodes[i].children@[j] < nodes.len()
}

/// Every node of `a` is still in `b`, at the same instance location.
pub open spec fn locations_kept(a: Seq<FieldNode>, b: Seq<FieldNode>) -> bool {
    &&& a.len() <= b.len()
    &&& forall|i: int| 0 <= i < a.len() ==> #[trigger] b[i].instance_location == a[i].instance_location
}

/// The instance locations of the children that the child specifications
/// `specs` give a node at `inst`: one per distinct location, in the order
/// in which the locations first occur.
pub open spec fn child_locations(inst: Seq<char>, specs: Seq<(Seq<char>, SchemaModel, Seq<char>, bool, bool)>) -> Seq<
    Seq<char>,
>
    decreases specs.len(),
{
    if specs.len() == 0 {
        Seq::empty()
    } else {
        let prev = child_locations(inst, specs.drop_last());
        let loc = spec_join(inst, specs.last().0);
        if prev.contains(loc) {
            prev
        } else {
            prev.push(loc)
        }
    }
}

/// The first child among `ch` whose instance location is `loc`.
pub open spec fn child_at(nodes: Seq<FieldNode>, ch: Seq<usize>, loc: Seq<char>) -> Option<usize>
    decreases ch.len(),
{
    if ch.len() == 0 {
        None
    } else if 0 <= ch[0] < nodes.len() && nodes[ch[0] as int].instance_location@ == loc {
        Some(ch[0])
    } else {
        child_at(nodes, ch.skip(1), loc)
    }
}

/// The node reached from `cur` by following the tokens `segs` down the
/// children.
pub open spec fn node_lookup(nodes: Seq<FieldNode>, cur: usize, segs: Seq<Seq<char>>) -> Option<usize>
    decreases segs.len(),
{
    if segs.len() == 0 {
        Some(cur)
    } else if cur >= nodes.len() {
        None
    } else {
        match child_at(nodes, nodes[cur as int].children@, spec_join(nodes[cur as int].instance_location@, segs[0])) {
            Some(c) => node_lookup(nodes, c, segs.skip(1)),
            None => None,
        }
    }
}

impl<V: Validator> SchemaRuntime<V> {
    /// The node tree is consistent: there is a root, and children are
    /// nodes.
    pub closed spec fn well_formed(&self) -> bool {
        nodes_wf(self.nodes@)
    }

    pub closed spec fn value_view(&self) -> Json {
        self.value@
    }

    pub closed spec fn version_view(&self) -> u64 {
        self.version
    }

    pub closed spec fn events_view(&self) -> Seq<SchemaChangeEvent> {
        self.pending_events@
    }

    pub closed spec fn nodes_view(&self) -> Seq<FieldNode> {
        self.nodes@
    }

    pub closed spec fn root_schema_view(&self) -> SchemaModel {
        self.root_schema@
    }

    /// The index of the node at a path: the root for the empty path.
    pub closed spec fn node_index(&self, path: Seq<char>) -> Option<usize> {
        if path.len() == 0 {
            Some(0)
        } else {
            node_lookup(self.nodes@, 0, spec_parse_pointer(path))
        }
    }

    /// Build a runtime for a schema document (read and normalized) and a value.
    pub fn new(validator: V, schema: JsonValue, value: JsonValue) -> (r: Self)
        ensures
            r.well_formed(),
            r.root_schema_view() == spec_root_schema(schema@),
            r.nodes_view().len() >= 1,
            r.nodes_view()[0].instance_location@.len() == 0,
    {
        let normalized = DraftNormalizer.normalize(&schema);
        let root_schema = dereference_schema_deep(&normalized, &normalized);
        let root_node = FieldNode {
            type_: SchemaType::Null,
            schema: Schema::new(),
            original_schema: root_schema.deep_copy(),
            error: None,
            children: Vec::new(),
            instance_location: String::new(),
            keyword_location: String::new(),
            origin_keyword_location: None,
            version: 0,
            dependencies: Vec::new(),
            can_remove: false,
            can_add: false,
            required: true,
            activated: true,
        };
        let mut nodes: Vec<FieldNode> = Vec::new();
        nodes.push(root_node);
        let mut rt = SchemaRuntime {
            nodes,
            value,
            version: 0,
            root_schema: Schema::new(),
            validator,
            dependents_map: Vec::new(),
            updating_nodes: Vec::new(),
            pending_events: Vec::new(),
        };
        let root_copy = rt.nodes[0].original_schema.deep_copy();
        let mut updated: Vec<String> = Vec::new();
        rt.build_node(0, Some(&root_copy), &mut updated, BUILD_BUDGET);
        rt.root_schema = root_schema;
        rt
    }

    /// Replace the schema and rebuild the whole tree.
    pub fn set_schema(&mut self, schema: JsonValue)
        requires
            old(self).well_formed(),
        ensures
            final(self).well_formed(),
            final(self).events_view().len() > 0,
            final(self).events_view().last().kind == ChangeKind::Schema,
            final(self).events_view().last().path@.len() == 0,
            final(self).root_schema_view() == spec_root_schema(schema@),
    {
        let normalized = DraftNormalizer.normalize(&schema);
        let root_schema = dereference_schema_deep(&normalized, &normalized);
        self.nodes.truncate(1);
        self.nodes[0].original_schema = root_schema.deep_copy();
        self.nodes[0].schema = Schema::new();
        self.nodes[0].children = Vec::new();
        self.nodes[0].version = 0;
        self.dependents_map = Vec::new();
        let mut updated: Vec<String> = Vec::new();
        self.build_node(0, Some(&root_schema), &mut updated, BUILD_BUDGET);
        self.notify(ChangeKind::Schema, String::new());
        self.root_schema = root_schema;
    }

    pub fn get_version(&self) -> (r: u64)
        ensures
            r == self.version_view(),
    {
        self.version
    }

    /// The value at a path; the whole value for `""` and `"#"`.
    pub fn get_value(&self, path: &str) -> (r: Option<&JsonValue>)
        ensures
            match r {
                Some(x) => x@ == if path@.len() == 0 || path@ == "#"@ {
                    self.value_view()
                } else {
                    spec_get(self.value_view(), spec_parse_pointer(path@))->0
                } && (path@.len() == 0 || path@ == "#"@ || spec_get(self.value_view(), spec_parse_pointer(path@)) is Some),
                None => !(path@.len() == 0 || path@ == "#"@) && spec_get(self.value_view(), spec_parse_pointer(path@)) is None,
            },
    {
        if path.unicode_len() == 0 || str_eq(path, "#") {
            Some(&self.value)
        } else {
            get_json_pointer(&self.value, path)
        }
    }

    pub fn get_root_value(&self) -> (r: &JsonValue)
        ensures
            r@ == self.value_view(),
    {
        &self.value
    }

    /// Take the events recorded since the last call.
    pub fn drain_events(&mut self) -> (r: Vec<SchemaChangeEvent>)
        requires
            old(self).well_formed(),
        ensures
            final(self).well_formed(),
            r@ == old(self).events_view(),
            final(self).events_view().len() == 0,
            final(self).value_view() == old(self).value_view(),
            final(self).version_view() == old(self).version_view(),
    {
        let mut taken: Vec<SchemaChangeEvent> = Vec::new();
        std::mem::swap(&mut taken, &mut self.pending_events);
        taken
    }

    pub fn root(&self) -> (r: &FieldNode)
        requires
            self.well_formed(),
        ensures
            *r == self.nodes_view()[0],
    {
        &self.nodes[0]
    }

    /// A node by its index in the tree's storage.
    pub fn get_node_by_index(&self, index: usize) -> (r: Option<&FieldNode>)
        ensures
            match r {
                Some(n) => index < self.nodes_view().len() && *n == self.nodes_view()[index as int],
                None => index >= self.nodes_view().len(),
            },
    {
        if index < self.nodes.len() {
            Some(&self.nodes[index])
        } else {
            None
        }
    }

    /// The node at a path.
    pub fn get_node(&self, path: &str) -> (r: Option<&FieldNode>)
        requires
            self.well_formed(),
        ensures
            match r {
                Some(n) => self.node_index(path@) matches Some(i) && i < self.nodes_view().len() && *n == self.nodes_view()[i as int],
                None => self.node_index(path@) is None,
            },
    {
        match self.get_node_idx(path) {
            Some(i) => Some(&self.nodes[i]),
            None => None,
        }
    }

    fn get_node_idx(&self, path: &str) -> (r: Option<usize>)
        requires
            self.well_formed(),
        ensures
            r == self.node_index(path@),
            r matches Some(i) ==> i < self.nodes@.len(),
    {
        if path.unicode_len() == 0 {
            return Some(0);
        }
        let segments = parse_json_pointer(path);
        let ghost segs = spec_parse_pointer(path@);
        let mut current: usize = 0;
        let mut k: usize = 0;
        assert(str_seq_model(segments@) =~= segs);
        assert(segs.skip(0) =~= segs);
        while k < segments.len()
            invariant
                self.well_formed(),
                k <= segments@.len(),
                segs == spec_parse_pointer(path@),
                segs == str_seq_model(segments@),
                current < self.nodes@.len(),
                node_lookup(self.nodes@, current, segs.skip(k as int)) == node_lookup(self.nodes@, 0, segs),
            decreases segments.len() - k,
        {
            let expected = json_pointer_join(self.nodes[current].instance_location.as_str(), segments[k].as_str());
            let ghost ch = self.nodes@[current as int].children@;
            assert(segs.skip(k as int)[0] == segments@[k as int]@);
            assert(segs.skip(k as int).skip(1) =~= segs.skip(k + 1));
            let mut found: Option<usize> = None;
            let mut t: usize = 0;
            let children = &self.nodes[current].children;
            assert(ch.skip(0) =~= ch);
            while t < children.len() && found.is_none()
                invariant
                    self.well_formed(),
                    current < self.nodes@.len(),
                    *children == self.nodes@[current as int].children,
                    ch == children@,
                    t <= ch.len(),
                    found is None ==> child_at(self.nodes@, ch.skip(t as int), expected@) == child_at(self.nodes@, ch, expected@),
                    found matches Some(c) ==> child_at(self.nodes@, ch, expected@) == Some(c) && c < self.nodes@.len(),
                decreases children.len() - t + if found is None { 1int } else { 0int },
            {
                let c = children[t];
                assert(ch.skip(t as int)[0] == c);
                assert(ch.skip(t as int).skip(1) =~= ch.skip(t + 1));
                assert(c < self.nodes@.len());
                if str_eq(self.nodes[c].instance_location.as_str(), expected.as_str()) {
                    found = Some(c);
                } else {
                    t = t + 1;
                }
            }
            match found {
                Some(c) => {
                    current = c;
                },
                None => {
                    assert(ch.skip(t as int).len() == 0);
                    return None;
                },
            }
            k = k + 1;
        }
        assert(segs.skip(segments@.len() as int).len() == 0);
        Some(current)
    }

    /// Set the value at a path. A null for a field that is not required
    /// clears it instead.
    pub fn set_value(&mut self, path: &str, value: JsonValue) -> (r: bool)
        requires
            old(self).well_formed(),
        ensures
            final(self).well_formed(),
            r == if value@ is Null && (old(self).node_index(path@) matches Some(i)
                && !old(self).nodes_view()[i as int].required) {
                spec_remove_ok(old(self).value_view(), path@)
            } else {
                spec_write_ok(old(self).value_view(), path@, value@)
            },
            !r ==> final(self).version_view() == old(self).version_view() && final(self).events_view()
                == old(self).events_view() && final(self).nodes_view() == old(self).nodes_view()
                && final(self).value_view() == if value@ is Null && (old(self).node_index(path@) matches Some(i)
                && !old(self).nodes_view()[i as int].required) {
                spec_remove_pointer(old(self).value_view(), path@).1
            } else {
                spec_write(old(self).value_view(), path@, value@)
            },
            r ==> final(self).events_view().len() > 0 && final(self).events_view().last().kind == ChangeKind::Value
                && final(self).events_view().last().path@ == path@,
    {
        if value.is_null() {
            if let Some(idx) = self.get_node_idx(path) {
                if !self.nodes[idx].required {
                    return self.clear_value(path);
                }
            }
        }
        if !self.set_json_pointer_internal(path, value) {
            return false;
        }
        self.reconcile(path);
        self.notify(ChangeKind::Value, to_owned_string(path));
        true
    }

    /// Clear a value: a required field is set to null, any other removed.
    pub fn clear_value(&mut self, path: &str) -> (r: bool)
        requires
            old(self).well_formed(),
        ensures
            final(self).well_formed(),
            r == if (old(self).node_index(path@) matches Some(i) && old(self).nodes_view()[i as int].required) {
                spec_write_ok(old(self).value_view(), path@, Json::Null)
            } else {
                spec_remove_ok(old(self).value_view(), path@)
            },
            !r ==> final(self).version_view() == old(self).version_view() && final(self).events_view()
                == old(self).events_view() && final(self).nodes_view() == old(self).nodes_view()
                && final(self).value_view() == if (old(self).node_index(path@) matches Some(i)
                && old(self).nodes_view()[i as int].required) {
                spec_write(old(self).value_view(), path@, Json::Null)
            } else {
                spec_remove_pointer(old(self).value_view(), path@).1
            },
            r ==> final(self).events_view().len() > 0 && final(self).events_view().last().kind == ChangeKind::Value
                && final(self).events_view().last().path@ == path@,
    {
        if let Some(idx) = self.get_node_idx(path) {
            if self.nodes[idx].required {
                if !self.set_json_pointer_internal(path, JsonValue::Null) {
                    return false;
                }
                self.reconcile(path);
                self.notify(ChangeKind::Value, to_owned_string(path));
                return true;
            }
        }
        self.remove_value(path)
    }

    /// Remove the value at a path (not the whole value), then the
    /// containers it leaves empty unless they are required.
    pub fn remove_value(&mut self, path: &str) -> (r: bool)
        requires
            old(self).well_formed(),
        ensures
            final(self).well_formed(),
            r == spec_remove_ok(old(self).value_view(), path@),
            !r ==> final(self).version_view() == old(self).version_view() && final(self).events_view()
                == old(self).events_view() && final(self).nodes_view() == old(self).nodes_view()
                && final(self).value_view() == spec_remove_pointer(old(self).value_view(), path@).1,
            r ==> final(self).events_view().len() > 0 && final(self).events_view().last().kind == ChangeKind::Value
                && final(self).events_view().last().path@ == path@,
    {
        if path.unicode_len() == 0 {
            return false;
        }
        if !remove_json_pointer(&mut self.value, path) {
            return false;
        }
        let after = self.cleanup_empty_containers(path, BUILD_BUDGET);
        let reconcile_path = if after.unicode_len() == 0 {
            after
        } else {
            get_json_pointer_parent(after.as_str())
        };
        self.reconcile(reconcile_path.as_str());
        self.notify(ChangeKind::Value, to_owned_string(path));
        true
    }

    /// Add an item to an array field, or a property to an object field.
    pub fn add_child(&mut self, parent_path: &str, key: Option<&str>, initial_value: Option<JsonValue>) -> (r: bool)
        requires
            old(self).well_formed(),
        ensures
            final(self).well_formed(),
            r == (old(self).node_index(parent_path@) matches Some(i) && ({
                let n = old(self).nodes_view()[i as int];
                let v = old(self).value_view();
                let loc = n.instance_location@;
                ||| n.type_ == SchemaType::Array && spec_write_ok(with_array_at(v, loc), append_location(v, loc),
                    Json::Null)
                ||| n.type_ == SchemaType::Object && (key matches Some(k) && spec_write_ok(v, spec_join(loc, k@),
                    Json::Null))
            })),
    {
        let parent_idx = match self.get_node_idx(parent_path) {
            Some(idx) => idx,
            None => {
                return false;
            },
        };
        match self.nodes[parent_idx].type_ {
            SchemaType::Array => self.add_array_item(parent_idx, initial_value),
            SchemaType::Object => {
                match key {
                    Some(k) => self.add_object_property(parent_idx, k, initial_value),
                    None => false,
                }
            },
            _ => false,
        }
    }

    /// Activate a field and re-evaluate it.
    pub fn validate(&mut self, path: &str)
        requires
            old(self).well_formed(),
        ensures
            final(self).well_formed(),
            old(self).node_index(path@) is None ==> final(self).value_view() == old(self).value_view()
                && final(self).nodes_view() == old(self).nodes_view()
                && final(self).events_view() == old(self).events_view(),
    {
        if let Some(idx) = self.get_node_idx(path) {
            self.nodes[idx].activated = true;
            let schema = self.nodes[idx].original_schema.deep_copy();
            let mut updated: Vec<String> = Vec::new();
            self.build_node(idx, Some(&schema), &mut updated, BUILD_BUDGET);
        }
    }

    // ── Internals ──

    fn notify(&mut self, kind: ChangeKind, path: String)
        requires
            old(self).well_formed(),
        ensures
            final(self).well_formed(),
            final(self).nodes@ == old(self).nodes@,
            final(self).value_view() == old(self).value_view(),
            final(self).events_view() == old(self).events_view().push(SchemaChangeEvent { kind, path }),
    {
        self.version = self.version.wrapping_add(1);
        self.pending_events.push(SchemaChangeEvent { kind, path });
    }

    fn create_empty_node(&mut self, instance_location: String, keyword_location: String) -> (r: usize)
        requires
            old(self).well_formed(),
        ensures
            final(self).well_formed(),
            locations_kept(old(self).nodes@, final(self).nodes@),
            final(self).nodes@.len() == old(self).nodes@.len() + 1,
            r == old(self).nodes@.len(),
            forall|i: int| 0 <= i < old(self).nodes@.len() ==> #[trigger] final(self).nodes@[i] == old(self).nodes@[i],
            final(self).nodes@[r as int].instance_location == instance_location,
    {
        let node = FieldNode {
            type_: SchemaType::Null,
            schema: Schema::new(),
            original_schema: Schema::new(),
            error: None,
            children: Vec::new(),
            instance_location,
            keyword_location,
            origin_keyword_location: None,
            version: 0,
            dependencies: Vec::new(),
            can_remove: false,
            can_add: false,
            required: false,
            activated: false,
        };
        self.nodes.push(node);
        self.nodes.len() - 1
    }

    /// Re-evaluate the nearest node that exists at or above a path.
    fn reconcile(&mut self, path: &str)
        requires
            old(self).well_formed(),
        ensures
            final(self).well_formed(),
            locations_kept(old(self).nodes@, final(self).nodes@),
    {
        let idx = self.find_nearest_existing_node(path);
        self.nodes[idx].activated = true;
        let schema = self.nodes[idx].original_schema.deep_copy();
        let mut updated: Vec<String> = Vec::new();
        self.build_node(idx, Some(&schema), &mut updated, BUILD_BUDGET);
    }

    fn find_nearest_existing_node(&self, path: &str) -> (r: usize)
        requires
            self.well_formed(),
        ensures
            r < self.nodes@.len(),
    {
        let mut current = to_owned_string(path);
        let mut fuel: u64 = BUILD_BUDGET;
        while fuel > 0
            invariant
                self.well_formed(),
            decreases fuel,
        {
            if let Some(idx) = self.get_node_idx(current.as_str()) {
                return idx;
            }
            if current.unicode_len() == 0 {
                return 0;
            }
            current = get_json_pointer_parent(current.as_str());
            fuel = fuel - 1;
        }
        0
    }

    fn register_dependent(&mut self, path: &str, node_idx: usize)
        requires
            old(self).well_formed(),
        ensures
            final(self).well_formed(),
            final(self).nodes@ == old(self).nodes@,
    {
        let mut i: usize = 0;
        while i < self.dependents_map.len()
            invariant
                self.well_formed(),
                self.nodes@ == old(self).nodes@,
            decreases self.dependents_map.len() - i,
        {
            if str_eq(self.dependents_map[i].0.as_str(), path) {
                if !contains_index(&self.dependents_map[i].1, node_idx) {
                    self.dependents_map[i].1.push(node_idx);
                }
                return;
            }
            i = i + 1;
        }
        let mut v: Vec<usize> = Vec::new();
        v.push(node_idx);
        self.dependents_map.push((to_owned_string(path), v));
    }

    fn unregister_dependent(&mut self, path: &str, node_idx: usize)
        requires
            old(self).well_formed(),
        ensures
            final(self).well_formed(),
            final(self).nodes@ == old(self).nodes@,
    {
        let mut i: usize = 0;
        while i < self.dependents_map.len()
            invariant
                self.well_formed(),
                self.nodes@ == old(self).nodes@,
            decreases self.dependents_map.len() - i,
        {
            if str_eq(self.dependents_map[i].0.as_str(), path) {
                let kept = without_index(&self.dependents_map[i].1, node_idx);
                if kept.len() == 0 {
                    self.dependents_map.remove(i);
                } else {
                    self.dependents_map[i].1 = kept;
                }
                return;
            }
            i = i + 1;
        }
    }

    fn unregister_node_dependencies(&mut self, node_idx: usize, fuel: u64)
        requires
            old(self).well_formed(),
            node_idx < old(self).nodes@.len(),
        ensures
            final(self).well_formed(),
            locations_kept(old(self).nodes@, final(self).nodes@),
            final(self).nodes@.len() == old(self).nodes@.len(),
        decreases fuel,
    {
        if fuel == 0 {
            return;
        }
        let mut deps: Vec<String> = Vec::new();
        std::mem::swap(&mut deps, &mut self.nodes[node_idx].dependencies);
        let mut i: usize = 0;
        while i < deps.len()
            invariant
                self.well_formed(),
                node_idx < self.nodes@.len(),
                self.nodes@.len() == old(self).nodes@.len(),
                locations_kept(old(self).nodes@, self.nodes@),
            decreases deps.len() - i,
        {
            self.unregister_dependent(deps[i].as_str(), node_idx);
            i = i + 1;
        }
        let children = self.nodes[node_idx].children.clone();
        let mut j: usize = 0;
        while j < children.len()
            invariant
                self.well_formed(),
                self.nodes@.len() == old(self).nodes@.len(),
                locations_kept(old(self).nodes@, self.nodes@),
                fuel > 0,
            decreases children.len() - j,
        {
            if children[j] < self.nodes.len() {
                self.unregister_node_dependencies(children[j], fuel - 1);
            }
            j = j + 1;
        }
    }

    fn update_node_dependencies(&mut self, node_idx: usize, schema: &Schema)
        requires
            old(self).well_formed(),
            node_idx < old(self).nodes@.len(),
        ensures
            final(self).well_formed(),
            locations_kept(old(self).nodes@, final(self).nodes@),
            final(self).nodes@.len() == old(self).nodes@.len(),
    {
        let inst = self.nodes[node_idx].instance_location.clone();
        let new_deps = collect_dependencies(schema, inst.as_str());
        let mut old_deps: Vec<String> = Vec::new();
        std::mem::swap(&mut old_deps, &mut self.nodes[node_idx].dependencies);
        let mut i: usize = 0;
        while i < old_deps.len()
            invariant
                self.well_formed(),
                node_idx < self.nodes@.len(),
                self.nodes@.len() == old(self).nodes@.len(),
                locations_kept(old(self).nodes@, self.nodes@),
            decreases old_deps.len() - i,
        {
            self.unregister_dependent(old_deps[i].as_str(), node_idx);
            i = i + 1;
        }
        let mut j: usize = 0;
        while j < new_deps.len()
            invariant
                self.well_formed(),
                node_idx < self.nodes@.len(),
                self.nodes@.len() == old(self).nodes@.len(),
                locations_kept(old(self).nodes@, self.nodes@),
            decreases new_deps.len() - j,
        {
            self.register_dependent(new_deps[j].as_str(), node_idx);
            j = j + 1;
        }
        self.nodes[node_idx].dependencies = new_deps;
    }

    fn set_json_pointer_internal(&mut self, path: &str, value: JsonValue) -> (r: bool)
        requires
            old(self).well_formed(),
        ensures
            final(self).well_formed(),
            final(self).nodes@ == old(self).nodes@,
            r == spec_write_ok(old(self).value_view(), path@, value@),
            final(self).value_view() == spec_write(old(self).value_view(), path@, value@),
            final(self).version == old(self).version,
            final(self).pending_events == old(self).pending_events,
    {
        if path.unicode_len() == 0 || str_eq(path, "#") {
            self.value = value;
            return true;
        }
        if self.value.is_null() {
            self.value = JsonValue::Object(Vec::new());
            proof {
                lemma_object_view(self.value);
                assert(crate::json::entries_view(Seq::<(String, JsonValue)>::empty()) =~= Seq::<(Seq<char>, Json)>::empty());
            }
        }
        set_json_pointer(&mut self.value, path, value)
    }

    /// Remove the containers a removal left empty, upwards, stopping at a
    /// required one; the path reached.
    fn cleanup_empty_containers(&mut self, path: &str, fuel: u64) -> (r: String)
        requires
            old(self).well_formed(),
        ensures
            final(self).well_formed(),
            final(self).nodes@ == old(self).nodes@,
        decreases fuel,
    {
        let parent_path = get_json_pointer_parent(path);
        if fuel == 0 || (parent_path.unicode_len() == 0 && path.unicode_len() == 0) {
            return to_owned_string(path);
        }
        let is_empty = match self.get_value(parent_path.as_str()) {
            Some(JsonValue::Object(m)) => m.len() == 0,
            Some(JsonValue::Array(a)) => a.len() == 0,
            Some(JsonValue::Null) => true,
            _ => false,
        };
        if !is_empty {
            return to_owned_string(path);
        }
        let parent_required = match self.get_node_idx(parent_path.as_str()) {
            Some(idx) => self.nodes[idx].required,
            None => false,
        };
        if parent_required {
            return to_owned_string(path);
        }
        if parent_path.unicode_len() != 0 {
            remove_json_pointer(&mut self.value, parent_path.as_str());
            return self.cleanup_empty_containers(parent_path.as_str(), fuel - 1);
        }
        to_owned_string(path)
    }

    /// `const` replaces the value unless equal; otherwise missing defaults
    /// are filled in.
    fn apply_schema_defaults(&mut self, instance_location: &str, new_schema: &Schema, type_: SchemaType, required: bool)
        requires
            old(self).well_formed(),
        ensures
            final(self).well_formed(),
            final(self).nodes@ == old(self).nodes@,
    {
        if let Some(c) = &new_schema.const_ {
            let same = match self.get_value(instance_location) {
                Some(current) => deep_equal(current, c),
                None => false,
            };
            if !same {
                self.set_json_pointer_internal(instance_location, c.deep_copy());
            }
            return;
        }
        let (new_value, changed) = apply_defaults(type_, self.get_value(instance_location), new_schema, required);
        if changed {
            if let Some(v) = new_value {
                self.set_json_pointer_internal(instance_location, v);
            }
        }
    }

    #[verifier::rlimit(40)]
    fn add_array_item(&mut self, parent_idx: usize, initial_value: Option<JsonValue>) -> (r: bool)
        requires
            old(self).well_formed(),
            parent_idx < old(self).nodes@.len(),
        ensures
            final(self).well_formed(),
            r == ({
                let v = old(self).value_view();
                let loc = old(self).nodes@[parent_idx as int].instance_location@;
                spec_write_ok(with_array_at(v, loc), append_location(v, loc), Json::Null)
            }),
    {
        let parent_schema = self.nodes[parent_idx].schema.deep_copy();
        let parent_path = self.nodes[parent_idx].instance_location.clone();
        let ghost v0 = self.value@;
        let ghost loc = parent_path@;
        let is_array = match self.get_value(parent_path.as_str()) {
            Some(v) => v.is_array(),
            None => false,
        };
        if !is_array {
            let empty = JsonValue::Array(Vec::new());
            proof {
                lemma_array_view(empty);
                assert(empty->Array_0@.map_values(|x: JsonValue| x@) =~= Seq::<Json>::empty());
            }
            self.set_json_pointer_internal(parent_path.as_str(), empty);
        }
        assert(self.value@ == with_array_at(v0, loc));
        let len: usize = match self.get_value(parent_path.as_str()) {
            Some(JsonValue::Array(a)) => {
                proof {
                    lemma_array_view(JsonValue::Array(*a));
                }
                a.len()
            },
            _ => 0,
        };
        assert(len as nat == match spec_value_at(with_array_at(v0, loc), loc) {
            Some(Json::Array(a)) => a.len(),
            _ => 0nat,
        });
        let idx_str = usize_to_text(len);
        let sub = get_sub_schema(&parent_schema, idx_str.as_str());
        let item_value = match initial_value {
            Some(v) => v,
            None => match get_default_value(&sub.schema, true) {
                Some(v) => v,
                None => JsonValue::Null,
            },
        };
        let item_path = json_pointer_join(parent_path.as_str(), idx_str.as_str());
        proof {
            lemma_write_ok_any(self.value@, item_path@, item_value@, Json::Null);
        }
        if !self.set_json_pointer_internal(item_path.as_str(), item_value) {
            return false;
        }
        self.reconcile(parent_path.as_str());
        self.notify(ChangeKind::Value, item_path);
        true
    }

    fn add_object_property(&mut self, parent_idx: usize, key: &str, property_value: Option<JsonValue>) -> (r: bool)
        requires
            old(self).well_formed(),
            parent_idx < old(self).nodes@.len(),
        ensures
            final(self).well_formed(),
            r == spec_write_ok(old(self).value_view(), spec_join(old(self).nodes@[parent_idx as int].instance_location@,
                key@), Json::Null),
    {
        let parent_schema = self.nodes[parent_idx].schema.deep_copy();
        let parent_path = self.nodes[parent_idx].instance_location.clone();
        let sub = get_sub_schema(&parent_schema, key);
        let prop_value = match property_value {
            Some(v) => v,
            None => match get_default_value(&sub.schema, sub.required) {
                Some(v) => v,
                None => JsonValue::Null,
            },
        };
        let prop_path = json_pointer_join(parent_path.as_str(), key);
        proof {
            lemma_write_ok_any(self.value@, prop_path@, prop_value@, Json::Null);
        }
        if !self.set_json_pointer_internal(prop_path.as_str(), prop_value) {
            return false;
        }
        self.reconcile(parent_path.as_str());
        self.notify(ChangeKind::Value, prop_path);
        true
    }

    /// Re-evaluate a node: its dependencies, effective schema, type and
    /// error; the defaults when the effective schema changed; its children;
    /// then the nodes that depend on it. A node being evaluated, or already
    /// evaluated in this pass, is skipped.
    #[verifier::rlimit(40)]
    fn build_node(&mut self, node_idx: usize, schema: Option<&Schema>, updated: &mut Vec<String>, fuel: u64)
        requires
            old(self).well_formed(),
            node_idx < old(self).nodes@.len(),
        ensures
            final(self).well_formed(),
            locations_kept(old(self).nodes@, final(self).nodes@),
            final(self).nodes@.len() >= old(self).nodes@.len(),
        decreases fuel, 1nat,
    {
        if fuel == 0 {
            return;
        }
        let inst = self.nodes[node_idx].instance_location.clone();
        let kw = self.nodes[node_idx].keyword_location.clone();
        if contains_text(&self.updating_nodes, inst.as_str()) || contains_text(updated, inst.as_str()) {
            return;
        }
        self.updating_nodes.push(inst.clone());
        if let Some(s) = schema {
            self.set_original_schema(node_idx, s);
        }
        let (changed, error_changed) = self.refresh_node(node_idx, inst.as_str(), kw.as_str());
        let current = match self.get_value(inst.as_str()) {
            Some(v) => v.deep_copy(),
            None => JsonValue::Null,
        };
        self.build_node_children(node_idx, &current, updated, fuel);
        updated.push(inst.clone());
        let dependents = dependents_of(&self.dependents_map, inst.as_str());
        let mut d: usize = 0;
        while d < dependents.len()
            invariant
                self.well_formed(),
                self.nodes@.len() >= old(self).nodes@.len(),
                locations_kept(old(self).nodes@, self.nodes@),
                fuel > 0,
            decreases dependents.len() - d,
        {
            if dependents[d] < self.nodes.len() {
                self.build_node(dependents[d], None, updated, fuel - 1);
            }
            d = d + 1;
        }
        self.finish_node(inst, changed, error_changed);
    }

    /// Take `s` as the node's original schema (when it differs) and
    /// register the paths its conditions read.
    fn set_original_schema(&mut self, node_idx: usize, s: &Schema)
        requires
            old(self).well_formed(),
            node_idx < old(self).nodes@.len(),
        ensures
            final(self).well_formed(),
            locations_kept(old(self).nodes@, final(self).nodes@),
            final(self).nodes@.len() == old(self).nodes@.len(),
    {
        if !schema_equal(s, &self.nodes[node_idx].original_schema) {
            self.nodes[node_idx].original_schema = s.deep_copy();
        }
        self.update_node_dependencies(node_idx, s);
    }

    /// Resolve the node's effective schema, type and error against the
    /// current value, apply the defaults of a changed schema, and store
    /// them; whether the schema or type, and whether the error, changed.
    fn refresh_node(&mut self, node_idx: usize, inst: &str, kw: &str) -> (r: (bool, bool))
        requires
            old(self).well_formed(),
            node_idx < old(self).nodes@.len(),
        ensures
            final(self).well_formed(),
            locations_kept(old(self).nodes@, final(self).nodes@),
            final(self).nodes@.len() == old(self).nodes@.len(),
    {
        let (result, changed, error_changed) = self.evaluate_node(node_idx, inst, kw);
        if changed {
            let required = self.nodes[node_idx].required;
            self.apply_schema_defaults(inst, &result.effective_schema, result.type_, required);
        }
        self.store_result(node_idx, result);
        (changed, error_changed)
    }

    /// The node's effective schema, type and error for the current value,
    /// and whether the schema or type, and whether the error, differ from
    /// the stored ones.
    fn evaluate_node(&self, node_idx: usize, inst: &str, kw: &str) -> (r: (EffectiveSchemaResult, bool, bool))
        requires
            node_idx < self.nodes@.len(),
    {
        let value = match self.get_value(inst) {
            Some(v) => v.deep_copy(),
            None => JsonValue::Null,
        };
        let should_validate = self.nodes[node_idx].activated && (!value.is_null() || self.nodes[node_idx].required);
        let result = self.resolve_node(node_idx, &value, inst, kw, should_validate);
        let changed = self.schema_differs(node_idx, &result);
        let error_changed = !opt_output_equal(&self.nodes[node_idx].error, &result.error);
        (result, changed, error_changed)
    }

    /// The node's effective schema, type and error for `value`.
    fn resolve_node(&self, node_idx: usize, value: &JsonValue, inst: &str, kw: &str, validate: bool) -> (r:
        EffectiveSchemaResult)
        requires
            node_idx < self.nodes@.len(),
    {
        resolve_effective_schema(&self.validator, &self.nodes[node_idx].original_schema, value, kw, inst, validate)
    }

    /// Whether an evaluation gives the node another schema or type.
    fn schema_differs(&self, node_idx: usize, result: &EffectiveSchemaResult) -> (r: bool)
        requires
            node_idx < self.nodes@.len(),
    {
        !schema_equal(&self.nodes[node_idx].schema, &result.effective_schema) || self.nodes[node_idx].type_
            != result.type_
    }

    /// Store an evaluation in the node, a new version of it.
    fn store_result(&mut self, node_idx: usize, result: EffectiveSchemaResult)
        requires
            old(self).well_formed(),
            node_idx < old(self).nodes@.len(),
        ensures
            final(self).well_formed(),
            locations_kept(old(self).nodes@, final(self).nodes@),
            final(self).nodes@.len() == old(self).nodes@.len(),
    {
        self.nodes[node_idx].schema = result.effective_schema;
        self.nodes[node_idx].type_ = result.type_;
        self.nodes[node_idx].error = result.error;
        self.nodes[node_idx].version = self.nodes[node_idx].version.wrapping_add(1);
    }

    /// Report what changed at a node and end its evaluation.
    fn finish_node(&mut self, inst: String, changed: bool, error_changed: bool)
        requires
            old(self).well_formed(),
        ensures
            final(self).well_formed(),
            final(self).nodes@ == old(self).nodes@,
    {
        if changed {
            self.notify(ChangeKind::Schema, inst.clone());
        }
        if error_changed {
            self.notify(ChangeKind::Error, inst.clone());
        }
        self.updating_nodes = without_text(&self.updating_nodes, inst.as_str());
    }

    /// Rebuild the children of a node from its effective schema and value:
    /// existing children at the same locations are kept and rebuilt, new
    /// ones created, and those no longer present unregistered.
    #[verifier::rlimit(40)]
    fn build_node_children(&mut self, node_idx: usize, value: &JsonValue, updated: &mut Vec<String>, fuel: u64)
        requires
            old(self).well_formed(),
            node_idx < old(self).nodes@.len(),
        ensures
            final(self).well_formed(),
            locations_kept(old(self).nodes@, final(self).nodes@),
            final(self).nodes@.len() >= old(self).nodes@.len(),
            fuel > 0 ==> ({
                let n = old(self).nodes@[node_idx as int];
                let locs = child_locations(n.instance_location@,
                    spec_child_specs(n.schema@, n.type_, value@, n.keyword_location@).0);
                let ch = final(self).nodes@[node_idx as int].children@;
                &&& ch.len() == locs.len()
                &&& forall|t: int| 0 <= t < ch.len() ==> #[trigger] final(self).nodes@[ch[t] as int].instance_location@ == locs[t]
            }),
        decreases fuel, 0nat,
    {
        if fuel == 0 {
            return;
        }
        let inst = self.nodes[node_idx].instance_location.clone();
        let kw = self.nodes[node_idx].keyword_location.clone();
        let is_activated = self.nodes[node_idx].activated;
        let old_children = self.nodes[node_idx].children.clone();
        let (specs, can_add) = self.child_specs(node_idx, value, kw.as_str());
        let ghost cv = children_view(specs@);
        if let Some(b) = can_add {
            self.nodes[node_idx].can_add = b;
        }
        let mut processed: Vec<String> = Vec::new();
        let mut new_children: Vec<usize> = Vec::new();
        let mut i: usize = 0;
        assert(cv.take(0) =~= Seq::<(Seq<char>, SchemaModel, Seq<char>, bool, bool)>::empty());
        assert(str_seq_model(processed@) =~= Seq::<Seq<char>>::empty());
        while i < specs.len()
            invariant
                self.well_formed(),
                node_idx < self.nodes@.len(),
                self.nodes@.len() >= old(self).nodes@.len(),
                locations_kept(old(self).nodes@, self.nodes@),
                fuel > 0,
                i <= specs@.len(),
                cv == children_view(specs@),
                inst@ == old(self).nodes@[node_idx as int].instance_location@,
                str_seq_model(processed@) == child_locations(inst@, cv.take(i as int)),
                new_children@.len() == processed@.len(),
                forall|t: int| 0 <= t < old_children@.len() ==> #[trigger] old_children@[t] < old(self).nodes@.len(),
                forall|t: int| 0 <= t < new_children@.len() ==> #[trigger] new_children@[t] < self.nodes@.len(),
                forall|t: int| 0 <= t < new_children@.len() ==> #[trigger] self.nodes@[new_children@[t] as int].instance_location@
                    == str_seq_model(processed@)[t],
            decreases specs.len() - i,
        {
            let child_inst = json_pointer_join(inst.as_str(), specs[i].key.as_str());
            proof {
                assert(cv.take(i + 1).drop_last() =~= cv.take(i as int));
                assert(cv.take(i + 1).last() == cv[i as int]);
                assert(cv[i as int].0 == specs@[i as int].key@);
            }
            if !contains_text(&processed, child_inst.as_str()) {
                let ghost before = self.nodes@;
                let child_idx = match last_child_at(&self.nodes, &old_children, child_inst.as_str()) {
                    Some(e) => e,
                    None => self.create_empty_node(child_inst.clone(), specs[i].keyword_location.clone()),
                };
                assert(self.nodes@[child_idx as int].instance_location@ == child_inst@);
                let ghost mid = self.nodes@;
                self.prepare_child(child_idx, &specs[i], is_activated);
                self.build_node(child_idx, Some(&specs[i].schema), updated, fuel - 1);
                assert(self.nodes@[child_idx as int].instance_location == mid[child_idx as int].instance_location);
                let ghost pm = str_seq_model(processed@);
                processed.push(child_inst.clone());
                new_children.push(child_idx);
                assert(str_seq_model(processed@) =~= pm.push(child_inst@));
            } else {
                assert(child_locations(inst@, cv.take(i + 1)) == child_locations(inst@, cv.take(i as int)));
            }
            i = i + 1;
        }
        assert(cv.take(specs@.len() as int) =~= cv);
        let ghost locs = str_seq_model(processed@);
        let ghost after_first = self.nodes@;
        let mut j: usize = 0;
        while j < old_children.len()
            invariant
                self.well_formed(),
                node_idx < self.nodes@.len(),
                self.nodes@.len() >= old(self).nodes@.len(),
                locations_kept(old(self).nodes@, self.nodes@),
                locations_kept(after_first, self.nodes@),
                forall|t: int| 0 <= t < old_children@.len() ==> #[trigger] old_children@[t] < old(self).nodes@.len(),
                forall|t: int| 0 <= t < new_children@.len() ==> #[trigger] new_children@[t] < after_first.len(),
                forall|t: int| 0 <= t < new_children@.len() ==> #[trigger] after_first[new_children@[t] as int].instance_location@
                    == locs[t],
            decreases old_children.len() - j,
        {
            let o = old_children[j];
            if !contains_text(&processed, self.nodes[o].instance_location.as_str()) {
                self.unregister_node_dependencies(o, BUILD_BUDGET);
            }
            j = j + 1;
        }
        self.nodes[node_idx].children = new_children;
    }

    /// The children the node's effective schema and `value` call for, and
    /// whether items or properties can be added.
    fn child_specs(&self, node_idx: usize, value: &JsonValue, kw: &str) -> (r: (Vec<ChildSpec>, Option<bool>))
        requires
            node_idx < self.nodes@.len(),
        ensures
            (children_view(r.0@), r.1) == spec_child_specs(self.nodes@[node_idx as int].schema@,
                self.nodes@[node_idx as int].type_, value@, kw@),
    {
        let effective = self.nodes[node_idx].schema.deep_copy();
        let type_ = self.nodes[node_idx].type_;
        compute_children(&effective, type_, value, kw)
    }

    /// Give a child node the locations and flags its specification holds.
    fn prepare_child(&mut self, child_idx: usize, spec: &ChildSpec, activated: bool)
        requires
            old(self).well_formed(),
            child_idx < old(self).nodes@.len(),
        ensures
            final(self).well_formed(),
            locations_kept(old(self).nodes@, final(self).nodes@),
            final(self).nodes@.len() == old(self).nodes@.len(),
    {
        self.nodes[child_idx].keyword_location = spec.keyword_location.clone();
        self.nodes[child_idx].origin_keyword_location = Some(origin_of(&spec.schema, spec.keyword_location.as_str()));
        self.nodes[child_idx].can_remove = spec.can_remove;
        self.nodes[child_idx].required = spec.required;
        self.nodes[child_idx].activated = activated;
    }
}

// ── Helpers ──

fn contains_text(v: &Vec<String>, s: &str) -> (r: bool)
    ensures
        r == str_seq_model(v@).contains(s@),
{
    crate::default::names_contain(v, s)
}

fn without_text(v: &Vec<String>, s: &str) -> (r: Vec<String>) {
    let mut r: Vec<String> = Vec::new();
    let mut i: usize = 0;
    while i < v.len()
        decreases v.len() - i,
    {
        if !str_eq(v[i].as_str(), s) {
            r.push(v[i].clone());
        }
        i = i + 1;
    }
    r
}

fn contains_index(v: &Vec<usize>, x: usize) -> (r: bool)
    ensures
        r == v@.contains(x),
{
    let mut i: usize = 0;
    while i < v.len()
        invariant
            i <= v@.len(),
            forall|t: int| 0 <= t < i ==> v@[t] != x,
        decreases v.len() - i,
    {
        if v[i] == x {
            return true;
        }
        i = i + 1;
    }
    false
}

fn without_index(v: &Vec<usize>, x: usize) -> (r: Vec<usize>) {
    let mut r: Vec<usize> = Vec::new();
    let mut i: usize = 0;
    while i < v.len()
        decreases v.len() - i,
    {
        if v[i] != x {
            r.push(v[i]);
        }
        i = i + 1;
    }
    r
}

/// The nodes registered as depending on a path.
fn dependents_of(map: &Vec<(String, Vec<usize>)>, path: &str) -> (r: Vec<usize>) {
    let mut i: usize = 0;
    while i < map.len()
        decreases map.len() - i,
    {
        if str_eq(map[i].0.as_str(), path) {
            return map[i].1.clone();
        }
        i = i + 1;
    }
    Vec::new()
}

/// The last of `children` whose instance location is `loc`.
fn last_child_at(nodes: &Vec<FieldNode>, children: &Vec<usize>, loc: &str) -> (r: Option<usize>)
    requires
        forall|t: int| 0 <= t < children@.len() ==> #[trigger] children@[t] < nodes@.len(),
    ensures
        r matches Some(i) ==> i < nodes@.len() && nodes@[i as int].instance_location@ == loc@,
{
    let mut found: Option<usize> = None;
    let mut i: usize = 0;
    while i < children.len()
        invariant
            forall|t: int| 0 <= t < children@.len() ==> #[trigger] children@[t] < nodes@.len(),
            found matches Some(f) ==> f < nodes@.len() && nodes@[f as int].instance_location@ == loc@,
        decreases children.len() - i,
    {
        let c = children[i];
        if str_eq(nodes[c].instance_location.as_str(), loc) {
            found = Some(c);
        }
        i = i + 1;
    }
    found
}

/// Where a child's schema came from: its `x-origin-keyword` extension when
/// that is a string, else its keyword location.
fn origin_of(schema: &Schema, kw: &str) -> (r: String) {
    let mut i: usize = 0;
    while i < schema.extensions.len()
        decreases schema.extensions.len() - i,
    {
        if str_eq(schema.extensions[i].0.as_str(), "x-origin-keyword") {
            return match &schema.extensions[i].1 {
                JsonValue::String(t) => t.clone(),
                _ => to_owned_string(kw),
            };
        }
        i = i + 1;
    }
    to_owned_string(kw)
}

fn output_equal(a: &ValidationOutput, b: &ValidationOutput) -> (r: bool)
    decreases a,
{
    if a.valid != b.valid || !str_eq(a.keyword_location.as_str(), b.keyword_location.as_str()) || !str_eq(
        a.instance_location.as_str(),
        b.instance_location.as_str(),
    ) {
        return false;
    }
    let same_error = match (&a.error, &b.error) {
        (None, None) => true,
        (Some(x), Some(y)) => message_equal(x, y),
        _ => false,
    };
    if !same_error || a.errors.len() != b.errors.len() {
        return false;
    }
    let mut i: usize = 0;
    while i < a.errors.len()
        invariant
            a.errors@.len() == b.errors@.len(),
        decreases a.errors.len() - i,
    {
        proof {
            assert(decreases_to!(a => a.errors@[i as int]));
        }
        if !output_equal(&a.errors[i], &b.errors[i]) {
            return false;
        }
        i = i + 1;
    }
    true
}

fn message_equal(a: &ErrorMessage, b: &ErrorMessage) -> (r: bool) {
    if !str_eq(a.key.as_str(), b.key.as_str()) || a.params.len() != b.params.len() {
        return false;
    }
    let mut i: usize = 0;
    while i < a.params.len()
        invariant
            a.params@.len() == b.params@.len(),
        decreases a.params.len() - i,
    {
        if !str_eq(a.params[i].0.as_str(), b.params[i].0.as_str()) || !deep_equal(&a.params[i].1, &b.params[i].1) {
            return false;
        }
        i = i + 1;
    }
    true
}

fn opt_output_equal(a: &Option<ValidationOutput>, b: &Option<ValidationOutput>) -> (r: bool) {
    match (a, b) {
        (None, None) => true,
        (Some(x), Some(y)) => output_equal(x, y),
        _ => false,
    }
}

} // verus!
