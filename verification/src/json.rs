//! JSON documents: the value type, its mathematical model, object maps
//! kept in key order, and JSON Pointer reads and writes.
use vstd::prelude::*;
use crate::pointer::{parse_json_pointer, spec_parse_pointer};
use crate::text::{parse_usize, seq_lt, spec_parse_usize, str_eq, str_lt};
use vstd::string::*;

verus! {

/// A JSON number as it was read: a non-negative integer, a negative
/// integer, or a finite binary64 float given by its IEEE-754 bits.
#[derive(Clone, Copy, PartialEq, Eq, Structural, Debug)]
pub enum JsonNumber {
    PosInt(u64),
    NegInt(i64),
    Float(u64),
}

/// A JSON document. The entries of an object are kept in ascending key
/// order, each key once.
#[derive(Debug)]
pub enum JsonValue {
    Null,
    Bool(bool),
    Number(JsonNumber),
    String(String),
    Array(Vec<JsonValue>),
    Object(Vec<(String, JsonValue)>),
}

/// The mathematical model of a JSON document.
pub enum Json {
    Null,
    Bool(bool),
    Number(JsonNumber),
    Str(Seq<char>),
    Array(Seq<Json>),
    Object(Seq<(Seq<char>, Json)>),
}

/// The model of a document.
pub open spec fn json_model(v: JsonValue) -> Json
    decreases v,
{
    match v {
        JsonValue::Null => Json::Null,
        JsonValue::Bool(b) => Json::Bool(b),
        JsonValue::Number(n) => Json::Number(n),
        JsonValue::String(s) => Json::Str(s@),
        JsonValue::Array(a) => Json::Array(
            Seq::new(a@.len(), |i: int| if 0 <= i < a@.len() { json_model(a@[i]) } else { Json::Null }),
        ),
        JsonValue::Object(m) => Json::Object(
            Seq::new(
                m@.len(),
                |i: int|
                    if 0 <= i < m@.len() {
                        (m@[i].0@, json_model(m@[i].1))
                    } else {
                        (Seq::empty(), Json::Null)
                    },
            ),
        ),
    }
}

impl View for JsonValue {
    type V = Json;

    open spec fn view(&self) -> Json {
        json_model(*self)
    }
}

impl DeepView for JsonValue {
    type V = Json;

    open spec fn deep_view(&self) -> Json {
        self@
    }
}

// ── Object maps ──

/// The value stored under `k`: the first entry with that key.
pub open spec fn obj_get(m: Seq<(Seq<char>, Json)>, k: Seq<char>) -> Option<Json>
    decreases m.len(),
{
    if m.len() == 0 {
        None
    } else if m[0].0 == k {
        Some(m[0].1)
    } else {
        obj_get(m.skip(1), k)
    }
}

pub open spec fn obj_has(m: Seq<(Seq<char>, Json)>, k: Seq<char>) -> bool {
    obj_get(m, k) is Some
}

/// Store `v` under `k`: replace the entry for `k` found while walking the
/// smaller keys, or insert a new entry before the first greater key.
pub open spec fn obj_insert(m: Seq<(Seq<char>, Json)>, k: Seq<char>, v: Json) -> Seq<(Seq<char>, Json)>
    decreases m.len(),
{
    if m.len() == 0 {
        seq![(k, v)]
    } else if m[0].0 == k {
        seq![(k, v)] + m.skip(1)
    } else if seq_lt(m[0].0, k) {
        seq![m[0]] + obj_insert(m.skip(1), k, v)
    } else {
        seq![(k, v)] + m
    }
}

/// Drop the first entry whose key is `k`.
pub open spec fn obj_remove(m: Seq<(Seq<char>, Json)>, k: Seq<char>) -> Seq<(Seq<char>, Json)>
    decreases m.len(),
{
    if m.len() == 0 {
        m
    } else if m[0].0 == k {
        m.skip(1)
    } else {
        seq![m[0]] + obj_remove(m.skip(1), k)
    }
}

/// An object's keys are in strictly ascending order.
pub open spec fn keys_sorted(m: Seq<(Seq<char>, Json)>) -> bool {
    forall|i: int, j: int| 0 <= i < j < m.len() ==> seq_lt(#[trigger] m[i].0, #[trigger] m[j].0)
}

/// The array extended with nulls so that index `i` exists.
pub open spec fn extend_nulls(a: Seq<Json>, i: nat) -> Seq<Json> {
    if i < a.len() {
        a
    } else {
        a + Seq::new((i + 1 - a.len()) as nat, |k: int| Json::Null)
    }
}

pub open spec fn empty_object() -> Json {
    Json::Object(Seq::empty())
}

// ── JSON Pointer on the model ──

/// Follow the tokens from `v`: object members by key, array elements by
/// decimal index.
pub open spec fn spec_get(v: Json, toks: Seq<Seq<char>>) -> Option<Json>
    decreases toks.len(),
{
    if toks.len() == 0 {
        Some(v)
    } else {
        match v {
            Json::Object(m) => match obj_get(m, toks[0]) {
                Some(c) => spec_get(c, toks.skip(1)),
                None => None,
            },
            Json::Array(a) => match spec_parse_usize(toks[0]) {
                Some(i) => if i < a.len() {
                    spec_get(a[i as int], toks.skip(1))
                } else {
                    None
                },
                None => None,
            },
            _ => None,
        }
    }
}

/// Write `x` at the tokens (at least one), creating what is missing:
/// missing members become `{}`, arrays grow with nulls, a null element
/// on the way becomes `{}`, and any other non-container on the way is
/// replaced by an object. Returns whether the write happened, and the new
/// document (which may hold containers created before a failure).
pub open spec fn spec_set(v: Json, toks: Seq<Seq<char>>, x: Json) -> (bool, Json)
    decreases toks.len(),
{
    if toks.len() <= 1 {
        match v {
            Json::Object(m) => (true, Json::Object(obj_insert(m, toks[0], x))),
            Json::Array(a) => match spec_parse_usize(toks[0]) {
                Some(i) => (true, Json::Array(extend_nulls(a, i as nat).update(i as int, x))),
                None => (false, v),
            },
            _ => (false, v),
        }
    } else {
        match v {
            Json::Object(m) => {
                let child = match obj_get(m, toks[0]) {
                    Some(c) => c,
                    None => empty_object(),
                };
                let r = spec_set(child, toks.skip(1), x);
                (r.0, Json::Object(obj_insert(m, toks[0], r.1)))
            },
            Json::Array(a) => match spec_parse_usize(toks[0]) {
                Some(i) => {
                    let a2 = extend_nulls(a, i as nat);
                    let child = if a2[i as int] is Null { empty_object() } else { a2[i as int] };
                    let r = spec_set(child, toks.skip(1), x);
                    (r.0, Json::Array(a2.update(i as int, r.1)))
                },
                None => (false, v),
            },
            _ => {
                let r = spec_set(empty_object(), toks.skip(1), x);
                (r.0, Json::Object(seq![(toks[0], r.1)]))
            },
        }
    }
}

/// Remove what the tokens (at least one) name: an object member, or an
/// array element (the rest shift down). Containers on the way must exist.
pub open spec fn spec_remove(v: Json, toks: Seq<Seq<char>>) -> (bool, Json)
    decreases toks.len(),
{
    if toks.len() <= 1 {
        match v {
            Json::Object(m) => (obj_has(m, toks[0]), Json::Object(obj_remove(m, toks[0]))),
            Json::Array(a) => match spec_parse_usize(toks[0]) {
                Some(i) => if i < a.len() {
                    (true, Json::Array(a.remove(i as int)))
                } else {
                    (false, v)
                },
                None => (false, v),
            },
            _ => (false, v),
        }
    } else {
        match v {
            Json::Object(m) => match obj_get(m, toks[0]) {
                Some(c) => {
                    let r = spec_remove(c, toks.skip(1));
                    (r.0, Json::Object(obj_insert(m, toks[0], r.1)))
                },
                None => (false, v),
            },
            Json::Array(a) => match spec_parse_usize(toks[0]) {
                Some(i) => if i < a.len() {
                    let r = spec_remove(a[i as int], toks.skip(1));
                    (r.0, Json::Array(a.update(i as int, r.1)))
                } else {
                    (false, v)
                },
                None => (false, v),
            },
            _ => (false, v),
        }
    }
}

// ── Operations on values ──

impl JsonValue {
    /// A copy of the whole document.
    #[verifier::loop_isolation(false)]
    pub fn deep_copy(&self) -> (r: JsonValue)
        ensures
            r@ == self@,
        decreases self,
    {
        match self {
            JsonValue::Null => JsonValue::Null,
            JsonValue::Bool(b) => JsonValue::Bool(*b),
            JsonValue::Number(n) => JsonValue::Number(*n),
            JsonValue::String(s) => JsonValue::String(s.clone()),
            JsonValue::Array(v) => {
                let mut out: Vec<JsonValue> = Vec::new();
                let mut i: usize = 0;
                while i < v.len()
                    invariant
                        i <= v@.len(),
                        out@.len() == i,
                        forall|k: int| 0 <= k < i ==> #[trigger] out@[k]@ == v@[k]@,
                    decreases v.len() - i,
                {
                    proof {
                        assert(decreases_to!(self => v@[i as int]));
                    }
                    let c = v[i].deep_copy();
                    out.push(c);
                    i = i + 1;
                }
                let r = JsonValue::Array(out);
                proof {
                    lemma_array_view(r);
                    lemma_array_view(*self);
                    assert(out@.map_values(|x: JsonValue| x@) =~= v@.map_values(|x: JsonValue| x@));
                }
                r
            },
            JsonValue::Object(m) => {
                let mut out: Vec<(String, JsonValue)> = Vec::new();
                let mut i: usize = 0;
                while i < m.len()
                    invariant
                        i <= m@.len(),
                        out@.len() == i,
                        forall|k: int| 0 <= k < i ==> #[trigger] out@[k].0@ == m@[k].0@ && out@[k].1@ == m@[k].1@,
                    decreases m.len() - i,
                {
                    let k = m[i].0.clone();
                    proof {
                        assert(decreases_to!(self => m@[i as int].1));
                    }
                    let c = m[i].1.deep_copy();
                    out.push((k, c));
                    i = i + 1;
                }
                let r = JsonValue::Object(out);
                proof {
                    lemma_object_view(r);
                    lemma_object_view(*self);
                    assert(entries_view(out@) =~= entries_view(m@));
                }
                r
            },
        }
    }

    pub fn is_null(&self) -> (r: bool)
        ensures
            r == (self@ is Null),
    {
        match self {
            JsonValue::Null => true,
            _ => false,
        }
    }

    pub fn is_object(&self) -> (r: bool)
        ensures
            r == (self@ is Object),
    {
        match self {
            JsonValue::Object(_) => true,
            _ => false,
        }
    }

    pub fn is_array(&self) -> (r: bool)
        ensures
            r == (self@ is Array),
    {
        match self {
            JsonValue::Array(_) => true,
            _ => false,
        }
    }

    /// A string value.
    pub fn from_str(s: &str) -> (r: JsonValue)
        ensures
            r@ == Json::Str(s@),
    {
        JsonValue::String(crate::text::to_owned_string(s))
    }

    /// A non-negative integer value.
    pub fn from_u64(n: u64) -> (r: JsonValue)
        ensures
            r@ == Json::Number(JsonNumber::PosInt(n)),
    {
        JsonValue::Number(JsonNumber::PosInt(n))
    }

    /// An empty object.
    pub fn new_object() -> (r: JsonValue)
        ensures
            r@ == empty_object(),
    {
        let r = JsonValue::Object(Vec::new());
        proof {
            lemma_object_view(r);
            assert(entries_view(r->Object_0@) =~= Seq::<(Seq<char>, Json)>::empty());
        }
        r
    }
}

impl Clone for JsonValue {
    fn clone(&self) -> (r: Self)
        ensures
            r@ == self@,
    {
        self.deep_copy()
    }
}

/// The view of an object's entries.
pub open spec fn entries_view(m: Seq<(String, JsonValue)>) -> Seq<(Seq<char>, Json)> {
    Seq::new(m.len(), |i: int| (m[i].0@, m[i].1@))
}

pub proof fn lemma_object_view(v: JsonValue)
    requires
        v is Object,
    ensures
        v@ == Json::Object(entries_view(v->Object_0@)),
{
    let m = v->Object_0;
    let a = v@->Object_0;
    assert(a.len() == entries_view(m@).len());
    assert forall|i: int| 0 <= i < a.len() implies a[i] == entries_view(m@)[i] by {}
    assert(a =~= entries_view(m@));
}

pub proof fn lemma_array_view(v: JsonValue)
    requires
        v is Array,
    ensures
        v@ == Json::Array(v->Array_0@.map_values(|x: JsonValue| x@)),
{
    let m = v->Array_0;
    let a = v@->Array_0;
    assert(a.len() == m@.len());
    assert forall|i: int| 0 <= i < a.len() implies a[i] == m@.map_values(|x: JsonValue| x@)[i] by {}
    assert(a =~= m@.map_values(|x: JsonValue| x@));
}

/// Equality of JSON documents: same kind, same scalars, same elements in
/// order, same object entries in order.
#[verifier::loop_isolation(false)]
pub fn json_equal(a: &JsonValue, b: &JsonValue) -> (r: bool)
    ensures
        r == (a@ == b@),
    decreases a,
{
    match (a, b) {
        (JsonValue::Null, JsonValue::Null) => true,
        (JsonValue::Bool(x), JsonValue::Bool(y)) => *x == *y,
        (JsonValue::Number(x), JsonValue::Number(y)) => *x == *y,
        (JsonValue::String(x), JsonValue::String(y)) => str_eq(x.as_str(), y.as_str()),
        (JsonValue::Array(x), JsonValue::Array(y)) => {
            proof {
                lemma_array_view(*a);
                lemma_array_view(*b);
            }
            if x.len() != y.len() {
                assert(x@.map_values(|v: JsonValue| v@).len() != y@.map_values(|v: JsonValue| v@).len());
                return false;
            }
            let mut i: usize = 0;
            while i < x.len()
                invariant
                    x@.len() == y@.len(),
                    i <= x@.len(),
                    forall|k: int| 0 <= k < i ==> #[trigger] x@[k]@ == y@[k]@,
                decreases x.len() - i,
            {
                proof {
                    assert(decreases_to!(a => x@[i as int]));
                }
                if !json_equal(&x[i], &y[i]) {
                    assert(x@.map_values(|v: JsonValue| v@)[i as int] != y@.map_values(|v: JsonValue| v@)[i as int]);
                    return false;
                }
                i = i + 1;
            }
            assert(x@.map_values(|v: JsonValue| v@) =~= y@.map_values(|v: JsonValue| v@));
            true
        },
        (JsonValue::Object(x), JsonValue::Object(y)) => {
            proof {
                lemma_object_view(*a);
                lemma_object_view(*b);
            }
            if x.len() != y.len() {
                assert(entries_view(x@).len() != entries_view(y@).len());
                return false;
            }
            let mut i: usize = 0;
            while i < x.len()
                invariant
                    x@.len() == y@.len(),
                    i <= x@.len(),
                    forall|k: int| 0 <= k < i ==> #[trigger] x@[k].0@ == y@[k].0@,
                    forall|k: int| 0 <= k < i ==> #[trigger] x@[k].1@ == y@[k].1@,
                decreases x.len() - i,
            {
                if !str_eq(x[i].0.as_str(), y[i].0.as_str()) {
                    assert(entries_view(x@)[i as int] != entries_view(y@)[i as int]);
                    return false;
                }
                proof {
                    assert(decreases_to!(a => x@[i as int].1));
                }
                if !json_equal(&x[i].1, &y[i].1) {
                    assert(entries_view(x@)[i as int] != entries_view(y@)[i as int]);
                    return false;
                }
                i = i + 1;
            }
            assert(entries_view(x@) =~= entries_view(y@));
            true
        },
        _ => false,
    }
}

// ── Object maps on values ──

/// The position of the first entry with key `k`, if any.
pub fn obj_find(m: &Vec<(String, JsonValue)>, k: &str) -> (r: Option<usize>)
    ensures
        match r {
            Some(i) => i < m@.len() && m@[i as int].0@ == k@ && obj_get(entries_view(m@), k@) == Some(
                m@[i as int].1@,
            ) && forall|j: int| 0 <= j < i ==> #[trigger] m@[j].0@ != k@,
            None => obj_get(entries_view(m@), k@) is None,
        },
{
    let mut i: usize = 0;
    assert(entries_view(m@).skip(0) =~= entries_view(m@));
    while i < m.len()
        invariant
            i <= m@.len(),
            obj_get(entries_view(m@), k@) == obj_get(entries_view(m@).skip(i as int), k@),
            forall|j: int| 0 <= j < i ==> #[trigger] m@[j].0@ != k@,
        decreases m.len() - i,
    {
        let ghost e = entries_view(m@);
        assert(e.skip(i as int).skip(1) =~= e.skip(i + 1));
        if str_eq(m[i].0.as_str(), k) {
            return Some(i);
        }
        i = i + 1;
    }
    None
}

/// The value stored under `k`.
pub fn obj_get_exec<'a>(m: &'a Vec<(String, JsonValue)>, k: &str) -> (r: Option<&'a JsonValue>)
    ensures
        match r {
            Some(x) => obj_get(entries_view(m@), k@) == Some(x@),
            None => obj_get(entries_view(m@), k@) is None,
        },
{
    match obj_find(m, k) {
        Some(i) => Some(&m[i].1),
        None => None,
    }
}

proof fn lemma_seq_lt_irrefl(a: Seq<char>)
    ensures
        !seq_lt(a, a),
    decreases a.len(),
{
    if a.len() > 0 {
        lemma_seq_lt_irrefl(a.skip(1));
    }
}

proof fn lemma_obj_insert_at(m: Seq<(Seq<char>, Json)>, k: Seq<char>, v: Json, i: int)
    requires
        0 <= i <= m.len(),
        forall|j: int| 0 <= j < i ==> m[j].0 != k && seq_lt(#[trigger] m[j].0, k),
        i < m.len() ==> (m[i].0 == k || !seq_lt(m[i].0, k)),
    ensures
        obj_insert(m, k, v) == if i < m.len() && m[i].0 == k {
            m.update(i, (k, v))
        } else {
            m.insert(i, (k, v))
        },
    decreases i,
{
    if i == 0 {
        if m.len() > 0 && m[0].0 == k {
            assert(seq![(k, v)] + m.skip(1) =~= m.update(0, (k, v)));
        } else {
            assert(seq![(k, v)] + m =~= m.insert(0, (k, v)));
        }
    } else {
        let t = m.skip(1);
        assert forall|j: int| 0 <= j < i - 1 implies t[j].0 != k && seq_lt(#[trigger] t[j].0, k) by {
            assert(t[j] == m[j + 1]);
        }
        lemma_obj_insert_at(t, k, v, i - 1);
        if i < m.len() && m[i].0 == k {
            assert(seq![m[0]] + t.update(i - 1, (k, v)) =~= m.update(i, (k, v)));
        } else {
            assert(seq![m[0]] + t.insert(i - 1, (k, v)) =~= m.insert(i, (k, v)));
        }
    }
}

/// Store `v` under `k`, keeping the keys in order.
pub fn obj_insert_exec(m: &mut Vec<(String, JsonValue)>, k: String, v: JsonValue)
    ensures
        entries_view(final(m)@) == obj_insert(entries_view(old(m)@), k@, v@),
{
    let ghost e = entries_view(m@);
    let mut i: usize = 0;
    let mut done = false;
    while !done && i < m.len()
        invariant
            i <= m@.len(),
            e == entries_view(m@),
            forall|j: int| 0 <= j < i ==> e[j].0 != k@ && seq_lt(#[trigger] e[j].0, k@),
            done ==> i < m@.len() && (e[i as int].0 == k@ || !seq_lt(e[i as int].0, k@)),
        decreases (if done { 0int } else { 1int }) + m.len() - i,
    {
        if str_eq(m[i].0.as_str(), k.as_str()) || !str_lt(m[i].0.as_str(), k.as_str()) {
            done = true;
        } else {
            i = i + 1;
        }
    }
    assert(i < m@.len() ==> (e[i as int].0 == k@ || !seq_lt(e[i as int].0, k@)));
    proof {
        lemma_obj_insert_at(e, k@, v@, i as int);
    }
    let ghost kv = k@;
    let ghost vv = v@;
    if i < m.len() && str_eq(m[i].0.as_str(), k.as_str()) {
        m.set(i, (k, v));
        assert(entries_view(m@) =~= e.update(i as int, (kv, vv)));
    } else {
        m.insert(i, (k, v));
        assert(entries_view(m@) =~= e.insert(i as int, (kv, vv)));
    }
}

/// Drop the entry for `k`; returns whether there was one.
pub fn obj_remove_exec(m: &mut Vec<(String, JsonValue)>, k: &str) -> (r: bool)
    ensures
        r == obj_has(entries_view(old(m)@), k@),
        entries_view(final(m)@) == obj_remove(entries_view(old(m)@), k@),
{
    let ghost e = entries_view(m@);
    let mut i: usize = 0;
    let mut done = false;
    while !done && i < m.len()
        invariant
            i <= m@.len(),
            e == entries_view(m@),
            forall|j: int| 0 <= j < i ==> #[trigger] e[j].0 != k@,
            done ==> i < m@.len() && e[i as int].0 == k@,
        decreases (if done { 0int } else { 1int }) + m.len() - i,
    {
        if str_eq(m[i].0.as_str(), k) {
            done = true;
        } else {
            i = i + 1;
        }
    }
    assert(i < m@.len() ==> e[i as int].0 == k@);
    proof {
        lemma_obj_remove_at(e, k@, i as int);
    }
    if i < m.len() {
        m.remove(i);
        assert(entries_view(m@) =~= e.remove(i as int));
        true
    } else {
        false
    }
}

proof fn lemma_obj_remove_at(m: Seq<(Seq<char>, Json)>, k: Seq<char>, i: int)
    requires
        0 <= i <= m.len(),
        forall|j: int| 0 <= j < i ==> #[trigger] m[j].0 != k,
        i < m.len() ==> m[i].0 == k,
    ensures
        obj_remove(m, k) == if i < m.len() { m.remove(i) } else { m },
        obj_has(m, k) == (i < m.len()),
    decreases i,
{
    if i == 0 {
        if m.len() > 0 {
            assert(m.skip(1) =~= m.remove(0));
        }
    } else {
        let t = m.skip(1);
        assert forall|j: int| 0 <= j < i - 1 implies #[trigger] t[j].0 != k by {
            assert(t[j] == m[j + 1]);
        }
        lemma_obj_remove_at(t, k, i - 1);
        if i < m.len() {
            assert(seq![m[0]] + t.remove(i - 1) =~= m.remove(i));
        } else {
            assert(seq![m[0]] + t =~= m);
        }
    }
}


// ── JSON Pointer on values ──

/// The views of a list of tokens.
pub open spec fn toks_view(t: Seq<String>) -> Seq<Seq<char>> {
    Seq::new(t.len(), |i: int| t[i]@)
}

/// The outcome of writing `x` at pointer `p`: the empty pointer replaces
/// the whole document.
pub open spec fn spec_set_pointer(v: Json, p: Seq<char>, x: Json) -> (bool, Json) {
    if p.len() == 0 {
        (true, x)
    } else {
        spec_set(v, spec_parse_pointer(p), x)
    }
}

/// The outcome of removing at pointer `p`: the empty pointer removes nothing.
pub open spec fn spec_remove_pointer(v: Json, p: Seq<char>) -> (bool, Json) {
    if p.len() == 0 {
        (false, v)
    } else {
        spec_remove(v, spec_parse_pointer(p))
    }
}

proof fn lemma_split_nonempty(s: Seq<char>, c: char)
    ensures
        crate::text::split_on(s, c).len() >= 1,
    decreases s.len(),
{
    if s.len() > 0 {
        lemma_split_nonempty(s.drop_last(), c);
    }
}

proof fn lemma_parse_nonempty(p: Seq<char>)
    requires
        p.len() > 0,
    ensures
        spec_parse_pointer(p).len() >= 1,
{
    let q = if p[0] == '/' { p.skip(1) } else { p };
    lemma_split_nonempty(q, '/');
}

fn tokens_of(pointer: &str) -> (r: Vec<String>)
    ensures
        toks_view(r@) == spec_parse_pointer(pointer@),
{
    let r = parse_json_pointer(pointer);
    assert(toks_view(r@) =~= spec_parse_pointer(pointer@));
    r
}

fn get_rec<'a>(v: &'a JsonValue, toks: &Vec<String>, i: usize) -> (r: Option<&'a JsonValue>)
    requires
        i <= toks@.len(),
    ensures
        match r {
            Some(x) => spec_get(v@, toks_view(toks@).skip(i as int)) == Some(x@),
            None => spec_get(v@, toks_view(toks@).skip(i as int)) is None,
        },
    decreases toks@.len() - i,
{
    let ghost t = toks_view(toks@).skip(i as int);
    if i == toks.len() {
        return Some(v);
    }
    assert(t[0] == toks@[i as int]@);
    assert(t.skip(1) =~= toks_view(toks@).skip(i + 1));
    match v {
        JsonValue::Object(m) => {
            proof {
                lemma_object_view(*v);
            }
            match obj_get_exec(m, toks[i].as_str()) {
                Some(c) => get_rec(c, toks, i + 1),
                None => None,
            }
        },
        JsonValue::Array(a) => {
            proof {
                lemma_array_view(*v);
            }
            match parse_usize(toks[i].as_str()) {
                Some(idx) => {
                    if idx < a.len() {
                        get_rec(&a[idx], toks, i + 1)
                    } else {
                        None
                    }
                },
                None => None,
            }
        },
        _ => None,
    }
}

/// The value at a JSON Pointer path.
pub fn get_json_pointer<'a>(obj: &'a JsonValue, pointer: &str) -> (r: Option<&'a JsonValue>)
    ensures
        match r {
            Some(x) => spec_get(obj@, spec_parse_pointer(pointer@)) == Some(x@),
            None => spec_get(obj@, spec_parse_pointer(pointer@)) is None,
        },
{
    let toks = tokens_of(pointer);
    assert(toks_view(toks@).skip(0) =~= toks_view(toks@));
    get_rec(obj, &toks, 0)
}

/// Grow an array with nulls until index `idx` exists.
fn extend_with_nulls(a: &mut Vec<JsonValue>, idx: usize)
    ensures
        final(a)@.map_values(|x: JsonValue| x@) == extend_nulls(old(a)@.map_values(|x: JsonValue| x@), idx as nat),
{
    let ghost a0 = a@.map_values(|x: JsonValue| x@);
    if idx < a.len() {
        return;
    }
    while a.len() <= idx
        invariant
            a0.len() <= a@.len() <= idx + 1,
            forall|k: int| 0 <= k < a0.len() ==> #[trigger] a@[k]@ == a0[k],
            forall|k: int| a0.len() <= k < a@.len() ==> #[trigger] a@[k]@ == Json::Null,
        decreases idx + 1 - a.len(),
    {
        a.push(JsonValue::Null);
    }
    assert(a@.map_values(|x: JsonValue| x@) =~= extend_nulls(a0, idx as nat));
}

fn set_rec(v: JsonValue, toks: &Vec<String>, i: usize, x: JsonValue) -> (r: (bool, JsonValue))
    requires
        i < toks@.len(),
    ensures
        (r.0, r.1@) == spec_set(v@, toks_view(toks@).skip(i as int), x@),
    decreases toks@.len() - i,
{
    let ghost t = toks_view(toks@).skip(i as int);
    let ghost vv = v@;
    let ghost xv = x@;
    assert(t[0] == toks@[i as int]@);
    assert(t.skip(1) =~= toks_view(toks@).skip(i + 1));
    let last = i == toks.len() - 1;
    match v {
        JsonValue::Object(mut m) => {
            proof {
                lemma_object_view(JsonValue::Object(m));
            }
            let ghost m0 = entries_view(m@);
            let key = toks[i].clone();
            if last {
                obj_insert_exec(&mut m, key, x);
                let r = JsonValue::Object(m);
                proof {
                    lemma_object_view(r);
                }
                (true, r)
            } else {
                let child = match obj_get_exec(&m, toks[i].as_str()) {
                    Some(c) => c.clone(),
                    None => JsonValue::new_object(),
                };
                let (ok, c2) = set_rec(child, toks, i + 1, x);
                obj_insert_exec(&mut m, key, c2);
                let r = JsonValue::Object(m);
                proof {
                    lemma_object_view(r);
                }
                (ok, r)
            }
        },
        JsonValue::Array(mut a) => {
            proof {
                lemma_array_view(JsonValue::Array(a));
            }
            match parse_usize(toks[i].as_str()) {
                Some(idx) => {
                    extend_with_nulls(&mut a, idx);
                    let ghost a2 = a@.map_values(|x: JsonValue| x@);
                    assert(a2.len() == a@.len());
                    assert(idx < a@.len());
                    if last {
                        a.set(idx, x);
                        let r = JsonValue::Array(a);
                        proof {
                            lemma_array_view(r);
                            assert(a@.map_values(|x: JsonValue| x@) =~= a2.update(idx as int, xv));
                        }
                        (true, r)
                    } else {
                        let child = if a[idx].is_null() {
                            JsonValue::new_object()
                        } else {
                            a[idx].clone()
                        };
                        let (ok, c2) = set_rec(child, toks, i + 1, x);
                        let ghost c2v = c2@;
                        a.set(idx, c2);
                        let r = JsonValue::Array(a);
                        proof {
                            lemma_array_view(r);
                            assert(a@.map_values(|x: JsonValue| x@) =~= a2.update(idx as int, c2v));
                        }
                        (ok, r)
                    }
                },
                None => {
                    let r = JsonValue::Array(a);
                    (false, r)
                },
            }
        },
        other => {
            if last {
                (false, other)
            } else {
                let child = JsonValue::new_object();
                let (ok, c2) = set_rec(child, toks, i + 1, x);
                let key = toks[i].clone();
                let mut m: Vec<(String, JsonValue)> = Vec::new();
                m.push((key, c2));
                let r = JsonValue::Object(m);
                proof {
                    lemma_object_view(r);
                    assert(entries_view(m@) =~= seq![(t[0], r->Object_0@[0].1@)]);
                }
                (ok, r)
            }
        },
    }
}

/// Write `value` at a JSON Pointer path, creating intermediate containers
/// as needed; returns whether the write happened.
pub fn set_json_pointer(obj: &mut JsonValue, pointer: &str, value: JsonValue) -> (r: bool)
    ensures
        (r, final(obj)@) == spec_set_pointer(old(obj)@, pointer@, value@),
{
    let mut cur = JsonValue::Null;
    std::mem::swap(obj, &mut cur);
    if pointer.unicode_len() == 0 {
        *obj = value;
        return true;
    }
    let toks = tokens_of(pointer);
    proof {
        lemma_parse_nonempty(pointer@);
        assert(toks_view(toks@).skip(0) =~= toks_view(toks@));
    }
    let (ok, nv) = set_rec(cur, &toks, 0, value);
    *obj = nv;
    ok
}

fn remove_rec(v: JsonValue, toks: &Vec<String>, i: usize) -> (r: (bool, JsonValue))
    requires
        i < toks@.len(),
    ensures
        (r.0, r.1@) == spec_remove(v@, toks_view(toks@).skip(i as int)),
    decreases toks@.len() - i,
{
    let ghost t = toks_view(toks@).skip(i as int);
    assert(t[0] == toks@[i as int]@);
    assert(t.skip(1) =~= toks_view(toks@).skip(i + 1));
    let last = i == toks.len() - 1;
    match v {
        JsonValue::Object(mut m) => {
            proof {
                lemma_object_view(JsonValue::Object(m));
            }
            if last {
                let ok = obj_remove_exec(&mut m, toks[i].as_str());
                let r = JsonValue::Object(m);
                proof {
                    lemma_object_view(r);
                }
                (ok, r)
            } else {
                match obj_find(&m, toks[i].as_str()) {
                    Some(idx) => {
                        let child = m[idx].1.clone();
                        let (ok, c2) = remove_rec(child, toks, i + 1);
                        let key = toks[i].clone();
                        obj_insert_exec(&mut m, key, c2);
                        let r = JsonValue::Object(m);
                        proof {
                            lemma_object_view(r);
                        }
                        (ok, r)
                    },
                    None => (false, JsonValue::Object(m)),
                }
            }
        },
        JsonValue::Array(mut a) => {
            proof {
                lemma_array_view(JsonValue::Array(a));
            }
            let ghost a0 = a@.map_values(|x: JsonValue| x@);
            match parse_usize(toks[i].as_str()) {
                Some(idx) => {
                    if idx >= a.len() {
                        return (false, JsonValue::Array(a));
                    }
                    if last {
                        a.remove(idx);
                        let r = JsonValue::Array(a);
                        proof {
                            lemma_array_view(r);
                            assert(a@.map_values(|x: JsonValue| x@) =~= a0.remove(idx as int));
                        }
                        (true, r)
                    } else {
                        let child = a[idx].clone();
                        let (ok, c2) = remove_rec(child, toks, i + 1);
                        let ghost c2v = c2@;
                        a.set(idx, c2);
                        let r = JsonValue::Array(a);
                        proof {
                            lemma_array_view(r);
                            assert(a@.map_values(|x: JsonValue| x@) =~= a0.update(idx as int, c2v));
                        }
                        (ok, r)
                    }
                },
                None => (false, JsonValue::Array(a)),
            }
        },
        other => (false, other),
    }
}

/// Remove the value at a JSON Pointer path; array elements after it shift
/// down. Returns whether something was removed.
pub fn remove_json_pointer(obj: &mut JsonValue, pointer: &str) -> (r: bool)
    ensures
        (r, final(obj)@) == spec_remove_pointer(old(obj)@, pointer@),
{
    if pointer.unicode_len() == 0 {
        return false;
    }
    let mut cur = JsonValue::Null;
    std::mem::swap(obj, &mut cur);
    let toks = tokens_of(pointer);
    proof {
        lemma_parse_nonempty(pointer@);
        assert(toks_view(toks@).skip(0) =~= toks_view(toks@));
    }
    let (ok, nv) = remove_rec(cur, &toks, 0);
    *obj = nv;
    ok
}

// ── Laws ──

proof fn lemma_obj_get_insert_same(m: Seq<(Seq<char>, Json)>, k: Seq<char>, v: Json)
    ensures
        obj_get(obj_insert(m, k, v), k) == Some(v),
    decreases m.len(),
{
    if m.len() > 0 && m[0].0 != k && seq_lt(m[0].0, k) {
        lemma_obj_get_insert_same(m.skip(1), k, v);
        assert((seq![m[0]] + obj_insert(m.skip(1), k, v)).skip(1) =~= obj_insert(m.skip(1), k, v));
    }
}

proof fn lemma_obj_get_index(m: Seq<(Seq<char>, Json)>, k: Seq<char>) -> (j: int)
    requires
        obj_get(m, k) is Some,
    ensures
        0 <= j < m.len(),
        m[j].0 == k,
    decreases m.len(),
{
    if m[0].0 == k {
        0
    } else {
        let j = lemma_obj_get_index(m.skip(1), k);
        j + 1
    }
}

proof fn lemma_obj_insert_present(m: Seq<(Seq<char>, Json)>, k: Seq<char>, c: Json)
    requires
        keys_sorted(m),
        obj_get(m, k) == Some(c),
    ensures
        obj_insert(m, k, c) == m,
    decreases m.len(),
{
    if m[0].0 == k {
        assert(seq![(k, c)] + m.skip(1) =~= m);
    } else {
        let t = m.skip(1);
        assert forall|i: int, j: int| 0 <= i < j < t.len() implies seq_lt(#[trigger] t[i].0, #[trigger] t[j].0) by {
            assert(t[i] == m[i + 1]);
            assert(t[j] == m[j + 1]);
        }
        lemma_obj_insert_present(t, k, c);
        let j = lemma_obj_get_index(t, k);
        assert(m[j + 1] == t[j]);
        assert(seq_lt(m[0].0, m[j + 1].0));
        assert(seq![m[0]] + t =~= m);
    }
}

/// A write into an empty object always succeeds.
proof fn lemma_set_into_empty_object(toks: Seq<Seq<char>>, x: Json)
    ensures
        spec_set(empty_object(), toks, x).0,
    decreases toks.len(),
{
    if toks.len() > 1 {
        lemma_set_into_empty_object(toks.skip(1), x);
    }
}

/// The objects on the way of `toks` from `v` have their keys in order.
pub open spec fn sorted_along(v: Json, toks: Seq<Seq<char>>) -> bool
    decreases toks.len(),
{
    match v {
        Json::Object(m) => keys_sorted(m) && (toks.len() > 1 ==> match obj_get(m, toks[0]) {
            Some(c) => sorted_along(c, toks.skip(1)),
            None => true,
        }),
        Json::Array(a) => toks.len() > 1 ==> match spec_parse_usize(toks[0]) {
            Some(i) => i < a.len() ==> sorted_along(a[i as int], toks.skip(1)),
            None => true,
        },
        _ => true,
    }
}

/// A write that fails leaves the value as it was (the objects on the way
/// keeping their keys in order, as parsed documents do).
pub proof fn law_failed_set_keeps_value(v: Json, toks: Seq<Seq<char>>, x: Json)
    requires
        toks.len() >= 1,
        sorted_along(v, toks),
        !spec_set(v, toks, x).0,
    ensures
        spec_set(v, toks, x).1 == v,
    decreases toks.len(),
{
    if toks.len() > 1 {
        match v {
            Json::Object(m) => {
                match obj_get(m, toks[0]) {
                    Some(c) => {
                        law_failed_set_keeps_value(c, toks.skip(1), x);
                        lemma_obj_insert_present(m, toks[0], c);
                    },
                    None => {
                        lemma_set_into_empty_object(toks.skip(1), x);
                    },
                }
            },
            Json::Array(a) => match spec_parse_usize(toks[0]) {
                Some(i) => {
                    let a2 = extend_nulls(a, i as nat);
                    if i < a.len() && !(a[i as int] is Null) {
                        law_failed_set_keeps_value(a[i as int], toks.skip(1), x);
                        assert(a2.update(i as int, a[i as int]) =~= a);
                    } else {
                        lemma_set_into_empty_object(toks.skip(1), x);
                    }
                },
                None => {},
            },
            _ => {
                lemma_set_into_empty_object(toks.skip(1), x);
            },
        }
    }
}

/// A value written at a path is read back at that path, whenever the write
/// succeeds.
pub proof fn law_get_after_set(v: Json, toks: Seq<Seq<char>>, x: Json)
    requires
        toks.len() >= 1,
        spec_set(v, toks, x).0,
    ensures
        spec_get(spec_set(v, toks, x).1, toks) == Some(x),
    decreases toks.len(),
{
    let r = spec_set(v, toks, x);
    if toks.len() == 1 {
        assert(toks.skip(1) =~= Seq::<Seq<char>>::empty());
        match v {
            Json::Object(m) => {
                lemma_obj_get_insert_same(m, toks[0], x);
            },
            Json::Array(a) => {
                let i = spec_parse_usize(toks[0]).unwrap();
                let a2 = extend_nulls(a, i as nat).update(i as int, x);
                assert(i < a2.len());
                assert(a2[i as int] == x);
                assert(r.1 == Json::Array(a2));
                assert(spec_get(x, toks.skip(1)) == Some(x));
            },
            _ => {},
        }
    } else {
        match v {
            Json::Object(m) => {
                let child = match obj_get(m, toks[0]) {
                    Some(c) => c,
                    None => empty_object(),
                };
                law_get_after_set(child, toks.skip(1), x);
                lemma_obj_get_insert_same(m, toks[0], spec_set(child, toks.skip(1), x).1);
            },
            Json::Array(a) => {
                let i = spec_parse_usize(toks[0]).unwrap();
                let a2 = extend_nulls(a, i as nat);
                let child = if a2[i as int] is Null { empty_object() } else { a2[i as int] };
                law_get_after_set(child, toks.skip(1), x);
            },
            _ => {
                let c = spec_set(empty_object(), toks.skip(1), x);
                law_get_after_set(empty_object(), toks.skip(1), x);
                assert(obj_get(seq![(toks[0], c.1)], toks[0]) == Some(c.1));
            },
        }
    }
}

/// Writing at a JSON Pointer and reading at the same pointer gives back the
/// value written, whenever the write succeeds.
pub proof fn law_get_pointer_after_set_pointer(v: Json, p: Seq<char>, x: Json)
    requires
        spec_set_pointer(v, p, x).0,
    ensures
        spec_get(spec_set_pointer(v, p, x).1, spec_parse_pointer(p)) == Some(x),
{
    if p.len() > 0 {
        lemma_parse_nonempty(p);
        law_get_after_set(v, spec_parse_pointer(p), x);
    }
}

} // verus!
