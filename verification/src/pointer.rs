//! JSON Pointer (RFC 6901) strings: escaping, splitting, joining.
use vstd::prelude::*;
use crate::text::{
    chars_of, join_with, push_char, push_str, replace_char, replace_char_exec, replace_pair,
    replace_pair_exec, split_exec, split_on, starts_with_char, string_from_chars, to_owned_string,
};

verus! {

// ── Specifications ──

/// `~` becomes `~0`, then `/` becomes `~1`.
pub open spec fn spec_escape(s: Seq<char>) -> Seq<char> {
    replace_char(replace_char(s, '~', seq!['~', '0']), '/', seq!['~', '1'])
}

/// `~1` becomes `/`, then `~0` becomes `~`.
pub open spec fn spec_unescape(s: Seq<char>) -> Seq<char> {
    replace_pair(replace_pair(s, '~', '1', '/'), '~', '0', '~')
}

/// The reference tokens of a pointer: none for the empty pointer; else the
/// text after an optional leading `/`, split at `/`, each token unescaped.
pub open spec fn spec_parse_pointer(p: Seq<char>) -> Seq<Seq<char>> {
    if p.len() == 0 {
        Seq::empty()
    } else {
        let q = if p[0] == '/' { p.skip(1) } else { p };
        split_on(q, '/').map_values(|t: Seq<char>| spec_unescape(t))
    }
}

/// `base/token`, with the token escaped.
pub open spec fn spec_join(base: Seq<char>, token: Seq<char>) -> Seq<char> {
    base + seq!['/'] + spec_escape(token)
}

/// The position of the last occurrence of `c`, if any.
pub open spec fn last_index_of(s: Seq<char>, c: char) -> Option<int>
    decreases s.len(),
{
    if s.len() == 0 {
        None
    } else if s.last() == c {
        Some(s.len() - 1)
    } else {
        last_index_of(s.drop_last(), c)
    }
}

/// Everything before the last `/`; empty when there is none.
pub open spec fn spec_parent(p: Seq<char>) -> Seq<char> {
    match last_index_of(p, '/') {
        Some(i) => p.take(i),
        None => Seq::empty(),
    }
}

/// The pointer made of the given tokens: empty for none, else each token
/// escaped and preceded by `/`.
pub open spec fn spec_pointer_of(tokens: Seq<Seq<char>>) -> Seq<char> {
    if tokens.len() == 0 {
        Seq::empty()
    } else {
        seq!['/'] + join_with(tokens.map_values(|t: Seq<char>| spec_escape(t)), seq!['/'])
    }
}

/// A relative path that starts with `/` is appended to the node's path;
/// any other path is returned unchanged.
pub open spec fn spec_resolve_absolute_path(node: Seq<char>, rel: Seq<char>) -> Seq<char> {
    if rel.len() > 0 && rel[0] == '/' {
        spec_pointer_of(spec_parse_pointer(node) + spec_parse_pointer(rel))
    } else {
        rel
    }
}

// ── Operations ──

/// Escape a token for use in a JSON Pointer: `~` → `~0`, `/` → `~1`.
pub fn json_pointer_escape(s: &str) -> (r: String)
    ensures
        r@ == spec_escape(s@),
{
    let a = replace_char_exec(s, '~', "~0");
    proof {
        reveal_strlit("~0");
        reveal_strlit("~1");
        assert("~0"@ =~= seq!['~', '0']);
        assert("~1"@ =~= seq!['~', '1']);
    }
    replace_char_exec(a.as_str(), '/', "~1")
}

/// Unescape a JSON Pointer token: `~1` → `/`, then `~0` → `~`.
pub fn json_pointer_unescape(s: &str) -> (r: String)
    ensures
        r@ == spec_unescape(s@),
{
    let a = replace_pair_exec(s, '~', '1', '/');
    replace_pair_exec(a.as_str(), '~', '0', '~')
}

/// Split a JSON Pointer string into its unescaped reference tokens.
pub fn parse_json_pointer(pointer: &str) -> (r: Vec<String>)
    ensures
        r@.len() == spec_parse_pointer(pointer@).len(),
        forall|i: int| 0 <= i < r@.len() ==> #[trigger] r@[i]@ == spec_parse_pointer(pointer@)[i],
{
    let cs = chars_of(pointer);
    if cs.len() == 0 {
        return Vec::new();
    }
    let rest: String = if cs[0] == '/' {
        let tail = slice_tail(&cs, 1);
        string_from_chars(&tail)
    } else {
        to_owned_string(pointer)
    };
    let ghost q = if pointer@[0] == '/' { pointer@.skip(1) } else { pointer@ };
    assert(rest@ =~= q);
    let parts = split_exec(rest.as_str(), '/');
    let mut out: Vec<String> = Vec::new();
    let mut i: usize = 0;
    while i < parts.len()
        invariant
            i <= parts@.len(),
            parts@.len() == split_on(q, '/').len(),
            forall|k: int| 0 <= k < parts@.len() ==> #[trigger] parts@[k]@ == split_on(q, '/')[k],
            out@.len() == i,
            forall|k: int| 0 <= k < i ==> #[trigger] out@[k]@ == spec_unescape(split_on(q, '/')[k]),
        decreases parts.len() - i,
    {
        let t = json_pointer_unescape(parts[i].as_str());
        out.push(t);
        i = i + 1;
    }
    out
}

/// The characters of `v` from position `from` on.
pub fn slice_tail(v: &Vec<char>, from: usize) -> (r: Vec<char>)
    requires
        from <= v@.len(),
    ensures
        r@ == v@.skip(from as int),
{
    let mut r: Vec<char> = Vec::new();
    let mut i = from;
    while i < v.len()
        invariant
            from <= i <= v@.len(),
            r@ == v@.subrange(from as int, i as int),
        decreases v.len() - i,
    {
        r.push(v[i]);
        i = i + 1;
        assert(r@ =~= v@.subrange(from as int, i as int));
    }
    assert(r@ =~= v@.skip(from as int));
    r
}

/// The characters of `v` before position `to`.
pub fn slice_head(v: &Vec<char>, to: usize) -> (r: Vec<char>)
    requires
        to <= v@.len(),
    ensures
        r@ == v@.take(to as int),
{
    let mut r: Vec<char> = Vec::new();
    let mut i: usize = 0;
    while i < to
        invariant
            i <= to <= v@.len(),
            r@ == v@.take(i as int),
        decreases to - i,
    {
        r.push(v[i]);
        i = i + 1;
        assert(r@ =~= v@.take(i as int));
    }
    r
}

/// Join a base JSON Pointer path with a token, escaping the token.
pub fn json_pointer_join(base: &str, token: &str) -> (r: String)
    ensures
        r@ == spec_join(base@, token@),
{
    let mut r = to_owned_string(base);
    push_char(&mut r, '/');
    let e = json_pointer_escape(token);
    push_str(&mut r, e.as_str());
    r
}

/// The parent of a JSON Pointer path: `"/a/b"` → `"/a"`, `"/a"` → `""`,
/// `""` → `""`.
pub fn get_json_pointer_parent(path: &str) -> (r: String)
    ensures
        r@ == spec_parent(path@),
{
    let cs = chars_of(path);
    let mut i = cs.len();
    assert(cs@.take(i as int) =~= cs@);
    while i > 0
        invariant
            i <= cs@.len(),
            cs@ == path@,
            last_index_of(cs@, '/') == last_index_of(cs@.take(i as int), '/'),
        decreases i,
    {
        assert(cs@.take(i as int).drop_last() =~= cs@.take(i - 1));
        if cs[i - 1] == '/' {
            let head = slice_head(&cs, i - 1);
            return string_from_chars(&head);
        }
        i = i - 1;
    }
    String::new()
}

/// Resolve a path against a node path: a path starting with `/` is
/// appended to the node path's tokens; any other path is returned as is.
pub fn resolve_absolute_path(node_path: &str, relative_path: &str) -> (r: String)
    ensures
        r@ == spec_resolve_absolute_path(node_path@, relative_path@),
        relative_path@.len() > 0 && relative_path@[0] == '/' ==> spec_parse_pointer(r@) == spec_parse_pointer(
            node_path@,
        ) + spec_parse_pointer(relative_path@),
{
    if !starts_with_char(relative_path, '/') {
        return to_owned_string(relative_path);
    }
    proof {
        law_resolve_absolute_tokens(node_path@, relative_path@);
    }
    let a = parse_json_pointer(node_path);
    let b = parse_json_pointer(relative_path);
    let ghost toks = spec_parse_pointer(node_path@) + spec_parse_pointer(relative_path@);
    let mut all: Vec<String> = a;
    let mut m: usize = 0;
    while m < b.len()
        invariant
            m <= b@.len(),
            b@.len() == spec_parse_pointer(relative_path@).len(),
            forall|j: int| 0 <= j < b@.len() ==> #[trigger] b@[j]@ == spec_parse_pointer(relative_path@)[j],
            all@.len() == spec_parse_pointer(node_path@).len() + m,
            toks == spec_parse_pointer(node_path@) + spec_parse_pointer(relative_path@),
            forall|j: int| 0 <= j < all@.len() ==> #[trigger] all@[j]@ == toks[j],
        decreases b.len() - m,
    {
        assert(toks[spec_parse_pointer(node_path@).len() + m] == b@[m as int]@);
        all.push(b[m].clone());
        m = m + 1;
    }
    if all.len() == 0 {
        assert(toks =~= Seq::<Seq<char>>::empty());
        return String::new();
    }
    let mut r = String::new();
    let mut k: usize = 0;
    while k < all.len()
        invariant
            toks.len() == all@.len(),
            forall|j: int| 0 <= j < all@.len() ==> #[trigger] all@[j]@ == toks[j],
            k <= all@.len(),
            k == 0 ==> r@ == Seq::<char>::empty(),
            k > 0 ==> r@ == spec_pointer_of(toks.take(k as int)),
        decreases all.len() - k,
    {
        assert(all@[k as int]@ == toks[k as int]);
        let e = json_pointer_escape(all[k].as_str());
        push_char(&mut r, '/');
        push_str(&mut r, e.as_str());
        proof {
            let t = toks.take(k + 1);
            let mm = t.map_values(|x: Seq<char>| spec_escape(x));
            assert(t.drop_last() =~= toks.take(k as int));
            assert(mm.drop_last() =~= toks.take(k as int).map_values(|x: Seq<char>| spec_escape(x)));
            if k > 0 {
                assert(r@ =~= seq!['/'] + join_with(mm, seq!['/']));
            } else {
                assert(mm =~= seq![spec_escape(toks[0])]);
                assert(r@ =~= seq!['/'] + join_with(mm, seq!['/']));
            }
        }
        k = k + 1;
    }
    assert(toks.take(all@.len() as int) =~= toks);
    r
}

// ── Laws ──

proof fn lemma_replace_char_concat(a: Seq<char>, b: Seq<char>, c: char, rep: Seq<char>)
    ensures
        replace_char(a + b, c, rep) == replace_char(a, c, rep) + replace_char(b, c, rep),
    decreases a.len(),
{
    if a.len() == 0 {
        assert(a + b =~= b);
    } else {
        assert((a + b).skip(1) =~= a.skip(1) + b);
        lemma_replace_char_concat(a.skip(1), b, c, rep);
    }
}

proof fn lemma_escape_step(s: Seq<char>)
    requires
        s.len() > 0,
    ensures
        spec_escape(s) == (if s[0] == '~' { seq!['~', '0'] } else if s[0] == '/' { seq![
            '~',
            '1',
        ] } else { seq![s[0]] }) + spec_escape(s.skip(1)),
{
    reveal_with_fuel(replace_char, 3);
    let first = if s[0] == '~' { seq!['~', '0'] } else { seq![s[0]] };
    let inner = replace_char(s, '~', seq!['~', '0']);
    assert(inner == first + replace_char(s.skip(1), '~', seq!['~', '0']));
    lemma_replace_char_concat(first, replace_char(s.skip(1), '~', seq!['~', '0']), '/', seq!['~', '1']);
    if s[0] == '~' {
        assert(first.skip(1) =~= seq!['0']);
        assert(seq!['0'].skip(1) =~= Seq::<char>::empty());
        assert(replace_char(Seq::<char>::empty(), '/', seq!['~', '1']) =~= Seq::<char>::empty());
        assert(replace_char(seq!['0'], '/', seq!['~', '1']) =~= seq!['0']);
        assert(replace_char(first, '/', seq!['~', '1']) =~= seq!['~', '0']);
    } else {
        assert(first.skip(1) =~= Seq::<char>::empty());
        assert(replace_char(Seq::<char>::empty(), '/', seq!['~', '1']) =~= Seq::<char>::empty());
        if s[0] == '/' {
            assert(replace_char(first, '/', seq!['~', '1']) =~= seq!['~', '1']);
        } else {
            assert(replace_char(first, '/', seq!['~', '1']) =~= seq![s[0]]);
        }
    }
}

/// A token with no `~` and no `/` escapes to itself.
pub(crate) proof fn lemma_escape_plain(s: Seq<char>)
    requires
        !s.contains('~'),
        !s.contains('/'),
    ensures
        spec_escape(s) == s,
    decreases s.len(),
{
    if s.len() > 0 {
        lemma_escape_step(s);
        assert(!s.skip(1).contains('~') && !s.skip(1).contains('/')) by {
            assert forall|i: int| 0 <= i < s.skip(1).len() implies s.skip(1)[i] != '~' && s.skip(1)[i] != '/' by {
                assert(s.skip(1)[i] == s[i + 1]);
            }
        }
        lemma_escape_plain(s.skip(1));
        assert(s[0] != '~' && s[0] != '/') by {
            assert(s[0] == s[0]);
        }
        assert(seq![s[0]] + s.skip(1) =~= s);
    } else {
        assert(spec_escape(s) =~= s);
    }
}

/// Unescaping an escaped token gives the token back.
pub proof fn law_unescape_escape(s: Seq<char>)
    ensures
        spec_unescape(spec_escape(s)) == s,
    decreases s.len(),
{
    lemma_unescape_first_pass(s);
    lemma_unescape_second_pass(s);
}

/// The first unescape pass turns an escaped token into the token with only
/// `~` escaped.
proof fn lemma_unescape_first_pass(s: Seq<char>)
    ensures
        replace_pair(spec_escape(s), '~', '1', '/') == replace_char(s, '~', seq!['~', '0']),
    decreases s.len(),
{
    if s.len() > 0 {
        lemma_escape_step(s);
        lemma_unescape_first_pass(s.skip(1));
        let rest = spec_escape(s.skip(1));
        let rr = replace_pair(rest, '~', '1', '/');
        let tail = replace_char(s.skip(1), '~', seq!['~', '0']);
        assert(rr == tail);
        if s[0] == '~' {
            let e = seq!['~', '0'] + rest;
            assert(e.skip(1) =~= seq!['0'] + rest);
            assert((seq!['0'] + rest).skip(1) =~= rest);
            assert(replace_pair(seq!['0'] + rest, '~', '1', '/') == seq!['0'] + rr);
            assert(replace_pair(e, '~', '1', '/') == seq!['~'] + (seq!['0'] + rr));
            assert(replace_char(s, '~', seq!['~', '0']) == seq!['~', '0'] + tail);
            assert(seq!['~'] + (seq!['0'] + rr) =~= seq!['~', '0'] + tail);
        } else if s[0] == '/' {
            let e = seq!['~', '1'] + rest;
            assert(e.skip(2) =~= rest);
            assert(replace_pair(e, '~', '1', '/') == seq!['/'] + rr);
            assert(replace_char(s, '~', seq!['~', '0']) == seq![s[0]] + tail);
        } else {
            let e = seq![s[0]] + rest;
            assert(e.skip(1) =~= rest);
            assert(replace_pair(e, '~', '1', '/') == seq![s[0]] + rr);
            assert(replace_char(s, '~', seq!['~', '0']) == seq![s[0]] + tail);
        }
    } else {
        assert(spec_escape(s) =~= Seq::<char>::empty());
    }
}

proof fn lemma_unescape_second_pass(s: Seq<char>)
    ensures
        replace_pair(replace_char(s, '~', seq!['~', '0']), '~', '0', '~') == s,
    decreases s.len(),
{
    if s.len() > 0 {
        lemma_unescape_second_pass(s.skip(1));
        let rest = replace_char(s.skip(1), '~', seq!['~', '0']);
        if s[0] == '~' {
            let e = seq!['~', '0'] + rest;
            assert(e.skip(2) =~= rest);
        } else {
            let e = seq![s[0]] + rest;
            assert(e.skip(1) =~= rest);
        }
        assert(s =~= seq![s[0]] + s.skip(1));
    }
}

pub(crate) proof fn lemma_escape_no_slash(s: Seq<char>)
    ensures
        !spec_escape(s).contains('/'),
    decreases s.len(),
{
    if s.len() > 0 {
        lemma_escape_step(s);
        lemma_escape_no_slash(s.skip(1));
        let rest = spec_escape(s.skip(1));
        let first = if s[0] == '~' { seq!['~', '0'] } else if s[0] == '/' { seq!['~', '1'] } else { seq![s[0]] };
        assert forall|i: int| 0 <= i < (first + rest).len() implies (first + rest)[i] != '/' by {
            if i >= first.len() {
                assert((first + rest)[i] == rest[i - first.len()]);
            }
        }
    } else {
        assert(spec_escape(s) =~= Seq::<char>::empty());
    }
}

proof fn lemma_last_index_of_append(p: Seq<char>, q: Seq<char>, c: char)
    requires
        !q.contains(c),
    ensures
        last_index_of(p + q, c) == last_index_of(p, c),
    decreases q.len(),
{
    if q.len() == 0 {
        assert(p + q =~= p);
    } else {
        assert((p + q).drop_last() =~= p + q.drop_last());
        assert(q.last() == q[q.len() - 1]);
        lemma_last_index_of_append(p, q.drop_last(), c);
    }
}

/// The parent of `base/token` is `base`.
pub proof fn law_parent_of_join(base: Seq<char>, token: Seq<char>)
    ensures
        spec_parent(spec_join(base, token)) == base,
{
    lemma_escape_no_slash(token);
    let j = base + seq!['/'];
    lemma_last_index_of_append(j, spec_escape(token), '/');
    assert(spec_join(base, token) == j + spec_escape(token));
    assert(j.drop_last() =~= base);
    assert(j.take(base.len() as int) =~= base);
    assert((j + spec_escape(token)).take(base.len() as int) =~= base);
}

pub(crate) proof fn lemma_split_append_sep(a: Seq<char>, b: Seq<char>)
    requires
        !b.contains('/'),
    ensures
        split_on(a + seq!['/'] + b, '/') == split_on(a, '/').push(b),
    decreases b.len(),
{
    let s = a + seq!['/'] + b;
    if b.len() == 0 {
        assert(s.drop_last() =~= a);
        assert(s.last() == '/');
        assert(b =~= Seq::<char>::empty());
        assert(split_on(s, '/') == split_on(s.drop_last(), '/').push(Seq::<char>::empty()));
    } else {
        let bd = b.drop_last();
        assert(!bd.contains('/')) by {
            assert forall|i: int| 0 <= i < bd.len() implies bd[i] != '/' by {
                assert(bd[i] == b[i]);
            }
        }
        lemma_split_append_sep(a, bd);
        assert(s.drop_last() =~= a + seq!['/'] + bd);
        assert(s.last() == b[b.len() - 1]);
        assert(s.last() != '/');
        let prev = split_on(a, '/').push(bd);
        assert(split_on(s, '/') == prev.update(prev.len() - 1, prev.last().push(s.last())));
        assert(bd.push(b[b.len() - 1]) =~= b);
        assert(prev.update(prev.len() - 1, b) =~= split_on(a, '/').push(b));
    }
}

/// Parsing `base/token` gives the tokens of `base` followed by `token`.
pub proof fn law_parse_of_join(base: Seq<char>, token: Seq<char>)
    ensures
        spec_parse_pointer(spec_join(base, token)) == spec_parse_pointer(base).push(token),
{
    let e = spec_escape(token);
    lemma_escape_no_slash(token);
    law_unescape_escape(token);
    let j = spec_join(base, token);
    if base.len() == 0 {
        assert(j[0] == '/');
        assert(j.skip(1) =~= e);
        assert(!e.contains('/'));
        lemma_split_no_sep(e);
        assert(spec_parse_pointer(j) =~= seq![token]);
    } else if base[0] == '/' {
        assert(j[0] == '/');
        let q = base.skip(1);
        assert(j.skip(1) =~= q + seq!['/'] + e);
        lemma_split_append_sep(q, e);
        assert(spec_parse_pointer(j) =~= spec_parse_pointer(base).push(token));
    } else {
        assert(j[0] == base[0]);
        assert(j =~= base + seq!['/'] + e);
        lemma_split_append_sep(base, e);
        assert(spec_parse_pointer(j) =~= spec_parse_pointer(base).push(token));
    }
}

/// The pointer of the tokens followed by `t` is the pointer of the tokens
/// joined with `t`.
proof fn lemma_pointer_of_push(toks: Seq<Seq<char>>, t: Seq<char>)
    ensures
        spec_pointer_of(toks.push(t)) == spec_join(spec_pointer_of(toks), t),
{
    let e = toks.map_values(|x: Seq<char>| spec_escape(x));
    let e2 = toks.push(t).map_values(|x: Seq<char>| spec_escape(x));
    assert(e2.drop_last() =~= e);
    assert(e2.last() == spec_escape(t));
    if toks.len() == 0 {
        assert(e2.len() == 1);
        assert(spec_pointer_of(toks.push(t)) =~= seq!['/'] + spec_escape(t));
        assert(spec_join(spec_pointer_of(toks), t) =~= seq!['/'] + spec_escape(t));
    } else {
        assert(join_with(e2, seq!['/']) == join_with(e, seq!['/']) + seq!['/'] + spec_escape(t));
        assert(spec_pointer_of(toks.push(t)) =~= seq!['/'] + join_with(e, seq!['/']) + seq!['/'] + spec_escape(t));
    }
}

/// Parsing the pointer made of some tokens gives back those tokens.
pub proof fn law_parse_pointer_of(toks: Seq<Seq<char>>)
    ensures
        spec_parse_pointer(spec_pointer_of(toks)) == toks,
    decreases toks.len(),
{
    if toks.len() == 0 {
        assert(spec_parse_pointer(spec_pointer_of(toks)) =~= toks);
    } else {
        let init = toks.drop_last();
        law_parse_pointer_of(init);
        lemma_pointer_of_push(init, toks.last());
        law_parse_of_join(spec_pointer_of(init), toks.last());
        assert(init.push(toks.last()) =~= toks);
    }
}

/// Resolving a path that starts with `/` gives the pointer whose tokens are
/// the node path's followed by the path's.
pub proof fn law_resolve_absolute_tokens(node: Seq<char>, rel: Seq<char>)
    requires
        rel.len() > 0,
        rel[0] == '/',
    ensures
        spec_parse_pointer(spec_resolve_absolute_path(node, rel)) == spec_parse_pointer(node) + spec_parse_pointer(rel),
{
    law_parse_pointer_of(spec_parse_pointer(node) + spec_parse_pointer(rel));
}

pub(crate) proof fn lemma_split_no_sep(s: Seq<char>)
    requires
        !s.contains('/'),
    ensures
        split_on(s, '/') == seq![s],
    decreases s.len(),
{
    if s.len() > 0 {
        assert(!s.drop_last().contains('/')) by {
            assert forall|i: int| 0 <= i < s.drop_last().len() implies s.drop_last()[i] != '/' by {
                assert(s.drop_last()[i] == s[i]);
            }
        }
        lemma_split_no_sep(s.drop_last());
        assert(s.last() == s[s.len() - 1]);
        assert(s.drop_last().push(s.last()) =~= s);
        assert(seq![s.drop_last()].update(0, s.drop_last().push(s.last())) =~= seq![s]);
    } else {
        assert(s =~= Seq::<char>::empty());
    }
}

} // verus!
