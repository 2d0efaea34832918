//! The textual IPv6 address grammar that the standard library's
//! `Ipv6Addr` parser accepts: up to eight groups of one to four hex digits
//! separated by `:`, at most one `::` standing for the missing groups, and
//! an optional dotted IPv4 address in place of the last two groups.
use vstd::prelude::*;
use crate::text::{chars_of, decimal_value, is_digit};

verus! {

pub open spec fn hex_digit(c: char) -> bool {
    ('0' <= c && c <= '9') || ('a' <= c && c <= 'f') || ('A' <= c && c <= 'F')
}

/// The length of the run of (hex or decimal) digits starting at `pos`.
pub open spec fn run_len(s: Seq<char>, pos: nat, hex: bool) -> nat
    decreases s.len() - pos,
{
    if pos < s.len() && (if hex { hex_digit(s[pos as int]) } else { is_digit(s[pos as int]) }) {
        1 + run_len(s, pos + 1, hex)
    } else {
        0
    }
}

/// A group of one to four hex digits at `pos`: the position after it.
pub open spec fn hex_group(s: Seq<char>, pos: nat) -> Option<nat> {
    let n = run_len(s, pos, true);
    if 1 <= n && n <= 4 {
        Some(pos + n)
    } else {
        None
    }
}

/// A decimal octet at `pos` (at most three digits, no leading zero, at
/// most 255): the position after it.
pub open spec fn octet(s: Seq<char>, pos: nat) -> Option<nat> {
    let n = run_len(s, pos, false);
    if 1 <= n && n <= 3 && !(n > 1 && s[pos as int] == '0') && decimal_value(
        s.subrange(pos as int, (pos + n) as int),
    ) <= 255 {
        Some(pos + n)
    } else {
        None
    }
}

/// A `.` and an octet at `pos`.
pub open spec fn dot_octet(s: Seq<char>, pos: Option<nat>) -> Option<nat> {
    match pos {
        Some(p) => if p < s.len() && s[p as int] == '.' {
            octet(s, p + 1)
        } else {
            None
        },
        None => None,
    }
}

/// A dotted IPv4 address at `pos`: the position after it.
pub open spec fn ipv4_at(s: Seq<char>, pos: nat) -> Option<nat> {
    dot_octet(s, dot_octet(s, dot_octet(s, octet(s, pos))))
}

/// Reading groups `i..limit` from `pos` (a `:` before each but the first):
/// how many groups were read, whether the last two were an IPv4 address,
/// and the position reached.
pub open spec fn groups(s: Seq<char>, pos: nat, i: nat, limit: nat) -> (nat, bool, nat)
    decreases limit - i,
{
    if i >= limit {
        (limit, false, pos)
    } else {
        let sep: Option<nat> = if i == 0 {
            Some(pos)
        } else if pos < s.len() && s[pos as int] == ':' {
            Some(pos + 1)
        } else {
            None
        };
        let v4: Option<nat> = if i + 1 < limit {
            match sep {
                Some(q) => ipv4_at(s, q),
                None => None,
            }
        } else {
            None
        };
        match v4 {
            Some(np) => (i + 2, true, np),
            None => match sep {
                Some(q) => match hex_group(s, q) {
                    Some(np) => groups(s, np, i + 1, limit),
                    None => (i, false, pos),
                },
                None => (i, false, pos),
            },
        }
    }
}

/// Whether the whole text is an IPv6 address.
pub open spec fn spec_is_ipv6(s: Seq<char>) -> bool {
    let (hs, h4, p1) = groups(s, 0, 0, 8);
    if hs == 8 {
        p1 == s.len()
    } else if h4 {
        false
    } else if p1 + 1 < s.len() && s[p1 as int] == ':' && s[p1 + 1int] == ':' {
        groups(s, p1 + 2, 0, (8 - (hs + 1)) as nat).2 == s.len()
    } else {
        false
    }
}

proof fn lemma_run(s: Seq<char>, pos: nat, hex: bool, t: nat)
    requires
        t < run_len(s, pos, hex),
    ensures
        pos + t < s.len(),
        if hex { hex_digit(s[(pos + t) as int]) } else { is_digit(s[(pos + t) as int]) },
    decreases t,
{
    if t > 0 {
        lemma_run(s, pos + 1, hex, (t - 1) as nat);
    }
}

fn is_hex_char(c: char) -> (r: bool)
    ensures
        r == hex_digit(c),
{
    ('0' <= c && c <= '9') || ('a' <= c && c <= 'f') || ('A' <= c && c <= 'F')
}

fn digit_at(s: &Vec<char>, j: usize, hex: bool) -> (r: bool)
    requires
        j < s@.len(),
    ensures
        r == (if hex { hex_digit(s@[j as int]) } else { is_digit(s@[j as int]) }),
{
    if hex {
        is_hex_char(s[j])
    } else {
        '0' <= s[j] && s[j] <= '9'
    }
}

fn run_len_exec(s: &Vec<char>, pos: usize, hex: bool) -> (r: usize)
    requires
        pos <= s@.len(),
    ensures
        r == run_len(s@, pos as nat, hex),
        pos + r <= s@.len(),
{
    let mut j: usize = pos;
    while j < s.len() && digit_at(s, j, hex)
        invariant
            pos <= j <= s@.len(),
            run_len(s@, pos as nat, hex) == (j - pos) + run_len(s@, j as nat, hex),
        decreases s@.len() - j,
    {
        j = j + 1;
    }
    j - pos
}

fn hex_group_exec(s: &Vec<char>, pos: usize) -> (r: Option<usize>)
    requires
        pos <= s@.len(),
    ensures
        match r {
            Some(p) => hex_group(s@, pos as nat) == Some(p as nat) && p <= s@.len(),
            None => hex_group(s@, pos as nat) is None,
        },
{
    let len = s.len();
    let n = run_len_exec(s, pos, true);
    if 1 <= n && n <= 4 {
        Some(pos + n)
    } else {
        None
    }
}

fn octet_exec(s: &Vec<char>, pos: usize) -> (r: Option<usize>)
    requires
        pos <= s@.len(),
    ensures
        match r {
            Some(p) => octet(s@, pos as nat) == Some(p as nat) && p <= s@.len(),
            None => octet(s@, pos as nat) is None,
        },
{
    let len = s.len();
    let n = run_len_exec(s, pos, false);
    if n < 1 || n > 3 {
        return None;
    }
    if n > 1 && s[pos] == '0' {
        return None;
    }
    let mut v: u32 = 0;
    let mut k: usize = 0;
    let ghost d = s@.subrange(pos as int, (pos + n) as int);
    assert(d.take(0) =~= Seq::<char>::empty());
    assert forall|t: int| 0 <= t < n implies is_digit(#[trigger] d[t]) by {
        lemma_run(s@, pos as nat, false, t as nat);
    }
    while k < n
        invariant
            k <= n <= 3,
            pos + n <= s@.len(),
            len == s@.len(),
            d == s@.subrange(pos as int, (pos + n) as int),
            v == decimal_value(d.take(k as int)),
            v < (if k == 0 { 1u32 } else if k == 1 { 10u32 } else if k == 2 { 100u32 } else { 1000u32 }),
            forall|t: int| 0 <= t < n ==> is_digit(#[trigger] d[t]),
        decreases n - k,
    {
        assert(d.take(k + 1).drop_last() =~= d.take(k as int));
        assert(is_digit(d[k as int]));
        let c = s[pos + k];
        assert(c == d[k as int]);
        v = v * 10 + ((c as u32) - ('0' as u32));
        k = k + 1;
    }
    assert(d.take(n as int) =~= d);
    if v <= 255 {
        Some(pos + n)
    } else {
        None
    }
}

fn dot_octet_exec(s: &Vec<char>, pos: Option<usize>) -> (r: Option<usize>)
    requires
        pos matches Some(p) ==> p <= s@.len(),
    ensures
        match r {
            Some(p) => dot_octet(s@, match pos { Some(q) => Some(q as nat), None => None }) == Some(p as nat) && p <= s@.len(),
            None => dot_octet(s@, match pos { Some(q) => Some(q as nat), None => None }) is None,
        },
{
    match pos {
        Some(p) => {
            if p < s.len() && s[p] == '.' {
                octet_exec(s, p + 1)
            } else {
                None
            }
        },
        None => None,
    }
}

fn ipv4_exec(s: &Vec<char>, pos: usize) -> (r: Option<usize>)
    requires
        pos <= s@.len(),
    ensures
        match r {
            Some(p) => ipv4_at(s@, pos as nat) == Some(p as nat) && p <= s@.len(),
            None => ipv4_at(s@, pos as nat) is None,
        },
{
    let a = octet_exec(s, pos);
    let b = dot_octet_exec(s, a);
    let c = dot_octet_exec(s, b);
    dot_octet_exec(s, c)
}

fn groups_exec(s: &Vec<char>, pos: usize, limit: usize) -> (r: (usize, bool, usize))
    requires
        pos <= s@.len(),
        limit <= 8,
    ensures
        (r.0 as nat, r.1, r.2 as nat) == groups(s@, pos as nat, 0, limit as nat),
        r.2 <= s@.len(),
        r.0 <= limit,
{
    let ghost goal = groups(s@, pos as nat, 0, limit as nat);
    let mut i: usize = 0;
    let mut p: usize = pos;
    while i < limit
        invariant
            i <= limit <= 8,
            p <= s@.len(),
            groups(s@, p as nat, i as nat, limit as nat) == goal,
            goal == groups(s@, pos as nat, 0, limit as nat),
        decreases limit - i,
    {
        let sep: Option<usize> = if i == 0 {
            Some(p)
        } else if p < s.len() && s[p] == ':' {
            Some(p + 1)
        } else {
            None
        };
        if i + 1 < limit {
            if let Some(q) = sep {
                if let Some(np) = ipv4_exec(s, q) {
                    assert(groups(s@, p as nat, i as nat, limit as nat) == (i as nat + 2, true, np as nat));
                    return (i + 2, true, np);
                }
            }
        }
        match sep {
            Some(q) => match hex_group_exec(s, q) {
                Some(np) => {
                    p = np;
                },
                None => {
                    assert(groups(s@, p as nat, i as nat, limit as nat) == (i as nat, false, p as nat));
                    return (i, false, p);
                },
            },
            None => {
                return (i, false, p);
            },
        }
        i = i + 1;
    }
    (limit, false, p)
}

/// Whether a text is an IPv6 address in the standard library's syntax.
pub fn is_ipv6(text: &str) -> (r: bool)
    ensures
        r == spec_is_ipv6(text@),
{
    let s = chars_of(text);
    let (hs, h4, p1) = groups_exec(&s, 0, 8);
    if hs == 8 {
        p1 == s.len()
    } else if h4 {
        false
    } else if p1 < s.len() && s.len() - p1 >= 2 && s[p1] == ':' && s[p1 + 1] == ':' {
        let (_, _, p2) = groups_exec(&s, p1 + 2, 8 - (hs + 1));
        p2 == s.len()
    } else {
        false
    }
}

} // verus!
