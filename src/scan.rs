//! Scanning source text: trimming, searching, splitting into lines and at
//! top-level commas, and cutting out balanced call expressions.

use vstd::prelude::*;

use crate::text::{is_space, occurs_at};

verus! {

/// `s` without leading white space.
pub open spec fn trim_start(s: Seq<char>) -> Seq<char>
    decreases s.len(),
{
    if s.len() > 0 && is_space(s[0]) {
        trim_start(s.drop_first())
    } else {
        s
    }
}

/// `s` without trailing white space.
pub open spec fn trim_end(s: Seq<char>) -> Seq<char>
    decreases s.len(),
{
    if s.len() > 0 && is_space(s.last()) {
        trim_end(s.drop_last())
    } else {
        s
    }
}

/// `s` without surrounding white space.
pub open spec fn trim(s: Seq<char>) -> Seq<char> {
    trim_end(trim_start(s))
}

/// `s` with surrounding white space removed.
pub fn trim_chars(v: &Vec<char>) -> (r: Vec<char>)
    ensures
        r@ == trim(v@),
{
    let mut s: usize = 0;
    assert(v@.subrange(0, v@.len() as int) =~= v@);
    while s < v.len() && is_space_char(v[s])
        invariant
            s <= v@.len(),
            trim_start(v@) == trim_start(v@.subrange(s as int, v@.len() as int)),
        decreases v@.len() - s,
    {
        assert(v@.subrange(s as int, v@.len() as int).drop_first() =~= v@.subrange(s + 1, v@.len() as int));
        s = s + 1;
    }
    let ghost ts = v@.subrange(s as int, v@.len() as int);
    assert(trim_start(ts) == ts);
    let mut e: usize = v.len();
    while e > s && is_space_char(v[e - 1])
        invariant
            s <= e <= v@.len(),
            ts == v@.subrange(s as int, v@.len() as int),
            trim_end(ts) == trim_end(v@.subrange(s as int, e as int)),
        decreases e - s,
    {
        assert(v@.subrange(s as int, e as int).drop_last() =~= v@.subrange(s as int, e - 1));
        e = e - 1;
    }
    let mut out: Vec<char> = Vec::new();
    let mut i = s;
    while i < e
        invariant
            s <= i <= e <= v@.len(),
            out@ == v@.subrange(s as int, i as int),
        decreases e - i,
    {
        out.push(v[i]);
        i = i + 1;
    }
    out
}

/// Is `c` white space in the sense of `trim`?
pub fn is_space_char(c: char) -> (b: bool)
    ensures
        b == is_space(c),
{
    c == ' ' || c == '\t' || c == '\n' || c == '\r'
}

/// The first index at or after `i` holding `c`.
pub open spec fn find_char_from(s: Seq<char>, c: char, i: int) -> Option<int>
    decreases s.len() - i,
{
    if i < 0 || i >= s.len() {
        None
    } else if s[i] == c {
        Some(i)
    } else {
        find_char_from(s, c, i + 1)
    }
}

/// The last index before `i` holding `c`.
pub open spec fn rfind_char_before(s: Seq<char>, c: char, i: int) -> Option<int>
    decreases i,
{
    if i <= 0 || i > s.len() {
        None
    } else if s[i - 1] == c {
        Some(i - 1)
    } else {
        rfind_char_before(s, c, i - 1)
    }
}

/// The first index at or after `i` where `n` occurs.
pub open spec fn find_seq_from(h: Seq<char>, n: Seq<char>, i: int) -> Option<int>
    decreases h.len() + 1 - i,
{
    if i < 0 || i > h.len() {
        None
    } else if occurs_at(h, n, i) {
        Some(i)
    } else {
        find_seq_from(h, n, i + 1)
    }
}

/// The first index at or after `i` holding `c`.
pub fn find_char(v: &Vec<char>, c: char, i: usize) -> (r: Option<usize>)
    ensures
        r matches Some(k) ==> i <= k < v@.len() && v@[k as int] == c,
        match r {
            Some(k) => find_char_from(v@, c, i as int) == Some(k as int),
            None => find_char_from(v@, c, i as int) is None,
        },
    decreases v@.len() - i,
{
    if i >= v.len() {
        None
    } else if v[i] == c {
        Some(i)
    } else {
        find_char(v, c, i + 1)
    }
}

/// The last index before `i` holding `c`.
pub fn rfind_char(v: &Vec<char>, c: char, i: usize) -> (r: Option<usize>)
    ensures
        r matches Some(k) ==> k < i && k < v@.len() && v@[k as int] == c,
        match r {
            Some(k) => rfind_char_before(v@, c, i as int) == Some(k as int),
            None => rfind_char_before(v@, c, i as int) is None,
        },
    decreases i,
{
    if i == 0 || i > v.len() {
        None
    } else if v[i - 1] == c {
        Some(i - 1)
    } else {
        rfind_char(v, c, i - 1)
    }
}

/// The first index at or after `i` where `n` occurs in `h`.
pub fn find_seq(h: &Vec<char>, n: &Vec<char>, i: usize) -> (r: Option<usize>)
    ensures
        r matches Some(k) ==> k + n@.len() <= h@.len(),
        match r {
            Some(k) => find_seq_from(h@, n@, i as int) == Some(k as int),
            None => find_seq_from(h@, n@, i as int) is None,
        },
    decreases h@.len() + 1 - i,
{
    if i > h.len() {
        None
    } else if crate::text::matches_at(h, n, i) {
        assert(find_seq_from(h@, n@, i as int) == Some(i as int));
        Some(i)
    } else if i == h.len() {
        assert(find_seq_from(h@, n@, i as int + 1) is None);
        None
    } else {
        let r = find_seq(h, n, i + 1);
        assert(find_seq_from(h@, n@, i as int) == find_seq_from(h@, n@, i as int + 1));
        r
    }
}

/// A copy of `v[a..b]`.
pub fn slice_chars(v: &Vec<char>, a: usize, b: usize) -> (r: Vec<char>)
    requires
        a <= b <= v@.len(),
    ensures
        r@ == v@.subrange(a as int, b as int),
{
    crate::text::sub_vec(v, a, b)
}

/// Does `s[k]` open a bracket? With `angles`, `<` opens too.
pub open spec fn opens_at(s: Seq<char>, k: int, angles: bool) -> bool {
    s[k] == '(' || s[k] == '[' || s[k] == '{' || (angles && s[k] == '<')
}

/// Does `s[k]` close a bracket? With `angles`, `>` closes too, except in `->`.
pub open spec fn closes_at(s: Seq<char>, k: int, angles: bool) -> bool {
    s[k] == ')' || s[k] == ']' || s[k] == '}' || (angles && s[k] == '>' && !(k > 0 && s[k - 1] == '-'))
}

/// Splitting state after the first `n` characters: finished pieces, the
/// current piece, and the bracket depth. A comma at depth zero ends a piece.
/// With `angles`, `<...>` nests as well (for types such as `HashMap<K, V>`).
pub open spec fn split_state(s: Seq<char>, n: int, angles: bool) -> (Seq<Seq<char>>, Seq<char>, int)
    decreases n,
{
    if n <= 0 {
        (Seq::empty(), Seq::empty(), 0)
    } else {
        let (parts, cur, d) = split_state(s, n - 1, angles);
        let c = s[n - 1];
        if opens_at(s, n - 1, angles) {
            (parts, cur.push(c), d + 1)
        } else if closes_at(s, n - 1, angles) {
            (parts, cur.push(c), d - 1)
        } else if c == ',' && d == 0 {
            (parts.push(cur), Seq::empty(), d)
        } else {
            (parts, cur.push(c), d)
        }
    }
}

/// Splits `v` at its top-level commas: the finished pieces and the last one.
pub fn split_top_level(v: &Vec<char>, angles: bool) -> (r: (Vec<Vec<char>>, Vec<char>))
    ensures
        r.0@.map_values(|p: Vec<char>| p@) == split_state(v@, v@.len() as int, angles).0,
        r.1@ == split_state(v@, v@.len() as int, angles).1,
{
    let mut parts: Vec<Vec<char>> = Vec::new();
    let mut cur: Vec<char> = Vec::new();
    let mut opens: usize = 0;
    let mut closes: usize = 0;
    let mut i: usize = 0;
    while i < v.len()
        invariant
            i <= v@.len(),
            opens + closes <= i,
            parts@.map_values(|p: Vec<char>| p@) == split_state(v@, i as int, angles).0,
            cur@ == split_state(v@, i as int, angles).1,
            opens - closes == split_state(v@, i as int, angles).2,
        decreases v@.len() - i,
    {
        let c = v[i];
        let open = c == '(' || c == '[' || c == '{' || (angles && c == '<');
        let close = c == ')' || c == ']' || c == '}' || (angles && c == '>' && !(i > 0 && v[i - 1] == '-'));
        if open {
            cur.push(c);
            opens = opens + 1;
        } else if close {
            cur.push(c);
            closes = closes + 1;
        } else if c == ',' && opens == closes {
            let ghost old_parts = parts@;
            parts.push(cur);
            cur = Vec::new();
            assert(parts@.map_values(|p: Vec<char>| p@) =~= old_parts.map_values(|p: Vec<char>| p@).push(split_state(v@, i as int, angles).1));
        } else {
            cur.push(c);
        }
        i = i + 1;
    }
    (parts, cur)
}

} // verus!
