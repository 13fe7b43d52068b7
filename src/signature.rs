//! Function signatures read from code, their parameter diff, and the call
//! expressions that use them.

use vstd::prelude::*;

use crate::scan::{
    find_char, find_char_from, find_seq, find_seq_from, rfind_char, rfind_char_before,
    slice_chars, split_state, split_top_level, trim, trim_chars,
};
use crate::text::{chars_of, string_of};

verus! {

/// A function parameter: its name and its type text (possibly empty).
#[derive(Clone, Debug)]
pub struct Param {
    pub name: String,
    pub typ: String,
}

/// A parsed signature.
#[derive(Clone, Debug)]
pub struct Signature {
    pub name: String,
    pub params: Vec<Param>,
    pub return_type: Option<String>,
}

impl View for Param {
    type V = (Seq<char>, Seq<char>);

    open spec fn view(&self) -> (Seq<char>, Seq<char>) {
        (self.name@, self.typ@)
    }
}

/// The mathematical content of a signature.
pub struct SignatureView {
    pub name: Seq<char>,
    pub params: Seq<(Seq<char>, Seq<char>)>,
    pub return_type: Option<Seq<char>>,
}

impl View for Signature {
    type V = SignatureView;

    open spec fn view(&self) -> SignatureView {
        SignatureView {
            name: self.name@,
            params: self.params@.map_values(|p: Param| p@),
            return_type: match self.return_type {
                Some(t) => Some(t@),
                None => None,
            },
        }
    }
}

/// The pieces of `s` between commas outside any `()`, `[]`, `{}` or `<>`
/// (the last piece included).
pub open spec fn top_level_pieces(s: Seq<char>) -> Seq<Seq<char>> {
    let st = split_state(s, s.len() as int, true);
    st.0.push(st.1)
}

/// Each piece trimmed; empty pieces dropped.
pub open spec fn nonempty_trimmed(ps: Seq<Seq<char>>) -> Seq<Seq<char>>
    decreases ps.len(),
{
    if ps.len() == 0 {
        Seq::empty()
    } else {
        let rest = nonempty_trimmed(ps.drop_last());
        if trim(ps.last()).len() == 0 {
            rest
        } else {
            rest.push(trim(ps.last()))
        }
    }
}

/// One parameter: split at the first `:` into trimmed name and type.
pub open spec fn param_of(p: Seq<char>) -> (Seq<char>, Seq<char>) {
    match find_char_from(p, ':', 0) {
        Some(c) => (trim(p.subrange(0, c)), trim(p.subrange(c + 1, p.len() as int))),
        None => (p, Seq::empty()),
    }
}

/// The parameter list text between the parentheses.
pub open spec fn params_of(s: Seq<char>) -> Seq<(Seq<char>, Seq<char>)> {
    let ps = nonempty_trimmed(top_level_pieces(s));
    Seq::new(ps.len(), |i: int| param_of(ps[i]))
}

/// The name before the parenthesis, without a leading `fn `.
pub open spec fn name_of(head: Seq<char>) -> Seq<char> {
    let h = trim(head);
    if h.len() >= 3 && h.subrange(0, 3) == seq!['f', 'n', ' '] {
        trim(h.subrange(3, h.len() as int))
    } else {
        h
    }
}

/// The return type: trimmed text after the first `->` that follows the
/// closing parenthesis.
pub open spec fn return_of(after: Seq<char>) -> Option<Seq<char>> {
    match find_seq_from(after, seq!['-', '>'], 0) {
        Some(a) => Some(trim(after.subrange(a + 2, after.len() as int))),
        None => None,
    }
}

/// `NAME ( PARAMS ) [ -> RETURN ]`, read from trimmed text; `None` without
/// a `(`, without a `)`, or with the last `)` before the first `(`.
pub open spec fn parse_signature(text: Seq<char>) -> Option<SignatureView> {
    let s = trim(text);
    match (find_char_from(s, '(', 0), rfind_char_before(s, ')', s.len() as int)) {
        (Some(o), Some(c)) => if o <= c {
            Some(
                SignatureView {
                    name: name_of(s.subrange(0, o)),
                    params: params_of(s.subrange(o + 1, c)),
                    return_type: return_of(s.subrange(c + 1, s.len() as int)),
                },
            )
        } else {
            None
        },
        _ => None,
    }
}

/// The parameters of `ps` whose name appears in none of `others`.
pub open spec fn params_missing_from(
    ps: Seq<(Seq<char>, Seq<char>)>,
    others: Seq<(Seq<char>, Seq<char>)>,
) -> Seq<(Seq<char>, Seq<char>)>
    decreases ps.len(),
{
    if ps.len() == 0 {
        Seq::empty()
    } else {
        let rest = params_missing_from(ps.drop_last(), others);
        if exists|j: int| 0 <= j < others.len() && others[j].0 == ps.last().0 {
            rest
        } else {
            rest.push(ps.last())
        }
    }
}

/// Parameters added going from `old` to `new`, by name.
pub open spec fn added_params(old: SignatureView, new: SignatureView) -> Seq<(Seq<char>, Seq<char>)> {
    params_missing_from(new.params, old.params)
}

/// Parameters removed going from `old` to `new`, by name.
pub open spec fn removed_params(old: SignatureView, new: SignatureView) -> Seq<(Seq<char>, Seq<char>)> {
    params_missing_from(old.params, new.params)
}

/// What is added from `a` to `b` is what is removed from `b` to `a`, and
/// the other way round.
pub proof fn law_diff_complement(a: SignatureView, b: SignatureView)
    ensures
        added_params(a, b) == removed_params(b, a),
        removed_params(a, b) == added_params(b, a),
{
}

/// One parameter from its text.
fn parse_param(p: &Vec<char>) -> (r: Param)
    ensures
        r@ == param_of(p@),
{
    let n = p.len();
    match find_char(p, ':', 0) {
        Some(c) => {
            let name = trim_chars(&slice_chars(p, 0, c));
            let typ = trim_chars(&slice_chars(p, c + 1, p.len()));
            Param { name: string_of(name.as_slice()), typ: string_of(typ.as_slice()) }
        },
        None => Param { name: string_of(p.as_slice()), typ: String::new() },
    }
}

/// Trims each piece and keeps the non-empty ones.
fn keep_nonempty_trimmed(parts: &Vec<Vec<char>>, last: &Vec<char>) -> (r: Vec<Vec<char>>)
    ensures
        r@.map_values(|p: Vec<char>| p@) == nonempty_trimmed(parts@.map_values(|p: Vec<char>| p@).push(last@)),
{
    let ghost all = parts@.map_values(|p: Vec<char>| p@).push(last@);
    let mut r: Vec<Vec<char>> = Vec::new();
    let mut i: usize = 0;
    while i <= parts.len()
        invariant
            i <= parts@.len() + 1,
            all == parts@.map_values(|p: Vec<char>| p@).push(last@),
            r@.map_values(|p: Vec<char>| p@) == nonempty_trimmed(all.subrange(0, i as int)),
        decreases parts@.len() + 1 - i,
    {
        let t = if i < parts.len() {
            trim_chars(&parts[i])
        } else {
            trim_chars(last)
        };
        assert(all.subrange(0, i + 1).drop_last() =~= all.subrange(0, i as int));
        assert(all.subrange(0, i + 1).last() == all[i as int]);
        if t.len() > 0 {
            let ghost before = r@.map_values(|p: Vec<char>| p@);
            r.push(t);
            assert(r@.map_values(|p: Vec<char>| p@) =~= before.push(t@));
        }
        if i == parts.len() {
            assert(all.subrange(0, i + 1) =~= all);
            return r;
        }
        i = i + 1;
    }
    assert(all.subrange(0, i as int) =~= all);
    r
}

impl Signature {
    /// Parses `NAME(PARAMS) -> RETURN`, where a leading `fn ` is dropped,
    /// parameters are split at top-level commas, and each parameter at its
    /// first `:` into name and type.
    pub fn parse(sig: &str) -> (r: Option<Signature>)
        ensures
            match r {
                Some(s) => parse_signature(sig@) == Some(s@),
                None => parse_signature(sig@) is None,
            },
    {
        let s = trim_chars(&chars_of(sig));
        let o = match find_char(&s, '(', 0) {
            Some(o) => o,
            None => return None,
        };
        let c = match rfind_char(&s, ')', s.len()) {
            Some(c) => c,
            None => return None,
        };
        if o > c {
            return None;
        }
        let name = name_part(&slice_chars(&s, 0, o));
        let inner = slice_chars(&s, o + 1, c);
        let (parts, last) = split_top_level(&inner, true);
        let pieces = keep_nonempty_trimmed(&parts, &last);
        let mut params: Vec<Param> = Vec::new();
        let mut k: usize = 0;
        while k < pieces.len()
            invariant
                k <= pieces@.len(),
                params@.len() == k,
                forall|j: int| 0 <= j < k ==> (#[trigger] params@[j])@ == param_of(pieces@[j]@),
            decreases pieces@.len() - k,
        {
            params.push(parse_param(&pieces[k]));
            k = k + 1;
        }
        let after = slice_chars(&s, c + 1, s.len());
        let arrow: Vec<char> = vec!['-', '>'];
        let return_type = match find_seq(&after, &arrow, 0) {
            Some(a) => Some(string_of(trim_chars(&slice_chars(&after, a + 2, after.len())).as_slice())),
            None => None,
        };
        let r = Signature { name: string_of(name.as_slice()), params, return_type };
        proof {
            let ps = nonempty_trimmed(top_level_pieces(inner@));
            assert(pieces@.map_values(|p: Vec<char>| p@) == ps);
            assert(r@.params =~= params_of(inner@)) by {
                assert forall|j: int| 0 <= j < ps.len() implies r@.params[j] == param_of(ps[j]) by {
                    assert(pieces@.map_values(|p: Vec<char>| p@)[j] == pieces@[j]@);
                }
            }
            assert(arrow@ =~= seq!['-', '>']);
        }
        Some(r)
    }

    /// Parameters added and removed going from `self` to `new`, compared by name.
    pub fn diff(&self, new: &Signature) -> (r: (Vec<Param>, Vec<Param>))
        ensures
            r.0@.map_values(|p: Param| p@) == added_params(self@, new@),
            r.1@.map_values(|p: Param| p@) == removed_params(self@, new@),
    {
        (missing_from(&new.params, &self.params), missing_from(&self.params, &new.params))
    }
}

/// The name before the parenthesis, without a leading `fn `.
fn name_part(head: &Vec<char>) -> (r: Vec<char>)
    ensures
        r@ == name_of(head@),
{
    let h = trim_chars(head);
    if h.len() >= 3 && h[0] == 'f' && h[1] == 'n' && h[2] == ' ' {
        assert(h@.subrange(0, 3) =~= seq!['f', 'n', ' ']);
        trim_chars(&slice_chars(&h, 3, h.len()))
    } else {
        proof {
            if h@.len() >= 3 {
                assert(h@.subrange(0, 3)[0] == h@[0]);
                assert(h@.subrange(0, 3)[1] == h@[1]);
                assert(h@.subrange(0, 3)[2] == h@[2]);
            }
        }
        h
    }
}

/// Is some parameter of `ps` named `name`?
fn has_param_named(ps: &Vec<Param>, name: &String) -> (b: bool)
    ensures
        b == exists|j: int| 0 <= j < ps@.len() && ps@[j]@.0 == name@,
{
    let mut j: usize = 0;
    while j < ps.len()
        invariant
            j <= ps@.len(),
            forall|k: int| 0 <= k < j ==> ps@[k]@.0 != name@,
        decreases ps@.len() - j,
    {
        if ps[j].name == *name {
            return true;
        }
        j = j + 1;
    }
    false
}

/// The parameters of `ps` whose name is not among those of `others`.
fn missing_from(ps: &Vec<Param>, others: &Vec<Param>) -> (r: Vec<Param>)
    ensures
        r@.map_values(|p: Param| p@) == params_missing_from(
            ps@.map_values(|p: Param| p@),
            others@.map_values(|p: Param| p@),
        ),
{
    let ghost pv = ps@.map_values(|p: Param| p@);
    let ghost ov = others@.map_values(|p: Param| p@);
    let mut r: Vec<Param> = Vec::new();
    let mut i: usize = 0;
    while i < ps.len()
        invariant
            i <= ps@.len(),
            pv == ps@.map_values(|p: Param| p@),
            ov == others@.map_values(|p: Param| p@),
            r@.map_values(|p: Param| p@) == params_missing_from(pv.subrange(0, i as int), ov),
        decreases ps@.len() - i,
    {
        let p = &ps[i];
        assert(pv.subrange(0, i + 1).drop_last() =~= pv.subrange(0, i as int));
        assert(pv.subrange(0, i + 1).last() == p@);
        let found = has_param_named(others, &p.name);
        assert(found == exists|j: int| 0 <= j < ov.len() && ov[j].0 == p@.0) by {
            if found {
                let j = choose|j: int| 0 <= j < others@.len() && others@[j]@.0 == p.name@;
                assert(ov[j] == others@[j]@);
            }
            if exists|j: int| 0 <= j < ov.len() && ov[j].0 == p@.0 {
                let j = choose|j: int| 0 <= j < ov.len() && ov[j].0 == p@.0;
                assert(ov[j] == others@[j]@);
            }
        }
        if !found {
            let ghost before = r@.map_values(|p: Param| p@);
            r.push(Param { name: p.name.clone(), typ: p.typ.clone() });
            assert(r@.map_values(|p: Param| p@) =~= before.push(p@));
        }
        i = i + 1;
    }
    assert(pv.subrange(0, ps@.len() as int) =~= pv);
    r
}

/// The arguments of a call `f(a, b(c), d)`: the text between the first `(`
/// and the last `)`, split at top-level commas and trimmed; a trailing
/// empty piece is dropped.
pub open spec fn call_args(call: Seq<char>) -> Seq<Seq<char>> {
    match (find_char_from(call, '(', 0), rfind_char_before(call, ')', call.len() as int)) {
        (Some(o), Some(c)) => if o < c && trim(call.subrange(o + 1, c)).len() > 0 {
            let st = split_state(call.subrange(o + 1, c), c - o - 1, false);
            let firsts = Seq::new(st.0.len(), |i: int| trim(st.0[i]));
            if trim(st.1).len() > 0 {
                firsts.push(trim(st.1))
            } else {
                firsts
            }
        } else {
            Seq::empty()
        },
        _ => Seq::empty(),
    }
}

/// The arguments of a call expression, trimmed.
pub fn extract_call_args(call: &str) -> (r: Vec<String>)
    ensures
        r@.map_values(|s: String| s@) == call_args(call@),
{
    let cs = chars_of(call);
    let o = match find_char(&cs, '(', 0) {
        Some(o) => o,
        None => return Vec::new(),
    };
    let c = match rfind_char(&cs, ')', cs.len()) {
        Some(c) => c,
        None => return Vec::new(),
    };
    if o >= c {
        return Vec::new();
    }
    let inner = slice_chars(&cs, o + 1, c);
    if trim_chars(&inner).len() == 0 {
        return Vec::new();
    }
    let (parts, last) = split_top_level(&inner, false);
    let ghost st = split_state(inner@, inner@.len() as int, false);
    let mut r: Vec<String> = Vec::new();
    let mut i: usize = 0;
    while i < parts.len()
        invariant
            i <= parts@.len(),
            parts@.map_values(|p: Vec<char>| p@) == st.0,
            r@.len() == i,
            forall|j: int| 0 <= j < i ==> (#[trigger] r@[j])@ == trim(st.0[j]),
        decreases parts@.len() - i,
    {
        assert(st.0[i as int] == parts@[i as int]@);
        r.push(string_of(trim_chars(&parts[i]).as_slice()));
        i = i + 1;
    }
    let t = trim_chars(&last);
    let ghost firsts = Seq::new(st.0.len(), |j: int| trim(st.0[j]));
    assert(r@.map_values(|s: String| s@) =~= firsts);
    if t.len() > 0 {
        r.push(string_of(t.as_slice()));
        assert(r@.map_values(|s: String| s@) =~= firsts.push(t@));
    }
    r
}

/// Bracket state after the first `n` characters: `(` count minus `)`
/// count, and whether a `(` has been seen.
pub open spec fn paren_state(s: Seq<char>, n: int) -> (int, bool)
    decreases n,
{
    if n <= 0 {
        (0, false)
    } else {
        let (d, started) = paren_state(s, n - 1);
        if s[n - 1] == '(' {
            (d + 1, true)
        } else if s[n - 1] == ')' {
            (d - 1, started)
        } else {
            (d, started)
        }
    }
}

/// Position `k` holds the `)` that balances the first `(`.
pub open spec fn closes_call(s: Seq<char>, k: int) -> bool {
    0 <= k < s.len() && s[k] == ')' && paren_state(s, k + 1).1 && paren_state(s, k + 1).0 == 0
}

/// The first position at or after `k` that closes the call.
pub open spec fn call_end_from(s: Seq<char>, k: int) -> Option<int>
    decreases s.len() - k,
{
    if k < 0 || k >= s.len() {
        None
    } else if closes_call(s, k) {
        Some(k)
    } else {
        call_end_from(s, k + 1)
    }
}

/// The call expression at the start of `s`, up to its balancing `)`.
pub open spec fn call_expression(s: Seq<char>) -> Option<Seq<char>> {
    match call_end_from(s, 0) {
        Some(k) => Some(s.subrange(0, k + 1)),
        None => None,
    }
}

/// Where the call at the start of `v` ends (the index of its balancing `)`).
fn call_end(v: &Vec<char>) -> (r: Option<usize>)
    ensures
        match r {
            Some(k) => call_end_from(v@, 0) == Some(k as int) && k < v@.len(),
            None => call_end_from(v@, 0) is None,
        },
{
    let mut opens: usize = 0;
    let mut closes: usize = 0;
    let mut started = false;
    let mut i: usize = 0;
    while i < v.len()
        invariant
            i <= v@.len(),
            opens + closes <= i,
            paren_state(v@, i as int) == (opens - closes, started),
            call_end_from(v@, 0) == call_end_from(v@, i as int),
        decreases v@.len() - i,
    {
        if v[i] == '(' {
            opens = opens + 1;
            started = true;
        } else if v[i] == ')' {
            closes = closes + 1;
            if started && opens == closes {
                return Some(i);
            }
        }
        assert(!closes_call(v@, i as int));
        i = i + 1;
    }
    None
}

/// The call expression that starts `code`, through its balancing `)`.
pub fn extract_call_expression(code: &str) -> (r: Option<String>)
    ensures
        match r {
            Some(s) => call_expression(code@) == Some(s@),
            None => call_expression(code@) is None,
        },
{
    let cs = chars_of(code);
    let n = cs.len();
    match call_end(&cs) {
        Some(k) => Some(string_of(slice_chars(&cs, 0, k + 1).as_slice())),
        None => None,
    }
}

} // verus!
