//! Regular expressions with intersection and complement, matched by
//! Brzozowski derivatives: no backtracking, linear in the input length.

use std::sync::Arc;
use vstd::prelude::*;

use crate::text::chars_of;

verus! {

/// A regular expression.
#[derive(Debug)]
pub enum Regex {
    /// Matches nothing.
    Empty,
    /// Matches the empty string only.
    Epsilon,
    /// Matches one given character.
    Literal(char),
    /// Matches any one character.
    Any,
    /// Matches one character inside one of the inclusive ranges.
    Class(Vec<(char, char)>),
    Concat(Arc<Regex>, Arc<Regex>),
    Union(Arc<Regex>, Arc<Regex>),
    Intersect(Arc<Regex>, Arc<Regex>),
    Negate(Arc<Regex>),
    Star(Arc<Regex>),
}

/// Relies on `Arc::clone`: a second handle on the same value.
#[verifier::external_body]
fn share(r: &Arc<Regex>) -> (c: Arc<Regex>)
    ensures
        c == *r,
{
    Arc::clone(r)
}

/// Does one of the ranges hold `c`?
pub open spec fn in_class(ranges: Seq<(char, char)>, c: char) -> bool {
    exists|i: int| 0 <= i < ranges.len() && ranges[i].0 <= c && c <= ranges[i].1
}

/// Does the expression accept the empty string?
pub open spec fn nullable_spec(r: Regex) -> bool
    decreases r,
{
    match r {
        Regex::Empty => false,
        Regex::Epsilon => true,
        Regex::Literal(_) => false,
        Regex::Any => false,
        Regex::Class(_) => false,
        Regex::Concat(a, b) => nullable_spec(*a) && nullable_spec(*b),
        Regex::Union(a, b) => nullable_spec(*a) || nullable_spec(*b),
        Regex::Intersect(a, b) => nullable_spec(*a) && nullable_spec(*b),
        Regex::Negate(a) => !nullable_spec(*a),
        Regex::Star(_) => true,
    }
}

/// Concatenation, with `Empty` absorbing and `Epsilon` neutral.
pub open spec fn concat_spec(a: Regex, b: Regex) -> Regex {
    if a is Empty || b is Empty {
        Regex::Empty
    } else if a is Epsilon {
        b
    } else if b is Epsilon {
        a
    } else {
        Regex::Concat(Arc::new(a), Arc::new(b))
    }
}

/// Alternation, with `Empty` neutral.
pub open spec fn union_spec(a: Regex, b: Regex) -> Regex {
    if a is Empty {
        b
    } else if b is Empty {
        a
    } else {
        Regex::Union(Arc::new(a), Arc::new(b))
    }
}

/// Intersection, with `Empty` absorbing.
pub open spec fn intersect_spec(a: Regex, b: Regex) -> Regex {
    if a is Empty || b is Empty {
        Regex::Empty
    } else {
        Regex::Intersect(Arc::new(a), Arc::new(b))
    }
}

/// Complement, removing a double negation.
pub open spec fn negate_spec(a: Regex) -> Regex {
    match a {
        Regex::Negate(inner) => *inner,
        _ => Regex::Negate(Arc::new(a)),
    }
}

/// Kleene star, with `Empty* = Epsilon* = Epsilon` and `R** = R*`.
pub open spec fn star_spec(a: Regex) -> Regex {
    match a {
        Regex::Empty => Regex::Epsilon,
        Regex::Epsilon => Regex::Epsilon,
        Regex::Star(_) => a,
        _ => Regex::Star(Arc::new(a)),
    }
}

/// The Brzozowski derivative: what is left to match after reading `c`.
pub open spec fn deriv_spec(r: Regex, c: char) -> Regex
    decreases r,
{
    match r {
        Regex::Empty => Regex::Empty,
        Regex::Epsilon => Regex::Empty,
        Regex::Literal(l) => if l == c {
            Regex::Epsilon
        } else {
            Regex::Empty
        },
        Regex::Any => Regex::Epsilon,
        Regex::Class(ranges) => if in_class(ranges@, c) {
            Regex::Epsilon
        } else {
            Regex::Empty
        },
        Regex::Concat(a, b) => {
            let d1 = concat_spec(deriv_spec(*a, c), *b);
            if nullable_spec(*a) {
                union_spec(d1, deriv_spec(*b, c))
            } else {
                d1
            }
        },
        Regex::Union(a, b) => union_spec(deriv_spec(*a, c), deriv_spec(*b, c)),
        Regex::Intersect(a, b) => intersect_spec(deriv_spec(*a, c), deriv_spec(*b, c)),
        Regex::Negate(a) => negate_spec(deriv_spec(*a, c)),
        Regex::Star(a) => concat_spec(deriv_spec(*a, c), Regex::Star(a)),
    }
}

/// The derivative by every character of `s`, in order.
pub open spec fn derive_all(r: Regex, s: Seq<char>) -> Regex
    decreases s.len(),
{
    if s.len() == 0 {
        r
    } else {
        derive_all(deriv_spec(r, s[0]), s.drop_first())
    }
}

/// Does `r` accept `s`?
pub open spec fn accepts(r: Regex, s: Seq<char>) -> bool {
    nullable_spec(derive_all(r, s))
}

/// Does `r` accept some prefix of `s`?
pub open spec fn accepts_prefix(r: Regex, s: Seq<char>) -> bool {
    exists|k: int| 0 <= k <= s.len() && accepts(r, s.subrange(0, k))
}

/// The expression for a string: its characters concatenated from the left.
pub open spec fn string_spec(s: Seq<char>) -> Regex
    decreases s.len(),
{
    if s.len() == 0 {
        Regex::Epsilon
    } else if s.len() == 1 {
        Regex::Literal(s[0])
    } else {
        Regex::Concat(Arc::new(string_spec(s.drop_last())), Arc::new(Regex::Literal(s.last())))
    }
}

impl Regex {
    /// One character.
    pub fn lit(c: char) -> (r: Arc<Regex>)
        ensures
            *r == Regex::Literal(c),
    {
        Arc::new(Regex::Literal(c))
    }

    /// A string: the concatenation of its characters.
    pub fn string(s: &str) -> (r: Arc<Regex>)
        ensures
            *r == string_spec(s@),
    {
        let cs = chars_of(s);
        if cs.len() == 0 {
            return Arc::new(Regex::Epsilon);
        }
        let mut acc = Arc::new(Regex::Literal(cs[0]));
        assert(cs@.subrange(0, 1).drop_last() =~= Seq::<char>::empty());
        let mut i: usize = 1;
        while i < cs.len()
            invariant
                1 <= i <= cs@.len(),
                *acc == string_spec(cs@.subrange(0, i as int)),
            decreases cs@.len() - i,
        {
            let ghost prev = cs@.subrange(0, i as int);
            acc = Arc::new(Regex::Concat(acc, Arc::new(Regex::Literal(cs[i]))));
            assert(cs@.subrange(0, i + 1).drop_last() =~= prev);
            i = i + 1;
        }
        assert(cs@.subrange(0, cs@.len() as int) =~= cs@);
        acc
    }

    /// Concatenation, simplified.
    pub fn concat(r1: Arc<Regex>, r2: Arc<Regex>) -> (r: Arc<Regex>)
        ensures
            *r == concat_spec(*r1, *r2),
    {
        match (&*r1, &*r2) {
            (Regex::Empty, _) | (_, Regex::Empty) => Arc::new(Regex::Empty),
            (Regex::Epsilon, _) => r2,
            (_, Regex::Epsilon) => r1,
            _ => Arc::new(Regex::Concat(r1, r2)),
        }
    }

    /// Alternation, simplified.
    pub fn union(r1: Arc<Regex>, r2: Arc<Regex>) -> (r: Arc<Regex>)
        ensures
            *r == union_spec(*r1, *r2),
    {
        match (&*r1, &*r2) {
            (Regex::Empty, _) => r2,
            (_, Regex::Empty) => r1,
            _ => Arc::new(Regex::Union(r1, r2)),
        }
    }

    /// Intersection, simplified.
    pub fn intersect(r1: Arc<Regex>, r2: Arc<Regex>) -> (r: Arc<Regex>)
        ensures
            *r == intersect_spec(*r1, *r2),
    {
        match (&*r1, &*r2) {
            (Regex::Empty, _) | (_, Regex::Empty) => Arc::new(Regex::Empty),
            _ => Arc::new(Regex::Intersect(r1, r2)),
        }
    }

    /// Complement, simplified.
    pub fn negate(r: Arc<Regex>) -> (n: Arc<Regex>)
        ensures
            *n == negate_spec(*r),
    {
        match &*r {
            Regex::Negate(inner) => share(inner),
            _ => Arc::new(Regex::Negate(r)),
        }
    }

    /// Kleene star, simplified.
    pub fn star(r: Arc<Regex>) -> (s: Arc<Regex>)
        ensures
            *s == star_spec(*r),
    {
        match &*r {
            Regex::Empty | Regex::Epsilon => Arc::new(Regex::Epsilon),
            Regex::Star(_) => r,
            _ => Arc::new(Regex::Star(r)),
        }
    }

    /// `R?`: the empty string or `R`.
    pub fn optional(r: Arc<Regex>) -> (o: Arc<Regex>)
        ensures
            *o == union_spec(Regex::Epsilon, *r),
    {
        Regex::union(Arc::new(Regex::Epsilon), r)
    }

    /// `R+`: `R` followed by `R*`.
    pub fn plus(r: Arc<Regex>) -> (p: Arc<Regex>)
        ensures
            *p == concat_spec(*r, star_spec(*r)),
    {
        let c = share(&r);
        Regex::concat(c, Regex::star(r))
    }
}

/// Does the expression accept the empty string?
pub fn nullable(r: &Regex) -> (b: bool)
    ensures
        b == nullable_spec(*r),
    decreases r,
{
    match r {
        Regex::Empty => false,
        Regex::Epsilon => true,
        Regex::Literal(_) => false,
        Regex::Any => false,
        Regex::Class(_) => false,
        Regex::Concat(a, b) => nullable(a) && nullable(b),
        Regex::Union(a, b) => nullable(a) || nullable(b),
        Regex::Intersect(a, b) => nullable(a) && nullable(b),
        Regex::Negate(a) => !nullable(a),
        Regex::Star(_) => true,
    }
}

/// Does one of the ranges hold `c`?
fn class_contains(ranges: &Vec<(char, char)>, c: char) -> (b: bool)
    ensures
        b == in_class(ranges@, c),
{
    let mut i: usize = 0;
    while i < ranges.len()
        invariant
            i <= ranges@.len(),
            forall|k: int| 0 <= k < i ==> !(ranges@[k].0 <= c && c <= ranges@[k].1),
        decreases ranges@.len() - i,
    {
        let (lo, hi) = ranges[i];
        if lo <= c && c <= hi {
            return true;
        }
        i = i + 1;
    }
    false
}

/// The derivative of `r` by `c`: it accepts `s` exactly when `r` accepts `c` followed by `s`.
pub fn derivative(r: &Regex, c: char) -> (d: Arc<Regex>)
    ensures
        *d == deriv_spec(*r, c),
    decreases r,
{
    match r {
        Regex::Empty => Arc::new(Regex::Empty),
        Regex::Epsilon => Arc::new(Regex::Empty),
        Regex::Literal(l) => {
            if *l == c {
                Arc::new(Regex::Epsilon)
            } else {
                Arc::new(Regex::Empty)
            }
        },
        Regex::Any => Arc::new(Regex::Epsilon),
        Regex::Class(ranges) => {
            if class_contains(ranges, c) {
                Arc::new(Regex::Epsilon)
            } else {
                Arc::new(Regex::Empty)
            }
        },
        Regex::Concat(a, b) => {
            let d1 = Regex::concat(derivative(a, c), share(b));
            if nullable(a) {
                Regex::union(d1, derivative(b, c))
            } else {
                d1
            }
        },
        Regex::Union(a, b) => Regex::union(derivative(a, c), derivative(b, c)),
        Regex::Intersect(a, b) => Regex::intersect(derivative(a, c), derivative(b, c)),
        Regex::Negate(a) => Regex::negate(derivative(a, c)),
        Regex::Star(a) => Regex::concat(derivative(a, c), Arc::new(Regex::Star(share(a)))),
    }
}

/// Does `r` accept all of `s`?
pub fn matches(r: &Regex, s: &str) -> (b: bool)
    ensures
        b == accepts(*r, s@),
{
    let cs = chars_of(s);
    if cs.len() == 0 {
        return nullable(r);
    }
    let mut current = derivative(r, cs[0]);
    let mut i: usize = 1;
    while i < cs.len()
        invariant
            1 <= i <= cs@.len(),
            derive_all(*current, cs@.subrange(i as int, cs@.len() as int)) == derive_all(*r, cs@),
        decreases cs@.len() - i,
    {
        let ghost rest = cs@.subrange(i as int, cs@.len() as int);
        assert(rest.drop_first() =~= cs@.subrange(i + 1, cs@.len() as int));
        current = derivative(&current, cs[i]);
        i = i + 1;
    }
    assert(cs@.subrange(cs@.len() as int, cs@.len() as int) =~= Seq::<char>::empty());
    nullable(&current)
}

/// A matcher bound to one expression.
pub struct Matcher {
    regex: Arc<Regex>,
}

impl Matcher {
    pub fn new(regex: Arc<Regex>) -> (m: Matcher)
        ensures
            m.pattern() == *regex,
    {
        Matcher { regex }
    }

    /// The expression this matcher tests.
    pub closed spec fn pattern(&self) -> Regex {
        *self.regex
    }

    /// Does the expression accept all of `s`?
    pub fn is_match(&mut self, s: &str) -> (b: bool)
        ensures
            final(self).pattern() == old(self).pattern(),
            b == accepts(old(self).pattern(), s@),
    {
        matches(&self.regex, s)
    }

    /// Does the expression accept some prefix of `s` (the empty one included)?
    pub fn is_prefix_match(&mut self, s: &str) -> (b: bool)
        ensures
            final(self).pattern() == old(self).pattern(),
            b == accepts_prefix(old(self).pattern(), s@),
    {
        let cs = chars_of(s);
        let ghost r = self.pattern();
        let mut current = share(&self.regex);
        let mut found = nullable(&current);
        assert(cs@.subrange(0, 0) =~= Seq::<char>::empty());
        let mut i: usize = 0;
        while i < cs.len() && !found
            invariant
                i <= cs@.len(),
                r == self.pattern(),
                *current == derive_all(r, cs@.subrange(0, i as int)),
                found ==> accepts(r, cs@.subrange(0, i as int)),
                !found ==> forall|k: int| 0 <= k <= i ==> !accepts(r, cs@.subrange(0, k)),
            decreases cs@.len() - i,
        {
            proof {
                lemma_derive_all_push(r, cs@.subrange(0, i as int), cs@[i as int]);
                assert(cs@.subrange(0, i as int).push(cs@[i as int]) =~= cs@.subrange(0, i + 1));
            }
            current = derivative(&current, cs[i]);
            found = nullable(&current);
            i = i + 1;
        }
        found
    }
}

/// Deriving by `s` then by `c` is deriving by `s` followed by `c`.
pub proof fn lemma_derive_all_push(r: Regex, s: Seq<char>, c: char)
    ensures
        derive_all(r, s.push(c)) == deriv_spec(derive_all(r, s), c),
    decreases s.len(),
{
    let t = s.push(c);
    if s.len() == 0 {
        assert(t.drop_first() =~= Seq::<char>::empty());
        assert(t[0] == c);
        assert(derive_all(r, t) == derive_all(deriv_spec(r, c), t.drop_first()));
        assert(derive_all(deriv_spec(r, c), Seq::<char>::empty()) == deriv_spec(r, c));
    } else {
        assert(t.drop_first() =~= s.drop_first().push(c));
        assert(t[0] == s[0]);
        lemma_derive_all_push(deriv_spec(r, s[0]), s.drop_first(), c);
        assert(derive_all(r, t) == derive_all(deriv_spec(r, s[0]), t.drop_first()));
    }
}


/// Why a pattern could not be parsed.
#[derive(Debug, Clone)]
pub struct ParseError {
    pub message: String,
    /// Byte offset in the pattern just past the last character read.
    pub position: usize,
}

/// Number of UTF-8 bytes of `c`.
pub open spec fn utf8_width(c: char) -> nat {
    if (c as u32) < 0x80 {
        1
    } else if (c as u32) < 0x800 {
        2
    } else if (c as u32) < 0x10000 {
        3
    } else {
        4
    }
}

/// Number of UTF-8 bytes of `c`.
pub fn char_width(c: char) -> (w: usize)
    ensures
        w == utf8_width(c),
{
    let u = c as u32;
    if u < 0x80 {
        1
    } else if u < 0x800 {
        2
    } else if u < 0x10000 {
        3
    } else {
        4
    }
}

/// Byte offset of character `idx`, saturating at the largest `usize`.
fn byte_offset(cs: &Vec<char>, idx: usize) -> usize {
    let mut pos: usize = 0;
    let mut i: usize = 0;
    while i < idx && i < cs.len()
        invariant
            i <= cs@.len(),
        decreases cs@.len() - i,
    {
        pos = pos.saturating_add(char_width(cs[i]));
        i = i + 1;
    }
    pos
}

fn parse_error(cs: &Vec<char>, idx: usize, message: &str) -> ParseError {
    ParseError { message: message.to_string(), position: byte_offset(cs, idx) }
}

/// Stops a concatenation: `|`, `&` or `)`.
pub open spec fn ends_term(c: char) -> bool {
    c == '|' || c == '&' || c == ')'
}

/// A character with a meaning of its own in a pattern.
pub open spec fn is_meta(c: char) -> bool {
    c == '.' || c == '*' || c == '+' || c == '?' || c == '|' || c == '&' || c == '~' || c == '^' || c == '$'
        || c == '(' || c == ')' || c == '[' || c == ']' || c == '\\'
}

/// No character of `s` from position `i` on has a meaning of its own.
pub open spec fn plain_from(s: Seq<char>, i: int) -> bool {
    forall|k: int| i <= k < s.len() ==> !is_meta(#[trigger] s[k])
}

/// `s` holds a `(`, a `[` or a `\`: the only characters that can make a
/// pattern malformed.
pub open spec fn has_opener(s: Seq<char>) -> bool {
    exists|k: int| 0 <= k < s.len() && (s[k] == '(' || s[k] == '[' || s[k] == '\\')
}

/// Alternation: `a|b|...`.
fn parse_expr(cs: &Vec<char>, i: usize) -> (r: Result<(Arc<Regex>, usize), ParseError>)
    requires
        i <= cs@.len(),
    ensures
        r matches Ok((_, j)) ==> i <= j <= cs@.len(),
        cs@.len() == i ==> (r matches Ok((x, j)) && j == i && *x == Regex::Epsilon),
        r is Err ==> has_opener(cs@),
        i < cs@.len() && plain_from(cs@, i as int) ==> (r matches Ok((x, j)) && j == cs@.len() && *x
            == string_spec(cs@.subrange(i as int, cs@.len() as int))),
    decreases cs@.len() - i, 5int,
{
    let (mut left, mut j) = match parse_intersect(cs, i) {
        Ok(p) => p,
        Err(e) => return Err(e),
    };
    while j < cs.len() && cs[j] == '|'
        invariant
            i <= j <= cs@.len(),
            cs@.len() == i ==> j == i && *left == Regex::Epsilon,
            i < cs@.len() && plain_from(cs@, i as int) ==> j == cs@.len() && *left == string_spec(
                cs@.subrange(i as int, cs@.len() as int),
            ),
        decreases cs@.len() - j,
    {
        match parse_intersect(cs, j + 1) {
            Ok((right, k)) => {
                left = Regex::union(left, right);
                j = k;
            },
            Err(e) => return Err(e),
        }
    }
    Ok((left, j))
}

/// Intersection: `a&b&...`.
fn parse_intersect(cs: &Vec<char>, i: usize) -> (r: Result<(Arc<Regex>, usize), ParseError>)
    requires
        i <= cs@.len(),
    ensures
        r matches Ok((_, j)) ==> i <= j <= cs@.len(),
        cs@.len() == i ==> (r matches Ok((x, j)) && j == i && *x == Regex::Epsilon),
        r is Err ==> has_opener(cs@),
        i < cs@.len() && plain_from(cs@, i as int) ==> (r matches Ok((x, j)) && j == cs@.len() && *x
            == string_spec(cs@.subrange(i as int, cs@.len() as int))),
    decreases cs@.len() - i, 4int,
{
    let (mut left, mut j) = match parse_concat(cs, i) {
        Ok(p) => p,
        Err(e) => return Err(e),
    };
    while j < cs.len() && cs[j] == '&'
        invariant
            i <= j <= cs@.len(),
            cs@.len() == i ==> j == i && *left == Regex::Epsilon,
            i < cs@.len() && plain_from(cs@, i as int) ==> j == cs@.len() && *left == string_spec(
                cs@.subrange(i as int, cs@.len() as int),
            ),
        decreases cs@.len() - j,
    {
        match parse_concat(cs, j + 1) {
            Ok((right, k)) => {
                left = Regex::intersect(left, right);
                j = k;
            },
            Err(e) => return Err(e),
        }
    }
    Ok((left, j))
}

/// A sequence of quantified atoms.
fn parse_concat(cs: &Vec<char>, i: usize) -> (r: Result<(Arc<Regex>, usize), ParseError>)
    requires
        i <= cs@.len(),
    ensures
        r matches Ok((_, j)) ==> i <= j <= cs@.len(),
        cs@.len() == i ==> (r matches Ok((x, j)) && j == i && *x == Regex::Epsilon),
        r is Err ==> has_opener(cs@),
        i < cs@.len() && plain_from(cs@, i as int) ==> (r matches Ok((x, j)) && j == cs@.len() && *x
            == string_spec(cs@.subrange(i as int, cs@.len() as int))),
    decreases cs@.len() - i, 3int,
{
    let mut result: Option<Arc<Regex>> = None;
    let mut j = i;
    while j < cs.len() && !(cs[j] == '|' || cs[j] == '&' || cs[j] == ')')
        invariant
            i <= j <= cs@.len(),
            j == i ==> result is None,
            plain_from(cs@, i as int) && j > i ==> (result matches Some(x) && *x == string_spec(
                cs@.subrange(i as int, j as int),
            )),
        decreases cs@.len() - j,
    {
        match parse_quantified(cs, j) {
            Ok((part, k)) => {
                let ghost prev = result;
                result = match result {
                    None => Some(part),
                    Some(acc) => Some(Regex::concat(acc, part)),
                };
                proof {
                    if plain_from(cs@, i as int) {
                        let sub = cs@.subrange(i as int, k as int);
                        assert(sub.drop_last() =~= cs@.subrange(i as int, j as int));
                        assert(sub.last() == cs@[j as int]);
                        if j == i {
                            assert(sub.len() == 1);
                        }
                    }
                }
                j = k;
            },
            Err(e) => return Err(e),
        }
    }
    match result {
        None => Ok((Arc::new(Regex::Epsilon), j)),
        Some(x) => Ok((x, j)),
    }
}

/// An atom followed by an optional `*`, `+` or `?`.
fn parse_quantified(cs: &Vec<char>, i: usize) -> (r: Result<(Arc<Regex>, usize), ParseError>)
    requires
        i < cs@.len(),
        !ends_term(cs@[i as int]),
    ensures
        r matches Ok((_, j)) ==> i < j <= cs@.len(),
        r is Err ==> has_opener(cs@),
        plain_from(cs@, i as int) ==> (r matches Ok((x, j)) && j == i + 1 && *x == Regex::Literal(cs@[i as int])),
    decreases cs@.len() - i, 2int,
{
    let (atom, j) = match parse_atom(cs, i) {
        Ok(p) => p,
        Err(e) => return Err(e),
    };
    if j < cs.len() && cs[j] == '*' {
        Ok((Regex::star(atom), j + 1))
    } else if j < cs.len() && cs[j] == '+' {
        Ok((Regex::plus(atom), j + 1))
    } else if j < cs.len() && cs[j] == '?' {
        Ok((Regex::optional(atom), j + 1))
    } else {
        Ok((atom, j))
    }
}

/// A single atom: a group, a complement, `.`, an anchor, a class, an
/// escaped or a plain character.
fn parse_atom(cs: &Vec<char>, i: usize) -> (r: Result<(Arc<Regex>, usize), ParseError>)
    requires
        i <= cs@.len(),
    ensures
        match r {
            Ok((_, j)) => i <= j <= cs@.len() && (i < cs@.len() && !ends_term(cs@[i as int])
                && cs@[i as int] != '*' && cs@[i as int] != '+' && cs@[i as int] != '?' ==> i < j),
            Err(_) => has_opener(cs@),
        },
        i < cs@.len() && !is_meta(cs@[i as int]) ==> (r matches Ok((x, j)) && j == i + 1 && *x == Regex::Literal(
            cs@[i as int],
        )),
    decreases cs@.len() - i, 1int,
{
    if i == cs.len() {
        return Ok((Arc::new(Regex::Epsilon), i));
    }
    let c = cs[i];
    if c == '(' {
        let (inner, j) = match parse_expr(cs, i + 1) {
            Ok(p) => p,
            Err(e) => return Err(e),
        };
        if j >= cs.len() || cs[j] != ')' {
            return Err(parse_error(cs, j, "Expected ')'"));
        }
        Ok((inner, j + 1))
    } else if c == '~' {
        let (inner, j) = match parse_atom(cs, i + 1) {
            Ok(p) => p,
            Err(e) => return Err(e),
        };
        Ok((Regex::negate(inner), j))
    } else if c == '.' {
        Ok((Arc::new(Regex::Any), i + 1))
    } else if c == '^' || c == '$' {
        Ok((Arc::new(Regex::Epsilon), i + 1))
    } else if c == '[' {
        parse_class(cs, i)
    } else if c == '\\' {
        if i + 1 < cs.len() {
            Ok((Regex::lit(cs[i + 1]), i + 2))
        } else {
            Err(parse_error(cs, i + 1, "Expected character after \\"))
        }
    } else if c == '|' || c == '&' || c == ')' || c == '*' || c == '+' || c == '?' {
        Ok((Arc::new(Regex::Epsilon), i))
    } else {
        Ok((Regex::lit(c), i + 1))
    }
}

/// A character class `[...]` or `[^...]`, with ranges `a-z`.
fn parse_class(cs: &Vec<char>, i: usize) -> (r: Result<(Arc<Regex>, usize), ParseError>)
    requires
        i < cs@.len(),
        cs@[i as int] == '[',
    ensures
        r matches Ok((_, j)) ==> i < j <= cs@.len(),
        r is Err ==> has_opener(cs@),
    decreases cs@.len() - i, 0int,
{
    let n = cs.len();
    let mut j = i + 1;
    let negated = j < cs.len() && cs[j] == '^';
    if negated {
        j = j + 1;
    }
    let mut ranges: Vec<(char, char)> = Vec::new();
    while j < cs.len() && cs[j] != ']'
        invariant
            i < j <= cs@.len(),
        decreases cs@.len() - j,
    {
        let c = cs[j];
        j = j + 1;
        if j < cs.len() && cs[j] == '-' {
            j = j + 1;
            if j < cs.len() {
                let end = cs[j];
                j = j + 1;
                if end != ']' {
                    ranges.push((c, end));
                } else {
                    ranges.push((c, c));
                }
            } else {
                ranges.push((c, c));
            }
        } else {
            ranges.push((c, c));
        }
    }
    if j >= cs.len() {
        return Err(parse_error(cs, j, "Expected ']'"));
    }
    let class = Arc::new(Regex::Class(ranges));
    if negated {
        Ok((Regex::negate(class), j + 1))
    } else {
        Ok((class, j + 1))
    }
}

/// Parses a pattern: literals, `.`, `*`, `+`, `?`, `|`, `&` (intersection),
/// `~` (complement), `^` and `$` (read as the empty string), groups and
/// classes. Parsing stops at an unmatched `)`.
pub fn parse(pattern: &str) -> (r: Result<Arc<Regex>, ParseError>)
    ensures
        pattern@.len() == 0 ==> (r matches Ok(x) && *x == Regex::Epsilon),
        r is Err ==> has_opener(pattern@),
        pattern@.len() > 0 && plain_from(pattern@, 0) ==> (r matches Ok(x) && *x == string_spec(pattern@)),
{
    let cs = chars_of(pattern);
    assert(cs@.subrange(0, cs@.len() as int) =~= cs@);
    match parse_expr(&cs, 0) {
        Ok((x, _)) => Ok(x),
        Err(e) => Err(e),
    }
}

} // verus!
