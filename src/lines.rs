//! Splitting text into lines, and finding call sites line by line.

use vstd::prelude::*;

use crate::scan::{find_seq, find_seq_from, slice_chars, trim, trim_chars};
use crate::signature::{call_end_from, call_expression, closes_call};
use crate::text::{chars_of, string_of};

verus! {

/// `l` without one trailing carriage return.
pub open spec fn strip_cr(l: Seq<char>) -> Seq<char> {
    if l.len() > 0 && l.last() == '\r' {
        l.drop_last()
    } else {
        l
    }
}

/// Lines finished after the first `n` characters, and the line in progress.
pub open spec fn line_state(s: Seq<char>, n: int) -> (Seq<Seq<char>>, Seq<char>)
    decreases n,
{
    if n <= 0 {
        (Seq::empty(), Seq::empty())
    } else {
        let (ls, cur) = line_state(s, n - 1);
        if s[n - 1] == '\n' {
            (ls.push(strip_cr(cur)), Seq::empty())
        } else {
            (ls, cur.push(s[n - 1]))
        }
    }
}

/// The lines of `s`: split at `\n`, a `\r` before it dropped, and no empty
/// line after a final `\n`.
pub open spec fn lines_of(s: Seq<char>) -> Seq<Seq<char>> {
    let (ls, cur) = line_state(s, s.len() as int);
    if cur.len() == 0 {
        ls
    } else {
        ls.push(cur)
    }
}

/// The lines of `v`.
pub fn split_lines(v: &Vec<char>) -> (r: Vec<Vec<char>>)
    ensures
        r@.map_values(|l: Vec<char>| l@) == lines_of(v@),
{
    let mut ls: Vec<Vec<char>> = Vec::new();
    let mut cur: Vec<char> = Vec::new();
    let mut i: usize = 0;
    while i < v.len()
        invariant
            i <= v@.len(),
            ls@.map_values(|l: Vec<char>| l@) == line_state(v@, i as int).0,
            cur@ == line_state(v@, i as int).1,
        decreases v@.len() - i,
    {
        if v[i] == '\n' {
            let ghost before = ls@.map_values(|l: Vec<char>| l@);
            if cur.len() > 0 && cur[cur.len() - 1] == '\r' {
                cur.pop();
            }
            ls.push(cur);
            cur = Vec::new();
            assert(ls@.map_values(|l: Vec<char>| l@) =~= before.push(strip_cr(line_state(v@, i as int).1)));
        } else {
            cur.push(v[i]);
        }
        i = i + 1;
    }
    if cur.len() > 0 {
        let ghost before = ls@.map_values(|l: Vec<char>| l@);
        ls.push(cur);
        assert(ls@.map_values(|l: Vec<char>| l@) =~= before.push(line_state(v@, v@.len() as int).1));
    }
    ls
}

/// The usage on one line: the first `symbol(` and the call expression it starts.
pub open spec fn usage_on_line(line: Seq<char>, symbol: Seq<char>) -> Option<Seq<char>> {
    match find_seq_from(line, symbol.push('('), 0) {
        Some(st) => call_expression(line.subrange(st, line.len() as int)),
        None => None,
    }
}

/// Usages on the first `n` lines: line index, call expression, trimmed line.
pub open spec fn usages_in(lines: Seq<Seq<char>>, symbol: Seq<char>, n: int) -> Seq<(int, Seq<char>, Seq<char>)>
    decreases n,
{
    if n <= 0 {
        Seq::empty()
    } else {
        let rest = usages_in(lines, symbol, n - 1);
        match usage_on_line(lines[n - 1], symbol) {
            Some(u) => rest.push((n - 1, u, trim(lines[n - 1]))),
            None => rest,
        }
    }
}

/// The usages of `symbol` in `code`, line by line.
pub open spec fn usages_of(code: Seq<char>, symbol: Seq<char>) -> Seq<(int, Seq<char>, Seq<char>)> {
    usages_in(lines_of(code), symbol, lines_of(code).len() as int)
}

/// Where the call starting at `v[st..]` ends, relative to `st`.
fn call_end_at(v: &Vec<char>, st: usize) -> (r: Option<usize>)
    requires
        st <= v@.len(),
    ensures
        match r {
            Some(k) => call_end_from(v@.subrange(st as int, v@.len() as int), 0) == Some(k as int)
                && st + k < v@.len(),
            None => call_end_from(v@.subrange(st as int, v@.len() as int), 0) is None,
        },
{
    let tail = slice_chars(v, st, v.len());
    let mut opens: usize = 0;
    let mut closes: usize = 0;
    let mut started = false;
    let mut i: usize = 0;
    while i < tail.len()
        invariant
            i <= tail@.len(),
            st <= v@.len(),
            tail@ == v@.subrange(st as int, v@.len() as int),
            opens + closes <= i,
            crate::signature::paren_state(tail@, i as int) == (opens - closes, started),
            call_end_from(tail@, 0) == call_end_from(tail@, i as int),
        decreases tail@.len() - i,
    {
        if tail[i] == '(' {
            opens = opens + 1;
            started = true;
        } else if tail[i] == ')' {
            closes = closes + 1;
            if started && opens == closes {
                assert(closes_call(tail@, i as int));
                assert(call_end_from(tail@, i as int) == Some(i as int));
                return Some(i);
            }
        }
        assert(!closes_call(tail@, i as int));
        i = i + 1;
    }
    None
}

/// Calls `symbol(...)` in `code`: for each line holding `symbol(`, the line
/// index, the call expression that starts there, and the trimmed line.
pub fn find_usages_in_code(code: &str, symbol: &str) -> (r: Vec<(usize, String, String)>)
    ensures
        r@.len() == usages_of(code@, symbol@).len(),
        forall|k: int|
            0 <= k < r@.len() ==> {
                let u = usages_of(code@, symbol@)[k];
                &&& (#[trigger] r@[k]).0 == u.0
                &&& r@[k].1@ == u.1
                &&& r@[k].2@ == u.2
            },
{
    let lines = split_lines(&chars_of(code));
    let mut needle = chars_of(symbol);
    needle.push('(');
    let ghost ls = lines@.map_values(|l: Vec<char>| l@);
    let mut r: Vec<(usize, String, String)> = Vec::new();
    let mut i: usize = 0;
    while i < lines.len()
        invariant
            i <= lines@.len(),
            ls == lines@.map_values(|l: Vec<char>| l@),
            ls == lines_of(code@),
            needle@ == symbol@.push('('),
            r@.len() == usages_in(ls, symbol@, i as int).len(),
            forall|k: int|
                0 <= k < r@.len() ==> {
                    let u = usages_in(ls, symbol@, i as int)[k];
                    &&& (#[trigger] r@[k]).0 == u.0
                    &&& r@[k].1@ == u.1
                    &&& r@[k].2@ == u.2
                },
        decreases lines@.len() - i,
    {
        let line = &lines[i];
        assert(ls[i as int] == line@);
        match find_seq(line, &needle, 0) {
            Some(st) => {
                match call_end_at(line, st) {
                    Some(k) => {
                        let ghost before = r@;
                        let usage = string_of(slice_chars(line, st, st + k + 1).as_slice());
                        let content = string_of(trim_chars(line).as_slice());
                        proof {
                            let tail = line@.subrange(st as int, line@.len() as int);
                            assert(tail.subrange(0, k + 1) =~= line@.subrange(st as int, st + k + 1));
                        }
                        r.push((i, usage, content));
                        assert forall|k2: int|
                            0 <= k2 < r@.len() implies {
                                let u = usages_in(ls, symbol@, i + 1)[k2];
                                &&& (#[trigger] r@[k2]).0 == u.0
                                &&& r@[k2].1@ == u.1
                                &&& r@[k2].2@ == u.2
                            } by {
                            if k2 < before.len() {
                                assert(r@[k2] == before[k2]);
                            }
                        }
                    },
                    None => {},
                }
            },
            None => {},
        }
        i = i + 1;
    }
    r
}


/// The decimal digit `d`.
pub open spec fn digit_char(d: nat) -> char {
    if d == 0 { '0' } else if d == 1 { '1' } else if d == 2 { '2' } else if d == 3 { '3' } else if d == 4 {
        '4'
    } else if d == 5 { '5' } else if d == 6 { '6' } else if d == 7 { '7' } else if d == 8 { '8' } else {
        '9'
    }
}

/// The decimal form of `n`.
pub open spec fn decimal(n: nat) -> Seq<char>
    decreases n,
{
    if n < 10 {
        seq![digit_char(n)]
    } else {
        decimal(n / 10).push(digit_char(n % 10))
    }
}

/// `s` right-aligned in a field of four characters.
pub open spec fn pad4(s: Seq<char>) -> Seq<char> {
    if s.len() < 4 {
        Seq::new((4 - s.len()) as nat, |i: int| ' ') + s
    } else {
        s
    }
}

/// One numbered context line: `>` marks the usage line, a space the others.
pub open spec fn numbered(mark: bool, n: nat, text: Seq<char>) -> Seq<char> {
    seq![if mark { '>' } else { ' ' }] + pad4(decimal(n)) + seq!['|', ' '] + text
}

/// The lines `line - size ..= line + size` of `content` (one-based, cut to
/// the file), numbered; none when `line` is not a line of the file.
pub open spec fn context_window(content: Seq<char>, line: int, size: int) -> Seq<Seq<char>> {
    let ls = lines_of(content);
    if line < 1 || line > ls.len() {
        Seq::empty()
    } else {
        let start = if line - size - 1 > 0 { line - size - 1 } else { 0 };
        let end = if line + size < ls.len() { line + size } else { ls.len() as int };
        Seq::new((end - start) as nat, |i: int| numbered(start + i + 1 == line, (start + i + 1) as nat, ls[start + i]))
    }
}

fn digit_of(d: usize) -> (c: char)
    requires
        d < 10,
    ensures
        c == digit_char(d as nat),
{
    if d == 0 { '0' } else if d == 1 { '1' } else if d == 2 { '2' } else if d == 3 { '3' } else if d == 4 {
        '4'
    } else if d == 5 { '5' } else if d == 6 { '6' } else if d == 7 { '7' } else if d == 8 { '8' } else {
        '9'
    }
}

/// The decimal form of `n`.
pub fn decimal_of(n: usize) -> (r: Vec<char>)
    ensures
        r@ == decimal(n as nat),
    decreases n,
{
    if n < 10 {
        vec![digit_of(n)]
    } else {
        let mut v = decimal_of(n / 10);
        v.push(digit_of(n % 10));
        v
    }
}

/// One numbered context line.
fn numbered_line(mark: bool, n: usize, text: &Vec<char>) -> (r: String)
    ensures
        r@ == numbered(mark, n as nat, text@),
{
    let d = decimal_of(n);
    let mut out: Vec<char> = vec![if mark { '>' } else { ' ' }];
    let mut k: usize = d.len();
    while k < 4
        invariant
            d.len() <= k <= 4 || (d.len() > 4 && k == d.len()),
            out@ == seq![if mark { '>' } else { ' ' }] + Seq::new((k - d@.len()) as nat, |i: int| ' '),
        decreases 4 - k,
    {
        out.push(' ');
        assert(out@ =~= seq![if mark { '>' } else { ' ' }] + Seq::new((k + 1 - d@.len()) as nat, |i: int| ' '));
        k = k + 1;
    }
    let ghost head = out@;
    let mut i: usize = 0;
    while i < d.len()
        invariant
            i <= d@.len(),
            out@ == head + d@.subrange(0, i as int),
        decreases d@.len() - i,
    {
        out.push(d[i]);
        i = i + 1;
    }
    out.push('|');
    out.push(' ');
    let ghost mid = out@;
    let mut j: usize = 0;
    while j < text.len()
        invariant
            j <= text@.len(),
            out@ == mid + text@.subrange(0, j as int),
        decreases text@.len() - j,
    {
        out.push(text[j]);
        j = j + 1;
    }
    proof {
        assert(d@.subrange(0, d@.len() as int) =~= d@);
        assert(text@.subrange(0, text@.len() as int) =~= text@);
        if d@.len() < 4 {
            assert(head =~= seq![if mark { '>' } else { ' ' }] + Seq::new((4 - d@.len()) as nat, |i: int| ' '));
        } else {
            assert(head =~= seq![if mark { '>' } else { ' ' }]);
        }
        assert(out@ =~= numbered(mark, n as nat, text@));
    }
    crate::text::string_of(out.as_slice())
}

/// The numbered lines around line `line` of a file's text: `size` lines
/// before and after, the usage line marked with `>`.
pub fn context_lines(content: &str, line: usize, size: usize) -> (r: Vec<String>)
    ensures
        r@.map_values(|l: String| l@) == context_window(content@, line as int, size as int),
{
    let ls = split_lines(&chars_of(content));
    let ghost lv = ls@.map_values(|l: Vec<char>| l@);
    let mut r: Vec<String> = Vec::new();
    if line == 0 || line > ls.len() {
        assert(r@.map_values(|l: String| l@) =~= context_window(content@, line as int, size as int));
        return r;
    }
    let start = if line > size { line - size - 1 } else { 0 };
    let end = if size < ls.len() - line { line + size } else { ls.len() };
    let ghost want = context_window(content@, line as int, size as int);
    assert(want.len() == end - start);
    let mut k = start;
    while k < end
        invariant
            start <= k <= end <= ls@.len(),
            1 <= line <= ls@.len(),
            lv == ls@.map_values(|l: Vec<char>| l@),
            lv == lines_of(content@),
            want == context_window(content@, line as int, size as int),
            want.len() == end - start,
            start == (if line - size - 1 > 0 { line - size - 1 } else { 0 }),
            r@.len() == k - start,
            forall|m: int| 0 <= m < k - start ==> (#[trigger] r@[m])@ == want[m],
        decreases end - k,
    {
        assert(lv[k as int] == ls@[k as int]@);
        r.push(numbered_line(k + 1 == line, k + 1, &ls[k]));
        k = k + 1;
    }
    assert(r@.map_values(|l: String| l@) =~= want);
    r
}

} // verus!
