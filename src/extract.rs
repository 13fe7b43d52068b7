//! Symbol, import and call extraction from a concrete syntax tree.
//!
//! The tree is held as plain values: each node has its kind, the field name
//! under which it hangs from its parent, its row range, its source text and
//! its children. A parser outside the library fills it in.

use vstd::prelude::*;

use crate::graph::{ExtractedCall, ExtractedImport, ExtractedSymbol, FileExtractions, NodeKind};
use crate::language::{bounded_snippet, SupportedLanguage};
use crate::scan::{find_seq, is_space_char, rfind_char, slice_chars, trim_chars};
use crate::text::{chars_of, eq_seq, string_of};

verus! {

/// One node of a concrete syntax tree.
#[derive(Debug)]
pub struct SyntaxNode {
    pub kind: String,
    /// The field of the parent under which this node hangs, if any.
    pub field: Option<String>,
    /// Zero-based first row.
    pub start_row: usize,
    /// Zero-based last row.
    pub end_row: usize,
    /// The node's source text.
    pub text: String,
    pub children: Vec<SyntaxNode>,
}

/// Why a file could not be extracted.
#[derive(Clone, Debug)]
pub enum ExtractError {
    /// The path's extension names no supported language.
    UnsupportedLanguage(String),
}

/// What `char::is_uppercase` says of a character.
pub uninterp spec fn upper_case(c: char) -> bool;

/// Relies on `char::is_uppercase`: whether the character is upper case.
#[verifier::external_body]
fn is_upper(c: char) -> (b: bool)
    ensures
        b == upper_case(c),
{
    c.is_uppercase()
}

/// Node kinds that the extractor acts on, per language.
pub open spec fn acts_on(lang: SupportedLanguage, k: Seq<char>) -> bool {
    match lang {
        SupportedLanguage::Rust => k == "function_item"@ || k == "struct_item"@ || k == "enum_item"@
            || k == "trait_item"@ || k == "impl_item"@ || k == "const_item"@ || k == "static_item"@
            || k == "type_item"@ || k == "mod_item"@ || k == "use_declaration"@ || k
            == "call_expression"@,
        SupportedLanguage::Python => k == "function_definition"@ || k == "class_definition"@ || k
            == "import_statement"@ || k == "import_from_statement"@ || k == "call"@,
        SupportedLanguage::JavaScript | SupportedLanguage::Tsx => js_kind(k),
        SupportedLanguage::TypeScript => js_kind(k) || k == "interface_declaration"@ || k
            == "type_alias_declaration"@ || k == "enum_declaration"@,
        SupportedLanguage::Go => k == "function_declaration"@ || k == "method_declaration"@ || k
            == "import_declaration"@ || k == "call_expression"@,
        SupportedLanguage::Java => k == "method_declaration"@ || k == "class_declaration"@ || k
            == "interface_declaration"@ || k == "import_declaration"@ || k == "method_invocation"@,
        SupportedLanguage::CSharp => k == "method_declaration"@ || k == "class_declaration"@ || k
            == "interface_declaration"@ || k == "using_directive"@ || k == "invocation_expression"@,
        SupportedLanguage::Ruby => k == "method"@ || k == "class"@ || k == "module"@ || k == "call"@
            || k == "method_call"@,
        SupportedLanguage::Cpp | SupportedLanguage::Swift => k == "function_definition"@ || k
            == "class_specifier"@ || k == "preproc_include"@ || k == "call_expression"@,
    }
}

pub open spec fn js_kind(k: Seq<char>) -> bool {
    k == "function_declaration"@ || k == "class_declaration"@ || k == "method_definition"@ || k
        == "lexical_declaration"@ || k == "variable_declaration"@ || k == "import_statement"@ || k
        == "call_expression"@
}

/// No node of the tree has a kind the extractor acts on.
pub open spec fn quiet(n: SyntaxNode, lang: SupportedLanguage) -> bool
    decreases n,
{
    !acts_on(lang, n.kind@) && forall|i: int|
        0 <= i < n.children@.len() ==> quiet(#[trigger] n.children@[i], lang)
}

/// A symbol record is sane: lines from one, in order, not a file, and its
/// snippet is the bounded snippet of some source text.
pub open spec fn sane(s: ExtractedSymbol) -> bool {
    &&& 1 <= s.line_start <= s.line_end
    &&& s.kind != NodeKind::File
    &&& exists|t: Seq<char>| #[trigger] crate::language::snippet_of(t) == s.code_snippet@
}

/// The output only grew, and every added symbol is sane.
pub open spec fn grew(
    s1: Seq<ExtractedSymbol>, i1: Seq<ExtractedImport>, c1: Seq<ExtractedCall>,
    s0: Seq<ExtractedSymbol>, i0: Seq<ExtractedImport>, c0: Seq<ExtractedCall>,
) -> bool {
    &&& s0.len() <= s1.len() && s1.subrange(0, s0.len() as int) == s0
    &&& i0.len() <= i1.len() && i1.subrange(0, i0.len() as int) == i0
    &&& c0.len() <= c1.len() && c1.subrange(0, c0.len() as int) == c0
    &&& forall|k: int| s0.len() <= k < s1.len() ==> #[trigger] sane(s1[k])
}

/// One-based line of a zero-based row.
fn line_of(row: usize) -> (l: usize)
    ensures
        l >= 1,
        l == line_of_row(row),
{
    if row < usize::MAX {
        row + 1
    } else {
        usize::MAX
    }
}

fn is_kind(n: &SyntaxNode, lit: &str) -> (b: bool)
    ensures
        b == (n.kind@ == lit@),
{
    eq_seq(&chars_of(n.kind.as_str()), &chars_of(lit))
}

/// The text of the first child from position `i` on that hangs under field `f`.
pub open spec fn field_text_from(cs: Seq<SyntaxNode>, f: Seq<char>, i: int) -> Option<Seq<char>>
    decreases cs.len() - i,
{
    if i < 0 || i >= cs.len() {
        None
    } else if cs[i].field matches Some(x) && x@ == f {
        Some(cs[i].text@)
    } else {
        field_text_from(cs, f, i + 1)
    }
}

/// The text of the first child of `n` under field `f`.
pub open spec fn field_text_of(n: SyntaxNode, f: Seq<char>) -> Option<Seq<char>> {
    field_text_from(n.children@, f, 0)
}

/// The text of the first child under field `field`.
fn field_text(n: &SyntaxNode, field: &str) -> (r: Option<String>)
    ensures
        match r {
            Some(t) => field_text_of(*n, field@) == Some(t@),
            None => field_text_of(*n, field@) is None,
        },
{
    let f = chars_of(field);
    let mut i: usize = 0;
    while i < n.children.len()
        invariant
            i <= n.children@.len(),
            f@ == field@,
            field_text_of(*n, field@) == field_text_from(n.children@, field@, i as int),
        decreases n.children@.len() - i,
    {
        match &n.children[i].field {
            Some(name) => {
                if eq_seq(&chars_of(name.as_str()), &f) {
                    return Some(n.children[i].text.clone());
                }
            },
            None => {},
        }
        i = i + 1;
    }
    None
}

/// The kind of the first child from position `i` on that hangs under field `f`.
pub open spec fn field_kind_from(cs: Seq<SyntaxNode>, f: Seq<char>, i: int) -> Option<Seq<char>>
    decreases cs.len() - i,
{
    if i < 0 || i >= cs.len() {
        None
    } else if cs[i].field matches Some(x) && x@ == f {
        Some(cs[i].kind@)
    } else {
        field_kind_from(cs, f, i + 1)
    }
}

/// The kind of the first child under field `field`.
fn field_kind(n: &SyntaxNode, field: &str) -> (r: Option<String>)
    ensures
        match r {
            Some(t) => field_kind_from(n.children@, field@, 0) == Some(t@),
            None => field_kind_from(n.children@, field@, 0) is None,
        },
{
    let f = chars_of(field);
    let mut i: usize = 0;
    while i < n.children.len()
        invariant
            i <= n.children@.len(),
            f@ == field@,
            field_kind_from(n.children@, field@, 0) == field_kind_from(n.children@, field@, i as int),
        decreases n.children@.len() - i,
    {
        match &n.children[i].field {
            Some(name) => {
                if eq_seq(&chars_of(name.as_str()), &f) {
                    return Some(n.children[i].kind.clone());
                }
            },
            None => {},
        }
        i = i + 1;
    }
    None
}

/// A symbol record for node `n`.
fn symbol_for(n: &SyntaxNode, name: String, kind: NodeKind, parent: Option<String>) -> (s: ExtractedSymbol)
    requires
        kind != NodeKind::File,
    ensures
        sane(s),
        s.name == name,
        s.kind == kind,
        s.code_snippet@ == crate::language::snippet_of(n.text@),
        s.parent == parent,
        s.line_start == line_of_row(n.start_row),
{
    let line_start = line_of(n.start_row);
    let end = line_of(n.end_row);
    let line_end = if end < line_start {
        line_start
    } else {
        end
    };
    ExtractedSymbol {
        name,
        kind,
        line_start,
        line_end,
        code_snippet: bounded_snippet(n.text.as_str()),
        parent,
    }
}

fn string_from(v: &Vec<char>) -> (s: String)
    ensures
        s@ == v@,
{
    string_of(v.as_slice())
}

/// Text after the last `.` or `:` (or all of it), trimmed; `None` if empty.
/// The short name of a call target: the trimmed text after its last `.`
/// (or `:` too, with `colons`), `None` when that is empty.
pub open spec fn short_name(t: Seq<char>, colons: bool) -> Option<Seq<char>> {
    let dot = crate::scan::rfind_char_before(t, '.', t.len() as int);
    let colon = if colons {
        crate::scan::rfind_char_before(t, ':', t.len() as int)
    } else {
        None
    };
    let start = match (dot, colon) {
        (Some(a), Some(b)) => if a > b {
            a + 1
        } else {
            b + 1
        },
        (Some(a), None) => a + 1,
        (None, Some(b)) => b + 1,
        (None, None) => 0,
    };
    let nm = crate::scan::trim(t.subrange(start, t.len() as int));
    if nm.len() == 0 {
        None
    } else {
        Some(nm)
    }
}

/// For a node kind that is a call in the language, whether `::` separates
/// path segments of its target (`Some(true)` or `Some(false)`); `None` for
/// other kinds.
pub open spec fn call_colons(lang: SupportedLanguage, k: Seq<char>) -> Option<bool> {
    match lang {
        SupportedLanguage::Python => if k == "call"@ {
            Some(false)
        } else {
            None
        },
        SupportedLanguage::Java => if k == "method_invocation"@ {
            Some(true)
        } else {
            None
        },
        SupportedLanguage::CSharp => if k == "invocation_expression"@ {
            Some(true)
        } else {
            None
        },
        SupportedLanguage::Ruby => if k == "call"@ || k == "method_call"@ {
            Some(true)
        } else {
            None
        },
        _ => if k == "call_expression"@ {
            Some(true)
        } else {
            None
        },
    }
}

/// The callee a node records: the short name of its `function` field, for
/// a call node that has one.
pub open spec fn expected_call(lang: SupportedLanguage, n: SyntaxNode) -> Option<Seq<char>> {
    match call_colons(lang, n.kind@) {
        Some(colons) => match field_text_of(n, "function"@) {
            Some(f) => short_name(f, colons),
            None => None,
        },
        None => None,
    }
}

fn short_call_name(text: &String, colons: bool) -> (r: Option<String>)
    ensures
        match r {
            Some(x) => short_name(text@, colons) == Some(x@),
            None => short_name(text@, colons) is None,
        },
{
    let t = chars_of(text.as_str());
    let dot = rfind_char(&t, '.', t.len());
    let colon = if colons {
        rfind_char(&t, ':', t.len())
    } else {
        None
    };
    let start = match (dot, colon) {
        (Some(a), Some(b)) => if a > b {
            a + 1
        } else {
            b + 1
        },
        (Some(a), None) => a + 1,
        (None, Some(b)) => b + 1,
        (None, None) => 0,
    };
    let name = trim_chars(&slice_chars(&t, start, t.len()));
    if name.len() == 0 {
        None
    } else {
        Some(string_from(&name))
    }
}

/// `s` with every leading copy of `p` removed.
/// `s` with every leading copy of `p` removed.
pub open spec fn strip_all_prefix(s: Seq<char>, p: Seq<char>) -> Seq<char>
    decreases s.len(),
{
    if p.len() > 0 && crate::text::has_prefix(s, p) {
        strip_all_prefix(s.subrange(p.len() as int, s.len() as int), p)
    } else {
        s
    }
}

/// `s` with every trailing `c` removed.
pub open spec fn strip_all_suffix(s: Seq<char>, c: char) -> Seq<char>
    decreases s.len(),
{
    if s.len() > 0 && s.last() == c {
        strip_all_suffix(s.drop_last(), c)
    } else {
        s
    }
}

fn strip_prefix_all(s: &Vec<char>, p: &Vec<char>) -> (r: Vec<char>)
    ensures
        r@ == strip_all_prefix(s@, p@),
{
    if p.len() == 0 {
        assert(s@.subrange(0, s@.len() as int) =~= s@);
        return slice_chars(s, 0, s.len());
    }
    let mut i: usize = 0;
    assert(s@.subrange(0, s@.len() as int) =~= s@);
    while i <= s.len() && p.len() <= s.len() - i && crate::text::matches_at(s, p, i)
        invariant
            i <= s@.len(),
            p@.len() > 0,
            strip_all_prefix(s@, p@) == strip_all_prefix(s@.subrange(i as int, s@.len() as int), p@),
        decreases s@.len() - i,
    {
        proof {
            let t = s@.subrange(i as int, s@.len() as int);
            assert(t.subrange(0, p@.len() as int) =~= s@.subrange(i as int, i + p@.len()));
            assert(t.subrange(p@.len() as int, t.len() as int) =~= s@.subrange(i + p@.len(), s@.len() as int));
        }
        i = i + p.len();
    }
    proof {
        let t = s@.subrange(i as int, s@.len() as int);
        if p@.len() <= t.len() && crate::text::has_prefix(t, p@) {
            assert(t.subrange(0, p@.len() as int) =~= s@.subrange(i as int, i + p@.len()));
            assert(crate::text::occurs_at(s@, p@, i as int));
        }
    }
    slice_chars(s, i, s.len())
}

/// `s` with every trailing copy of `c` removed.
fn strip_suffix_char(s: &Vec<char>, c: char) -> (r: Vec<char>)
    ensures
        r@ == strip_all_suffix(s@, c),
{
    let mut e = s.len();
    assert(s@.subrange(0, s@.len() as int) =~= s@);
    while e > 0 && s[e - 1] == c
        invariant
            e <= s@.len(),
            strip_all_suffix(s@, c) == strip_all_suffix(s@.subrange(0, e as int), c),
        decreases e,
    {
        assert(s@.subrange(0, e as int).drop_last() =~= s@.subrange(0, e - 1));
        e = e - 1;
    }
    slice_chars(s, 0, e)
}

/// The whitespace-separated words of `s`.
fn words(s: &Vec<char>) -> (r: Vec<Vec<char>>) {
    let mut r: Vec<Vec<char>> = Vec::new();
    let mut cur: Vec<char> = Vec::new();
    let mut i: usize = 0;
    while i < s.len()
        invariant
            i <= s@.len(),
        decreases s@.len() - i,
    {
        if is_space_char(s[i]) {
            if cur.len() > 0 {
                r.push(cur);
                cur = Vec::new();
            }
        } else {
            cur.push(s[i]);
        }
        i = i + 1;
    }
    if cur.len() > 0 {
        r.push(cur);
    }
    r
}

/// The type an `impl` block is for: its `type` field, else read from its text.
fn rust_impl_name(n: &SyntaxNode) -> (r: Option<String>)
    ensures
        field_text_of(*n, "type"@) matches Some(t) ==> r matches Some(x) && x@ == t,
{
    match field_text(n, "type") {
        Some(t) => return Some(t),
        None => {},
    }
    let parts = words(&chars_of(n.text.as_str()));
    if parts.len() < 2 {
        return None;
    }
    let for_kw = chars_of("for");
    let mut i: usize = 0;
    while i < parts.len()
        invariant
            i <= parts@.len(),
            field_text_of(*n, "type"@) is None,
        decreases parts@.len() - i,
    {
        if eq_seq(&parts[i], &for_kw) {
            if i + 1 < parts.len() {
                let t = trim_chars(&strip_suffix_char(&parts[i + 1], '{'));
                return Some(string_from(&t));
            }
            return None;
        }
        i = i + 1;
    }
    let t = strip_suffix_char(&strip_suffix_char(&parts[1], '{'), '<');
    Some(string_from(&t))
}

/// Splits at `,`, trims, and keeps the non-empty pieces.
fn comma_list(s: &Vec<char>, drop_alias: bool) -> (r: Vec<String>) {
    let as_kw = chars_of(" as ");
    let mut r: Vec<String> = Vec::new();
    let mut start: usize = 0;
    let mut i: usize = 0;
    while i <= s.len()
        invariant
            start <= i,
            i <= s@.len() + 1,
            start <= s@.len(),
        decreases s@.len() + 1 - i,
    {
        if i == s.len() || s[i] == ',' {
            let mut piece = slice_chars(s, start, i);
            if drop_alias {
                match find_seq(&piece, &as_kw, 0) {
                    Some(a) => {
                        piece = slice_chars(&piece, 0, a);
                    },
                    None => {},
                }
            }
            let t = trim_chars(&piece);
            if t.len() > 0 {
                r.push(string_from(&t));
            }
            if i == s.len() {
                return r;
            }
            start = i + 1;
        }
        i = i + 1;
    }
    r
}

/// A JavaScript or TypeScript import: the module after the last `from`
/// (quotes and `;` removed), and the names between braces, aliases dropped.
fn js_import(n: &SyntaxNode, imports: &mut Vec<ExtractedImport>)
    ensures
        final(imports)@.len() >= old(imports)@.len(),
        final(imports)@.subrange(0, old(imports)@.len() as int) == old(imports)@,
{
    let text = chars_of(n.text.as_str());
    let from_kw = chars_of("from");
    let mut after_from: usize = 0;
    let mut k: usize = 0;
    while k < text.len()
        invariant
            k <= text@.len(),
            after_from <= text@.len(),
        decreases text@.len() - k,
    {
        if crate::text::matches_at(&text, &from_kw, k) {
            after_from = k + from_kw.len();
        }
        k = k + 1;
    }
    let tail = slice_chars(&text, after_from, text.len());
    let mut s: usize = 0;
    let mut e = tail.len();
    while s < e && (tail[s] == '\'' || tail[s] == '"' || tail[s] == ';' || is_space_char(tail[s]))
        invariant
            s <= e <= tail@.len(),
        decreases e - s,
    {
        s = s + 1;
    }
    while e > s && (tail[e - 1] == '\'' || tail[e - 1] == '"' || tail[e - 1] == ';' || is_space_char(tail[e - 1]))
        invariant
            s <= e <= tail@.len(),
        decreases e - s,
    {
        e = e - 1;
    }
    let path = slice_chars(&tail, s, e);
    let symbols = match crate::scan::find_char(&text, '{', 0) {
        Some(o) => {
            let inner_end = match crate::scan::find_char(&text, '}', o + 1) {
                Some(c) => c,
                None => text.len(),
            };
            comma_list(&slice_chars(&text, o + 1, inner_end), true)
        },
        None => Vec::new(),
    };
    if path.len() > 0 {
        imports.push(ExtractedImport { path: string_from(&path), symbols, line: line_of(n.start_row) });
    }
}

/// Adds an import whose path is the node text after stripping.
fn push_import(imports: &mut Vec<ExtractedImport>, path: Vec<char>, symbols: Vec<String>, row: usize)
    ensures
        final(imports)@.len() == old(imports)@.len() + 1,
        final(imports)@.subrange(0, old(imports)@.len() as int) == old(imports)@,
        final(imports)@.last().path@ == path@,
        final(imports)@.last().symbols == symbols,
        final(imports)@.last().line == line_of_row(row),
{
    imports.push(ExtractedImport { path: string_from(&path), symbols, line: line_of(row) });
    assert(imports@.subrange(0, old(imports)@.len() as int) =~= old(imports)@);
}

/// Adds a call from the current scope, if there is one.
fn push_call(calls: &mut Vec<ExtractedCall>, callee: Option<String>, scope: &Option<String>, row: usize)
    ensures
        final(calls)@.len() >= old(calls)@.len(),
        final(calls)@.subrange(0, old(calls)@.len() as int) == old(calls)@,
        scope is None ==> final(calls)@ == old(calls)@,
        forall|k: int| old(calls)@.len() <= k < final(calls)@.len() ==> Some(#[trigger] final(calls)@[k].caller) == *scope,
        match (callee, *scope) {
            (Some(c), Some(sc)) => final(calls)@ == old(calls)@.push(ExtractedCall { caller: sc, callee: c, line: line_of_row(row) }),
            _ => final(calls)@ == old(calls)@,
        },
{
    match (callee, scope) {
        (Some(c), Some(s)) => {
            calls.push(ExtractedCall { caller: s.clone(), callee: c, line: line_of(row) });
            assert(calls@.subrange(0, old(calls)@.len() as int) =~= old(calls)@);
        },
        _ => {
            assert(calls@.subrange(0, old(calls)@.len() as int) =~= old(calls)@);
        },
    }
}

/// Adds a symbol.
fn push_symbol(symbols: &mut Vec<ExtractedSymbol>, s: ExtractedSymbol)
    requires
        sane(s),
    ensures
        final(symbols)@ == old(symbols)@.push(s),
{
    symbols.push(s);
}

/// Python `from X import a, b`: `X`, and the names after `import`.
fn python_from_import(n: &SyntaxNode, imports: &mut Vec<ExtractedImport>)
    ensures
        final(imports)@.len() == old(imports)@.len() + 1,
        final(imports)@.subrange(0, old(imports)@.len() as int) == old(imports)@,
        final(imports)@.last().path@ == from_import_path(n.text@),
        final(imports)@.last().line == line_of_row(n.start_row),
{
    let text = chars_of(n.text.as_str());
    let import_kw = chars_of("import");
    let text_len = text.len();
    let (head, names) = match find_seq(&text, &import_kw, 0) {
        Some(a) => {
            let rest_start = a + import_kw.len();
            let rest_end = match find_seq(&text, &import_kw, rest_start) {
                Some(b) => b,
                None => text.len(),
            };
            let names = if rest_start <= rest_end {
                comma_list(&slice_chars(&text, rest_start, rest_end), false)
            } else {
                Vec::new()
            };
            (slice_chars(&text, 0, a), names)
        },
        None => {
            assert(text@.subrange(0, text@.len() as int) =~= text@);
            (slice_chars(&text, 0, text.len()), Vec::new())
        },
    };
    assert(head@ == match crate::scan::find_seq_from(n.text@, "import"@, 0) {
        Some(a) => n.text@.subrange(0, a),
        None => n.text@,
    });
    let path = trim_chars(&strip_prefix_all(&head, &chars_of("from ")));
    push_import(imports, path, names, n.start_row);
}

/// The module of a Python `from X import ...`: the text before the first
/// `import`, without leading `from `, trimmed.
pub open spec fn from_import_path(t: Seq<char>) -> Seq<char> {
    let head = match crate::scan::find_seq_from(t, "import"@, 0) {
        Some(a) => t.subrange(0, a),
        None => t,
    };
    crate::scan::trim(strip_all_prefix(head, "from "@))
}

/// The import a node records, when its path is fixed by its text: path and
/// whether it comes with no imported names.
pub open spec fn expected_import(lang: SupportedLanguage, n: SyntaxNode) -> Option<(Seq<char>, bool)> {
    let k = n.kind@;
    let t = n.text@;
    match lang {
        SupportedLanguage::Rust => if k == "use_declaration"@ {
            Some((crate::scan::trim(strip_all_suffix(strip_all_prefix(t, "use "@), ';')), true))
        } else {
            None
        },
        SupportedLanguage::Python => if k == "import_statement"@ {
            Some((crate::scan::trim(strip_all_prefix(t, "import "@)), true))
        } else if k == "import_from_statement"@ {
            Some((from_import_path(t), false))
        } else {
            None
        },
        SupportedLanguage::JavaScript | SupportedLanguage::Tsx | SupportedLanguage::TypeScript => None,
        _ => if generic_import_kind(lang, k) {
            Some((crate::scan::trim(t), true))
        } else {
            None
        },
    }
}

/// For the languages read generically: the node kinds that are imports.
pub open spec fn generic_import_kind(lang: SupportedLanguage, k: Seq<char>) -> bool {
    match lang {
        SupportedLanguage::Go | SupportedLanguage::Java => k == "import_declaration"@,
        SupportedLanguage::CSharp => k == "using_directive"@,
        SupportedLanguage::Ruby => k == "call"@,
        SupportedLanguage::Cpp | SupportedLanguage::Swift => k == "preproc_include"@,
        _ => false,
    }
}

/// The import a node records is in `out`, with its path and first line.
pub open spec fn import_covered(out: Seq<ExtractedImport>, n: SyntaxNode, lang: SupportedLanguage) -> bool {
    match expected_import(lang, n) {
        Some((p, bare)) => exists|m: int|
            0 <= m < out.len() && (#[trigger] out[m]).path@ == p && out[m].line == line_of_row(n.start_row)
                && (bare ==> out[m].symbols@.len() == 0),
        None => true,
    }
}

/// JavaScript `const f = () => ...` and friends: one symbol per declarator
/// with a name and a value.
/// Every character is upper case or `_`.
pub open spec fn all_caps(t: Seq<char>) -> bool {
    forall|j: int| 0 <= j < t.len() ==> upper_case(#[trigger] t[j]) || t[j] == '_'
}

/// The symbol a JavaScript variable declarator defines: its name, and
/// Function for a function value, Constant for an all-caps name, Variable
/// otherwise; `None` without a name or a value.
pub open spec fn declared_symbol(d: SyntaxNode) -> Option<(Seq<char>, NodeKind)> {
    if d.kind@ == "variable_declarator"@ {
        match (field_text_of(d, "name"@), field_kind_from(d.children@, "value"@, 0)) {
            (Some(t), Some(vk)) => Some(
                (
                    t,
                    if vk == "arrow_function"@ || vk == "function"@ {
                        NodeKind::Function
                    } else if all_caps(t) {
                        NodeKind::Constant
                    } else {
                        NodeKind::Variable
                    },
                ),
            ),
            _ => None,
        }
    } else {
        None
    }
}

/// Every declarator child of `n` has its symbol in `out`.
pub open spec fn vars_declared(n: SyntaxNode, out: Seq<ExtractedSymbol>) -> bool {
    forall|i: int|
        0 <= i < n.children@.len() ==> match declared_symbol(#[trigger] n.children@[i]) {
            Some((t, kd)) => exists|m: int| 0 <= m < out.len() && (#[trigger] out[m]).name@ == t && out[m].kind == kd,
            None => true,
        }
}

fn js_variables(
    n: &SyntaxNode,
    scope: &Option<String>,
    symbols: &mut Vec<ExtractedSymbol>,
)
    ensures
        final(symbols)@.len() >= old(symbols)@.len(),
        final(symbols)@.subrange(0, old(symbols)@.len() as int) == old(symbols)@,
        forall|k: int| old(symbols)@.len() <= k < final(symbols)@.len() ==> #[trigger] sane(final(symbols)@[k]),
        vars_declared(*n, final(symbols)@),
{
    proof {
        reveal_strlit("variable_declarator");
        reveal_strlit("arrow_function");
        reveal_strlit("function");
    }
    let mut i: usize = 0;
    while i < n.children.len()
        invariant
            i <= n.children@.len(),
            symbols@.len() >= old(symbols)@.len(),
            symbols@.subrange(0, old(symbols)@.len() as int) == old(symbols)@,
            forall|k: int| old(symbols)@.len() <= k < symbols@.len() ==> #[trigger] sane(symbols@[k]),
            forall|ii: int|
                0 <= ii < i ==> match declared_symbol(#[trigger] n.children@[ii]) {
                    Some((t, kd)) => exists|m: int| 0 <= m < symbols@.len() && (#[trigger] symbols@[m]).name@ == t && symbols@[m].kind == kd,
                    None => true,
                },
        decreases n.children@.len() - i,
    {
        let ghost entering = symbols@;
        let d = &n.children[i];
        if is_kind(d, "variable_declarator") {
            match (field_text(d, "name"), field_kind(d, "value")) {
                (Some(name), Some(vk)) => {
                    let vkc = chars_of(vk.as_str());
                    let kind = if eq_seq(&vkc, &chars_of("arrow_function")) || eq_seq(&vkc, &chars_of("function")) {
                        NodeKind::Function
                    } else {
                        let nc = chars_of(name.as_str());
                        let mut all_upper = true;
                        let mut j: usize = 0;
                        while j < nc.len()
                            invariant
                                j <= nc@.len(),
                                all_upper == forall|jj: int| 0 <= jj < j ==> upper_case(#[trigger] nc@[jj]) || nc@[jj] == '_',
                            decreases nc@.len() - j,
                        {
                            if !(is_upper(nc[j]) || nc[j] == '_') {
                                all_upper = false;
                            }
                            j = j + 1;
                        }
                        if all_upper {
                            NodeKind::Constant
                        } else {
                            NodeKind::Variable
                        }
                    };
                    let s = symbol_for(n, name, kind, scope.clone());
                    let ghost before = symbols@;
                    push_symbol(symbols, s);
                    assert(symbols@.subrange(0, old(symbols)@.len() as int) =~= before.subrange(0, old(symbols)@.len() as int));
                    assert(symbols@[symbols@.len() - 1] == s);
                },
                _ => {},
            }
        }
        proof {
            assert forall|ii: int|
                0 <= ii < i + 1 implies match declared_symbol(#[trigger] n.children@[ii]) {
                    Some((t, kd)) => exists|m: int| 0 <= m < symbols@.len() && (#[trigger] symbols@[m]).name@ == t && symbols@[m].kind == kd,
                    None => true,
                } by {
                if ii < i {
                    if let Some((t, kd)) = declared_symbol(n.children@[ii]) {
                        let m = choose|m: int| 0 <= m < entering.len() && (#[trigger] entering[m]).name@ == t && entering[m].kind == kd;
                        assert(symbols@[m] == symbols@.subrange(0, entering.len() as int)[m]);
                    }
                }
            }
        }
        i = i + 1;
    }
}


/// One-based line of a zero-based row (the last line for the last row).
pub open spec fn line_of_row(row: usize) -> usize {
    if row < usize::MAX {
        (row + 1) as usize
    } else {
        usize::MAX
    }
}

/// `s1` is `s0` plus, if node `n` has a `name` field, one symbol of that
/// name, of kind `kind`, with parent `parent`, starting on the node's first
/// line, with the bounded snippet of the node's text.
pub open spec fn emits_named(
    n: SyntaxNode,
    s0: Seq<ExtractedSymbol>,
    s1: Seq<ExtractedSymbol>,
    kind: NodeKind,
    parent: Option<String>,
) -> bool {
    match field_text_of(n, "name"@) {
        Some(t) => {
            &&& s1.len() == s0.len() + 1
            &&& s1.subrange(0, s0.len() as int) == s0
            &&& s1.last().name@ == t
            &&& s1.last().kind == kind
            &&& s1.last().parent == parent
            &&& s1.last().line_start == line_of_row(n.start_row)
            &&& s1.last().code_snippet@ == crate::language::snippet_of(n.text@)
        },
        None => s1 == s0,
    }
}

/// The symbol named by field `name` of `n`, if it has one.
fn named_symbol(
    n: &SyntaxNode,
    kind: NodeKind,
    parent: Option<String>,
    symbols: &mut Vec<ExtractedSymbol>,
)
    requires
        kind != NodeKind::File,
    ensures
        final(symbols)@.len() >= old(symbols)@.len(),
        final(symbols)@.subrange(0, old(symbols)@.len() as int) == old(symbols)@,
        forall|k: int| old(symbols)@.len() <= k < final(symbols)@.len() ==> #[trigger] sane(final(symbols)@[k]),
        emits_named(*n, old(symbols)@, final(symbols)@, kind, parent),
{
    match field_text(n, "name") {
        Some(name) => {
            push_symbol(symbols, symbol_for(n, name, kind, parent));
            assert(symbols@.subrange(0, old(symbols)@.len() as int) =~= old(symbols)@);
        },
        None => {
            assert(symbols@.subrange(0, old(symbols)@.len() as int) =~= old(symbols)@);
        },
    }
}

/// Function or method, by whether a scope encloses it.
pub open spec fn function_or_method(scope: Option<String>) -> NodeKind {
    if scope is Some {
        NodeKind::Method
    } else {
        NodeKind::Function
    }
}

/// A Rust function is a method exactly when an `impl` block encloses it.
pub open spec fn rust_function_kind(in_impl: bool) -> NodeKind {
    if in_impl {
        NodeKind::Method
    } else {
        NodeKind::Function
    }
}

/// A copy of the current scope.
fn copy_scope(scope: &Option<String>) -> (r: Option<String>)
    ensures
        r == *scope,
{
    match scope {
        Some(s) => Some(s.clone()),
        None => None,
    }
}

/// What a node of a symbol-defining kind adds: one symbol named by its
/// `name` field, of the kind and parent the language gives it.
pub open spec fn defines_named(
    lang: SupportedLanguage,
    n: SyntaxNode,
    scope: Option<String>,
    in_impl: bool,
    s0: Seq<ExtractedSymbol>,
    s1: Seq<ExtractedSymbol>,
) -> bool {
    let k = n.kind@;
    match lang {
        SupportedLanguage::Rust => {
            &&& k == "function_item"@ ==> emits_named(n, s0, s1, rust_function_kind(in_impl), scope)
            &&& k == "impl_item"@ ==> match field_text_of(n, "type"@) {
                Some(t) => s1.len() == s0.len() + 1 && s1.subrange(0, s0.len() as int) == s0
                    && s1.last().name@ == t && s1.last().kind == NodeKind::Impl && s1.last().parent is None,
                None => true,
            }
            &&& k == "struct_item"@ ==> emits_named(n, s0, s1, NodeKind::Struct, None)
            &&& k == "enum_item"@ ==> emits_named(n, s0, s1, NodeKind::Enum, None)
            &&& k == "trait_item"@ ==> emits_named(n, s0, s1, NodeKind::Trait, None)
            &&& (k == "const_item"@ || k == "static_item"@) ==> emits_named(n, s0, s1, NodeKind::Constant, scope)
            &&& k == "type_item"@ ==> emits_named(n, s0, s1, NodeKind::Type, None)
            &&& k == "mod_item"@ ==> emits_named(n, s0, s1, NodeKind::Module, None)
        },
        SupportedLanguage::Python => {
            &&& k == "function_definition"@ ==> emits_named(n, s0, s1, function_or_method(scope), scope)
            &&& k == "class_definition"@ ==> emits_named(n, s0, s1, NodeKind::Class, None)
        },
        SupportedLanguage::JavaScript | SupportedLanguage::Tsx | SupportedLanguage::TypeScript => {
            &&& k == "function_declaration"@ ==> emits_named(n, s0, s1, NodeKind::Function, scope)
            &&& k == "class_declaration"@ ==> emits_named(n, s0, s1, NodeKind::Class, None)
            &&& k == "method_definition"@ ==> emits_named(n, s0, s1, NodeKind::Method, scope)
            &&& (k == "lexical_declaration"@ || k == "variable_declaration"@) ==> vars_declared(n, s1)
            &&& lang == SupportedLanguage::TypeScript ==> {
                &&& k == "interface_declaration"@ ==> emits_named(n, s0, s1, NodeKind::Interface, None)
                &&& k == "type_alias_declaration"@ ==> emits_named(n, s0, s1, NodeKind::Type, None)
                &&& k == "enum_declaration"@ ==> emits_named(n, s0, s1, NodeKind::Enum, None)
            }
        },
        _ => generic_fn_kind(lang, k) ==> emits_named(n, s0, s1, function_or_method(scope), scope),
    }
}

/// For the languages read generically: the node kinds that define a
/// function, method or type.
pub open spec fn generic_fn_kind(lang: SupportedLanguage, k: Seq<char>) -> bool {
    match lang {
        SupportedLanguage::Go => k == "function_declaration"@ || k == "method_declaration"@,
        SupportedLanguage::Java | SupportedLanguage::CSharp => k == "method_declaration"@ || k
            == "class_declaration"@ || k == "interface_declaration"@,
        SupportedLanguage::Ruby => k == "method"@ || k == "class"@ || k == "module"@,
        SupportedLanguage::Cpp | SupportedLanguage::Swift => k == "function_definition"@ || k
            == "class_specifier"@,
        _ => false,
    }
}

fn function_kind(scope: &Option<String>) -> (k: NodeKind)
    ensures
        k != NodeKind::File,
        k == function_or_method(*scope),
{
    match scope {
        Some(_) => NodeKind::Method,
        None => NodeKind::Function,
    }
}

/// The node-kind names compared against, spelled out to the length and
/// first three characters, so that different names are known to differ.
proof fn lemma_kind_names()
    ensures
        "function_item"@.len() == 13 && "function_item"@[0] == 'f' && "function_item"@[1] == 'u' && "function_item"@[2] == 'n',
        "struct_item"@.len() == 11 && "struct_item"@[0] == 's' && "struct_item"@[1] == 't' && "struct_item"@[2] == 'r',
        "enum_item"@.len() == 9 && "enum_item"@[0] == 'e' && "enum_item"@[1] == 'n' && "enum_item"@[2] == 'u',
        "trait_item"@.len() == 10 && "trait_item"@[0] == 't' && "trait_item"@[1] == 'r' && "trait_item"@[2] == 'a',
        "impl_item"@.len() == 9 && "impl_item"@[0] == 'i' && "impl_item"@[1] == 'm' && "impl_item"@[2] == 'p',
        "const_item"@.len() == 10 && "const_item"@[0] == 'c' && "const_item"@[1] == 'o' && "const_item"@[2] == 'n',
        "static_item"@.len() == 11 && "static_item"@[0] == 's' && "static_item"@[1] == 't' && "static_item"@[2] == 'a',
        "type_item"@.len() == 9 && "type_item"@[0] == 't' && "type_item"@[1] == 'y' && "type_item"@[2] == 'p',
        "mod_item"@.len() == 8 && "mod_item"@[0] == 'm' && "mod_item"@[1] == 'o' && "mod_item"@[2] == 'd',
        "use_declaration"@.len() == 15 && "use_declaration"@[0] == 'u' && "use_declaration"@[1] == 's' && "use_declaration"@[2] == 'e',
        "call_expression"@.len() == 15 && "call_expression"@[0] == 'c' && "call_expression"@[1] == 'a' && "call_expression"@[2] == 'l',
        "function_definition"@.len() == 19 && "function_definition"@[0] == 'f' && "function_definition"@[1] == 'u' && "function_definition"@[2] == 'n',
        "class_definition"@.len() == 16 && "class_definition"@[0] == 'c' && "class_definition"@[1] == 'l' && "class_definition"@[2] == 'a',
        "import_statement"@.len() == 16 && "import_statement"@[0] == 'i' && "import_statement"@[1] == 'm' && "import_statement"@[2] == 'p',
        "import_from_statement"@.len() == 21 && "import_from_statement"@[0] == 'i' && "import_from_statement"@[1] == 'm' && "import_from_statement"@[2] == 'p',
        "call"@.len() == 4 && "call"@[0] == 'c' && "call"@[1] == 'a' && "call"@[2] == 'l',
        "function_declaration"@.len() == 20 && "function_declaration"@[0] == 'f' && "function_declaration"@[1] == 'u' && "function_declaration"@[2] == 'n',
        "class_declaration"@.len() == 17 && "class_declaration"@[0] == 'c' && "class_declaration"@[1] == 'l' && "class_declaration"@[2] == 'a',
        "method_definition"@.len() == 17 && "method_definition"@[0] == 'm' && "method_definition"@[1] == 'e' && "method_definition"@[2] == 't',
        "lexical_declaration"@.len() == 19 && "lexical_declaration"@[0] == 'l' && "lexical_declaration"@[1] == 'e' && "lexical_declaration"@[2] == 'x',
        "variable_declaration"@.len() == 20 && "variable_declaration"@[0] == 'v' && "variable_declaration"@[1] == 'a' && "variable_declaration"@[2] == 'r',
        "interface_declaration"@.len() == 21 && "interface_declaration"@[0] == 'i' && "interface_declaration"@[1] == 'n' && "interface_declaration"@[2] == 't',
        "type_alias_declaration"@.len() == 22 && "type_alias_declaration"@[0] == 't' && "type_alias_declaration"@[1] == 'y' && "type_alias_declaration"@[2] == 'p',
        "enum_declaration"@.len() == 16 && "enum_declaration"@[0] == 'e' && "enum_declaration"@[1] == 'n' && "enum_declaration"@[2] == 'u',
{
    reveal_strlit("function_item");
    reveal_strlit("struct_item");
    reveal_strlit("enum_item");
    reveal_strlit("trait_item");
    reveal_strlit("impl_item");
    reveal_strlit("const_item");
    reveal_strlit("static_item");
    reveal_strlit("type_item");
    reveal_strlit("mod_item");
    reveal_strlit("use_declaration");
    reveal_strlit("call_expression");
    reveal_strlit("function_definition");
    reveal_strlit("class_definition");
    reveal_strlit("import_statement");
    reveal_strlit("import_from_statement");
    reveal_strlit("call");
    reveal_strlit("function_declaration");
    reveal_strlit("class_declaration");
    reveal_strlit("method_definition");
    reveal_strlit("lexical_declaration");
    reveal_strlit("variable_declaration");
    reveal_strlit("interface_declaration");
    reveal_strlit("type_alias_declaration");
    reveal_strlit("enum_declaration");
}

/// The record of one node, without its children.
fn visit(
    n: &SyntaxNode,
    lang: SupportedLanguage,
    scope: &Option<String>,
    in_impl: bool,
    symbols: &mut Vec<ExtractedSymbol>,
    imports: &mut Vec<ExtractedImport>,
    calls: &mut Vec<ExtractedCall>,
)
    ensures
        grew(final(symbols)@, final(imports)@, final(calls)@, old(symbols)@, old(imports)@, old(calls)@),
        !acts_on(lang, n.kind@) ==> final(symbols)@ == old(symbols)@ && final(imports)@ == old(imports)@
            && final(calls)@ == old(calls)@,
        defines_named(lang, *n, *scope, in_impl, old(symbols)@, final(symbols)@),
        scope is None ==> final(calls)@ == old(calls)@,
        forall|k: int| old(calls)@.len() <= k < final(calls)@.len() ==> Some(#[trigger] final(calls)@[k].caller) == *scope,
        match (expected_call(lang, *n), *scope) {
            (Some(c), Some(sc)) => {
                &&& final(calls)@.len() == old(calls)@.len() + 1
                &&& final(calls)@.subrange(0, old(calls)@.len() as int) == old(calls)@
                &&& final(calls)@.last().caller == sc
                &&& final(calls)@.last().callee@ == c
                &&& final(calls)@.last().line == line_of_row(n.start_row)
            },
            _ => final(calls)@ == old(calls)@,
        },
        import_covered(final(imports)@, *n, lang),
{
    proof {
        lemma_kind_names();
    }
    assert(symbols@.subrange(0, symbols@.len() as int) =~= symbols@);
    assert(imports@.subrange(0, imports@.len() as int) =~= imports@);
    assert(calls@.subrange(0, calls@.len() as int) =~= calls@);
    match lang {
        SupportedLanguage::Rust => {
            if is_kind(n, "function_item") {
                let kind = if in_impl {
                    NodeKind::Method
                } else {
                    NodeKind::Function
                };
                named_symbol(n, kind, copy_scope(scope), symbols);
            } else if is_kind(n, "struct_item") {
                named_symbol(n, NodeKind::Struct, None, symbols);
            } else if is_kind(n, "enum_item") {
                named_symbol(n, NodeKind::Enum, None, symbols);
            } else if is_kind(n, "trait_item") {
                named_symbol(n, NodeKind::Trait, None, symbols);
            } else if is_kind(n, "impl_item") {
                match rust_impl_name(n) {
                    Some(name) => {
                        push_symbol(symbols, symbol_for(n, name, NodeKind::Impl, None));
                        assert(symbols@.subrange(0, old(symbols)@.len() as int) =~= old(symbols)@);
                    },
                    None => {},
                }
            } else if is_kind(n, "const_item") || is_kind(n, "static_item") {
                named_symbol(n, NodeKind::Constant, copy_scope(scope), symbols);
            } else if is_kind(n, "type_item") {
                named_symbol(n, NodeKind::Type, None, symbols);
            } else if is_kind(n, "mod_item") {
                named_symbol(n, NodeKind::Module, None, symbols);
            } else if is_kind(n, "use_declaration") {
                let text = chars_of(n.text.as_str());
                let path = trim_chars(&strip_suffix_char(&strip_prefix_all(&text, &chars_of("use ")), ';'));
                push_import(imports, path, Vec::new(), n.start_row);
            } else if is_kind(n, "call_expression") {
                let callee = match field_text(n, "function") {
                    Some(t) => short_call_name(&t, true),
                    None => None,
                };
                push_call(calls, callee, scope, n.start_row);
            }
        },
        SupportedLanguage::Python => {
            if is_kind(n, "function_definition") {
                named_symbol(n, function_kind(scope), copy_scope(scope), symbols);
            } else if is_kind(n, "class_definition") {
                named_symbol(n, NodeKind::Class, None, symbols);
            } else if is_kind(n, "import_statement") {
                let text = chars_of(n.text.as_str());
                let path = trim_chars(&strip_prefix_all(&text, &chars_of("import ")));
                push_import(imports, path, Vec::new(), n.start_row);
            } else if is_kind(n, "import_from_statement") {
                python_from_import(n, imports);
            } else if is_kind(n, "call") {
                let callee = match field_text(n, "function") {
                    Some(t) => short_call_name(&t, false),
                    None => None,
                };
                push_call(calls, callee, scope, n.start_row);
            }
        },
        SupportedLanguage::JavaScript | SupportedLanguage::Tsx | SupportedLanguage::TypeScript => {
            if is_kind(n, "function_declaration") {
                named_symbol(n, NodeKind::Function, copy_scope(scope), symbols);
            } else if is_kind(n, "class_declaration") {
                named_symbol(n, NodeKind::Class, None, symbols);
            } else if is_kind(n, "method_definition") {
                named_symbol(n, NodeKind::Method, copy_scope(scope), symbols);
            } else if is_kind(n, "lexical_declaration") || is_kind(n, "variable_declaration") {
                js_variables(n, scope, symbols);
            } else if is_kind(n, "import_statement") {
                js_import(n, imports);
            } else if is_kind(n, "call_expression") {
                let callee = match field_text(n, "function") {
                    Some(t) => short_call_name(&t, true),
                    None => None,
                };
                push_call(calls, callee, scope, n.start_row);
            } else if lang == SupportedLanguage::TypeScript {
                if is_kind(n, "interface_declaration") {
                    named_symbol(n, NodeKind::Interface, None, symbols);
                } else if is_kind(n, "type_alias_declaration") {
                    named_symbol(n, NodeKind::Type, None, symbols);
                } else if is_kind(n, "enum_declaration") {
                    named_symbol(n, NodeKind::Enum, None, symbols);
                }
            }
        },
        _ => {
            let k = chars_of(n.kind.as_str());
            let (is_fn, is_import, is_call) = generic_roles(lang, &k);
            if is_fn {
                named_symbol(n, function_kind(scope), copy_scope(scope), symbols);
            }
            if is_import {
                let text = chars_of(n.text.as_str());
                push_import(imports, trim_chars(&text), Vec::new(), n.start_row);
            }
            if is_call {
                let callee = match field_text(n, "function") {
                    Some(t) => short_call_name(&t, true),
                    None => None,
                };
                let ghost before = calls@;
                push_call(calls, callee, scope, n.start_row);
            }
        },
    }
}

/// For the languages read generically: whether a kind defines a function,
/// an import, or a call.
fn generic_roles(lang: SupportedLanguage, k: &Vec<char>) -> (r: (bool, bool, bool))
    ensures
        (r.0 || r.1 || r.2) ==> acts_on(lang, k@),
        r.0 == generic_fn_kind(lang, k@),
        r.1 == generic_import_kind(lang, k@),
        r.2 == (call_colons(lang, k@) is Some && lang != SupportedLanguage::Rust && lang != SupportedLanguage::Python
            && lang != SupportedLanguage::JavaScript && lang != SupportedLanguage::Tsx && lang != SupportedLanguage::TypeScript),
{
    let is = |lit: &str| -> (b: bool)
        ensures
            b == (k@ == lit@),
        { eq_seq(k, &chars_of(lit)) };
    match lang {
        SupportedLanguage::Go => (
            is("function_declaration") || is("method_declaration"),
            is("import_declaration"),
            is("call_expression"),
        ),
        SupportedLanguage::Java => (
            is("method_declaration") || is("class_declaration") || is("interface_declaration"),
            is("import_declaration"),
            is("method_invocation"),
        ),
        SupportedLanguage::CSharp => (
            is("method_declaration") || is("class_declaration") || is("interface_declaration"),
            is("using_directive"),
            is("invocation_expression"),
        ),
        SupportedLanguage::Ruby => (
            is("method") || is("class") || is("module"),
            is("call"),
            is("call") || is("method_call"),
        ),
        SupportedLanguage::Cpp | SupportedLanguage::Swift => (
            is("function_definition") || is("class_specifier"),
            is("preproc_include"),
            is("call_expression"),
        ),
        _ => (false, false, false),
    }
}

/// The scope a node opens for its children, if any.
fn opened_scope(n: &SyntaxNode, lang: SupportedLanguage) -> (r: Option<String>)
    ensures
        lang != SupportedLanguage::Rust ==> (r is Some <==> opens_named(lang, *n)),
        !name_unknown(lang, *n) ==> crate::graph::opt_text(r) == opened_name(lang, *n),
{
    let named = match lang {
        SupportedLanguage::Rust => {
            if is_kind(n, "impl_item") {
                return rust_impl_name(n);
            }
            is_kind(n, "function_item") || is_kind(n, "struct_item") || is_kind(n, "enum_item")
                || is_kind(n, "trait_item")
        },
        SupportedLanguage::Python => is_kind(n, "class_definition") || is_kind(n, "function_definition"),
        SupportedLanguage::JavaScript | SupportedLanguage::Tsx | SupportedLanguage::TypeScript => is_kind(
            n,
            "class_declaration",
        ) || is_kind(n, "function_declaration"),
        SupportedLanguage::Go => is_kind(n, "function_declaration") || is_kind(n, "method_declaration"),
        SupportedLanguage::Java | SupportedLanguage::CSharp => is_kind(n, "method_declaration")
            || is_kind(n, "class_declaration"),
        SupportedLanguage::Ruby => is_kind(n, "method") || is_kind(n, "class") || is_kind(n, "module"),
        SupportedLanguage::Cpp | SupportedLanguage::Swift => is_kind(n, "function_definition")
            || is_kind(n, "class_specifier"),
    };
    if named {
        field_text(n, "name")
    } else {
        None
    }
}

/// A node of a language other than Rust opens a named scope: it is of a
/// scope kind and has a `name` field.
pub open spec fn opens_named(lang: SupportedLanguage, n: SyntaxNode) -> bool {
    let k = n.kind@;
    field_text_of(n, "name"@) is Some && match lang {
        SupportedLanguage::Rust => false,
        SupportedLanguage::Python => k == "class_definition"@ || k == "function_definition"@,
        SupportedLanguage::JavaScript | SupportedLanguage::Tsx | SupportedLanguage::TypeScript => k
            == "class_declaration"@ || k == "function_declaration"@,
        SupportedLanguage::Go => k == "function_declaration"@ || k == "method_declaration"@,
        SupportedLanguage::Java | SupportedLanguage::CSharp => k == "method_declaration"@ || k
            == "class_declaration"@,
        SupportedLanguage::Ruby => k == "method"@ || k == "class"@ || k == "module"@,
        SupportedLanguage::Cpp | SupportedLanguage::Swift => k == "function_definition"@ || k
            == "class_specifier"@,
    }
}

/// Whether the children of `n` are inside a named scope.
pub open spec fn child_scoped(lang: SupportedLanguage, n: SyntaxNode, scoped: bool) -> bool {
    scoped || opens_named(lang, n)
}

/// Whether the children of a Rust node are inside an `impl` block: an
/// `impl` sets it, a named function, struct, enum or trait clears it.
pub open spec fn child_in_impl(lang: SupportedLanguage, n: SyntaxNode, in_impl: bool) -> bool {
    let k = n.kind@;
    if lang != SupportedLanguage::Rust {
        false
    } else if k == "impl_item"@ {
        true
    } else if (k == "function_item"@ || k == "struct_item"@ || k == "enum_item"@ || k == "trait_item"@)
        && field_text_of(n, "name"@) is Some {
        false
    } else {
        in_impl
    }
}

fn children_in_impl(n: &SyntaxNode, lang: SupportedLanguage, in_impl: bool) -> (r: bool)
    ensures
        r == child_in_impl(lang, *n, in_impl),
{
    if lang != SupportedLanguage::Rust {
        false
    } else if is_kind(n, "impl_item") {
        true
    } else if (is_kind(n, "function_item") || is_kind(n, "struct_item") || is_kind(n, "enum_item")
        || is_kind(n, "trait_item")) && field_text(n, "name").is_some() {
        false
    } else {
        in_impl
    }
}

/// The kind of symbol a node defines, by language, node kind and context.
pub open spec fn defined_kind(lang: SupportedLanguage, n: SyntaxNode, scoped: bool, in_impl: bool) -> Option<NodeKind> {
    let k = n.kind@;
    match lang {
        SupportedLanguage::Rust => if k == "function_item"@ {
            Some(rust_function_kind(in_impl))
        } else if k == "struct_item"@ {
            Some(NodeKind::Struct)
        } else if k == "enum_item"@ {
            Some(NodeKind::Enum)
        } else if k == "trait_item"@ {
            Some(NodeKind::Trait)
        } else if k == "const_item"@ || k == "static_item"@ {
            Some(NodeKind::Constant)
        } else if k == "type_item"@ {
            Some(NodeKind::Type)
        } else if k == "mod_item"@ {
            Some(NodeKind::Module)
        } else {
            None
        },
        SupportedLanguage::Python => if k == "function_definition"@ {
            Some(if scoped { NodeKind::Method } else { NodeKind::Function })
        } else if k == "class_definition"@ {
            Some(NodeKind::Class)
        } else {
            None
        },
        SupportedLanguage::JavaScript | SupportedLanguage::Tsx | SupportedLanguage::TypeScript => if k
            == "function_declaration"@ {
            Some(NodeKind::Function)
        } else if k == "class_declaration"@ {
            Some(NodeKind::Class)
        } else if k == "method_definition"@ {
            Some(NodeKind::Method)
        } else if lang == SupportedLanguage::TypeScript && k == "interface_declaration"@ {
            Some(NodeKind::Interface)
        } else if lang == SupportedLanguage::TypeScript && k == "type_alias_declaration"@ {
            Some(NodeKind::Type)
        } else if lang == SupportedLanguage::TypeScript && k == "enum_declaration"@ {
            Some(NodeKind::Enum)
        } else {
            None
        },
        _ => if generic_fn_kind(lang, k) {
            Some(if scoped { NodeKind::Method } else { NodeKind::Function })
        } else {
            None
        },
    }
}

/// The symbol a node must yield: its `name` field's text and its kind.
pub open spec fn expected_symbol(lang: SupportedLanguage, n: SyntaxNode, scoped: bool, in_impl: bool) -> Option<(Seq<char>, NodeKind)> {
    if lang == SupportedLanguage::Rust && n.kind@ == "impl_item"@ {
        match field_text_of(n, "type"@) {
            Some(t) => Some((t, NodeKind::Impl)),
            None => None,
        }
    } else {
        match (defined_kind(lang, n, scoped, in_impl), field_text_of(n, "name"@)) {
            (Some(kd), Some(t)) => Some((t, kd)),
            _ => None,
        }
    }
}

/// The nodes of the tree in depth-first order, each with whether it is
/// inside a named scope and inside a Rust `impl`.
pub open spec fn tree_entries(n: SyntaxNode, lang: SupportedLanguage, scoped: bool, in_impl: bool) -> Seq<(SyntaxNode, bool, bool)>
    decreases n, n.children@.len() + 1,
{
    seq![(n, scoped, in_impl)] + child_entries(
        n,
        lang,
        child_scoped(lang, n, scoped),
        child_in_impl(lang, n, in_impl),
        n.children@.len() as int,
    )
}

/// The entries of the first `k` children of `n`.
pub open spec fn child_entries(n: SyntaxNode, lang: SupportedLanguage, scoped: bool, in_impl: bool, k: int) -> Seq<(SyntaxNode, bool, bool)>
    decreases n, k,
{
    if k <= 0 || k > n.children@.len() {
        Seq::empty()
    } else {
        child_entries(n, lang, scoped, in_impl, k - 1) + tree_entries(n.children@[k - 1], lang, scoped, in_impl)
    }
}

/// The symbols `out` hold what entry `e` must yield.
pub open spec fn covered(out: Seq<ExtractedSymbol>, e: (SyntaxNode, bool, bool), lang: SupportedLanguage) -> bool {
    &&& match expected_symbol(lang, e.0, e.1, e.2) {
        Some((t, kd)) => exists|m: int| 0 <= m < out.len() && (#[trigger] out[m]).name@ == t && out[m].kind == kd,
        None => true,
    }
    &&& js_declaration(lang, e.0) ==> vars_declared(e.0, out)
}

/// A JavaScript or TypeScript variable declaration.
pub open spec fn js_declaration(lang: SupportedLanguage, n: SyntaxNode) -> bool {
    (lang == SupportedLanguage::JavaScript || lang == SupportedLanguage::Tsx || lang == SupportedLanguage::TypeScript)
        && (n.kind@ == "lexical_declaration"@ || n.kind@ == "variable_declaration"@)
}

proof fn lemma_covered_grows(a: Seq<ExtractedSymbol>, b: Seq<ExtractedSymbol>, e: (SyntaxNode, bool, bool), lang: SupportedLanguage)
    requires
        a.len() <= b.len(),
        b.subrange(0, a.len() as int) == a,
        covered(a, e, lang),
    ensures
        covered(b, e, lang),
{
    if let Some((t, kd)) = expected_symbol(lang, e.0, e.1, e.2) {
        let m = choose|m: int| 0 <= m < a.len() && (#[trigger] a[m]).name@ == t && a[m].kind == kd;
        assert(b[m] == b.subrange(0, a.len() as int)[m]);
    }
    if js_declaration(lang, e.0) {
        assert forall|i: int|
            0 <= i < e.0.children@.len() implies match declared_symbol(#[trigger] e.0.children@[i]) {
                Some((t, kd)) => exists|m: int| 0 <= m < b.len() && (#[trigger] b[m]).name@ == t && b[m].kind == kd,
                None => true,
            } by {
            if let Some((t, kd)) = declared_symbol(e.0.children@[i]) {
                let m = choose|m: int| 0 <= m < a.len() && (#[trigger] a[m]).name@ == t && a[m].kind == kd;
                assert(b[m] == b.subrange(0, a.len() as int)[m]);
            }
        }
    }
}

proof fn lemma_visit_covers(
    lang: SupportedLanguage,
    n: SyntaxNode,
    scope: Option<String>,
    scoped: bool,
    in_impl: bool,
    s0: Seq<ExtractedSymbol>,
    s1: Seq<ExtractedSymbol>,
)
    requires
        defines_named(lang, n, scope, in_impl, s0, s1),
        lang != SupportedLanguage::Rust ==> scoped == scope is Some,
    ensures
        covered(s1, (n, scoped, in_impl), lang),
{
    if let Some((t, kd)) = expected_symbol(lang, n, scoped, in_impl) {
        assert(s1.len() > 0);
        assert(s1[s1.len() - 1] == s1.last());
    }
}

/// The name of the scope a node opens, if it opens one.
pub open spec fn opened_name(lang: SupportedLanguage, n: SyntaxNode) -> Option<Seq<char>> {
    let k = n.kind@;
    if lang == SupportedLanguage::Rust {
        if k == "impl_item"@ {
            field_text_of(n, "type"@)
        } else if k == "function_item"@ || k == "struct_item"@ || k == "enum_item"@ || k == "trait_item"@ {
            field_text_of(n, "name"@)
        } else {
            None
        }
    } else if opens_named(lang, n) {
        field_text_of(n, "name"@)
    } else {
        None
    }
}

/// A Rust `impl` without a `type` field: its name is read from its text,
/// and the scope below it is not followed by the entries.
pub open spec fn name_unknown(lang: SupportedLanguage, n: SyntaxNode) -> bool {
    lang == SupportedLanguage::Rust && n.kind@ == "impl_item"@ && field_text_of(n, "type"@) is None
}

/// The scope of the children of `n`.
pub open spec fn inner_scope(lang: SupportedLanguage, n: SyntaxNode, scope: Option<Seq<char>>) -> Option<Seq<char>> {
    match opened_name(lang, n) {
        Some(t) => Some(t),
        None => scope,
    }
}

/// The nodes of the tree in depth-first order, each with the name of its
/// nearest enclosing scope and whether that name is known.
pub open spec fn scope_entries(n: SyntaxNode, lang: SupportedLanguage, scope: Option<Seq<char>>, known: bool) -> Seq<(SyntaxNode, Option<Seq<char>>, bool)>
    decreases n, n.children@.len() + 1,
{
    seq![(n, scope, known)] + scope_children(
        n,
        lang,
        inner_scope(lang, n, scope),
        known && !name_unknown(lang, n),
        n.children@.len() as int,
    )
}

/// The scope entries of the first `k` children of `n`.
pub open spec fn scope_children(n: SyntaxNode, lang: SupportedLanguage, scope: Option<Seq<char>>, known: bool, k: int) -> Seq<(SyntaxNode, Option<Seq<char>>, bool)>
    decreases n, k,
{
    if k <= 0 || k > n.children@.len() {
        Seq::empty()
    } else {
        scope_children(n, lang, scope, known, k - 1) + scope_entries(n.children@[k - 1], lang, scope, known)
    }
}

/// A call node inside a known named scope has its call in `out`: that scope
/// as caller, the short name of its target as callee, its first line.
pub open spec fn call_covered(out: Seq<ExtractedCall>, e: (SyntaxNode, Option<Seq<char>>, bool), lang: SupportedLanguage) -> bool {
    match (expected_call(lang, e.0), e.1) {
        (Some(c), Some(sc)) => e.2 ==> exists|m: int|
            0 <= m < out.len() && (#[trigger] out[m]).caller@ == sc && out[m].callee@ == c && out[m].line
                == line_of_row(e.0.start_row),
        _ => true,
    }
}

/// Call `c` is the call of a call node of `es`, with that node's scope as
/// caller when the scope is known (so never a call outside a named scope).
pub open spec fn call_sourced(c: ExtractedCall, es: Seq<(SyntaxNode, Option<Seq<char>>, bool)>, lang: SupportedLanguage) -> bool {
    exists|j: int|
        0 <= j < es.len() && expected_call(lang, (#[trigger] es[j]).0) == Some(c.callee@) && c.line == line_of_row(
            es[j].0.start_row,
        ) && (es[j].2 ==> es[j].1 == Some(c.caller@))
}

proof fn lemma_import_covered_grows(a: Seq<ExtractedImport>, b: Seq<ExtractedImport>, n: SyntaxNode, lang: SupportedLanguage)
    requires
        a.len() <= b.len(),
        b.subrange(0, a.len() as int) == a,
        import_covered(a, n, lang),
    ensures
        import_covered(b, n, lang),
{
    if let Some((p, bare)) = expected_import(lang, n) {
        let m = choose|m: int| 0 <= m < a.len() && (#[trigger] a[m]).path@ == p && a[m].line == line_of_row(n.start_row) && (bare ==> a[m].symbols@.len() == 0);
        assert(b[m] == b.subrange(0, a.len() as int)[m]);
    }
}

proof fn lemma_call_covered_grows(a: Seq<ExtractedCall>, b: Seq<ExtractedCall>, e: (SyntaxNode, Option<Seq<char>>, bool), lang: SupportedLanguage)
    requires
        a.len() <= b.len(),
        b.subrange(0, a.len() as int) == a,
        call_covered(a, e, lang),
    ensures
        call_covered(b, e, lang),
{
    if let (Some(c), Some(sc)) = (expected_call(lang, e.0), e.1) {
        if e.2 {
            let m = choose|m: int| 0 <= m < a.len() && (#[trigger] a[m]).caller@ == sc && a[m].callee@ == c && a[m].line == line_of_row(e.0.start_row);
            assert(b[m] == b.subrange(0, a.len() as int)[m]);
        }
    }
}

proof fn lemma_sourced_left(c: ExtractedCall, a: Seq<(SyntaxNode, Option<Seq<char>>, bool)>, b: Seq<(SyntaxNode, Option<Seq<char>>, bool)>, lang: SupportedLanguage)
    requires
        call_sourced(c, a, lang),
    ensures
        call_sourced(c, a + b, lang),
{
    let j = choose|j: int| 0 <= j < a.len() && expected_call(lang, (#[trigger] a[j]).0) == Some(c.callee@) && c.line == line_of_row(a[j].0.start_row) && (a[j].2 ==> a[j].1 == Some(c.caller@));
    assert((a + b)[j] == a[j]);
}

proof fn lemma_sourced_right(c: ExtractedCall, a: Seq<(SyntaxNode, Option<Seq<char>>, bool)>, b: Seq<(SyntaxNode, Option<Seq<char>>, bool)>, lang: SupportedLanguage)
    requires
        call_sourced(c, b, lang),
    ensures
        call_sourced(c, a + b, lang),
{
    let j = choose|j: int| 0 <= j < b.len() && expected_call(lang, (#[trigger] b[j]).0) == Some(c.callee@) && c.line == line_of_row(b[j].0.start_row) && (b[j].2 ==> b[j].1 == Some(c.caller@));
    assert((a + b)[a.len() + j] == b[j]);
}

/// Walks `n` and its descendants depth first. The scope of a node's
/// children is the one it opens, else the enclosing one.
fn walk(
    n: &SyntaxNode,
    lang: SupportedLanguage,
    scope: &Option<String>,
    in_impl: bool,
    scoped: Ghost<bool>,
    scope_v: Ghost<Option<Seq<char>>>,
    known: Ghost<bool>,
    symbols: &mut Vec<ExtractedSymbol>,
    imports: &mut Vec<ExtractedImport>,
    calls: &mut Vec<ExtractedCall>,
)
    requires
        lang != SupportedLanguage::Rust ==> scoped@ == scope is Some,
        known@ ==> crate::graph::opt_text(*scope) == scope_v@,
    ensures
        forall|j: int|
            0 <= j < scope_entries(*n, lang, scope_v@, known@).len() ==> #[trigger] call_covered(
                final(calls)@,
                scope_entries(*n, lang, scope_v@, known@)[j],
                lang,
            ),
        forall|k: int|
            old(calls)@.len() <= k < final(calls)@.len() ==> #[trigger] call_sourced(
                final(calls)@[k],
                scope_entries(*n, lang, scope_v@, known@),
                lang,
            ),
        forall|j: int|
            0 <= j < tree_entries(*n, lang, scoped@, in_impl).len() ==> #[trigger] import_covered(
                final(imports)@,
                tree_entries(*n, lang, scoped@, in_impl)[j].0,
                lang,
            ),
        grew(final(symbols)@, final(imports)@, final(calls)@, old(symbols)@, old(imports)@, old(calls)@),
        quiet(*n, lang) ==> final(symbols)@ == old(symbols)@ && final(imports)@ == old(imports)@
            && final(calls)@ == old(calls)@,
        forall|j: int|
            0 <= j < tree_entries(*n, lang, scoped@, in_impl).len() ==> #[trigger] covered(
                final(symbols)@,
                tree_entries(*n, lang, scoped@, in_impl)[j],
                lang,
            ),
    decreases n,
{
    visit(n, lang, scope, in_impl, symbols, imports, calls);
    let ghost me_c = (*n, scope_v@, known@);
    proof {
        lemma_visit_covers(lang, *n, *scope, scoped@, in_impl, old(symbols)@, symbols@);
        let c0 = old(calls)@;
        let c1 = calls@;
        if let (Some(c), Some(sc)) = (expected_call(lang, *n), scope_v@) {
            if known@ {
                assert(c1[c1.len() - 1] == c1.last());
                assert(call_covered(c1, me_c, lang));
            }
        }
        assert forall|k: int| c0.len() <= k < c1.len() implies #[trigger] call_sourced(c1[k], seq![me_c], lang) by {
            assert(seq![me_c][0] == me_c);
        }
    }
    let opened = opened_scope(n, lang);
    let inner = match opened {
        Some(s) => Some(s),
        None => copy_scope(scope),
    };
    let ghost cv = inner_scope(lang, *n, scope_v@);
    let ghost ck = known@ && !name_unknown(lang, *n);
    let ghost cv0 = calls@;
    let inner_impl = children_in_impl(n, lang, in_impl);
    let ghost cs = child_scoped(lang, *n, scoped@);
    let ghost me = (*n, scoped@, in_impl);
    let ghost (s0, i0, c0) = (old(symbols)@, old(imports)@, old(calls)@);
    let ghost (s1, i1, c1) = (symbols@, imports@, calls@);
    let mut i: usize = 0;
    while i < n.children.len()
        invariant
            i <= n.children@.len(),
            lang != SupportedLanguage::Rust ==> cs == inner is Some,
            inner_impl == child_in_impl(lang, *n, in_impl),
            cs == child_scoped(lang, *n, scoped@),
            grew(symbols@, imports@, calls@, s0, i0, c0),
            grew(s1, i1, c1, s0, i0, c0),
            quiet(*n, lang) ==> s1 == s0 && i1 == i0 && c1 == c0 && symbols@ == s0 && imports@ == i0 && calls@ == c0,
            covered(symbols@, me, lang),
            forall|j: int|
                0 <= j < child_entries(*n, lang, cs, inner_impl, i as int).len() ==> #[trigger] covered(
                    symbols@,
                    child_entries(*n, lang, cs, inner_impl, i as int)[j],
                    lang,
                ),
            ck ==> crate::graph::opt_text(inner) == cv,
            me_c == (*n, scope_v@, known@),
            cv == inner_scope(lang, *n, scope_v@),
            ck == (known@ && !name_unknown(lang, *n)),
            import_covered(imports@, *n, lang),
            forall|j: int|
                0 <= j < child_entries(*n, lang, cs, inner_impl, i as int).len() ==> #[trigger] import_covered(
                    imports@,
                    child_entries(*n, lang, cs, inner_impl, i as int)[j].0,
                    lang,
                ),
            call_covered(calls@, me_c, lang),
            forall|j: int|
                0 <= j < scope_children(*n, lang, cv, ck, i as int).len() ==> #[trigger] call_covered(
                    calls@,
                    scope_children(*n, lang, cv, ck, i as int)[j],
                    lang,
                ),
            forall|k: int|
                c0.len() <= k < calls@.len() ==> #[trigger] call_sourced(
                    calls@[k],
                    seq![me_c] + scope_children(*n, lang, cv, ck, i as int),
                    lang,
                ),
        decreases n.children@.len() - i,
    {
        let ghost cbefore = scope_children(*n, lang, cv, ck, i as int);
        let ghost (sa, ia, ca) = (symbols@, imports@, calls@);
        let ghost before = child_entries(*n, lang, cs, inner_impl, i as int);
        proof {
            assert(decreases_to!(*n => n.children));
            assert(decreases_to!(n.children => n.children@[i as int]));
            if quiet(*n, lang) {
                assert(quiet(n.children@[i as int], lang));
            }
        }
        walk(&n.children[i], lang, &inner, inner_impl, Ghost(cs), Ghost(cv), Ghost(ck), symbols, imports, calls);
        proof {
            lemma_import_covered_grows(ia, imports@, *n, lang);
            let imine = tree_entries(n.children@[i as int], lang, cs, inner_impl);
            let ibefore = child_entries(*n, lang, cs, inner_impl, i as int);
            assert(child_entries(*n, lang, cs, inner_impl, i + 1) == ibefore + imine);
            assert forall|j: int|
                0 <= j < child_entries(*n, lang, cs, inner_impl, i + 1).len() implies #[trigger] import_covered(
                    imports@,
                    child_entries(*n, lang, cs, inner_impl, i + 1)[j].0,
                    lang,
                ) by {
                if j < ibefore.len() {
                    assert(child_entries(*n, lang, cs, inner_impl, i + 1)[j] == ibefore[j]);
                    lemma_import_covered_grows(ia, imports@, ibefore[j].0, lang);
                } else {
                    assert(child_entries(*n, lang, cs, inner_impl, i + 1)[j] == imine[j - ibefore.len()]);
                }
            }
            let cmine = scope_entries(n.children@[i as int], lang, cv, ck);
            assert(scope_children(*n, lang, cv, ck, i + 1) == cbefore + cmine);
            lemma_call_covered_grows(ca, calls@, me_c, lang);
            assert forall|j: int|
                0 <= j < scope_children(*n, lang, cv, ck, i + 1).len() implies #[trigger] call_covered(
                    calls@,
                    scope_children(*n, lang, cv, ck, i + 1)[j],
                    lang,
                ) by {
                if j < cbefore.len() {
                    assert(scope_children(*n, lang, cv, ck, i + 1)[j] == cbefore[j]);
                    lemma_call_covered_grows(ca, calls@, cbefore[j], lang);
                } else {
                    assert(scope_children(*n, lang, cv, ck, i + 1)[j] == cmine[j - cbefore.len()]);
                }
            }
            let lnew = seq![me_c] + scope_children(*n, lang, cv, ck, i + 1);
            let lold = seq![me_c] + cbefore;
            assert(lnew =~= lold + cmine);
            assert forall|k: int| c0.len() <= k < calls@.len() implies #[trigger] call_sourced(calls@[k], lnew, lang) by {
                if k < ca.len() {
                    assert(calls@[k] == calls@.subrange(0, ca.len() as int)[k]);
                    lemma_sourced_left(calls@[k], lold, cmine, lang);
                } else {
                    lemma_sourced_right(calls@[k], lold, cmine, lang);
                }
            }
            lemma_grew_trans(symbols@, imports@, calls@, sa, ia, ca, s0, i0, c0);
            lemma_covered_grows(sa, symbols@, me, lang);
            let mine = tree_entries(n.children@[i as int], lang, cs, inner_impl);
            assert(child_entries(*n, lang, cs, inner_impl, i + 1) == before + mine);
            assert forall|j: int|
                0 <= j < child_entries(*n, lang, cs, inner_impl, i + 1).len() implies #[trigger] covered(
                    symbols@,
                    child_entries(*n, lang, cs, inner_impl, i + 1)[j],
                    lang,
                ) by {
                if j < before.len() {
                    assert(child_entries(*n, lang, cs, inner_impl, i + 1)[j] == before[j]);
                    lemma_covered_grows(sa, symbols@, before[j], lang);
                } else {
                    assert(child_entries(*n, lang, cs, inner_impl, i + 1)[j] == mine[j - before.len()]);
                }
            }
        }
        i = i + 1;
    }
    proof {
        let call_all = scope_entries(*n, lang, scope_v@, known@);
        let call_kids = scope_children(*n, lang, cv, ck, n.children@.len() as int);
        assert(call_all == seq![me_c] + call_kids);
        assert forall|j: int| 0 <= j < call_all.len() implies #[trigger] call_covered(calls@, call_all[j], lang) by {
            if j == 0 {
                assert(call_all[0] == me_c);
            } else {
                assert(call_all[j] == call_kids[j - 1]);
            }
        }
        let all = tree_entries(*n, lang, scoped@, in_impl);
        let ikids = child_entries(*n, lang, cs, inner_impl, n.children@.len() as int);
        assert(all == seq![me] + ikids);
        assert forall|j: int| 0 <= j < all.len() implies #[trigger] import_covered(imports@, all[j].0, lang) by {
            if j == 0 {
                assert(all[0] == me);
            } else {
                assert(all[j] == ikids[j - 1]);
            }
        }
        let kids = child_entries(*n, lang, cs, inner_impl, n.children@.len() as int);
        assert(all == seq![me] + kids);
        assert forall|j: int| 0 <= j < all.len() implies #[trigger] covered(symbols@, all[j], lang) by {
            if j == 0 {
                assert(all[0] == me);
            } else {
                assert(all[j] == kids[j - 1]);
            }
        }
    }
}

proof fn lemma_grew_trans(
    s2: Seq<ExtractedSymbol>, i2: Seq<ExtractedImport>, c2: Seq<ExtractedCall>,
    s1: Seq<ExtractedSymbol>, i1: Seq<ExtractedImport>, c1: Seq<ExtractedCall>,
    s0: Seq<ExtractedSymbol>, i0: Seq<ExtractedImport>, c0: Seq<ExtractedCall>,
)
    requires
        grew(s2, i2, c2, s1, i1, c1),
        grew(s1, i1, c1, s0, i0, c0),
    ensures
        grew(s2, i2, c2, s0, i0, c0),
{
    assert(s2.subrange(0, s0.len() as int) =~= s2.subrange(0, s1.len() as int).subrange(0, s0.len() as int));
    assert(i2.subrange(0, i0.len() as int) =~= i2.subrange(0, i1.len() as int).subrange(0, i0.len() as int));
    assert(c2.subrange(0, c0.len() as int) =~= c2.subrange(0, c1.len() as int).subrange(0, c0.len() as int));
    assert forall|k: int| s0.len() <= k < s2.len() implies #[trigger] sane(s2[k]) by {
        if k < s1.len() {
            assert(s2[k] == s2.subrange(0, s1.len() as int)[k]);
        }
    }
}

/// Extracts the symbols, imports and calls of one file from its syntax
/// tree. A path whose extension names no supported language is refused.
pub fn extract_file(path: &str, root: &SyntaxNode) -> (r: Result<FileExtractions, ExtractError>)
    ensures
        crate::language::language_of_path(path@) is None <==> r is Err,
        match r {
            Ok(x) => {
                let lang = crate::language::language_of_path(path@).unwrap();
                &&& x.file_path@ == path@
                &&& forall|k: int| 0 <= k < x.symbols@.len() ==> #[trigger] sane(x.symbols@[k])
                &&& quiet(*root, lang) ==> x.symbols@.len() == 0 && x.imports@.len() == 0 && x.calls@.len() == 0
                &&& forall|j: int|
                    0 <= j < tree_entries(*root, lang, false, false).len() ==> #[trigger] covered(
                        x.symbols@,
                        tree_entries(*root, lang, false, false)[j],
                        lang,
                    )
                &&& forall|j: int|
                    0 <= j < scope_entries(*root, lang, None, true).len() ==> #[trigger] call_covered(
                        x.calls@,
                        scope_entries(*root, lang, None, true)[j],
                        lang,
                    )
                &&& forall|k: int|
                    0 <= k < x.calls@.len() ==> #[trigger] call_sourced(x.calls@[k], scope_entries(*root, lang, None, true), lang)
                &&& forall|j: int|
                    0 <= j < tree_entries(*root, lang, false, false).len() ==> #[trigger] import_covered(
                        x.imports@,
                        tree_entries(*root, lang, false, false)[j].0,
                        lang,
                    )
            },
            Err(e) => e matches ExtractError::UnsupportedLanguage(p) && p@ == path@,
        },
{
    let lang = match SupportedLanguage::from_path(path) {
        Some(l) => l,
        None => return Err(ExtractError::UnsupportedLanguage(crate::context::owned(path))),
    };
    let mut symbols: Vec<ExtractedSymbol> = Vec::new();
    let mut imports: Vec<ExtractedImport> = Vec::new();
    let mut calls: Vec<ExtractedCall> = Vec::new();
    walk(root, lang, &None, false, Ghost(false), Ghost(None), Ghost(true), &mut symbols, &mut imports, &mut calls);
    Ok(FileExtractions { file_path: crate::context::owned(path), symbols, imports, calls })
}

} // verus!
