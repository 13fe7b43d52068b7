//! Context queries for agents: what a symbol is, what it touches, what a
//! change to it breaks and how to fix the call sites, and what to imitate
//! when adding something like it.

use vstd::prelude::*;

use crate::graph::{
    is_match, linked, lists_file_symbols, lists_linked, reports, stats_of, CodeGraph,
    DependencyInfo, GraphStats, NodeKind, SearchResult, edge_kind_label, node_kind_label,
};
use crate::lines::{find_usages_in_code, lines_of, split_lines, usages_of};
use crate::scan::{find_char, find_char_from, find_seq, find_seq_from, slice_chars, trim, trim_chars};
use crate::signature::{
    added_params, call_args, extract_call_args, parse_signature, removed_params, Param, Signature,
    SignatureView,
};
use crate::text::{chars_of, contains_seq, eq_seq, has_prefix, has_substring, starts_with_seq, string_of};

verus! {

/// What `str::to_lowercase` makes of a string.
pub uninterp spec fn lower_of(s: Seq<char>) -> Seq<char>;

/// Relies on `str::to_lowercase`: the lower-case form depends on the
/// characters alone, and the empty string stays empty.
#[verifier::external_body]
fn lowercase(s: &str) -> (r: String)
    ensures
        r@ == lower_of(s@),
        s@.len() == 0 ==> r@.len() == 0,
{
    s.to_lowercase()
}

/// A copy of a string slice.
pub fn owned(s: &str) -> (r: String)
    ensures
        r@ == s@,
{
    s.to_owned()
}

/// A search query: a bare name, or a name with optional kind and file filters.
#[derive(Clone, Debug)]
pub enum Query {
    Simple(String),
    Structured { symbol: String, kind: Option<String>, file: Option<String> },
}

/// The name a query looks for.
pub open spec fn query_name(q: Query) -> Seq<char> {
    match q {
        Query::Simple(s) => s@,
        Query::Structured { symbol, .. } => symbol@,
    }
}

impl Query {
    /// The name this query looks for.
    pub fn symbol_name(&self) -> (r: &str)
        ensures
            r@ == query_name(*self),
    {
        match self {
            Query::Simple(s) => s.as_str(),
            Query::Structured { symbol, .. } => symbol.as_str(),
        }
    }
}

/// A symbol with its location and code.
#[derive(Clone, Debug)]
pub struct Symbol {
    pub name: String,
    pub kind: String,
    pub file: String,
    pub line: usize,
    pub code: String,
}

/// `s` shows search hit `r`.
pub open spec fn shows(s: Symbol, r: SearchResult) -> bool {
    &&& s.name@ == r.symbol@
    &&& s.kind@ == node_kind_label(r.kind)
    &&& s.file@ == r.file@
    &&& s.line == r.line_start
    &&& s.code@ == r.code@
}

impl Symbol {
    pub fn from_search_result(r: &SearchResult) -> (s: Symbol)
        ensures
            shows(s, *r),
    {
        Symbol {
            name: r.symbol.clone(),
            kind: owned(r.kind.label()),
            file: r.file.clone(),
            line: r.line_start,
            code: r.code.clone(),
        }
    }
}

/// A lighter reference to a related symbol.
#[derive(Clone, Debug)]
pub struct Reference {
    pub name: String,
    pub kind: String,
    pub file: String,
    pub line: usize,
    /// How it is related: "calls", "imports", ...
    pub relationship: String,
}

/// `r` shows dependency record `d`.
pub open spec fn refers(r: Reference, d: DependencyInfo) -> bool {
    &&& r.name@ == d.symbol@
    &&& r.kind@ == node_kind_label(d.kind)
    &&& r.file@ == d.file@
    &&& r.line == d.line
    &&& r.relationship@ == edge_kind_label(d.relationship)
}

impl Reference {
    pub fn from_dep(dep: &DependencyInfo) -> (r: Reference)
        ensures
            refers(r, *dep),
    {
        Reference {
            name: dep.symbol.clone(),
            kind: owned(dep.kind.label()),
            file: dep.file.clone(),
            line: dep.line,
            relationship: owned(dep.relationship.label()),
        }
    }
}

/// A suggested edit at one call site of a changed symbol.
#[derive(Clone, Debug)]
pub struct Edit {
    pub file: String,
    /// Line of the usage in the file.
    pub line: usize,
    /// The symbol that contains the usage.
    pub in_symbol: String,
    /// The call expression, e.g. `validate(input)`.
    pub usage: String,
    /// The whole line holding the usage, trimmed.
    pub line_content: String,
    /// The call rewritten for the new signature, if one was given.
    pub suggested: Option<String>,
    /// `name: type` of each added parameter.
    pub new_args: Vec<String>,
    /// Name of each removed parameter.
    pub removed_args: Vec<String>,
    /// Numbered lines around the usage, filled in by whoever can read the file.
    pub context: Vec<String>,
}

/// The answer to a context query.
#[derive(Clone, Debug)]
pub struct ContextResponse {
    pub query: String,
    pub intent: String,
    pub found: bool,
    pub symbols: Vec<Symbol>,
    pub used_by: Vec<Reference>,
    pub uses: Vec<Reference>,
    pub edits: Vec<Edit>,
    pub patterns: Vec<Symbol>,
    pub tests: Vec<Symbol>,
    pub stats: Option<GraphStats>,
}

/// Search hits.
#[derive(Clone, Debug)]
pub struct SearchResponse {
    pub found: bool,
    pub count: usize,
    pub results: Vec<SearchResult>,
}

/// Callers and callees of a name.
#[derive(Clone, Debug)]
pub struct DependencyResponse {
    pub symbol: String,
    pub dependents: Vec<DependencyInfo>,
    pub dependencies: Vec<DependencyInfo>,
}

/// Graph statistics.
#[derive(Clone, Debug)]
pub struct StatsResponse {
    pub stats: GraphStats,
}

/// The symbols of one file.
#[derive(Clone, Debug)]
pub struct FileSymbolsResponse {
    pub file: String,
    pub found: bool,
    pub symbols: Vec<FileSymbolEntry>,
}

/// One symbol of a file.
#[derive(Clone, Debug)]
pub struct FileSymbolEntry {
    pub name: String,
    pub kind: String,
    pub line_start: usize,
    pub line_end: usize,
    pub code: String,
}

/// Does search hit `r` pass the optional kind and file filters of `q`?
pub open spec fn passes_filters(q: Query, r: SearchResult) -> bool {
    match q {
        Query::Simple(_) => true,
        Query::Structured { kind, file, .. } => (match kind {
            Some(k) => node_kind_label(r.kind) == lower_of(k@),
            None => true,
        }) && (match file {
            Some(f) => has_substring(r.file@, f@),
            None => true,
        }),
    }
}

/// Keeps the hits that pass the filters of `q`, in order.
fn filter_results(q: &Query, results: Vec<SearchResult>) -> (r: Vec<SearchResult>)
    ensures
        r@.len() <= results@.len(),
        forall|k: int| 0 <= k < r@.len() ==> passes_filters(*q, #[trigger] r@[k]) && results@.contains(r@[k]),
        forall|k: int| 0 <= k < results@.len() && passes_filters(*q, #[trigger] results@[k]) ==> r@.contains(results@[k]),
        r@ == results@.filter(|h: SearchResult| passes_filters(*q, h)),
{
    let (kind_filter, file_filter): (Option<Vec<char>>, Option<Vec<char>>) = match q {
        Query::Simple(_) => (None, None),
        Query::Structured { kind, file, .. } => (
            match kind {
                Some(k) => Some(chars_of(lowercase(k.as_str()).as_str())),
                None => None,
            },
            match file {
                Some(f) => Some(chars_of(f.as_str())),
                None => None,
            },
        ),
    };
    let mut r: Vec<SearchResult> = Vec::new();
    let mut i: usize = 0;
    while i < results.len()
        invariant
            i <= results@.len(),
            r@.len() <= i,
            match *q {
                Query::Simple(_) => kind_filter is None && file_filter is None,
                Query::Structured { kind, file, .. } => (match kind {
                    Some(k) => kind_filter matches Some(kf) && kf@ == lower_of(k@),
                    None => kind_filter is None,
                }) && (match file {
                    Some(f) => file_filter matches Some(ff) && ff@ == f@,
                    None => file_filter is None,
                }),
            },
            forall|k: int| 0 <= k < r@.len() ==> passes_filters(*q, #[trigger] r@[k]) && results@.contains(r@[k]),
            forall|k: int| 0 <= k < i && passes_filters(*q, #[trigger] results@[k]) ==> r@.contains(results@[k]),
            r@ == results@.subrange(0, i as int).filter(|h: SearchResult| passes_filters(*q, h)),
        decreases results@.len() - i,
    {
        proof {
            assert(results@.subrange(0, i + 1).drop_last() =~= results@.subrange(0, i as int));
            reveal(Seq::filter);
        }
        let hit = &results[i];
        let kind_ok = match &kind_filter {
            Some(kf) => eq_seq(&chars_of(hit.kind.label()), kf),
            None => true,
        };
        let file_ok = match &file_filter {
            Some(ff) => contains_seq(&chars_of(hit.file.as_str()), ff),
            None => true,
        };
        if kind_ok && file_ok {
            let ghost before = r@;
            r.push(hit.copy());
            assert(r@[r@.len() - 1] == results@[i as int]);
            assert forall|k: int| 0 <= k < i + 1 && passes_filters(*q, #[trigger] results@[k]) implies r@.contains(results@[k]) by {
                if k < i {
                    let j = choose|j: int| 0 <= j < before.len() && before[j] == results@[k];
                    assert(r@[j] == results@[k]);
                }
            }
            assert forall|k: int| 0 <= k < r@.len() implies passes_filters(*q, #[trigger] r@[k]) && results@.contains(r@[k]) by {
                if k < before.len() {
                    assert(r@[k] == before[k]);
                } else {
                    assert(results@[i as int] == r@[k]);
                }
            }
        } else {
            assert(!passes_filters(*q, results@[i as int]));
            assert forall|k: int| 0 <= k < i + 1 && passes_filters(*q, #[trigger] results@[k]) implies r@.contains(results@[k]) by {
            }
        }
        i = i + 1;
    }
    assert(results@.subrange(0, results@.len() as int) =~= results@);
    r
}

/// The hits of `r` for `query`: at most five matches of its name, each
/// reported in full and passing the query's filters.
pub open spec fn answers(r: SearchResponse, g: crate::graph::GraphView, query: Query) -> bool {
    &&& r.count == r.results@.len()
    &&& r.found == (r.results@.len() > 0)
    &&& r.results@.len() <= 5
    &&& forall|k: int| 0 <= k < r.results@.len() ==> #[trigger] good_hit(r.results@[k], g, query)
    &&& exists|hits: Seq<SearchResult>|
        crate::graph::search_outcome(g, query_name(query), 5, hits) && r.results@ == hits.filter(
            |h: SearchResult| passes_filters(query, h),
        )
}

/// `h` reports a visible symbol matching the query's name, and passes its filters.
pub open spec fn good_hit(h: SearchResult, g: crate::graph::GraphView, query: Query) -> bool {
    is_match(g, query_name(query), h.node as int) && reports(h, g, h.node as int) && passes_filters(query, h)
}

fn search_filtered(graph: &CodeGraph, query: &Query) -> (r: SearchResponse)
    ensures
        answers(r, graph@, *query),
{
    let name = query.symbol_name();
    let hits = graph.search(name, 5);
    let ghost hv = hits@;
    let results = filter_results(query, hits);
    let count = results.len();
    let r = SearchResponse { found: count > 0, count, results };
    assert forall|k: int| 0 <= k < r.results@.len() implies #[trigger] good_hit(r.results@[k], graph@, *query) by {
        assert(r.results@[k] == results@[k]);
        assert(passes_filters(*query, results@[k]));
        let j = choose|j: int| 0 <= j < hv.len() && hv[j] == results@[k];
        assert(reports(hv[j], graph@, hv[j].node as int));
    }
    r
}

/// Up to five hits for the query's name, then its kind and file filters.
pub fn anchor_search(graph: &CodeGraph, query: Query) -> (r: SearchResponse)
    ensures
        answers(r, graph@, query),
{
    search_filtered(graph, &query)
}

/// Callers and callees of `symbol`.
pub fn anchor_dependencies(graph: &CodeGraph, symbol: &str) -> (r: DependencyResponse)
    requires
        graph@.wf(),
    ensures
        r.symbol@ == symbol@,
        lists_linked(r.dependents@, graph@, symbol@, true),
        lists_linked(r.dependencies@, graph@, symbol@, false),
{
    DependencyResponse {
        symbol: owned(symbol),
        dependents: graph.dependents(symbol),
        dependencies: graph.dependencies(symbol),
    }
}

/// The neighbourhood of `query` within `depth` steps; see `CodeGraph::search_graph`.
pub fn graph_search(graph: &CodeGraph, query: &str, depth: usize) -> (r: crate::graph::GraphSearchResult)
    requires
        graph@.wf(),
    ensures
        crate::graph::neighbourhood(r, graph@, query@, depth as nat),
{
    graph.search_graph(query, depth)
}

/// The graph's statistics.
pub fn anchor_stats(graph: &CodeGraph) -> (r: StatsResponse)
    ensures
        r.stats.file_count == stats_of(graph@).0,
        r.stats.symbol_count == stats_of(graph@).1,
        r.stats.total_edges == stats_of(graph@).2,
{
    StatsResponse { stats: graph.stats() }
}

/// `e` lists search hit `r`.
pub open spec fn entry_of(e: FileSymbolEntry, r: SearchResult) -> bool {
    &&& e.name@ == r.symbol@
    &&& e.kind@ == node_kind_label(r.kind)
    &&& e.line_start == r.line_start
    &&& e.line_end == r.line_end
    &&& e.code@ == r.code@
}

/// The visible symbols of one file, in index order.
pub fn anchor_file_symbols(graph: &CodeGraph, file_path: &str) -> (r: FileSymbolsResponse)
    ensures
        r.file@ == file_path@,
        r.found == (r.symbols@.len() > 0),
        exists|hits: Seq<SearchResult>|
            lists_file_symbols(hits, graph@, file_path@) && hits.len() == r.symbols@.len() && forall|k: int|
                0 <= k < hits.len() ==> entry_of(#[trigger] r.symbols@[k], hits[k]),
{
    let hits = graph.symbols_in_file(file_path);
    let mut entries: Vec<FileSymbolEntry> = Vec::new();
    let mut i: usize = 0;
    while i < hits.len()
        invariant
            i <= hits@.len(),
            entries@.len() == i,
            forall|k: int| 0 <= k < i ==> entry_of(#[trigger] entries@[k], hits@[k]),
        decreases hits@.len() - i,
    {
        let h = &hits[i];
        entries.push(
            FileSymbolEntry {
                name: h.symbol.clone(),
                kind: owned(h.kind.label()),
                line_start: h.line_start,
                line_end: h.line_end,
                code: h.code.clone(),
            },
        );
        i = i + 1;
    }
    let found = entries.len() > 0;
    FileSymbolsResponse { file: owned(file_path), found, symbols: entries }
}

/// Which handling an intent gets: 1 for change, modify and refactor; 2 for
/// create; 0 (explore) for everything else.
pub open spec fn intent_class(intent: Seq<char>) -> int {
    if intent == "change"@ || intent == "modify"@ || intent == "refactor"@ {
        1
    } else if intent == "create"@ {
        2
    } else {
        0
    }
}

fn intent_of(intent: &str) -> (r: u8)
    ensures
        r as int == intent_class(intent@),
{
    let i = chars_of(intent);
    if eq_seq(&i, &chars_of("change")) || eq_seq(&i, &chars_of("modify")) || eq_seq(&i, &chars_of("refactor")) {
        1
    } else if eq_seq(&i, &chars_of("create")) {
        2
    } else {
        0
    }
}

/// `refs` shows `deps` one for one.
pub open spec fn refers_all(refs: Seq<Reference>, deps: Seq<DependencyInfo>) -> bool {
    refs.len() == deps.len() && forall|k: int| 0 <= k < deps.len() ==> refers(#[trigger] refs[k], deps[k])
}

fn references(deps: &Vec<DependencyInfo>) -> (r: Vec<Reference>)
    ensures
        refers_all(r@, deps@),
{
    let mut r: Vec<Reference> = Vec::new();
    let mut i: usize = 0;
    while i < deps.len()
        invariant
            i <= deps@.len(),
            r@.len() == i,
            forall|k: int| 0 <= k < i ==> refers(#[trigger] r@[k], deps@[k]),
        decreases deps@.len() - i,
    {
        r.push(Reference::from_dep(&deps[i]));
        i = i + 1;
    }
    r
}

/// The text `s` with every trailing `)` removed.
pub open spec fn strip_close_parens(s: Seq<char>) -> Seq<char>
    decreases s.len(),
{
    if s.len() > 0 && s.last() == ')' {
        strip_close_parens(s.drop_last())
    } else {
        s
    }
}

/// What a line contributes to signature extraction: `None` if it is not a
/// definition line, else the parse of the signature it holds.
pub open spec fn signature_on_line(l: Seq<char>) -> Option<Option<SignatureView>> {
    let t = trim(l);
    if has_prefix(t, "fn "@) || has_substring(t, " fn "@) {
        let f = find_seq_from(t, "fn "@, 0).unwrap();
        let rest = t.subrange(f, t.len() as int);
        let end = match find_char_from(rest, '{', 0) {
            Some(e) => e,
            None => rest.len() as int,
        };
        Some(parse_signature(rest.subrange(0, end)))
    } else if has_prefix(t, "def "@) {
        let end = match find_char_from(t, ':', 0) {
            Some(e) => e,
            None => t.len() as int,
        };
        Some(parse_signature(strip_close_parens(t.subrange(4, end)).push(')')))
    } else if has_prefix(t, "function "@) {
        let end = match find_char_from(t, '{', 0) {
            Some(e) => e,
            None => t.len() as int,
        };
        Some(parse_signature(t.subrange(9, end)))
    } else {
        None
    }
}

/// The signature of the first definition line among `lines[i..]`.
pub open spec fn signature_from(lines: Seq<Seq<char>>, i: int) -> Option<SignatureView>
    decreases lines.len() - i,
{
    if i < 0 || i >= lines.len() {
        None
    } else {
        match signature_on_line(lines[i]) {
            Some(s) => s,
            None => signature_from(lines, i + 1),
        }
    }
}

/// Removes every trailing `)`.
fn strip_parens(v: &Vec<char>) -> (r: Vec<char>)
    ensures
        r@ == strip_close_parens(v@),
{
    let mut e = v.len();
    assert(v@.subrange(0, e as int) =~= v@);
    while e > 0 && v[e - 1] == ')'
        invariant
            e <= v@.len(),
            strip_close_parens(v@) == strip_close_parens(v@.subrange(0, e as int)),
        decreases e,
    {
        assert(v@.subrange(0, e as int).drop_last() =~= v@.subrange(0, e - 1));
        e = e - 1;
    }
    slice_chars(v, 0, e)
}

/// The signature on one definition line (`Some(None)` if it does not parse).
fn line_signature(l: &Vec<char>) -> (r: Option<Option<Signature>>)
    ensures
        match r {
            None => signature_on_line(l@) is None,
            Some(None) => signature_on_line(l@) == Some(None::<SignatureView>),
            Some(Some(s)) => signature_on_line(l@) == Some(Some(s@)),
        },
{
    let t = trim_chars(l);
    let fn_kw = chars_of("fn ");
    let def_kw = chars_of("def ");
    let function_kw = chars_of("function ");
    if starts_with_seq(&t, &fn_kw) || contains_seq(&t, &chars_of(" fn ")) {
        let f = match find_seq(&t, &fn_kw, 0) {
            Some(f) => f,
            None => {
                proof {
                    reveal_strlit(" fn ");
                    reveal_strlit("fn ");
                    if has_substring(t@, " fn "@) {
                        let k = choose|k: int| crate::text::occurs_at(t@, " fn "@, k);
                        assert(t@.subrange(k, k + 4)[1] == 'f');
                        assert(t@.subrange(k, k + 4)[2] == 'n');
                        assert(t@.subrange(k, k + 4)[3] == ' ');
                        assert(t@.subrange(k + 1, k + 4) =~= "fn "@);
                        lemma_find_seq_finds(t@, "fn "@, 0, k + 1);
                    } else {
                        lemma_find_seq_finds(t@, "fn "@, 0, 0);
                    }
                }
                return None;
            },
        };
        let rest = slice_chars(&t, f, t.len());
        let end = match find_char(&rest, '{', 0) {
            Some(e) => e,
            None => rest.len(),
        };
        let sig = slice_chars(&rest, 0, end);
        Some(Signature::parse(string_of(sig.as_slice()).as_str()))
    } else if starts_with_seq(&t, &def_kw) {
        let end = match find_char(&t, ':', 0) {
            Some(e) => e,
            None => t.len(),
        };
        proof {
            reveal_strlit("def ");
            if end < 4 {
                assert(t@.subrange(0, 4) == def_kw@);
                assert(t@.subrange(0, 4)[end as int] == t@[end as int]);
            }
        }
        let mut body = strip_parens(&slice_chars(&t, 4, end));
        body.push(')');
        Some(Signature::parse(string_of(body.as_slice()).as_str()))
    } else if starts_with_seq(&t, &function_kw) {
        let end = match find_char(&t, '{', 0) {
            Some(e) => e,
            None => t.len(),
        };
        proof {
            reveal_strlit("function ");
            if end < 9 {
                assert(t@.subrange(0, 9) == function_kw@);
                assert(t@.subrange(0, 9)[end as int] == t@[end as int]);
            }
        }
        Some(Signature::parse(string_of(slice_chars(&t, 9, end).as_slice()).as_str()))
    } else {
        None
    }
}

/// If `n` occurs at `k`, the first occurrence from `i` is found.
proof fn lemma_find_seq_finds(h: Seq<char>, n: Seq<char>, i: int, k: int)
    requires
        0 <= i <= k,
        crate::text::occurs_at(h, n, k),
    ensures
        find_seq_from(h, n, i) is Some,
    decreases k - i,
{
    if !crate::text::occurs_at(h, n, i) {
        lemma_find_seq_finds(h, n, i + 1, k);
    }
}

/// The signature of the first definition line of a code snippet: a line
/// starting with `fn ` or holding ` fn ` (Rust), starting with `def `
/// (Python) or with `function ` (JavaScript).
pub fn extract_signature_from_code(code: &str) -> (r: Option<Signature>)
    ensures
        match r {
            Some(s) => signature_from(lines_of(code@), 0) == Some(s@),
            None => signature_from(lines_of(code@), 0) is None,
        },
{
    let lines = split_lines(&chars_of(code));
    let ghost ls = lines@.map_values(|l: Vec<char>| l@);
    let mut i: usize = 0;
    while i < lines.len()
        invariant
            i <= lines@.len(),
            ls == lines@.map_values(|l: Vec<char>| l@),
            ls == lines_of(code@),
            signature_from(ls, 0) == signature_from(ls, i as int),
        decreases lines@.len() - i,
    {
        assert(ls[i as int] == lines@[i as int]@);
        match line_signature(&lines[i]) {
            Some(s) => {
                return s;
            },
            None => {},
        }
        i = i + 1;
    }
    None
}

/// The pieces joined with `", "`.
pub open spec fn join_comma(parts: Seq<Seq<char>>) -> Seq<char>
    decreases parts.len(),
{
    if parts.len() == 0 {
        Seq::empty()
    } else if parts.len() == 1 {
        parts[0]
    } else {
        join_comma(parts.drop_last()) + ", "@ + parts.last()
    }
}

/// `NAME(args..., <added>...)`: the existing arguments of the call, then a
/// placeholder for each added parameter.
pub open spec fn suggested_call(usage: Seq<char>, name: Seq<char>, added: Seq<(Seq<char>, Seq<char>)>) -> Seq<char> {
    let args = call_args(usage) + Seq::new(added.len(), |i: int| "<"@ + added[i].0 + ">"@);
    name + "("@ + join_comma(args) + ")"@
}

/// Appends `src` to `dst`.
fn append_chars(dst: &mut Vec<char>, src: &Vec<char>)
    ensures
        final(dst)@ == old(dst)@ + src@,
{
    let mut i: usize = 0;
    while i < src.len()
        invariant
            i <= src@.len(),
            dst@ == old(dst)@ + src@.subrange(0, i as int),
        decreases src@.len() - i,
    {
        dst.push(src[i]);
        i = i + 1;
    }
    assert(src@.subrange(0, src@.len() as int) =~= src@);
}

/// The suggested call for a usage under a new signature.
pub fn generate_suggested_call(current_usage: &str, new_sig: &Signature, added_params: &Vec<Param>) -> (r: String)
    ensures
        r@ == suggested_call(current_usage@, new_sig.name@, added_params@.map_values(|p: Param| p@)),
{
    let args = extract_call_args(current_usage);
    let ghost av = args@.map_values(|s: String| s@);
    let ghost added = added_params@.map_values(|p: Param| p@);
    let ghost all = av + Seq::new(added.len(), |i: int| "<"@ + added[i].0 + ">"@);
    let mut pieces: Vec<Vec<char>> = Vec::new();
    let mut i: usize = 0;
    while i < args.len()
        invariant
            i <= args@.len(),
            av == args@.map_values(|s: String| s@),
            added == added_params@.map_values(|p: Param| p@),
            all == av + Seq::new(added.len(), |i: int| "<"@ + added[i].0 + ">"@),
            pieces@.len() == i,
            forall|k: int| 0 <= k < i ==> (#[trigger] pieces@[k])@ == all[k],
        decreases args@.len() - i,
    {
        pieces.push(chars_of(args[i].as_str()));
        assert(av.len() == args@.len());
        assert(av[i as int] == args@[i as int]@);
        assert(all[i as int] == av[i as int]);
        i = i + 1;
    }
    let mut j: usize = 0;
    while j < added_params.len()
        invariant
            j <= added_params@.len(),
            av.len() == args@.len(),
            added == added_params@.map_values(|p: Param| p@),
            av == args@.map_values(|s: String| s@),
            all == av + Seq::new(added.len(), |i: int| "<"@ + added[i].0 + ">"@),
            pieces@.len() == args@.len() + j,
            forall|k: int| 0 <= k < args@.len() + j ==> (#[trigger] pieces@[k])@ == all[k],
        decreases added_params@.len() - j,
    {
        proof {
            reveal_strlit("<");
            reveal_strlit(">");
        }
        let mut p: Vec<char> = vec!['<'];
        append_chars(&mut p, &chars_of(added_params[j].name.as_str()));
        p.push('>');
        assert(p@ =~= "<"@ + added[j as int].0 + ">"@);
        assert(all[args@.len() + j] == "<"@ + added[j as int].0 + ">"@);
        pieces.push(p);
        j = j + 1;
    }
    let mut out = chars_of(new_sig.name.as_str());
    out.push('(');
    let ghost head = out@;
    assert(head == new_sig.name@.push('('));
    let mut k: usize = 0;
    while k < pieces.len()
        invariant
            k <= pieces@.len(),
            pieces@.len() == all.len(),
            forall|m: int| 0 <= m < pieces@.len() ==> (#[trigger] pieces@[m])@ == all[m],
            out@ == head + join_comma(all.subrange(0, k as int)),
            head == new_sig.name@.push('('),
        decreases pieces@.len() - k,
    {
        proof {
            reveal_strlit(", ");
        }
        if k > 0 {
            out.push(',');
            out.push(' ');
        }
        append_chars(&mut out, &pieces[k]);
        proof {
            let s = all.subrange(0, k + 1);
            assert(s.drop_last() =~= all.subrange(0, k as int));
            if k == 0 {
                assert(join_comma(s) == s[0]);
            }
            assert(out@ =~= head + join_comma(s));
        }
        k = k + 1;
    }
    out.push(')');
    proof {
        reveal_strlit("(");
        reveal_strlit(")");
    }
    assert(all.subrange(0, all.len() as int) =~= all);
    assert(out@ =~= new_sig.name@ + "("@ + join_comma(all) + ")"@);
    string_of(out.as_slice())
}


/// `name: type` for each parameter.
pub open spec fn typed_names(ps: Seq<(Seq<char>, Seq<char>)>) -> Seq<Seq<char>> {
    Seq::new(ps.len(), |i: int| ps[i].0 + ": "@ + ps[i].1)
}

/// The name of each parameter.
pub open spec fn bare_names(ps: Seq<(Seq<char>, Seq<char>)>) -> Seq<Seq<char>> {
    Seq::new(ps.len(), |i: int| ps[i].0)
}

/// The edit for a dependent whose code is `code`, found at `line`: the first
/// usage of `target`, with a rewrite when a new signature and a diff are given.
pub open spec fn edit_fits(
    e: Edit,
    code: Seq<char>,
    target: Seq<char>,
    line: usize,
    new_sig: Option<SignatureView>,
    diff: Option<(Seq<(Seq<char>, Seq<char>)>, Seq<(Seq<char>, Seq<char>)>)>,
) -> bool {
    let us = usages_of(code, target);
    if us.len() == 0 {
        &&& e.line == line
        &&& e.usage@ == target + "(...)"@
        &&& e.line_content@ == (if lines_of(code).len() > 0 { lines_of(code)[0] } else { Seq::empty() })
        &&& e.suggested is None
        &&& e.new_args@.len() == 0
        &&& e.removed_args@.len() == 0
    } else {
        &&& e.line == (if line + us[0].0 <= usize::MAX { (line + us[0].0) as usize } else { usize::MAX })
        &&& e.usage@ == us[0].1
        &&& e.line_content@ == us[0].2
        &&& match (new_sig, diff) {
            (Some(ns), Some((added, removed))) => {
                &&& e.suggested matches Some(sg) && sg@ == suggested_call(us[0].1, ns.name, added)
                &&& e.new_args@.map_values(|a: String| a@) == typed_names(added)
                &&& e.removed_args@.map_values(|a: String| a@) == bare_names(removed)
            },
            _ => e.suggested is None && e.new_args@.len() == 0 && e.removed_args@.len() == 0,
        }
    }
}

/// The strings of `ps` as `name: type`.
fn typed_args(ps: &Vec<Param>) -> (r: Vec<String>)
    ensures
        r@.map_values(|a: String| a@) == typed_names(ps@.map_values(|p: Param| p@)),
{
    proof {
        reveal_strlit(": ");
    }
    let mut r: Vec<String> = Vec::new();
    let mut i: usize = 0;
    while i < ps.len()
        invariant
            i <= ps@.len(),
            r@.len() == i,
            forall|k: int| 0 <= k < i ==> (#[trigger] r@[k])@ == ps@[k].name@ + ": "@ + ps@[k].typ@,
        decreases ps@.len() - i,
    {
        let mut t = chars_of(ps[i].name.as_str());
        t.push(':');
        t.push(' ');
        append_chars(&mut t, &chars_of(ps[i].typ.as_str()));
        proof {
            reveal_strlit(": ");
        }
        assert(t@ =~= ps@[i as int].name@ + ": "@ + ps@[i as int].typ@);
        r.push(string_of(t.as_slice()));
        i = i + 1;
    }
    assert(r@.map_values(|a: String| a@) =~= typed_names(ps@.map_values(|p: Param| p@)));
    r
}

/// The names of `ps`.
fn names_of(ps: &Vec<Param>) -> (r: Vec<String>)
    ensures
        r@.map_values(|a: String| a@) == bare_names(ps@.map_values(|p: Param| p@)),
{
    let mut r: Vec<String> = Vec::new();
    let mut i: usize = 0;
    while i < ps.len()
        invariant
            i <= ps@.len(),
            r@.len() == i,
            forall|k: int| 0 <= k < i ==> (#[trigger] r@[k])@ == ps@[k].name@,
        decreases ps@.len() - i,
    {
        r.push(ps[i].name.clone());
        i = i + 1;
    }
    assert(r@.map_values(|a: String| a@) =~= bare_names(ps@.map_values(|p: Param| p@)));
    r
}

/// The view of an optional signature.
pub open spec fn sig_view(s: Option<Signature>) -> Option<SignatureView> {
    match s {
        Some(x) => Some(x@),
        None => None,
    }
}

/// The view of an optional parameter diff.
pub open spec fn diff_view(d: Option<(Vec<Param>, Vec<Param>)>) -> Option<(Seq<(Seq<char>, Seq<char>)>, Seq<(Seq<char>, Seq<char>)>)> {
    match d {
        Some((a, r)) => Some((a@.map_values(|p: Param| p@), r@.map_values(|p: Param| p@))),
        None => None,
    }
}

/// The edit for one dependent: where it uses `target`, and how to rewrite
/// the call for a new signature.
pub fn build_edit(
    graph: &CodeGraph,
    target: &str,
    dep: &DependencyInfo,
    new_sig: &Option<Signature>,
    sig_diff: &Option<(Vec<Param>, Vec<Param>)>,
) -> (e: Edit)
    requires
        dep.node < graph@.nodes.len(),
    ensures
        e.file@ == dep.file@,
        e.in_symbol@ == dep.symbol@,
        e.context@.len() == 0,
        edit_fits(e, graph@.nodes[dep.node as int].code, target@, dep.line, sig_view(*new_sig), diff_view(*sig_diff)),
{
    let code = &graph.node(dep.node).code_snippet;
    let usages = find_usages_in_code(code.as_str(), target);
    if usages.len() == 0 {
        let lines = split_lines(&chars_of(code.as_str()));
        let first = if lines.len() > 0 {
            string_of(lines[0].as_slice())
        } else {
            String::new()
        };
        proof {
            if lines@.len() > 0 {
                assert(lines@.map_values(|l: Vec<char>| l@)[0] == lines@[0]@);
            }
            reveal_strlit("(...)");
        }
        let mut u = chars_of(target);
        append_chars(&mut u, &chars_of("(...)"));
        return Edit {
            file: dep.file.clone(),
            line: dep.line,
            in_symbol: dep.symbol.clone(),
            usage: string_of(u.as_slice()),
            line_content: first,
            suggested: None,
            new_args: Vec::new(),
            removed_args: Vec::new(),
            context: Vec::new(),
        };
    }
    let (offset, usage, content) = (usages[0].0, usages[0].1.clone(), usages[0].2.clone());
    let line = if dep.line <= usize::MAX - offset {
        dep.line + offset
    } else {
        usize::MAX
    };
    let (suggested, new_args, removed_args) = match (new_sig, sig_diff) {
        (Some(ns), Some((added, removed))) => (
            Some(generate_suggested_call(usage.as_str(), ns, added)),
            typed_args(added),
            names_of(removed),
        ),
        _ => (None, Vec::new(), Vec::new()),
    };
    Edit {
        file: dep.file.clone(),
        line,
        in_symbol: dep.symbol.clone(),
        usage,
        line_content: content,
        suggested,
        new_args,
        removed_args,
        context: Vec::new(),
    }
}


/// `h` reports a visible symbol of `g` whose name contains `q`.
pub open spec fn hit_of(h: SearchResult, g: crate::graph::GraphView, q: Seq<char>) -> bool {
    is_match(g, q, h.node as int) && reports(h, g, h.node as int)
}

/// `s` shows a visible symbol of `g` whose name matches `q`.
pub open spec fn symbol_hit(s: Symbol, g: crate::graph::GraphView, q: Seq<char>) -> bool {
    exists|h: SearchResult| #[trigger] reports(h, g, h.node as int) && is_match(g, q, h.node as int) && shows(s, h)
}

/// `s` shows a test for `symbol`: a visible symbol whose lower-case name
/// holds `test`, and that mentions `symbol` in its code or calls it.
pub open spec fn test_for(s: Symbol, g: crate::graph::GraphView, symbol: Seq<char>) -> bool {
    exists|h: SearchResult|
        #[trigger] reports(h, g, h.node as int) && g.is_symbol(h.node as int) && shows(s, h)
            && has_substring(lower_of(h.symbol@), "test"@) && (has_substring(h.code@, symbol)
            || linked(g, symbol, true, h.node as int))
}

/// `s` shows a visible symbol of kind `kind` not named `name`.
pub open spec fn similar_to(s: Symbol, g: crate::graph::GraphView, kind: NodeKind, name: Seq<char>) -> bool {
    exists|h: SearchResult|
        #[trigger] reports(h, g, h.node as int) && g.is_symbol(h.node as int) && shows(s, h) && h.kind == kind
            && h.symbol@ != name
}

/// The directory part of a path: everything before its last `/`.
pub open spec fn parent_dir(p: Seq<char>) -> Seq<char> {
    match crate::scan::rfind_char_before(p, '/', p.len() as int) {
        Some(k) => p.subrange(0, k),
        None => Seq::empty(),
    }
}

fn parent_of(p: &Vec<char>) -> (r: Vec<char>)
    ensures
        r@ == parent_dir(p@),
{
    match crate::scan::rfind_char(p, '/', p.len()) {
        Some(k) => slice_chars(p, 0, k),
        None => Vec::new(),
    }
}

/// `s` shows node `i` of `g`.
pub open spec fn shows_node(s: Symbol, g: crate::graph::GraphView, i: int) -> bool {
    &&& 0 <= i < g.nodes.len()
    &&& s.name@ == g.nodes[i].name
    &&& s.kind@ == node_kind_label(g.nodes[i].kind)
    &&& s.file@ == g.nodes[i].file
    &&& s.line == g.nodes[i].line_start
    &&& s.code@ == g.nodes[i].code
}

/// `syms` shows the nodes `ids` one for one.
pub open spec fn shows_nodes(syms: Seq<Symbol>, g: crate::graph::GraphView, ids: Seq<int>) -> bool {
    syms.len() == ids.len() && forall|k: int| 0 <= k < ids.len() ==> #[trigger] shows_node(syms[k], g, ids[k])
}

/// Is some node of `ids` named `name`?
pub open spec fn name_listed(g: crate::graph::GraphView, ids: Seq<int>, name: Seq<char>) -> bool {
    exists|k: int| 0 <= k < ids.len() && g.nodes[ids[k]].name == name
}

/// Tests among the first `n` hits: up to five whose lower-case name holds
/// `test` and whose code mentions `symbol`, in hit order.
pub open spec fn tests_in_hits(hits: Seq<SearchResult>, symbol: Seq<char>, n: int) -> Seq<int>
    decreases n,
{
    if n <= 0 {
        Seq::empty()
    } else {
        let acc = tests_in_hits(hits, symbol, n - 1);
        let h = hits[n - 1];
        if acc.len() < 5 && has_substring(lower_of(h.symbol@), "test"@) && has_substring(h.code@, symbol) {
            acc.push(h.node as int)
        } else {
            acc
        }
    }
}

/// Then, among the first `n` dependents, up to five in all: visible symbols
/// whose lower-case name holds `test` and whose name is not listed yet.
pub open spec fn tests_with_dependents(g: crate::graph::GraphView, deps: Seq<DependencyInfo>, first: Seq<int>, n: int) -> Seq<int>
    decreases n,
{
    if n <= 0 {
        first
    } else {
        let acc = tests_with_dependents(g, deps, first, n - 1);
        let d = deps[n - 1];
        if acc.len() < 5 && has_substring(lower_of(d.symbol@), "test"@) && g.is_symbol(d.node as int)
            && !name_listed(g, acc, d.symbol@) {
            acc.push(d.node as int)
        } else {
            acc
        }
    }
}

/// Is the symbol already listed under this name?
fn listed(tests: &Vec<Symbol>, name: &String, g: Ghost<crate::graph::GraphView>, ids: Ghost<Seq<int>>) -> (b: bool)
    requires
        shows_nodes(tests@, g@, ids@),
    ensures
        b == name_listed(g@, ids@, name@),
{
    let mut i: usize = 0;
    while i < tests.len()
        invariant
            i <= tests@.len(),
            shows_nodes(tests@, g@, ids@),
            forall|k: int| 0 <= k < i ==> g@.nodes[ids@[k]].name != name@,
        decreases tests@.len() - i,
    {
        assert(shows_node(tests@[i as int], g@, ids@[i as int]));
        if tests[i].name == *name {
            return true;
        }
        i = i + 1;
    }
    false
}

/// Up to five tests related to `symbol`: among the best 50 symbols whose
/// name holds `test`, those whose lower-case name holds `test` and whose
/// code mentions `symbol`; then dependents of `symbol` named like tests.
pub fn find_tests(graph: &CodeGraph, symbol: &str) -> (r: Vec<Symbol>)
    requires
        graph@.wf(),
    ensures
        r@.len() <= 5,
        forall|k: int| 0 <= k < r@.len() ==> #[trigger] test_for(r@[k], graph@, symbol@),
        exists|hits: Seq<SearchResult>, deps: Seq<DependencyInfo>|
            crate::graph::search_outcome(graph@, "test"@, 50, hits) && lists_linked(deps, graph@, symbol@, true)
                && shows_nodes(
                r@,
                graph@,
                tests_with_dependents(graph@, deps, tests_in_hits(hits, symbol@, hits.len() as int), deps.len() as int),
            ),
{
    proof {
        reveal_strlit("test");
    }
    let test_word = chars_of("test");
    let sym = chars_of(symbol);
    let mut tests: Vec<Symbol> = Vec::new();
    let hits = graph.search("test", 50);
    assert forall|k: int| 0 <= k < hits@.len() implies #[trigger] hit_of(hits@[k], graph@, "test"@) by {
        assert(reports(hits@[k], graph@, hits@[k].node as int));
    }
    let mut i: usize = 0;
    while i < hits.len()
        invariant
            i <= hits@.len(),
            tests@.len() <= 5,
            test_word@ == "test"@,
            sym@ == symbol@,
            forall|k: int| 0 <= k < hits@.len() ==> #[trigger] hit_of(hits@[k], graph@, "test"@),
            forall|k: int| 0 <= k < tests@.len() ==> #[trigger] test_for(tests@[k], graph@, symbol@),
            shows_nodes(tests@, graph@, tests_in_hits(hits@, symbol@, i as int)),
        decreases hits@.len() - i,
    {
        let h = &hits[i];
        assert(hit_of(hits@[i as int], graph@, "test"@));
        let ghost before = tests@;
        let lower = chars_of(lowercase(h.symbol.as_str()).as_str());
        if tests.len() < 5 && contains_seq(&lower, &test_word) && contains_seq(&chars_of(h.code.as_str()), &sym) {
            let s = Symbol::from_search_result(h);
            assert(test_for(s, graph@, symbol@));
            tests.push(s);
            assert forall|k: int| 0 <= k < tests@.len() implies #[trigger] test_for(tests@[k], graph@, symbol@) by {
                if k < before.len() {
                    assert(tests@[k] == before[k]);
                }
            }
        }
        proof {
            let ids = tests_in_hits(hits@, symbol@, i + 1);
            assert forall|k: int| 0 <= k < ids.len() implies #[trigger] shows_node(tests@[k], graph@, ids[k]) by {
                if k < before.len() {
                    assert(tests@[k] == before[k]);
                }
            }
        }
        i = i + 1;
    }
    let ghost first = tests_in_hits(hits@, symbol@, hits@.len() as int);
    let deps = graph.dependents(symbol);
    let mut j: usize = 0;
    while j < deps.len()
        invariant
            j <= deps@.len(),
            tests@.len() <= 5,
            test_word@ == "test"@,
            lists_linked(deps@, graph@, symbol@, true),
            forall|k: int| 0 <= k < tests@.len() ==> #[trigger] test_for(tests@[k], graph@, symbol@),
            shows_nodes(tests@, graph@, tests_with_dependents(graph@, deps@, first, j as int)),
        decreases deps@.len() - j,
    {
        let d = &deps[j];
        assert(crate::graph::linked_entry(deps@[j as int], graph@, symbol@, true));
        let ghost before = tests@;
        let ghost ids = tests_with_dependents(graph@, deps@, first, j as int);
        let lower = chars_of(lowercase(d.symbol.as_str()).as_str());
        let n = graph.node(d.node);
        if tests.len() < 5 && contains_seq(&lower, &test_word) && !n.removed && n.kind != NodeKind::File
            && !listed(&tests, &d.symbol, Ghost(graph@), Ghost(ids)) {
            let h = graph.report(d.node);
            let s = Symbol::from_search_result(&h);
            assert(test_for(s, graph@, symbol@));
            tests.push(s);
            assert forall|k: int| 0 <= k < tests@.len() implies #[trigger] test_for(tests@[k], graph@, symbol@) by {
                if k < before.len() {
                    assert(tests@[k] == before[k]);
                }
            }
        }
        proof {
            let ids2 = tests_with_dependents(graph@, deps@, first, j + 1);
            assert forall|k: int| 0 <= k < ids2.len() implies #[trigger] shows_node(tests@[k], graph@, ids2[k]) by {
                if k < before.len() {
                    assert(tests@[k] == before[k]);
                    assert(shows_node(before[k], graph@, ids[k]));
                }
            }
        }
        j = j + 1;
    }
    tests
}

/// Among the first `n` hits: up to five of kind `kind` named otherwise than
/// `name`; once three are taken, only those in directory `dir`.
pub open spec fn similar_in_hits(hits: Seq<SearchResult>, kind: NodeKind, name: Seq<char>, dir: Seq<char>, n: int) -> Seq<SearchResult>
    decreases n,
{
    if n <= 0 {
        Seq::empty()
    } else {
        let acc = similar_in_hits(hits, kind, name, dir, n - 1);
        let h = hits[n - 1];
        if acc.len() < 5 && h.kind == kind && h.symbol@ != name && (parent_dir(h.file@) == dir || acc.len() < 3) {
            acc.push(h)
        } else {
            acc
        }
    }
}

/// Up to five symbols of the reference's kind with another name, taken
/// from the best 100 symbols of the graph; once three are found, only
/// symbols in the reference's directory are added.
pub fn find_similar(graph: &CodeGraph, reference: &SearchResult) -> (r: Vec<Symbol>)
    ensures
        r@.len() <= 5,
        forall|k: int| 0 <= k < r@.len() ==> #[trigger] similar_to(r@[k], graph@, reference.kind, reference.symbol@),
        exists|hits: Seq<SearchResult>|
            crate::graph::search_outcome(graph@, ""@, 100, hits) && shows_all(
                r@,
                similar_in_hits(hits, reference.kind, reference.symbol@, parent_dir(reference.file@), hits.len() as int),
            ),
{
    let all = graph.search("", 100);
    assert forall|k: int| 0 <= k < all@.len() implies #[trigger] hit_of(all@[k], graph@, ""@) by {
        assert(reports(all@[k], graph@, all@[k].node as int));
    }
    let ref_dir = parent_of(&chars_of(reference.file.as_str()));
    let mut similar: Vec<Symbol> = Vec::new();
    let mut i: usize = 0;
    while i < all.len()
        invariant
            i <= all@.len(),
            similar@.len() <= 5,
            ref_dir@ == parent_dir(reference.file@),
            forall|k: int| 0 <= k < all@.len() ==> #[trigger] hit_of(all@[k], graph@, ""@),
            forall|k: int| 0 <= k < similar@.len() ==> #[trigger] similar_to(similar@[k], graph@, reference.kind, reference.symbol@),
            shows_all(similar@, similar_in_hits(all@, reference.kind, reference.symbol@, ref_dir@, i as int)),
        decreases all@.len() - i,
    {
        let h = &all[i];
        assert(hit_of(all@[i as int], graph@, ""@));
        let ghost before = similar@;
        if similar.len() < 5 && h.kind == reference.kind && h.symbol != reference.symbol {
            let dir = parent_of(&chars_of(h.file.as_str()));
            if eq_seq(&dir, &ref_dir) || similar.len() < 3 {
                let s = Symbol::from_search_result(h);
                assert(similar_to(s, graph@, reference.kind, reference.symbol@));
                similar.push(s);
                assert forall|k: int| 0 <= k < similar@.len() implies #[trigger] similar_to(similar@[k], graph@, reference.kind, reference.symbol@) by {
                    if k < before.len() {
                        assert(similar@[k] == before[k]);
                    }
                }
            }
        }
        proof {
            let hs = similar_in_hits(all@, reference.kind, reference.symbol@, ref_dir@, i + 1);
            assert forall|k: int| 0 <= k < hs.len() implies #[trigger] shows(similar@[k], hs[k]) by {
                if k < before.len() {
                    assert(similar@[k] == before[k]);
                }
            }
        }
        i = i + 1;
    }
    similar
}

/// Context for `query` under `intent`; see `get_context_for_change`.
pub fn get_context(graph: &CodeGraph, query: &str, intent: &str) -> (r: ContextResponse)
    requires
        graph@.wf(),
    ensures
        context_fits(r, graph@, query@, intent@, None),
{
    get_context_for_change(graph, query, intent, None)
}

/// What a context response holds for `query` under `intent`.
pub open spec fn context_fits(
    r: ContextResponse,
    g: crate::graph::GraphView,
    q: Seq<char>,
    intent: Seq<char>,
    new_sig: Option<Seq<char>>,
) -> bool {
    &&& r.query@ == q
    &&& r.intent@ == intent
    &&& r.found == (exists|i: int| is_match(g, q, i))
    &&& r.symbols@.len() <= 5
    &&& r.found == (r.symbols@.len() > 0)
    &&& forall|k: int| 0 <= k < r.symbols@.len() ==> #[trigger] symbol_hit(r.symbols@[k], g, q)
    &&& exists|hits: Seq<SearchResult>| crate::graph::search_outcome(g, q, 5, hits) && shows_all(r.symbols@, hits)
    &&& r.stats is None
    &&& !r.found ==> r.used_by@.len() == 0 && r.uses@.len() == 0 && r.edits@.len() == 0 && r.patterns@.len() == 0 && r.tests@.len() == 0
    &&& r.found && intent_class(intent) == 0 ==> {
        &&& exists|d: Seq<DependencyInfo>| lists_linked(d, g, q, true) && refers_all(r.used_by@, d)
        &&& exists|d: Seq<DependencyInfo>| lists_linked(d, g, q, false) && refers_all(r.uses@, d)
        &&& r.edits@.len() == 0 && r.patterns@.len() == 0 && r.tests@.len() == 0
    }
    &&& r.found && intent_class(intent) == 1 ==> {
        &&& exists|d: Seq<DependencyInfo>, tops: Seq<SearchResult>|
            lists_linked(d, g, q, true) && refers_all(r.used_by@, d) && crate::graph::search_outcome(g, q, 1, tops)
                && edits_for(r.edits@, d, g, q, new_signature_of(new_sig), diff_of(old_signature(tops), new_signature_of(new_sig)))
        &&& r.uses@.len() == 0 && r.patterns@.len() == 0
        &&& r.tests@.len() <= 5
        &&& forall|k: int| 0 <= k < r.tests@.len() ==> #[trigger] test_for(r.tests@[k], g, q)
    }
    &&& r.found && intent_class(intent) == 2 ==> {
        &&& r.used_by@.len() == 0 && r.uses@.len() == 0 && r.edits@.len() == 0 && r.tests@.len() == 0
        &&& r.patterns@.len() <= 5
        &&& exists|h: SearchResult| #[trigger] reports(h, g, h.node as int) && is_match(g, q, h.node as int) && forall|k: int| 0 <= k < r.patterns@.len() ==> #[trigger] similar_to(r.patterns@[k], g, h.kind, h.symbol@)
        &&& exists|hits: Seq<SearchResult>, sample: Seq<SearchResult>|
            crate::graph::search_outcome(g, q, 5, hits) && shows_all(r.symbols@, hits) && hits.len() > 0
                && crate::graph::search_outcome(g, ""@, 100, sample) && shows_all(
                r.patterns@,
                similar_in_hits(sample, hits[0].kind, hits[0].symbol@, parent_dir(hits[0].file@), sample.len() as int),
            )
    }
}

/// `syms` shows `hits` one for one.
pub open spec fn shows_all(syms: Seq<Symbol>, hits: Seq<SearchResult>) -> bool {
    syms.len() == hits.len() && forall|k: int| 0 <= k < hits.len() ==> #[trigger] shows(syms[k], hits[k])
}

/// The signature read from the code of the best hit, if any.
pub open spec fn old_signature(tops: Seq<SearchResult>) -> Option<SignatureView> {
    if tops.len() > 0 {
        signature_from(lines_of(tops[0].code@), 0)
    } else {
        None
    }
}

/// The parse of the new signature text, if one was given.
pub open spec fn new_signature_of(t: Option<Seq<char>>) -> Option<SignatureView> {
    match t {
        Some(x) => parse_signature(x),
        None => None,
    }
}

/// The parameters added and removed between two signatures, when both are known.
pub open spec fn diff_of(o: Option<SignatureView>, n: Option<SignatureView>) -> Option<(Seq<(Seq<char>, Seq<char>)>, Seq<(Seq<char>, Seq<char>)>)> {
    match (o, n) {
        (Some(a), Some(b)) => Some((added_params(a, b), removed_params(a, b))),
        _ => None,
    }
}

/// The view of an optional string slice.
pub open spec fn text_view(t: Option<&str>) -> Option<Seq<char>> {
    match t {
        Some(x) => Some(x@),
        None => None,
    }
}

/// One edit per dependent, in order, each at that dependent.
pub open spec fn edits_for(
    es: Seq<Edit>,
    deps: Seq<DependencyInfo>,
    g: crate::graph::GraphView,
    q: Seq<char>,
    ns: Option<SignatureView>,
    df: Option<(Seq<(Seq<char>, Seq<char>)>, Seq<(Seq<char>, Seq<char>)>)>,
) -> bool {
    es.len() == deps.len() && forall|k: int| 0 <= k < deps.len() ==> #[trigger] edit_at(es[k], deps[k], g, q, ns, df)
}

/// `e` is the edit at dependent `d` for the new signature `ns` and the diff `df`.
pub open spec fn edit_at(
    e: Edit,
    d: DependencyInfo,
    g: crate::graph::GraphView,
    q: Seq<char>,
    ns: Option<SignatureView>,
    df: Option<(Seq<(Seq<char>, Seq<char>)>, Seq<(Seq<char>, Seq<char>)>)>,
) -> bool {
    &&& e.file@ == d.file@
    &&& e.in_symbol@ == d.symbol@
    &&& edit_fits(e, g.nodes[d.node as int].code, q, d.line, ns, df)
}

/// Context for `query` under `intent`, with an optional new signature for
/// the change intents. The intents `change`, `modify` and `refactor` list
/// the dependents, one edit per dependent and related tests; `create` lists
/// similar symbols; any other intent explores: dependents and dependencies.
pub fn get_context_for_change(graph: &CodeGraph, query: &str, intent: &str, new_signature: Option<&str>) -> (r: ContextResponse)
    requires
        graph@.wf(),
    ensures
        context_fits(r, graph@, query@, intent@, text_view(new_signature)),
{
    let results = graph.search(query, 5);
    assert forall|k: int| 0 <= k < results@.len() implies #[trigger] hit_of(results@[k], graph@, query@) by {
        assert(reports(results@[k], graph@, results@[k].node as int));
    }
    let mut symbols: Vec<Symbol> = Vec::new();
    let mut i: usize = 0;
    while i < results.len()
        invariant
            i <= results@.len(),
            symbols@.len() == i,
            forall|k: int| 0 <= k < results@.len() ==> #[trigger] hit_of(results@[k], graph@, query@),
            forall|k: int| 0 <= k < i ==> #[trigger] symbol_hit(symbols@[k], graph@, query@),
            forall|k: int| 0 <= k < i ==> #[trigger] shows(symbols@[k], results@[k]),
        decreases results@.len() - i,
    {
        let s = Symbol::from_search_result(&results[i]);
        assert(hit_of(results@[i as int], graph@, query@));
        assert(symbol_hit(s, graph@, query@));
        symbols.push(s);
        i = i + 1;
    }
    let found = results.len() > 0;
    assert(crate::graph::search_outcome(graph@, query@, 5, results@));
    assert(shows_all(symbols@, results@));
    proof {
        if exists|n: int| is_match(graph@, query@, n) {
            if results@.len() == 0 {
                let n = choose|n: int| is_match(graph@, query@, n);
                assert(exists|k: int| 0 <= k < results@.len() && results@[k].node == n);
            }
        }
        if results@.len() > 0 {
            assert(reports(results@[0], graph@, results@[0].node as int));
        }
    }
    let mut response = ContextResponse {
        query: owned(query),
        intent: owned(intent),
        found,
        symbols,
        used_by: Vec::new(),
        uses: Vec::new(),
        edits: Vec::new(),
        patterns: Vec::new(),
        tests: Vec::new(),
        stats: None,
    };
    if !found {
        return response;
    }
    let class = intent_of(intent);
    if class == 1 {
        let deps = graph.dependents(query);
        response.used_by = references(&deps);
        let tops = graph.search(query, 1);
        let old_sig = if tops.len() > 0 {
            extract_signature_from_code(tops[0].code.as_str())
        } else {
            None
        };
        let ghost ns = new_signature_of(text_view(new_signature));
        let ghost df = diff_of(old_signature(tops@), ns);
        let new_sig = match new_signature {
            Some(text) => Signature::parse(text),
            None => None,
        };
        let sig_diff = match (&old_sig, &new_sig) {
            (Some(o), Some(n)) => Some(o.diff(n)),
            _ => None,
        };
        assert(sig_view(new_sig) == ns);
        assert(diff_view(sig_diff) == df);
        let mut edits: Vec<Edit> = Vec::new();
        let mut j: usize = 0;
        while j < deps.len()
            invariant
                j <= deps@.len(),
                lists_linked(deps@, graph@, query@, true),
                graph@.wf(),
                edits@.len() == j,
                forall|k: int| 0 <= k < j ==> #[trigger] edit_at(edits@[k], deps@[k], graph@, query@, ns, df),
                sig_view(new_sig) == ns,
                diff_view(sig_diff) == df,
            decreases deps@.len() - j,
        {
            assert(crate::graph::linked_entry(deps@[j as int], graph@, query@, true));
            let e = build_edit(graph, query, &deps[j], &new_sig, &sig_diff);
            assert(edit_at(e, deps@[j as int], graph@, query@, ns, df));
            edits.push(e);
            j = j + 1;
        }
        assert(crate::graph::search_outcome(graph@, query@, 1, tops@));
        assert(edits_for(edits@, deps@, graph@, query@, ns, df));
        response.edits = edits;
        response.tests = find_tests(graph, query);
        assert(lists_linked(deps@, graph@, query@, true) && refers_all(response.used_by@, deps@)
            && crate::graph::search_outcome(graph@, query@, 1, tops@) && edits_for(
            response.edits@,
            deps@,
            graph@,
            query@,
            new_signature_of(text_view(new_signature)),
            diff_of(old_signature(tops@), new_signature_of(text_view(new_signature))),
        ));
    } else if class == 2 {
        assert(reports(results@[0], graph@, results@[0].node as int));
        response.patterns = find_similar(graph, &results[0]);
        proof {
            let sample = choose|sample: Seq<SearchResult>|
                crate::graph::search_outcome(graph@, ""@, 100, sample) && shows_all(
                    response.patterns@,
                    similar_in_hits(sample, results@[0].kind, results@[0].symbol@, parent_dir(results@[0].file@), sample.len() as int),
                );
            assert(shows_all(response.symbols@, results@));
            assert(crate::graph::search_outcome(graph@, query@, 5, results@));
        }
    } else {
        let deps = graph.dependents(query);
        response.used_by = references(&deps);
        let callees = graph.dependencies(query);
        response.uses = references(&callees);
    }
    response
}


/// A JavaScript or TypeScript path that looks like server code, judged on
/// its lower-case form.
pub open spec fn backend_path(l: Seq<char>) -> bool {
    has_substring(l, "/server/"@) || has_substring(l, "/backend/"@) || has_substring(l, "/api/"@)
        || has_substring(l, "/routes/"@) || has_substring(l, "/controllers/"@) || has_substring(
        l,
        "/handlers/"@,
    ) || has_substring(l, "server."@) || has_substring(l, "app."@) || crate::text::has_suffix(
        l,
        ".server.ts"@,
    ) || crate::text::has_suffix(l, ".server.js"@)
}

fn ends_with(h: &Vec<char>, n: &str) -> (b: bool)
    ensures
        b == crate::text::has_suffix(h@, n@),
{
    let nv = chars_of(n);
    if nv.len() > h.len() {
        return false;
    }
    let r = crate::text::matches_at(h, &nv, h.len() - nv.len());
    r
}

/// Does the path look like server code?
pub fn is_backend_file(path: &str) -> (b: bool)
    ensures
        b == backend_path(lower_of(path@)),
{
    let l = chars_of(lowercase(path).as_str());
    contains_seq(&l, &chars_of("/server/")) || contains_seq(&l, &chars_of("/backend/")) || contains_seq(
        &l,
        &chars_of("/api/"),
    ) || contains_seq(&l, &chars_of("/routes/")) || contains_seq(&l, &chars_of("/controllers/"))
        || contains_seq(&l, &chars_of("/handlers/")) || contains_seq(&l, &chars_of("server."))
        || contains_seq(&l, &chars_of("app.")) || ends_with(&l, ".server.ts") || ends_with(&l, ".server.js")
}

} // verus!
