//! The code graph: a vector of nodes (files and symbols) and a vector of
//! typed edges between node indices.
//!
//! Nodes are never deleted: a removed node keeps its index and carries a
//! tombstone, so ids stay stable across incremental updates and save/load.
//! An edge is visible exactly when both of its endpoints are.

use vstd::prelude::*;

use crate::text::{chars_of, contains_seq, eq_seq, has_prefix, has_substring, starts_with_seq};

verus! {

/// The kind of a node: a file, or one of the symbol kinds.
#[derive(Clone, Copy, Debug, PartialEq, Eq, Structural)]
pub enum NodeKind {
    File,
    Function,
    Method,
    Struct,
    Enum,
    Trait,
    Impl,
    Class,
    Interface,
    Type,
    Constant,
    Module,
    Variable,
    Import,
}

/// The kind of a directed edge.
#[derive(Clone, Copy, Debug, PartialEq, Eq, Structural)]
pub enum EdgeKind {
    /// File -> Symbol
    Defines,
    /// Symbol -> Symbol
    Calls,
    /// File -> File
    Imports,
    /// Symbol -> Symbol
    References,
    /// Symbol -> Symbol, for nested scopes
    Contains,
}

impl NodeKind {
    /// The lower-case label of the kind.
    pub fn label(&self) -> (r: &'static str)
        ensures
            r@ == node_kind_label(*self),
    {
        match self {
            NodeKind::File => "file",
            NodeKind::Function => "function",
            NodeKind::Method => "method",
            NodeKind::Struct => "struct",
            NodeKind::Enum => "enum",
            NodeKind::Trait => "trait",
            NodeKind::Impl => "impl",
            NodeKind::Class => "class",
            NodeKind::Interface => "interface",
            NodeKind::Type => "type",
            NodeKind::Constant => "constant",
            NodeKind::Module => "module",
            NodeKind::Variable => "variable",
            NodeKind::Import => "import",
        }
    }
}

impl EdgeKind {
    /// The lower-case label of the relationship.
    pub fn label(&self) -> (r: &'static str)
        ensures
            r@ == edge_kind_label(*self),
    {
        match self {
            EdgeKind::Defines => "defines",
            EdgeKind::Calls => "calls",
            EdgeKind::Imports => "imports",
            EdgeKind::References => "references",
            EdgeKind::Contains => "contains",
        }
    }
}

pub open spec fn node_kind_label(k: NodeKind) -> Seq<char> {
    match k {
        NodeKind::File => "file"@,
        NodeKind::Function => "function"@,
        NodeKind::Method => "method"@,
        NodeKind::Struct => "struct"@,
        NodeKind::Enum => "enum"@,
        NodeKind::Trait => "trait"@,
        NodeKind::Impl => "impl"@,
        NodeKind::Class => "class"@,
        NodeKind::Interface => "interface"@,
        NodeKind::Type => "type"@,
        NodeKind::Constant => "constant"@,
        NodeKind::Module => "module"@,
        NodeKind::Variable => "variable"@,
        NodeKind::Import => "import"@,
    }
}

pub open spec fn edge_kind_label(k: EdgeKind) -> Seq<char> {
    match k {
        EdgeKind::Defines => "defines"@,
        EdgeKind::Calls => "calls"@,
        EdgeKind::Imports => "imports"@,
        EdgeKind::References => "references"@,
        EdgeKind::Contains => "contains"@,
    }
}

/// One node of the graph. For a file node, `name` and `file_path` are both
/// the file's path and the line numbers are zero.
#[derive(Clone, Debug)]
pub struct NodeData {
    pub kind: NodeKind,
    pub name: String,
    pub file_path: String,
    pub line_start: usize,
    pub line_end: usize,
    pub code_snippet: String,
    /// Short name of the enclosing scope of a symbol, if any.
    pub parent: Option<String>,
    pub removed: bool,
}

/// The view of an optional string.
pub open spec fn opt_text(o: Option<String>) -> Option<Seq<char>> {
    match o {
        Some(t) => Some(t@),
        None => None,
    }
}

/// A copy of an optional string.
pub fn copy_opt(o: &Option<String>) -> (r: Option<String>)
    ensures
        r == *o,
{
    match o {
        Some(t) => Some(t.clone()),
        None => None,
    }
}

/// The mathematical content of a node.
pub struct NodeView {
    pub kind: NodeKind,
    pub name: Seq<char>,
    pub file: Seq<char>,
    pub line_start: usize,
    pub line_end: usize,
    pub code: Seq<char>,
    pub parent: Option<Seq<char>>,
    pub removed: bool,
}

impl View for NodeData {
    type V = NodeView;

    open spec fn view(&self) -> NodeView {
        NodeView {
            kind: self.kind,
            name: self.name@,
            file: self.file_path@,
            line_start: self.line_start,
            line_end: self.line_end,
            code: self.code_snippet@,
            parent: opt_text(self.parent),
            removed: self.removed,
        }
    }
}

impl NodeData {
    /// A field-by-field copy.
    pub fn copy(&self) -> (r: NodeData)
        ensures
            r@ == self@,
    {
        NodeData {
            kind: self.kind,
            name: self.name.clone(),
            file_path: self.file_path.clone(),
            line_start: self.line_start,
            line_end: self.line_end,
            code_snippet: self.code_snippet.clone(),
            parent: copy_opt(&self.parent),
            removed: self.removed,
        }
    }
}

/// A directed edge between two node indices.
#[derive(Clone, Copy, Debug, PartialEq, Eq, Structural)]
pub struct Edge {
    pub src: usize,
    pub dst: usize,
    pub kind: EdgeKind,
}

/// The mathematical content of a graph.
pub struct GraphView {
    pub nodes: Seq<NodeView>,
    pub edges: Seq<Edge>,
}

impl GraphView {
    /// Every edge joins two existing nodes, and call edges join symbols.
    pub open spec fn wf(&self) -> bool {
        forall|j: int|
            0 <= j < self.edges.len() ==> {
                let e = #[trigger] self.edges[j];
                &&& e.src < self.nodes.len()
                &&& e.dst < self.nodes.len()
                &&& e.kind == EdgeKind::Calls ==> self.nodes[e.src as int].kind != NodeKind::File
                    && self.nodes[e.dst as int].kind != NodeKind::File
            }
    }

    pub open spec fn visible(&self, i: int) -> bool {
        0 <= i < self.nodes.len() && !self.nodes[i].removed
    }

    pub open spec fn is_symbol(&self, i: int) -> bool {
        self.visible(i) && self.nodes[i].kind != NodeKind::File
    }

    pub open spec fn is_file(&self, i: int) -> bool {
        self.visible(i) && self.nodes[i].kind == NodeKind::File
    }

    pub open spec fn edge_visible(&self, e: Edge) -> bool {
        self.visible(e.src as int) && self.visible(e.dst as int)
    }
}

/// Counts of what is visible.
#[derive(Clone, Copy, Debug, PartialEq, Eq, Structural)]
pub struct GraphStats {
    pub file_count: usize,
    pub symbol_count: usize,
    pub total_edges: usize,
}

/// Number of visible file nodes among the first `n` nodes.
pub open spec fn count_files(g: GraphView, n: int) -> nat
    decreases n,
{
    if n <= 0 {
        0
    } else {
        count_files(g, n - 1) + if g.is_file(n - 1) {
            1nat
        } else {
            0nat
        }
    }
}

/// Number of visible symbol nodes among the first `n` nodes.
pub open spec fn count_symbols(g: GraphView, n: int) -> nat
    decreases n,
{
    if n <= 0 {
        0
    } else {
        count_symbols(g, n - 1) + if g.is_symbol(n - 1) {
            1nat
        } else {
            0nat
        }
    }
}

/// Number of visible edges among the first `n` edges.
pub open spec fn count_edges(g: GraphView, n: int) -> nat
    decreases n,
{
    if n <= 0 {
        0
    } else {
        count_edges(g, n - 1) + if g.edge_visible(g.edges[n - 1]) {
            1nat
        } else {
            0nat
        }
    }
}

/// The statistics of a graph: visible files, visible symbols, visible edges.
pub open spec fn stats_of(g: GraphView) -> (nat, nat, nat) {
    (
        count_files(g, g.nodes.len() as int),
        count_symbols(g, g.nodes.len() as int),
        count_edges(g, g.edges.len() as int),
    )
}

/// The typed code graph.
pub struct CodeGraph {
    nodes: Vec<NodeData>,
    edges: Vec<Edge>,
}

impl View for CodeGraph {
    type V = GraphView;

    closed spec fn view(&self) -> GraphView {
        GraphView { nodes: self.nodes@.map_values(|n: NodeData| n@), edges: self.edges@ }
    }
}

/// A file node for `path`.
pub open spec fn file_node(path: Seq<char>) -> NodeView {
    NodeView {
        kind: NodeKind::File,
        name: path,
        file: path,
        line_start: 0,
        line_end: 0,
        code: Seq::empty(),
        parent: None,
        removed: false,
    }
}

/// `n` with its tombstone set when it belongs to `path`.
pub open spec fn tombstone_if_in(n: NodeView, path: Seq<char>) -> NodeView {
    if n.file == path {
        NodeView { removed: true, ..n }
    } else {
        n
    }
}

impl CodeGraph {
    /// An empty graph.
    pub fn new() -> (r: CodeGraph)
        ensures
            r@.nodes.len() == 0,
            r@.edges.len() == 0,
            r@.wf(),
            one_definer(r@),
    {
        let r = CodeGraph { nodes: Vec::new(), edges: Vec::new() };
        assert(r@.nodes =~= Seq::<NodeView>::empty());
        r
    }

    /// The node at index `i`.
    pub fn node(&self, i: usize) -> (r: &NodeData)
        requires
            i < self@.nodes.len(),
        ensures
            r@ == self@.nodes[i as int],
    {
        &self.nodes[i]
    }

    /// Number of nodes, tombstoned ones included.
    pub fn node_count(&self) -> (r: usize)
        ensures
            r == self@.nodes.len(),
    {
        self.nodes.len()
    }

    /// The edges, in insertion order.
    pub fn edge_list(&self) -> (r: &Vec<Edge>)
        ensures
            r@ == self@.edges,
    {
        &self.edges
    }

    /// The index of the first visible file node with this path.
    pub fn find_file(&self, path: &String) -> (r: Option<usize>)
        ensures
            match r {
                Some(i) => self@.is_file(i as int) && self@.nodes[i as int].file == path@
                    && forall|k: int|
                    0 <= k < i ==> !(self@.is_file(k) && self@.nodes[k].file == path@),
                None => forall|k: int|
                    0 <= k < self@.nodes.len() ==> !(self@.is_file(k) && self@.nodes[k].file
                        == path@),
            },
    {
        let mut i: usize = 0;
        while i < self.nodes.len()
            invariant
                i <= self@.nodes.len(),
                self@.nodes.len() == self.nodes@.len(),
                forall|k: int|
                    0 <= k < i ==> !(self@.is_file(k) && self@.nodes[k].file == path@),
            decreases self.nodes@.len() - i,
        {
            let n = &self.nodes[i];
            assert(self@.nodes[i as int] == n@);
            if !n.removed && n.kind == NodeKind::File && n.file_path == *path {
                return Some(i);
            }
            i = i + 1;
        }
        None
    }

    /// Adds a file node, or returns the visible one that has this path.
    pub fn add_file(&mut self, path: String) -> (r: usize)
        requires
            old(self)@.wf(),
        ensures
            final(self)@.wf(),
            final(self)@.is_file(r as int),
            final(self)@.nodes[r as int].file == path@,
            final(self)@.edges == old(self)@.edges,
            (exists|k: int| old(self)@.is_file(k) && old(self)@.nodes[k].file == path@) ==> final(self)@ == old(self)@,
            !(exists|k: int| old(self)@.is_file(k) && old(self)@.nodes[k].file == path@) ==> {
                &&& final(self)@.nodes == old(self)@.nodes.push(file_node(path@))
                &&& r == old(self)@.nodes.len()
            },
    {
        match self.find_file(&path) {
            Some(i) => i,
            None => {
                let n = NodeData {
                    kind: NodeKind::File,
                    name: path.clone(),
                    file_path: path,
                    line_start: 0,
                    line_end: 0,
                    code_snippet: String::new(),
                    parent: None,
                    removed: false,
                };
                let r = self.nodes.len();
                self.nodes.push(n);
                assert(self@.nodes =~= old(self)@.nodes.push(file_node(n.file_path@)));
                r
            },
        }
    }

    /// Adds a symbol node; a new node is created on every call.
    pub fn add_symbol(
        &mut self,
        name: String,
        kind: NodeKind,
        file_path: String,
        line_start: usize,
        line_end: usize,
        code_snippet: String,
    ) -> (r: usize)
        requires
            old(self)@.wf(),
            kind != NodeKind::File,
        ensures
            final(self)@.wf(),
            r == old(self)@.nodes.len(),
            final(self)@.edges == old(self)@.edges,
            final(self)@.nodes == old(self)@.nodes.push(
                NodeView {
                    kind,
                    name: name@,
                    file: file_path@,
                    line_start,
                    line_end,
                    code: code_snippet@,
                    parent: None,
                    removed: false,
                },
            ),
    {
        self.add_symbol_in_scope(name, kind, file_path, line_start, line_end, code_snippet, None)
    }

    /// Adds a symbol node with the short name of its enclosing scope.
    pub fn add_symbol_in_scope(
        &mut self,
        name: String,
        kind: NodeKind,
        file_path: String,
        line_start: usize,
        line_end: usize,
        code_snippet: String,
        parent: Option<String>,
    ) -> (r: usize)
        requires
            old(self)@.wf(),
            kind != NodeKind::File,
        ensures
            final(self)@.wf(),
            r == old(self)@.nodes.len(),
            final(self)@.edges == old(self)@.edges,
            final(self)@.nodes == old(self)@.nodes.push(
                NodeView {
                    kind,
                    name: name@,
                    file: file_path@,
                    line_start,
                    line_end,
                    code: code_snippet@,
                    parent: opt_text(parent),
                    removed: false,
                },
            ),
    {
        let n = NodeData { kind, name, file_path, line_start, line_end, code_snippet, parent, removed: false };
        let r = self.nodes.len();
        let ghost nv = n@;
        self.nodes.push(n);
        assert(self@.nodes =~= old(self)@.nodes.push(nv));
        r
    }

    /// Adds an edge unless the very same edge is already there.
    pub fn add_edge(&mut self, src: usize, dst: usize, kind: EdgeKind)
        requires
            old(self)@.wf(),
            src < old(self)@.nodes.len(),
            dst < old(self)@.nodes.len(),
            kind == EdgeKind::Calls ==> old(self)@.nodes[src as int].kind != NodeKind::File
                && old(self)@.nodes[dst as int].kind != NodeKind::File,
        ensures
            final(self)@.wf(),
            final(self)@.nodes == old(self)@.nodes,
            old(self)@.edges.contains(Edge { src, dst, kind }) ==> final(self)@.edges == old(self)@.edges,
            !old(self)@.edges.contains(Edge { src, dst, kind }) ==> final(self)@.edges == old(self)@.edges.push(Edge { src, dst, kind }),
    {
        let e = Edge { src, dst, kind };
        let mut j: usize = 0;
        let mut found = false;
        while j < self.edges.len() && !found
            invariant
                j <= self.edges@.len(),
                self.edges@ == old(self).edges@,
                self.nodes@ == old(self).nodes@,
                found ==> old(self)@.edges.contains(e),
                !found ==> forall|k: int| 0 <= k < j ==> self.edges@[k] != e,
            decreases self.edges@.len() - j,
        {
            if self.edges[j] == e {
                assert(old(self)@.edges[j as int] == e);
                found = true;
            }
            j = j + 1;
        }
        if !found {
            self.edges.push(e);
            assert(!old(self)@.edges.contains(e));
        }
        assert(self@.nodes =~= old(self)@.nodes);
    }

    /// Tombstones the file node and every symbol owned by `path`.
    pub fn remove_file(&mut self, path: &String)
        requires
            old(self)@.wf(),
        ensures
            final(self)@.wf(),
            final(self)@.edges == old(self)@.edges,
            final(self)@.nodes.len() == old(self)@.nodes.len(),
            forall|i: int|
                0 <= i < old(self)@.nodes.len() ==> #[trigger] final(self)@.nodes[i]
                    == tombstone_if_in(old(self)@.nodes[i], path@),
            one_definer(old(self)@) ==> one_definer(final(self)@),
    {
        let mut i: usize = 0;
        while i < self.nodes.len()
            invariant
                i <= self.nodes@.len(),
                self.edges@ == old(self).edges@,
                self.nodes@.len() == old(self).nodes@.len(),
                forall|k: int|
                    0 <= k < i ==> self.nodes@[k]@ == tombstone_if_in(old(self).nodes@[k]@, path@),
                forall|k: int| i <= k < self.nodes@.len() ==> self.nodes@[k] == old(self).nodes@[k],
            decreases self.nodes@.len() - i,
        {
            if self.nodes[i].file_path == *path {
                let mut n = self.nodes[i].copy();
                n.removed = true;
                self.nodes.set(i, n);
            }
            i = i + 1;
        }
        assert forall|j: int| 0 <= j < self@.edges.len() implies {
            let e = #[trigger] self@.edges[j];
            &&& e.src < self@.nodes.len()
            &&& e.dst < self@.nodes.len()
            &&& e.kind == EdgeKind::Calls ==> self@.nodes[e.src as int].kind != NodeKind::File
                && self@.nodes[e.dst as int].kind != NodeKind::File
        } by {
            assert(old(self)@.edges[j] == self@.edges[j]);
        }
        proof {
            let (a, b) = (old(self)@, self@);
            if one_definer(a) {
                assert forall|t: int| #[trigger] b.is_symbol(t) implies (exists|j: int| defines_into(b, t, j)) && (forall|j1: int, j2: int|
                    defines_into(b, t, j1) && defines_into(b, t, j2) ==> j1 == j2) by {
                    assert(b.nodes[t] == tombstone_if_in(a.nodes[t], path@));
                    assert(a.is_symbol(t));
                    let j = choose|j: int| defines_into(a, t, j);
                    assert(defines_into(b, t, j));
                    assert forall|j1: int, j2: int| defines_into(b, t, j1) && defines_into(b, t, j2) implies j1 == j2 by {
                        assert(defines_into(a, t, j1));
                        assert(defines_into(a, t, j2));
                    }
                }
                assert forall|t: int, j: int| b.is_symbol(t) && #[trigger] defines_into(b, t, j) implies b.is_file(b.edges[j].src as int)
                    && b.nodes[b.edges[j].src as int].file == b.nodes[t].file by {
                    assert(b.nodes[t] == tombstone_if_in(a.nodes[t], path@));
                    assert(a.is_symbol(t));
                    assert(defines_into(a, t, j));
                    let f = a.edges[j].src as int;
                    assert(b.nodes[f] == tombstone_if_in(a.nodes[f], path@));
                }
            }
        }
    }

    /// Counts of visible files, symbols and edges.
    pub fn stats(&self) -> (r: GraphStats)
        ensures
            r.file_count == stats_of(self@).0,
            r.symbol_count == stats_of(self@).1,
            r.total_edges == stats_of(self@).2,
    {
        let mut files: usize = 0;
        let mut syms: usize = 0;
        let mut i: usize = 0;
        while i < self.nodes.len()
            invariant
                i <= self.nodes@.len(),
                self@.nodes.len() == self.nodes@.len(),
                files == count_files(self@, i as int),
                syms == count_symbols(self@, i as int),
                files + syms <= i,
            decreases self.nodes@.len() - i,
        {
            let n = &self.nodes[i];
            assert(self@.nodes[i as int] == n@);
            if !n.removed {
                if n.kind == NodeKind::File {
                    files = files + 1;
                } else {
                    syms = syms + 1;
                }
            }
            i = i + 1;
        }
        let mut edges: usize = 0;
        let mut j: usize = 0;
        while j < self.edges.len()
            invariant
                j <= self.edges@.len(),
                self@.edges == self.edges@,
                self@.nodes.len() == self.nodes@.len(),
                edges == count_edges(self@, j as int),
                edges <= j,
            decreases self.edges@.len() - j,
        {
            let e = self.edges[j];
            if e.src < self.nodes.len() && e.dst < self.nodes.len() {
                assert(self@.nodes[e.src as int] == self.nodes@[e.src as int]@);
                assert(self@.nodes[e.dst as int] == self.nodes@[e.dst as int]@);
                if !self.nodes[e.src].removed && !self.nodes[e.dst].removed {
                    edges = edges + 1;
                }
            }
            j = j + 1;
        }
        GraphStats { file_count: files, symbol_count: syms, total_edges: edges }
    }
}


/// How a name matches a query: 0 exact, 1 prefix, 2 elsewhere.
pub open spec fn match_rank(name: Seq<char>, q: Seq<char>) -> nat {
    if name == q {
        0
    } else if has_prefix(name, q) {
        1
    } else {
        2
    }
}

/// Lexicographic order on character sequences, by code point.
pub open spec fn lex_le(a: Seq<char>, b: Seq<char>) -> bool
    decreases a.len(),
{
    if a.len() == 0 {
        true
    } else if b.len() == 0 {
        false
    } else if a[0] != b[0] {
        a[0] < b[0]
    } else {
        lex_le(a.drop_first(), b.drop_first())
    }
}

pub proof fn lemma_lex_total(a: Seq<char>, b: Seq<char>)
    ensures
        lex_le(a, b) || lex_le(b, a),
    decreases a.len(),
{
    if a.len() > 0 && b.len() > 0 && a[0] == b[0] {
        lemma_lex_total(a.drop_first(), b.drop_first());
    }
}

pub proof fn lemma_lex_trans(a: Seq<char>, b: Seq<char>, c: Seq<char>)
    requires
        lex_le(a, b),
        lex_le(b, c),
    ensures
        lex_le(a, c),
    decreases a.len(),
{
    if a.len() > 0 && b.len() > 0 && c.len() > 0 && a[0] == b[0] && b[0] == c[0] {
        lemma_lex_trans(a.drop_first(), b.drop_first(), c.drop_first());
    }
}

/// Is node `i` a visible symbol whose name contains `q`?
pub open spec fn is_match(g: GraphView, q: Seq<char>, i: int) -> bool {
    g.is_symbol(i) && has_substring(g.nodes[i].name, q)
}

/// The search order: exact matches, then prefix matches, then the rest;
/// ties go to the shorter name, then to the smaller file path.
pub open spec fn rank_le(g: GraphView, q: Seq<char>, i: int, j: int) -> bool {
    let (a, b) = (g.nodes[i], g.nodes[j]);
    let (ra, rb) = (match_rank(a.name, q), match_rank(b.name, q));
    ra < rb || (ra == rb && (a.name.len() < b.name.len() || (a.name.len() == b.name.len()
        && lex_le(a.file, b.file))))
}

pub proof fn lemma_rank_total(g: GraphView, q: Seq<char>, i: int, j: int)
    ensures
        rank_le(g, q, i, j) || rank_le(g, q, j, i),
{
    lemma_lex_total(g.nodes[i].file, g.nodes[j].file);
}

pub proof fn lemma_rank_trans(g: GraphView, q: Seq<char>, i: int, j: int, k: int)
    requires
        rank_le(g, q, i, j),
        rank_le(g, q, j, k),
    ensures
        rank_le(g, q, i, k),
{
    if lex_le(g.nodes[i].file, g.nodes[j].file) && lex_le(g.nodes[j].file, g.nodes[k].file) {
        lemma_lex_trans(g.nodes[i].file, g.nodes[j].file, g.nodes[k].file);
    }
}

/// Compares `a[i..]` and `b[i..]` lexicographically.
fn lex_le_from(a: &Vec<char>, b: &Vec<char>, i: usize) -> (r: bool)
    requires
        i <= a@.len(),
        i <= b@.len(),
    ensures
        r == lex_le(a@.subrange(i as int, a@.len() as int), b@.subrange(i as int, b@.len() as int)),
    decreases a@.len() - i,
{
    let ghost sa = a@.subrange(i as int, a@.len() as int);
    let ghost sb = b@.subrange(i as int, b@.len() as int);
    if i == a.len() {
        true
    } else if i == b.len() {
        false
    } else if a[i] != b[i] {
        a[i] < b[i]
    } else {
        assert(sa.drop_first() =~= a@.subrange(i + 1, a@.len() as int));
        assert(sb.drop_first() =~= b@.subrange(i + 1, b@.len() as int));
        lex_le_from(a, b, i + 1)
    }
}

/// One hit of a symbol search.
#[derive(Clone, Debug)]
pub struct SearchResult {
    /// Index of the symbol's node.
    pub node: usize,
    pub symbol: String,
    pub kind: NodeKind,
    pub file: String,
    pub line_start: usize,
    pub line_end: usize,
    pub code: String,
}

impl SearchResult {
    /// A field-by-field copy.
    pub fn copy(&self) -> (r: SearchResult)
        ensures
            r == *self,
    {
        SearchResult {
            node: self.node,
            symbol: self.symbol.clone(),
            kind: self.kind,
            file: self.file.clone(),
            line_start: self.line_start,
            line_end: self.line_end,
            code: self.code.clone(),
        }
    }
}

/// `r` is an outcome of searching `g` for `q` with at most `limit` hits:
/// distinct visible matches, best first, none left out that ranks better
/// than one kept, and every match kept when fewer than `limit` are.
pub open spec fn search_outcome(g: GraphView, q: Seq<char>, limit: nat, r: Seq<SearchResult>) -> bool {
    &&& r.len() <= limit
    &&& forall|k: int| 0 <= k < r.len() ==> is_match(g, q, r[k].node as int) && #[trigger] reports(r[k], g, r[k].node as int)
    &&& forall|k1: int, k2: int| 0 <= k1 < k2 < r.len() ==> r[k1].node != r[k2].node
    &&& forall|k1: int, k2: int| 0 <= k1 < k2 < r.len() ==> rank_le(g, q, r[k1].node as int, r[k2].node as int)
    &&& forall|i: int, k: int|
        is_match(g, q, i) && 0 <= k < r.len() && !(exists|k2: int| 0 <= k2 < r.len() && r[k2].node == i) ==> rank_le(
            g,
            q,
            r[k].node as int,
            i,
        )
    &&& r.len() < limit ==> forall|i: int| is_match(g, q, i) ==> exists|k: int| 0 <= k < r.len() && r[k].node == i
}

/// `r` reports node `i` of `g`.
pub open spec fn reports(r: SearchResult, g: GraphView, i: int) -> bool {
    &&& r.node == i
    &&& 0 <= i < g.nodes.len()
    &&& r.symbol@ == g.nodes[i].name
    &&& r.kind == g.nodes[i].kind
    &&& r.file@ == g.nodes[i].file
    &&& r.line_start == g.nodes[i].line_start
    &&& r.line_end == g.nodes[i].line_end
    &&& r.code@ == g.nodes[i].code
}

impl CodeGraph {
    /// The result record for node `i`.
    pub fn report(&self, i: usize) -> (r: SearchResult)
        requires
            i < self@.nodes.len(),
        ensures
            reports(r, self@, i as int),
    {
        assert(self@.nodes[i as int] == self.nodes@[i as int]@);
        let n = &self.nodes[i];
        SearchResult {
            node: i,
            symbol: n.name.clone(),
            kind: n.kind,
            file: n.file_path.clone(),
            line_start: n.line_start,
            line_end: n.line_end,
            code: n.code_snippet.clone(),
        }
    }

    /// Indices of the visible symbols whose name contains `q`, in index order.
    fn matching_symbols(&self, q: &Vec<char>) -> (r: Vec<usize>)
        ensures
            forall|k: int| 0 <= k < r@.len() ==> is_match(self@, q@, #[trigger] r@[k] as int),
            forall|k1: int, k2: int| 0 <= k1 < k2 < r@.len() ==> r@[k1] < r@[k2],
            forall|i: int| is_match(self@, q@, i) ==> r@.contains(i as usize),
    {
        let mut r: Vec<usize> = Vec::new();
        let mut i: usize = 0;
        while i < self.nodes.len()
            invariant
                i <= self.nodes@.len(),
                self@.nodes.len() == self.nodes@.len(),
                forall|k: int| 0 <= k < r@.len() ==> is_match(self@, q@, #[trigger] r@[k] as int),
                forall|k: int| 0 <= k < r@.len() ==> #[trigger] r@[k] < i,
                forall|k1: int, k2: int| 0 <= k1 < k2 < r@.len() ==> r@[k1] < r@[k2],
                forall|j: int| 0 <= j < i && is_match(self@, q@, j) ==> r@.contains(j as usize),
            decreases self.nodes@.len() - i,
        {
            let n = &self.nodes[i];
            assert(self@.nodes[i as int] == n@);
            if !n.removed && n.kind != NodeKind::File {
                let name = chars_of(n.name.as_str());
                if contains_seq(&name, q) {
                    let ghost old_r = r@;
                    r.push(i);
                    assert(r@[r@.len() - 1] == i);
                    assert forall|j: int| 0 <= j < i && is_match(self@, q@, j) implies r@.contains(j as usize) by {
                        assert(old_r.contains(j as usize));
                        let k = choose|k: int| 0 <= k < old_r.len() && old_r[k] == j as usize;
                        assert(r@[k] == j as usize);
                    }
                }
            }
            i = i + 1;
        }
        r
    }

    /// Up to `limit` visible symbols whose name contains `query`, best first:
    /// exact matches, then prefix matches, then the rest; ties go to the
    /// shorter name, then to the smaller file path.
    pub fn search(&self, query: &str, limit: usize) -> (r: Vec<SearchResult>)
        ensures
            r@.len() <= limit,
            forall|k: int|
                0 <= k < r@.len() ==> is_match(self@, query@, r@[k].node as int) && #[trigger] reports(
                    r@[k],
                    self@,
                    r@[k].node as int,
                ),
            forall|k1: int, k2: int| 0 <= k1 < k2 < r@.len() ==> r@[k1].node != r@[k2].node,
            forall|k1: int, k2: int|
                0 <= k1 < k2 < r@.len() ==> rank_le(
                    self@,
                    query@,
                    r@[k1].node as int,
                    r@[k2].node as int,
                ),
            forall|i: int, k: int|
                is_match(self@, query@, i) && 0 <= k < r@.len() && !(exists|k2: int|
                    0 <= k2 < r@.len() && r@[k2].node == i) ==> rank_le(
                    self@,
                    query@,
                    r@[k].node as int,
                    i,
                ),
            r@.len() < limit ==> forall|i: int|
                is_match(self@, query@, i) ==> exists|k: int| 0 <= k < r@.len() && r@[k].node == i,
            search_outcome(self@, query@, limit as nat, r@),
    {
        let node_total = self.nodes.len();
        let q = chars_of(query);
        let cand = self.matching_symbols(&q);
        // Sort keys of each candidate.
        let mut ranks: Vec<u8> = Vec::new();
        let mut lens: Vec<usize> = Vec::new();
        let mut files: Vec<Vec<char>> = Vec::new();
        let mut c: usize = 0;
        while c < cand.len()
            invariant
                c <= cand@.len(),
                self@.nodes.len() == self.nodes@.len(),
                forall|k: int| 0 <= k < cand@.len() ==> is_match(self@, q@, #[trigger] cand@[k] as int),
                ranks@.len() == c,
                lens@.len() == c,
                files@.len() == c,
                forall|k: int|
                    0 <= k < c ==> #[trigger] ranks@[k] as nat == match_rank(
                        self@.nodes[cand@[k] as int].name,
                        q@,
                    ),
                forall|k: int| 0 <= k < c ==> #[trigger] lens@[k] == self@.nodes[cand@[k] as int].name.len(),
                forall|k: int| 0 <= k < c ==> #[trigger] files@[k]@ == self@.nodes[cand@[k] as int].file,
            decreases cand@.len() - c,
        {
            assert(is_match(self@, q@, cand@[c as int] as int));
            let n = &self.nodes[cand[c]];
            assert(self@.nodes[cand@[c as int] as int] == n@);
            let name = chars_of(n.name.as_str());
            let rank: u8 = if eq_seq(&name, &q) {
                0
            } else if starts_with_seq(&name, &q) {
                1
            } else {
                2
            };
            ranks.push(rank);
            lens.push(name.len());
            files.push(chars_of(n.file_path.as_str()));
            c = c + 1;
        }
        let ghost g = self@;
        let ghost qq = q@;
        let mut taken: Vec<bool> = Vec::new();
        let mut t: usize = 0;
        while t < cand.len()
            invariant
                t <= cand@.len(),
                taken@.len() == t,
                forall|k: int| 0 <= k < t ==> !#[trigger] taken@[k],
            decreases cand@.len() - t,
        {
            taken.push(false);
            t = t + 1;
        }
        let mut picked: Vec<usize> = Vec::new();
        let mut done = false;
        while picked.len() < limit && !done
            invariant
                g == self@,
                qq == q@,
                self@.nodes.len() == self.nodes@.len(),
                taken@.len() == cand@.len(),
                ranks@.len() == cand@.len(),
                lens@.len() == cand@.len(),
                files@.len() == cand@.len(),
                picked@.len() <= limit,
                forall|k: int| 0 <= k < cand@.len() ==> is_match(g, qq, #[trigger] cand@[k] as int),
                forall|k: int|
                    0 <= k < cand@.len() ==> #[trigger] ranks@[k] as nat == match_rank(
                        g.nodes[cand@[k] as int].name,
                        qq,
                    ),
                forall|k: int| 0 <= k < cand@.len() ==> #[trigger] lens@[k] == g.nodes[cand@[k] as int].name.len(),
                forall|k: int| 0 <= k < cand@.len() ==> #[trigger] files@[k]@ == g.nodes[cand@[k] as int].file,
                forall|p: int| 0 <= p < picked@.len() ==> #[trigger] picked@[p] < cand@.len(),
                forall|p: int| 0 <= p < picked@.len() ==> taken@[#[trigger] picked@[p] as int],
                forall|k: int|
                    0 <= k < taken@.len() && #[trigger] taken@[k] ==> exists|p: int|
                        0 <= p < picked@.len() && picked@[p] == k,
                forall|pa: int, pb: int| 0 <= pa < pb < picked@.len() ==> picked@[pa] != picked@[pb],
                forall|pa: int, pb: int|
                    0 <= pa < pb < picked@.len() ==> rank_le(
                        g,
                        qq,
                        cand@[picked@[pa] as int] as int,
                        cand@[picked@[pb] as int] as int,
                    ),
                forall|p: int, k: int|
                    0 <= p < picked@.len() && 0 <= k < cand@.len() && !taken@[k] ==> rank_le(
                        g,
                        qq,
                        cand@[#[trigger] picked@[p] as int] as int,
                        #[trigger] cand@[k] as int,
                    ),
                done ==> forall|k: int| 0 <= k < taken@.len() ==> #[trigger] taken@[k],
            decreases limit - picked@.len(), if done { 0int } else { 1int },
        {
            let mut best: Option<usize> = None;
            let mut k: usize = 0;
            while k < cand.len()
                invariant
                    g == self@,
                    qq == q@,
                    k <= cand@.len(),
                    taken@.len() == cand@.len(),
                    ranks@.len() == cand@.len(),
                    lens@.len() == cand@.len(),
                    files@.len() == cand@.len(),
                    forall|j: int|
                        0 <= j < cand@.len() ==> #[trigger] ranks@[j] as nat == match_rank(
                            g.nodes[cand@[j] as int].name,
                            qq,
                        ),
                    forall|j: int| 0 <= j < cand@.len() ==> #[trigger] lens@[j] == g.nodes[cand@[j] as int].name.len(),
                    forall|j: int| 0 <= j < cand@.len() ==> #[trigger] files@[j]@ == g.nodes[cand@[j] as int].file,
                    match best {
                        Some(b) => b < k && !taken@[b as int] && forall|j: int|
                            0 <= j < k && !taken@[j] ==> rank_le(
                                g,
                                qq,
                                cand@[b as int] as int,
                                #[trigger] cand@[j] as int,
                            ),
                        None => forall|j: int| 0 <= j < k ==> #[trigger] taken@[j],
                    },
                decreases cand@.len() - k,
            {
                if !taken[k] {
                    match best {
                        None => {
                            best = Some(k);
                            proof {
                                lemma_rank_total(g, qq, cand@[k as int] as int, cand@[k as int] as int);
                            }
                        },
                        Some(b) => {
                            let better = ranks[k] < ranks[b] || (ranks[k] == ranks[b] && (lens[k]
                                < lens[b] || (lens[k] == lens[b] && !lex_le_from(
                                &files[b],
                                &files[k],
                                0,
                            ))));
                            assert(files@[b as int]@.subrange(0, files@[b as int]@.len() as int)
                                =~= files@[b as int]@);
                            assert(files@[k as int]@.subrange(0, files@[k as int]@.len() as int)
                                =~= files@[k as int]@);
                            if better {
                                proof {
                                    let (ib, ik) = (cand@[b as int] as int, cand@[k as int] as int);
                                    lemma_rank_total(g, qq, ib, ik);
                                    assert(rank_le(g, qq, ik, ib));
                                    assert forall|j: int|
                                        0 <= j < k + 1 && !taken@[j] implies rank_le(
                                        g,
                                        qq,
                                        ik,
                                        #[trigger] cand@[j] as int,
                                    ) by {
                                        if j < k {
                                            lemma_rank_trans(g, qq, ik, ib, cand@[j] as int);
                                        } else {
                                            lemma_rank_total(g, qq, ik, ik);
                                        }
                                    }
                                }
                                best = Some(k);
                            } else {
                                assert(rank_le(g, qq, cand@[b as int] as int, cand@[k as int] as int));
                            }
                        },
                    }
                }
                k = k + 1;
            }
            match best {
                None => {
                    done = true;
                },
                Some(b) => {
                    let ghost old_picked = picked@;
                    let ghost old_taken = taken@;
                    taken.set(b, true);
                    picked.push(b);
                    assert forall|j: int|
                        0 <= j < taken@.len() && #[trigger] taken@[j] implies exists|p: int|
                            0 <= p < picked@.len() && picked@[p] == j by {
                        if j == b {
                            assert(picked@[picked@.len() - 1] == b);
                        } else {
                            assert(old_taken[j]);
                            let p = choose|p: int| 0 <= p < old_picked.len() && old_picked[p] == j;
                            assert(picked@[p] == j);
                        }
                    }
                    assert forall|pa: int, pb: int| 0 <= pa < pb < picked@.len() implies picked@[pa]
                        != picked@[pb] by {
                        if pb == picked@.len() - 1 {
                            assert(old_taken[old_picked[pa] as int]);
                        }
                    }
                },
            }
        }
        let mut r: Vec<SearchResult> = Vec::new();
        let mut p: usize = 0;
        while p < picked.len()
            invariant
                g == self@,
                qq == q@,
                qq == query@,
                p <= picked@.len(),
                r@.len() == p,
                forall|p: int| 0 <= p < picked@.len() ==> #[trigger] picked@[p] < cand@.len(),
                forall|k: int| 0 <= k < cand@.len() ==> is_match(g, qq, #[trigger] cand@[k] as int),
                forall|j: int|
                    0 <= j < p ==> #[trigger] r@[j].node == cand@[picked@[j] as int] && reports(
                        r@[j],
                        g,
                        r@[j].node as int,
                    ),
            decreases picked@.len() - p,
        {
            assert(is_match(g, qq, cand@[picked@[p as int] as int] as int));
            r.push(self.report(cand[picked[p]]));
            p = p + 1;
        }
        proof {
            assert forall|k1: int, k2: int| 0 <= k1 < k2 < r@.len() implies r@[k1].node != r@[k2].node by {
                assert(r@[k1].node == cand@[picked@[k1] as int]);
                assert(r@[k2].node == cand@[picked@[k2] as int]);
            }
            assert forall|k: int| 0 <= k < r@.len() implies is_match(self@, query@, r@[k].node as int) && #[trigger] reports(r@[k], self@, r@[k].node as int) by {
                assert(r@[k].node == cand@[picked@[k] as int]);
            }
            assert forall|k1: int, k2: int| 0 <= k1 < k2 < r@.len() implies rank_le(self@, query@, r@[k1].node as int, r@[k2].node as int) by {
                assert(r@[k1].node == cand@[picked@[k1] as int]);
                assert(r@[k2].node == cand@[picked@[k2] as int]);
            }
            assert forall|i: int, k: int|
                is_match(self@, query@, i) && 0 <= k < r@.len() && !(exists|k2: int|
                    0 <= k2 < r@.len() && r@[k2].node == i) implies rank_le(self@, query@, r@[k].node as int, i) by {
                assert(0 <= i < self.nodes@.len());
                assert(self.nodes@.len() == node_total);
                assert((i as usize) as int == i);
                assert(cand@.contains(i as usize));
                let c = choose|c: int| 0 <= c < cand@.len() && cand@[c] == i as usize;
                assert(r@[k].node == cand@[picked@[k] as int]);
                if taken@[c] {
                    let p = choose|p: int| 0 <= p < picked@.len() && picked@[p] == c;
                    assert(r@[p].node == cand@[picked@[p] as int]);
                    assert(r@[p].node == i);
                }
            }
            if r@.len() < limit {
                assert forall|i: int| is_match(self@, query@, i) implies exists|k: int| 0 <= k < r@.len() && r@[k].node == i by {
                    assert(0 <= i < self.nodes@.len());
                    assert(self.nodes@.len() == node_total);
                    assert((i as usize) as int == i);
                    assert(cand@.contains(i as usize));
                    let c = choose|c: int| 0 <= c < cand@.len() && cand@[c] == i as usize;
                    assert(taken@[c]);
                    let p = choose|p: int| 0 <= p < picked@.len() && picked@[p] == c;
                    assert(r@[p].node == cand@[picked@[p] as int]);
                    assert(r@[p].node == i);
                }
            }
        }
        r
    }
}


/// Edge `j` links node `u` to `name`: for callers (`callers == true`), `u`
/// calls or imports a node called `name`; for callees, a node called `name`
/// calls `u`. Only visible edges count.
pub open spec fn links(g: GraphView, name: Seq<char>, callers: bool, j: int, u: int) -> bool {
    let e = g.edges[j];
    &&& 0 <= j < g.edges.len()
    &&& g.edge_visible(e)
    &&& if callers {
        (e.kind == EdgeKind::Calls || e.kind == EdgeKind::Imports) && e.src == u
            && g.nodes[e.dst as int].name == name
    } else {
        e.kind == EdgeKind::Calls && e.dst == u && g.nodes[e.src as int].name == name
    }
}

/// Does some visible edge link `u` to `name`?
pub open spec fn linked(g: GraphView, name: Seq<char>, callers: bool, u: int) -> bool {
    exists|j: int| links(g, name, callers, j, u)
}

/// `d` describes node `i` of `g`, related to the query by `rel`.
pub open spec fn describes(d: DependencyInfo, g: GraphView, i: int) -> bool {
    &&& d.node == i
    &&& 0 <= i < g.nodes.len()
    &&& d.symbol@ == g.nodes[i].name
    &&& d.kind == g.nodes[i].kind
    &&& d.file@ == g.nodes[i].file
    &&& d.line == g.nodes[i].line_start
    &&& d.relationship == if g.nodes[i].kind == NodeKind::File {
        EdgeKind::Imports
    } else {
        EdgeKind::Calls
    }
}

/// A node related to a queried name.
#[derive(Clone, Debug)]
pub struct DependencyInfo {
    /// Index of the node.
    pub node: usize,
    pub symbol: String,
    pub kind: NodeKind,
    pub file: String,
    pub line: usize,
    pub relationship: EdgeKind,
}

/// `d` describes a node linked to `name`.
pub open spec fn linked_entry(d: DependencyInfo, g: GraphView, name: Seq<char>, callers: bool) -> bool {
    linked(g, name, callers, d.node as int) && describes(d, g, d.node as int)
}

/// `r` reports a visible symbol owned by `path`.
pub open spec fn file_entry(r: SearchResult, g: GraphView, path: Seq<char>) -> bool {
    g.is_symbol(r.node as int) && g.nodes[r.node as int].file == path && reports(r, g, r.node as int)
}

/// `r` lists, in index order and once each, exactly the nodes `u` with `linked(g, name, callers, u)`.
pub open spec fn lists_linked(r: Seq<DependencyInfo>, g: GraphView, name: Seq<char>, callers: bool) -> bool {
    &&& forall|k: int| 0 <= k < r.len() ==> #[trigger] linked_entry(r[k], g, name, callers)
    &&& forall|k1: int, k2: int| 0 <= k1 < k2 < r.len() ==> r[k1].node < r[k2].node
    &&& forall|u: int| linked(g, name, callers, u) ==> exists|k: int| 0 <= k < r.len() && r[k].node == u
}

/// `r` lists, in index order, exactly the visible symbols owned by `path`.
pub open spec fn lists_file_symbols(r: Seq<SearchResult>, g: GraphView, path: Seq<char>) -> bool {
    &&& forall|k: int| 0 <= k < r.len() ==> #[trigger] file_entry(r[k], g, path)
    &&& forall|k1: int, k2: int| 0 <= k1 < k2 < r.len() ==> r[k1].node < r[k2].node
    &&& forall|u: int| g.is_symbol(u) && g.nodes[u].file == path ==> exists|k: int| 0 <= k < r.len() && r[k].node == u
}

impl CodeGraph {
    /// For each node, whether some visible edge links it to `name`.
    fn link_marks(&self, name: &Vec<char>, callers: bool) -> (r: Vec<bool>)
        requires
            self@.wf(),
        ensures
            r@.len() == self@.nodes.len(),
            forall|u: int| 0 <= u < r@.len() ==> (#[trigger] r@[u] <==> linked(self@, name@, callers, u)),
    {
        let n = self.nodes.len();
        let mut marks: Vec<bool> = Vec::new();
        let mut i: usize = 0;
        while i < n
            invariant
                i <= n,
                marks@.len() == i,
                forall|u: int| 0 <= u < i ==> !#[trigger] marks@[u],
            decreases n - i,
        {
            marks.push(false);
            i = i + 1;
        }
        let ghost g = self@;
        let mut j: usize = 0;
        while j < self.edges.len()
            invariant
                g == self@,
                g.wf(),
                n == g.nodes.len(),
                n == self.nodes@.len(),
                g.edges == self.edges@,
                j <= g.edges.len(),
                marks@.len() == n,
                forall|u: int| 0 <= u < n ==> (#[trigger] marks@[u] <==> exists|jj: int| 0 <= jj < j && links(g, name@, callers, jj, u)),
            decreases g.edges.len() - j,
        {
            let e = self.edges[j];
            assert(g.edges[j as int] == e);
            assert(e.src < n && e.dst < n);
            let sn = &self.nodes[e.src];
            let dn = &self.nodes[e.dst];
            assert(g.nodes[e.src as int] == sn@);
            assert(g.nodes[e.dst as int] == dn@);
            let vis = !sn.removed && !dn.removed;
            let ghost old_marks = marks@;
            if vis {
                if callers {
                    if e.kind == EdgeKind::Calls || e.kind == EdgeKind::Imports {
                        let dname = chars_of(dn.name.as_str());
                        if eq_seq(&dname, name) {
                            marks.set(e.src, true);
                        }
                    }
                } else if e.kind == EdgeKind::Calls {
                    let sname = chars_of(sn.name.as_str());
                    if eq_seq(&sname, name) {
                        marks.set(e.dst, true);
                    }
                }
            }
            assert forall|u: int| 0 <= u < n implies (#[trigger] marks@[u] <==> exists|jj: int| 0 <= jj < j + 1 && links(g, name@, callers, jj, u)) by {
                if links(g, name@, callers, j as int, u) {
                    assert(marks@[u]);
                }
                if marks@[u] && !old_marks[u] {
                    assert(links(g, name@, callers, j as int, u));
                }
                if exists|jj: int| 0 <= jj < j + 1 && links(g, name@, callers, jj, u) {
                    let jj = choose|jj: int| 0 <= jj < j + 1 && links(g, name@, callers, jj, u);
                    if jj < j {
                        assert(old_marks[u]);
                    }
                }
            }
            j = j + 1;
        }
        marks
    }

    /// The record of node `i` as related to a query.
    fn describe(&self, i: usize) -> (r: DependencyInfo)
        requires
            i < self@.nodes.len(),
        ensures
            describes(r, self@, i as int),
    {
        assert(self@.nodes[i as int] == self.nodes@[i as int]@);
        let n = &self.nodes[i];
        DependencyInfo {
            node: i,
            symbol: n.name.clone(),
            kind: n.kind,
            file: n.file_path.clone(),
            line: n.line_start,
            relationship: if n.kind == NodeKind::File {
                EdgeKind::Imports
            } else {
                EdgeKind::Calls
            },
        }
    }

    /// The nodes linked to `name`, in index order.
    fn linked_nodes(&self, name: &str, callers: bool) -> (r: Vec<DependencyInfo>)
        requires
            self@.wf(),
        ensures
            lists_linked(r@, self@, name@, callers),
    {
        let q = chars_of(name);
        let marks = self.link_marks(&q, callers);
        let mut r: Vec<DependencyInfo> = Vec::new();
        let mut u: usize = 0;
        while u < marks.len()
            invariant
                u <= marks@.len(),
                marks@.len() == self@.nodes.len(),
                q@ == name@,
                forall|v: int| 0 <= v < marks@.len() ==> (#[trigger] marks@[v] <==> linked(self@, name@, callers, v)),
                forall|k: int| 0 <= k < r@.len() ==> #[trigger] linked_entry(r@[k], self@, name@, callers),
                forall|k: int| 0 <= k < r@.len() ==> #[trigger] r@[k].node < u,
                forall|k1: int, k2: int| 0 <= k1 < k2 < r@.len() ==> r@[k1].node < r@[k2].node,
                forall|v: int| 0 <= v < u && linked(self@, name@, callers, v) ==> exists|k: int| 0 <= k < r@.len() && r@[k].node == v,
            decreases marks@.len() - u,
        {
            if marks[u] {
                let ghost old_r = r@;
                r.push(self.describe(u));
                assert forall|k: int| 0 <= k < r@.len() implies #[trigger] linked_entry(r@[k], self@, name@, callers) by {
                    if k < old_r.len() {
                        assert(r@[k] == old_r[k]);
                        assert(linked_entry(old_r[k], self@, name@, callers));
                    } else {
                        assert(marks@[u as int]);
                        assert(r@[k].node == u);
                    }
                }
                assert forall|v: int| 0 <= v < u + 1 && linked(self@, name@, callers, v) implies exists|k: int| 0 <= k < r@.len() && r@[k].node == v by {
                    if v == u {
                        assert(r@[r@.len() - 1].node == v);
                    } else {
                        let k = choose|k: int| 0 <= k < old_r.len() && old_r[k].node == v;
                        assert(r@[k].node == v);
                    }
                }
            }
            u = u + 1;
        }
        proof {
            assert forall|v: int| linked(self@, name@, callers, v) implies exists|k: int| 0 <= k < r@.len() && r@[k].node == v by {
                let j = choose|j: int| links(self@, name@, callers, j, v);
                assert(self@.edges[j] == self@.edges[j]);
            }
        }
        r
    }

    /// The nodes that call (or, for files, import) something named `name`.
    pub fn dependents(&self, name: &str) -> (r: Vec<DependencyInfo>)
        requires
            self@.wf(),
        ensures
            lists_linked(r@, self@, name@, true),
    {
        self.linked_nodes(name, true)
    }

    /// The nodes called by any symbol named `name`.
    pub fn dependencies(&self, name: &str) -> (r: Vec<DependencyInfo>)
        requires
            self@.wf(),
        ensures
            lists_linked(r@, self@, name@, false),
    {
        self.linked_nodes(name, false)
    }

    /// The visible symbols owned by `path`, in index order.
    pub fn symbols_in_file(&self, path: &str) -> (r: Vec<SearchResult>)
        ensures
            lists_file_symbols(r@, self@, path@),
    {
        let p = chars_of(path);
        let mut r: Vec<SearchResult> = Vec::new();
        let mut u: usize = 0;
        while u < self.nodes.len()
            invariant
                u <= self.nodes@.len(),
                self.nodes@.len() == self@.nodes.len(),
                p@ == path@,
                forall|k: int| 0 <= k < r@.len() ==> #[trigger] file_entry(r@[k], self@, path@),
                forall|k: int| 0 <= k < r@.len() ==> #[trigger] r@[k].node < u,
                forall|k1: int, k2: int| 0 <= k1 < k2 < r@.len() ==> r@[k1].node < r@[k2].node,
                forall|v: int| 0 <= v < u && self@.is_symbol(v) && self@.nodes[v].file == path@ ==> exists|k: int| 0 <= k < r@.len() && r@[k].node == v,
            decreases self.nodes@.len() - u,
        {
            let n = &self.nodes[u];
            assert(self@.nodes[u as int] == n@);
            if !n.removed && n.kind != NodeKind::File {
                let f = chars_of(n.file_path.as_str());
                if eq_seq(&f, &p) {
                    let ghost old_r = r@;
                    r.push(self.report(u));
                    assert forall|k: int| 0 <= k < r@.len() implies #[trigger] file_entry(r@[k], self@, path@) by {
                        if k < old_r.len() {
                            assert(r@[k] == old_r[k]);
                            assert(file_entry(old_r[k], self@, path@));
                        } else {
                            assert(r@[k].node == u);
                        }
                    }
                    assert forall|v: int| 0 <= v < u + 1 && self@.is_symbol(v) && self@.nodes[v].file == path@ implies exists|k: int| 0 <= k < r@.len() && r@[k].node == v by {
                        if v == u {
                            assert(r@[r@.len() - 1].node == v);
                        } else {
                            let k = choose|k: int| 0 <= k < old_r.len() && old_r[k].node == v;
                            assert(r@[k].node == v);
                        }
                    }
                }
            }
            u = u + 1;
        }
        r
    }
}


/// A symbol definition found in one file.
#[derive(Clone, Debug)]
pub struct ExtractedSymbol {
    pub name: String,
    pub kind: NodeKind,
    pub line_start: usize,
    pub line_end: usize,
    pub code_snippet: String,
    /// Short name of the enclosing scope, if any.
    pub parent: Option<String>,
}

/// An import declaration found in one file.
#[derive(Clone, Debug)]
pub struct ExtractedImport {
    pub path: String,
    pub symbols: Vec<String>,
    pub line: usize,
}

/// A call found inside a named scope.
#[derive(Clone, Debug)]
pub struct ExtractedCall {
    pub caller: String,
    pub callee: String,
    pub line: usize,
}

/// Everything extracted from one source file.
#[derive(Clone, Debug)]
pub struct FileExtractions {
    pub file_path: String,
    pub symbols: Vec<ExtractedSymbol>,
    pub imports: Vec<ExtractedImport>,
    pub calls: Vec<ExtractedCall>,
}

/// Edge `j` is a `Defines` edge into node `s`.
pub open spec fn defines_into(g: GraphView, s: int, j: int) -> bool {
    0 <= j < g.edges.len() && g.edges[j].kind == EdgeKind::Defines && g.edges[j].dst == s
}

/// Every visible symbol has exactly one incoming `Defines` edge.
pub open spec fn one_definer(g: GraphView) -> bool {
    &&& forall|s: int|
        #[trigger] g.is_symbol(s) ==> (exists|j: int| defines_into(g, s, j)) && (forall|j1: int, j2: int|
            defines_into(g, s, j1) && defines_into(g, s, j2) ==> j1 == j2)
    &&& defined_by_own_file(g)
}

/// The `Defines` edge of every visible symbol comes from a visible file
/// node of the symbol's own path.
pub open spec fn defined_by_own_file(g: GraphView) -> bool {
    forall|s: int, j: int|
        g.is_symbol(s) && #[trigger] defines_into(g, s, j) ==> g.is_file(g.edges[j].src as int)
            && g.nodes[g.edges[j].src as int].file == g.nodes[s].file
}

/// The node that a graph holds for symbol `y` of extraction `x` (a symbol
/// record that claims to be a file is kept as a module).
pub open spec fn symbol_node(x: FileExtractions, y: int) -> NodeView {
    let s = x.symbols@[y];
    NodeView {
        kind: if s.kind == NodeKind::File {
            NodeKind::Module
        } else {
            s.kind
        },
        name: s.name@,
        file: x.file_path@,
        line_start: s.line_start,
        line_end: s.line_end,
        code: s.code_snippet@,
        parent: opt_text(s.parent),
        removed: false,
    }
}

/// `n` is the file node or one of the symbol nodes of extraction `x`.
pub open spec fn node_from(n: NodeView, x: FileExtractions) -> bool {
    n == file_node(x.file_path@) || exists|y: int| 0 <= y < x.symbols@.len() && n == #[trigger] symbol_node(x, y)
}

/// `n` is a node of some extraction of the batch.
pub open spec fn node_from_batch(n: NodeView, batch: Seq<FileExtractions>) -> bool {
    exists|k: int| 0 <= k < batch.len() && #[trigger] node_from(n, batch[k])
}

/// `g` grew from `h`: nodes and edges were only appended, and every added node is visible.
pub open spec fn grew_from(g: GraphView, h: GraphView) -> bool {
    &&& h.nodes.len() <= g.nodes.len()
    &&& h.edges.len() <= g.edges.len()
    &&& forall|i: int| 0 <= i < h.nodes.len() ==> #[trigger] g.nodes[i] == h.nodes[i]
    &&& forall|j: int| 0 <= j < h.edges.len() ==> #[trigger] g.edges[j] == h.edges[j]
    &&& forall|i: int| h.nodes.len() <= i < g.nodes.len() ==> !(#[trigger] g.nodes[i]).removed
}

/// Node `u` was added after the first `base` nodes as a symbol of file `path` named `name`.
pub open spec fn new_symbol_named(g: GraphView, base: int, path: Seq<char>, name: Seq<char>, u: int) -> bool {
    base <= u && g.is_symbol(u) && g.nodes[u].file == path && g.nodes[u].name == name
}

/// Every call of the batch links each new caller of its file to every visible symbol named like the callee.
pub open spec fn calls_resolved(g: GraphView, base: int, batch: Seq<FileExtractions>) -> bool {
    forall|x: int, c: int, u: int, v: int|
        0 <= x < batch.len() && 0 <= c < batch[x].calls@.len() && #[trigger] new_symbol_named(
            g,
            base,
            batch[x].file_path@,
            batch[x].calls@[c].caller@,
            u,
        ) && g.is_symbol(v) && #[trigger] g.nodes[v].name == batch[x].calls@[c].callee@ ==> g.edges.contains(
            Edge { src: u as usize, dst: v as usize, kind: EdgeKind::Calls },
        )
}

pub proof fn lemma_grew_trans(a: GraphView, b: GraphView, c: GraphView)
    requires
        grew_from(b, a),
        grew_from(c, b),
    ensures
        grew_from(c, a),
{
    assert forall|i: int| a.nodes.len() <= i < c.nodes.len() implies !(#[trigger] c.nodes[i]).removed by {
        if i < b.nodes.len() {
            assert(c.nodes[i] == b.nodes[i]);
        }
    }
}

impl CodeGraph {
    /// The visible symbols named `name`, in index order.
    fn symbols_named(&self, name: &Vec<char>, from: usize) -> (r: Vec<usize>)
        ensures
            forall|k: int| 0 <= k < r@.len() ==> from <= #[trigger] r@[k] && self@.is_symbol(r@[k] as int) && self@.nodes[r@[k] as int].name == name@,
            forall|i: int| from <= i && self@.is_symbol(i) && self@.nodes[i].name == name@ ==> r@.contains(i as usize),
    {
        let mut r: Vec<usize> = Vec::new();
        let mut i: usize = from;
        while i < self.nodes.len()
            invariant
                from <= i,
                self@.nodes.len() == self.nodes@.len(),
                forall|k: int| 0 <= k < r@.len() ==> from <= #[trigger] r@[k] && self@.is_symbol(r@[k] as int) && self@.nodes[r@[k] as int].name == name@,
                forall|j: int| from <= j < i && self@.is_symbol(j) && self@.nodes[j].name == name@ ==> r@.contains(j as usize),
            decreases self.nodes@.len() - i,
        {
            let n = &self.nodes[i];
            assert(self@.nodes[i as int] == n@);
            if !n.removed && n.kind != NodeKind::File {
                let nm = chars_of(n.name.as_str());
                if eq_seq(&nm, name) {
                    let ghost old_r = r@;
                    r.push(i);
                    assert forall|j: int| from <= j < i + 1 && self@.is_symbol(j) && self@.nodes[j].name == name@ implies r@.contains(j as usize) by {
                        if j == i {
                            assert(r@[r@.len() - 1] == i);
                        } else {
                            let k = choose|k: int| 0 <= k < old_r.len() && old_r[k] == j as usize;
                            assert(r@[k] == j as usize);
                        }
                    }
                }
            }
            i = i + 1;
        }
        r
    }

    /// The symbols added after the first `base` nodes that belong to `path` and are named `name`.
    fn new_symbols_named(&self, base: usize, path: &Vec<char>, name: &Vec<char>) -> (r: Vec<usize>)
        ensures
            forall|k: int| 0 <= k < r@.len() ==> #[trigger] new_symbol_named(self@, base as int, path@, name@, r@[k] as int),
            forall|u: int| new_symbol_named(self@, base as int, path@, name@, u) ==> r@.contains(u as usize),
    {
        let total = self.nodes.len();
        let cands = self.symbols_named(name, base);
        let mut r: Vec<usize> = Vec::new();
        let mut k: usize = 0;
        while k < cands.len()
            invariant
                k <= cands@.len(),
                self@.nodes.len() == self.nodes@.len(),
                forall|j: int| 0 <= j < cands@.len() ==> base <= #[trigger] cands@[j] && self@.is_symbol(cands@[j] as int) && self@.nodes[cands@[j] as int].name == name@,
                forall|j: int| 0 <= j < r@.len() ==> #[trigger] new_symbol_named(self@, base as int, path@, name@, r@[j] as int),
                forall|j: int| 0 <= j < k && self@.nodes[cands@[j] as int].file == path@ ==> r@.contains(#[trigger] cands@[j]),
            decreases cands@.len() - k,
        {
            let u = cands[k];
            assert(self@.is_symbol(u as int));
            let n = &self.nodes[u];
            assert(self@.nodes[u as int] == n@);
            let f = chars_of(n.file_path.as_str());
            let ghost old_r = r@;
            if eq_seq(&f, path) {
                r.push(u);
                assert(r@[r@.len() - 1] == u);
            }
            assert forall|j: int| 0 <= j < k + 1 && self@.nodes[cands@[j] as int].file == path@ implies r@.contains(#[trigger] cands@[j]) by {
                if j < k {
                    let i = choose|i: int| 0 <= i < old_r.len() && old_r[i] == cands@[j];
                    assert(r@[i] == cands@[j]);
                }
            }
            assert forall|j: int| 0 <= j < r@.len() implies #[trigger] new_symbol_named(self@, base as int, path@, name@, r@[j] as int) by {
                if j < old_r.len() {
                    assert(r@[j] == old_r[j]);
                }
            }
            k = k + 1;
        }
        proof {
            assert forall|u: int| new_symbol_named(self@, base as int, path@, name@, u) implies r@.contains(u as usize) by {
                assert(self.nodes@.len() == total);
                assert(cands@.contains(u as usize));
                let j = choose|j: int| 0 <= j < cands@.len() && cands@[j] == u as usize;
                assert(self@.nodes[cands@[j] as int].file == path@);
            }
        }
        r
    }

    /// Adds the symbols of one file, each with its `Defines` edge.
    fn add_file_symbols(&mut self, x: &FileExtractions)
        requires
            old(self)@.wf(),
        ensures
            final(self)@.wf(),
            grew_from(final(self)@, old(self)@),
            one_definer(old(self)@) ==> one_definer(final(self)@),
            forall|j: int| old(self)@.edges.len() <= j < final(self)@.edges.len() ==> (#[trigger] final(self)@.edges[j]).kind == EdgeKind::Defines,
            forall|y: int| 0 <= y < x.symbols@.len() ==> exists|i: int| old(self)@.nodes.len() <= i < final(self)@.nodes.len() && final(self)@.nodes[i] == #[trigger] symbol_node(*x, y),
            forall|i: int| old(self)@.nodes.len() <= i < final(self)@.nodes.len() ==> #[trigger] node_from(final(self)@.nodes[i], *x),
    {
        let f = self.add_file(x.file_path.clone());
        proof {
            let (a, b) = (old(self)@, self@);
            if one_definer(a) {
                assert forall|t: int| #[trigger] b.is_symbol(t) implies (exists|j: int| defines_into(b, t, j)) && (forall|j1: int, j2: int|
                    defines_into(b, t, j1) && defines_into(b, t, j2) ==> j1 == j2) by {
                    assert(b.edges == a.edges);
                    if t >= a.nodes.len() {
                        assert(b.nodes == a.nodes.push(file_node(x.file_path@)));
                        assert(b.nodes[t] == file_node(x.file_path@));
                    }
                    assert(b.nodes[t] == a.nodes[t]);
                    assert(a.is_symbol(t));
                    let j = choose|j: int| defines_into(a, t, j);
                    assert(defines_into(b, t, j));
                    assert forall|j1: int, j2: int| defines_into(b, t, j1) && defines_into(b, t, j2) implies j1 == j2 by {
                        assert(defines_into(a, t, j1));
                        assert(defines_into(a, t, j2));
                    }
                }
                assert forall|t: int, j: int| b.is_symbol(t) && #[trigger] defines_into(b, t, j) implies b.is_file(b.edges[j].src as int)
                    && b.nodes[b.edges[j].src as int].file == b.nodes[t].file by {
                    assert(b.edges == a.edges);
                    if t >= a.nodes.len() {
                        assert(b.nodes[t] == file_node(x.file_path@));
                    }
                    assert(b.nodes[t] == a.nodes[t]);
                    assert(defines_into(a, t, j));
                    let f = a.edges[j].src as int;
                    assert(a.edges[j].src < a.nodes.len());
                    assert(b.nodes[f] == a.nodes[f]);
                }
            }
        }
        proof {
            assert forall|i: int| old(self)@.nodes.len() <= i < self@.nodes.len() implies #[trigger] node_from(self@.nodes[i], *x) by {
                assert(self@.nodes == old(self)@.nodes.push(file_node(x.file_path@)));
            }
        }
        let mut y: usize = 0;
        while y < x.symbols.len()
            invariant
                y <= x.symbols@.len(),
                self@.wf(),
                grew_from(self@, old(self)@),
                f < self@.nodes.len(),
                self@.nodes[f as int].kind == NodeKind::File,
                self@.is_file(f as int),
                self@.nodes[f as int].file == x.file_path@,
                one_definer(old(self)@) ==> one_definer(self@),
                forall|j: int| old(self)@.edges.len() <= j < self@.edges.len() ==> (#[trigger] self@.edges[j]).kind == EdgeKind::Defines,
                forall|z: int| 0 <= z < y ==> exists|i: int| old(self)@.nodes.len() <= i < self@.nodes.len() && self@.nodes[i] == #[trigger] symbol_node(*x, z),
                forall|i: int| old(self)@.nodes.len() <= i < self@.nodes.len() ==> #[trigger] node_from(self@.nodes[i], *x),
            decreases x.symbols@.len() - y,
        {
            let sym = &x.symbols[y];
            let kind = if sym.kind == NodeKind::File {
                NodeKind::Module
            } else {
                sym.kind
            };
            let ghost before = self@;
            let s = self.add_symbol_in_scope(
                sym.name.clone(),
                kind,
                x.file_path.clone(),
                sym.line_start,
                sym.line_end,
                sym.code_snippet.clone(),
                copy_opt(&sym.parent),
            );
            let ghost mid = self@;
            assert(!mid.edges.contains(Edge { src: f, dst: s, kind: EdgeKind::Defines })) by {
                if mid.edges.contains(Edge { src: f, dst: s, kind: EdgeKind::Defines }) {
                    let j = choose|j: int| 0 <= j < mid.edges.len() && mid.edges[j] == Edge { src: f, dst: s, kind: EdgeKind::Defines };
                    assert(before.edges[j].dst < before.nodes.len());
                }
            }
            self.add_edge(f, s, EdgeKind::Defines);
            proof {
                let g = self@;
                assert(g.edges == before.edges.push(Edge { src: f, dst: s, kind: EdgeKind::Defines }));
                assert(grew_from(g, before)) by {
                    assert forall|i: int| before.nodes.len() <= i < g.nodes.len() implies !(#[trigger] g.nodes[i]).removed by {
                        assert(i == s);
                    }
                }
                lemma_grew_trans(old(self)@, before, g);
                if one_definer(old(self)@) {
                    assert(one_definer(before));
                    assert forall|t: int| #[trigger] g.is_symbol(t) implies (exists|j: int| defines_into(g, t, j)) && (forall|j1: int, j2: int|
                        defines_into(g, t, j1) && defines_into(g, t, j2) ==> j1 == j2) by {
                        if t == s {
                            assert(defines_into(g, t, before.edges.len() as int));
                            assert forall|j1: int, j2: int| defines_into(g, t, j1) && defines_into(g, t, j2) implies j1 == j2 by {
                                if j1 < before.edges.len() {
                                    assert(before.edges[j1].dst < before.nodes.len());
                                }
                                if j2 < before.edges.len() {
                                    assert(before.edges[j2].dst < before.nodes.len());
                                }
                            }
                        } else {
                            assert(before.is_symbol(t));
                            let j = choose|j: int| defines_into(before, t, j);
                            assert(defines_into(g, t, j));
                            assert forall|j1: int, j2: int| defines_into(g, t, j1) && defines_into(g, t, j2) implies j1 == j2 by {
                                assert(defines_into(before, t, j1));
                                assert(defines_into(before, t, j2));
                            }
                        }
                    }
                    assert forall|t: int, j: int| g.is_symbol(t) && #[trigger] defines_into(g, t, j) implies g.is_file(g.edges[j].src as int)
                        && g.nodes[g.edges[j].src as int].file == g.nodes[t].file by {
                        if j == before.edges.len() {
                            assert(g.edges[j].src == f);
                            assert(g.nodes[f as int] == before.nodes[f as int]);
                        } else {
                            assert(g.edges[j] == before.edges[j]);
                            assert(before.edges[j].dst < before.nodes.len());
                            assert(t != s);
                            assert(g.nodes[t] == before.nodes[t]);
                            assert(defines_into(before, t, j));
                            assert(before.edges[j].src < before.nodes.len());
                            assert(g.nodes[before.edges[j].src as int] == before.nodes[before.edges[j].src as int]);
                        }
                    }
                }
                assert forall|z: int| 0 <= z < y + 1 implies exists|i: int| old(self)@.nodes.len() <= i < g.nodes.len() && g.nodes[i] == #[trigger] symbol_node(*x, z) by {
                    if z < y {
                        let i = choose|i: int| old(self)@.nodes.len() <= i < before.nodes.len() && before.nodes[i] == symbol_node(*x, z);
                        assert(g.nodes[i] == before.nodes[i]);
                    } else {
                        assert(g.nodes[s as int] == symbol_node(*x, z));
                    }
                }
                assert forall|i: int| old(self)@.nodes.len() <= i < g.nodes.len() implies #[trigger] node_from(g.nodes[i], *x) by {
                    if i < before.nodes.len() {
                        assert(g.nodes[i] == before.nodes[i]);
                    } else {
                        assert(g.nodes[i] == symbol_node(*x, y as int));
                    }
                }
            }
            y = y + 1;
        }
    }
}


/// Call `c` of extraction `x` links each new caller to every visible symbol named like the callee.
pub open spec fn call_resolved(g: GraphView, base: int, x: FileExtractions, c: int) -> bool {
    forall|u: int, v: int|
        #[trigger] new_symbol_named(g, base, x.file_path@, x.calls@[c].caller@, u) && g.is_symbol(v)
            && #[trigger] g.nodes[v].name == x.calls@[c].callee@ ==> g.edges.contains(
            Edge { src: u as usize, dst: v as usize, kind: EdgeKind::Calls },
        )
}

/// `b` has the nodes of `a`, and the edges of `a` followed by edges that are
/// not `Defines` edges.
pub open spec fn added_links(b: GraphView, a: GraphView) -> bool {
    &&& b.nodes == a.nodes
    &&& a.edges.len() <= b.edges.len()
    &&& forall|j: int| 0 <= j < a.edges.len() ==> #[trigger] b.edges[j] == a.edges[j]
    &&& forall|j: int| a.edges.len() <= j < b.edges.len() ==> (#[trigger] b.edges[j]).kind != EdgeKind::Defines
}

pub proof fn lemma_added_links_trans(a: GraphView, b: GraphView, c: GraphView)
    requires
        added_links(b, a),
        added_links(c, b),
    ensures
        added_links(c, a),
{
    assert forall|j: int| a.edges.len() <= j < c.edges.len() implies (#[trigger] c.edges[j]).kind != EdgeKind::Defines by {
        if j < b.edges.len() {
            assert(c.edges[j] == b.edges[j]);
        }
    }
}

pub proof fn lemma_call_resolved_kept(a: GraphView, b: GraphView, base: int, x: FileExtractions, c: int)
    requires
        added_links(b, a),
        call_resolved(a, base, x, c),
    ensures
        call_resolved(b, base, x, c),
{
    assert forall|u: int, v: int|
        #[trigger] new_symbol_named(b, base, x.file_path@, x.calls@[c].caller@, u) && b.is_symbol(v)
            && #[trigger] b.nodes[v].name == x.calls@[c].callee@ implies b.edges.contains(
            Edge { src: u as usize, dst: v as usize, kind: EdgeKind::Calls },
        ) by {
        assert(new_symbol_named(a, base, x.file_path@, x.calls@[c].caller@, u));
        assert(a.nodes[v].name == x.calls@[c].callee@);
        let e = Edge { src: u as usize, dst: v as usize, kind: EdgeKind::Calls };
        let j = choose|j: int| 0 <= j < a.edges.len() && a.edges[j] == e;
        assert(b.edges[j] == e);
    }
}

/// Separators of an import path.
pub open spec fn is_path_sep(c: char) -> bool {
    c == ':' || c == '.' || c == '/'
}

/// The last separator among the first `n` characters.
pub open spec fn last_sep_before(p: Seq<char>, n: int) -> Option<int>
    decreases n,
{
    if n <= 0 || n > p.len() {
        None
    } else if is_path_sep(p[n - 1]) {
        Some(n - 1)
    } else {
        last_sep_before(p, n - 1)
    }
}

/// The last segment of an import path: the text after its last `:`, `.` or `/`.
pub open spec fn import_segment(p: Seq<char>) -> Seq<char> {
    match last_sep_before(p, p.len() as int) {
        Some(k) => p.subrange(k + 1, p.len() as int),
        None => p,
    }
}

/// A path without the extension of its file name.
pub open spec fn file_stem(path: Seq<char>) -> Seq<char> {
    match crate::scan::rfind_char_before(path, '.', path.len() as int) {
        Some(d) => match crate::scan::rfind_char_before(path, '/', path.len() as int) {
            Some(s) => if s < d {
                path.subrange(0, d)
            } else {
                path
            },
            None => path.subrange(0, d),
        },
        None => path,
    }
}

/// Node `i` is the first visible file node of `path`.
pub open spec fn first_file(g: GraphView, path: Seq<char>, i: int) -> bool {
    g.is_file(i) && g.nodes[i].file == path && forall|k: int| 0 <= k < i ==> !(g.is_file(k) && g.nodes[k].file == path)
}

pub proof fn lemma_first_file_same_nodes(a: GraphView, b: GraphView, path: Seq<char>, i: int)
    requires
        a.nodes == b.nodes,
    ensures
        first_file(a, path, i) == first_file(b, path, i),
{
    assert forall|k: int| a.is_file(k) == b.is_file(k) by {}
}

pub proof fn lemma_first_file_unique(g: GraphView, path: Seq<char>, a: int, b: int)
    requires
        first_file(g, path, a),
        first_file(g, path, b),
    ensures
        a == b,
{
}

/// Visible file `f`, other than `fx`, whose path without extension ends with the segment `seg`.
pub open spec fn import_target(g: GraphView, fx: int, seg: Seq<char>, f: int) -> bool {
    g.is_file(f) && f != fx && seg.len() > 0 && crate::text::has_suffix(file_stem(g.nodes[f].file), seg)
}

/// Import `k` of `x` links the first file node of `x` to every file it names.
pub open spec fn import_resolved(g: GraphView, x: FileExtractions, k: int) -> bool {
    forall|a: int, f: int|
        #[trigger] first_file(g, x.file_path@, a) && #[trigger] import_target(g, a, import_segment(x.imports@[k].path@), f)
            ==> g.edges.contains(Edge { src: a as usize, dst: f as usize, kind: EdgeKind::Imports })
}

pub proof fn lemma_import_resolved_kept(a: GraphView, b: GraphView, x: FileExtractions, k: int)
    requires
        added_links(b, a),
        import_resolved(a, x, k),
    ensures
        import_resolved(b, x, k),
{
    assert forall|fx: int, f: int|
        #[trigger] first_file(b, x.file_path@, fx) && #[trigger] import_target(b, fx, import_segment(x.imports@[k].path@), f)
            implies b.edges.contains(Edge { src: fx as usize, dst: f as usize, kind: EdgeKind::Imports }) by {
        lemma_first_file_same_nodes(a, b, x.file_path@, fx);
        assert(import_target(a, fx, import_segment(x.imports@[k].path@), f));
        let e = Edge { src: fx as usize, dst: f as usize, kind: EdgeKind::Imports };
        let j = choose|j: int| 0 <= j < a.edges.len() && a.edges[j] == e;
        assert(b.edges[j] == e);
    }
}

/// The last segment of an import path.
fn import_segment_of(p: &Vec<char>) -> (r: Vec<char>)
    ensures
        r@ == import_segment(p@),
{
    let mut n = p.len();
    while n > 0 && !(p[n - 1] == ':' || p[n - 1] == '.' || p[n - 1] == '/')
        invariant
            n <= p@.len(),
            last_sep_before(p@, p@.len() as int) == last_sep_before(p@, n as int),
        decreases n,
    {
        n = n - 1;
    }
    if n == 0 {
        crate::text::sub_vec(p, 0, p.len())
    } else {
        crate::text::sub_vec(p, n, p.len())
    }
}

/// A path without the extension of its file name.
fn file_stem_of(path: &Vec<char>) -> (r: Vec<char>)
    ensures
        r@ == file_stem(path@),
{
    match crate::scan::rfind_char(path, '.', path.len()) {
        Some(d) => match crate::scan::rfind_char(path, '/', path.len()) {
            Some(sl) => if sl < d {
                crate::text::sub_vec(path, 0, d)
            } else {
                crate::text::sub_vec(path, 0, path.len())
            },
            None => crate::text::sub_vec(path, 0, d),
        },
        None => crate::text::sub_vec(path, 0, path.len()),
    }
}

pub proof fn lemma_added_links_keeps_definer(a: GraphView, b: GraphView)
    requires
        added_links(b, a),
        one_definer(a),
    ensures
        one_definer(b),
{
    assert forall|t: int| #[trigger] b.is_symbol(t) implies (exists|j: int| defines_into(b, t, j)) && (forall|j1: int, j2: int|
        defines_into(b, t, j1) && defines_into(b, t, j2) ==> j1 == j2) by {
        assert(a.is_symbol(t));
        let j = choose|j: int| defines_into(a, t, j);
        assert(b.edges[j] == a.edges[j]);
        assert(defines_into(b, t, j));
        assert forall|j1: int, j2: int| defines_into(b, t, j1) && defines_into(b, t, j2) implies j1 == j2 by {
            assert(b.edges[j1] == a.edges[j1]);
            assert(b.edges[j2] == a.edges[j2]);
            assert(defines_into(a, t, j1));
            assert(defines_into(a, t, j2));
        }
    }
    assert forall|t: int, j: int| b.is_symbol(t) && #[trigger] defines_into(b, t, j) implies b.is_file(b.edges[j].src as int)
        && b.nodes[b.edges[j].src as int].file == b.nodes[t].file by {
        assert(b.edges[j] == a.edges[j]);
        assert(defines_into(a, t, j));
    }
}

impl CodeGraph {
    /// Adds the call edges of call `c` of extraction `x`.
    fn link_call(&mut self, base: usize, x: &FileExtractions, c: usize)
        requires
            old(self)@.wf(),
            c < x.calls@.len(),
        ensures
            final(self)@.wf(),
            added_links(final(self)@, old(self)@),
            call_resolved(final(self)@, base as int, *x, c as int),
    {
        let call = &x.calls[c];
        let path = chars_of(x.file_path.as_str());
        let caller = chars_of(call.caller.as_str());
        let callee = chars_of(call.callee.as_str());
        let callers = self.new_symbols_named(base, &path, &caller);
        let callees = self.symbols_named(&callee, 0);
        let node_total = self.nodes.len();
        let ghost g0 = self@;
        let mut a: usize = 0;
        while a < callers.len()
            invariant
                self@.wf(),
                added_links(self@, g0),
                a <= callers@.len(),
                forall|k: int| 0 <= k < callers@.len() ==> #[trigger] new_symbol_named(g0, base as int, path@, caller@, callers@[k] as int),
                forall|k: int| 0 <= k < callees@.len() ==> 0 <= #[trigger] callees@[k] && g0.is_symbol(callees@[k] as int) && g0.nodes[callees@[k] as int].name == callee@,
                forall|k: int, m: int| 0 <= k < a && 0 <= m < callees@.len() ==> self@.edges.contains(
                    Edge { src: #[trigger] callers@[k], dst: #[trigger] callees@[m], kind: EdgeKind::Calls },
                ),
            decreases callers@.len() - a,
        {
            let u = callers[a];
            assert(new_symbol_named(g0, base as int, path@, caller@, u as int));
            let mut b: usize = 0;
            while b < callees.len()
                invariant
                    self@.wf(),
                    added_links(self@, g0),
                    a < callers@.len(),
                    u == callers@[a as int],
                    g0.is_symbol(u as int),
                    b <= callees@.len(),
                    forall|k: int| 0 <= k < callees@.len() ==> 0 <= #[trigger] callees@[k] && g0.is_symbol(callees@[k] as int) && g0.nodes[callees@[k] as int].name == callee@,
                    forall|k: int, m: int| 0 <= k < a && 0 <= m < callees@.len() ==> self@.edges.contains(
                        Edge { src: #[trigger] callers@[k], dst: #[trigger] callees@[m], kind: EdgeKind::Calls },
                    ),
                    forall|m: int| 0 <= m < b ==> self@.edges.contains(
                        Edge { src: u, dst: #[trigger] callees@[m], kind: EdgeKind::Calls },
                    ),
                decreases callees@.len() - b,
            {
                let v = callees[b];
                assert(g0.is_symbol(v as int));
                let ghost before = self@;
                self.add_edge(u, v, EdgeKind::Calls);
                proof {
                    let g = self@;
                    assert(added_links(g, before));
                    lemma_added_links_trans(g0, before, g);
                    assert forall|k: int, m: int| 0 <= k < a && 0 <= m < callees@.len() implies g.edges.contains(
                        Edge { src: #[trigger] callers@[k], dst: #[trigger] callees@[m], kind: EdgeKind::Calls },
                    ) by {
                        let e = Edge { src: callers@[k], dst: callees@[m], kind: EdgeKind::Calls };
                        assert(before.edges.contains(e));
                        let j = choose|j: int| 0 <= j < before.edges.len() && before.edges[j] == e;
                        assert(g.edges[j] == e);
                    }
                    assert forall|m: int| 0 <= m < b + 1 implies g.edges.contains(
                        Edge { src: u, dst: #[trigger] callees@[m], kind: EdgeKind::Calls },
                    ) by {
                        let e = Edge { src: u, dst: callees@[m], kind: EdgeKind::Calls };
                        if m < b {
                            assert(before.edges.contains(e));
                            let j = choose|j: int| 0 <= j < before.edges.len() && before.edges[j] == e;
                            assert(g.edges[j] == e);
                        } else if before.edges.contains(e) {
                            let j = choose|j: int| 0 <= j < before.edges.len() && before.edges[j] == e;
                            assert(g.edges[j] == e);
                        } else {
                            assert(g.edges[before.edges.len() as int] == e);
                        }
                    }
                }
                b = b + 1;
            }
            a = a + 1;
        }
        proof {
            let g = self@;
            let total = g0.nodes.len();
            assert forall|u: int, v: int|
                #[trigger] new_symbol_named(g, base as int, x.file_path@, x.calls@[c as int].caller@, u) && g.is_symbol(v)
                    && #[trigger] g.nodes[v].name == x.calls@[c as int].callee@ implies g.edges.contains(
                    Edge { src: u as usize, dst: v as usize, kind: EdgeKind::Calls },
                ) by {
                assert(new_symbol_named(g0, base as int, path@, caller@, u));
                assert(callers@.contains(u as usize));
                let k = choose|k: int| 0 <= k < callers@.len() && callers@[k] == u as usize;
                assert(g.nodes == g0.nodes);
                assert(self.nodes@.len() == node_total);
                assert(g0.is_symbol(v));
                assert(g0.nodes[v].name == callee@);
                assert(callees@.contains(v as usize));
                let m = choose|m: int| 0 <= m < callees@.len() && callees@[m] == v as usize;
                assert(g.edges.contains(Edge { src: callers@[k], dst: callees@[m], kind: EdgeKind::Calls }));
            }
        }
    }

    /// The visible files other than `fx` whose path without extension ends with `seg`.
    fn import_targets(&self, fx: usize, seg: &Vec<char>) -> (r: Vec<usize>)
        ensures
            forall|k: int| 0 <= k < r@.len() ==> #[trigger] import_target(self@, fx as int, seg@, r@[k] as int),
            forall|f: int| import_target(self@, fx as int, seg@, f) ==> r@.contains(f as usize),
    {
        let total = self.nodes.len();
        let mut r: Vec<usize> = Vec::new();
        let mut f: usize = 0;
        while f < self.nodes.len()
            invariant
                f <= self.nodes@.len(),
                total == self.nodes@.len(),
                self@.nodes.len() == self.nodes@.len(),
                forall|k: int| 0 <= k < r@.len() ==> #[trigger] import_target(self@, fx as int, seg@, r@[k] as int),
                forall|g: int| 0 <= g < f && import_target(self@, fx as int, seg@, g) ==> r@.contains(g as usize),
            decreases self.nodes@.len() - f,
        {
            let n = &self.nodes[f];
            assert(self@.nodes[f as int] == n@);
            if !n.removed && n.kind == NodeKind::File && f != fx && seg.len() > 0 {
                let stem = file_stem_of(&chars_of(n.file_path.as_str()));
                if stem.len() >= seg.len() && crate::text::matches_at(&stem, seg, stem.len() - seg.len()) {
                    let ghost before = r@;
                    r.push(f);
                    assert(r@[r@.len() - 1] == f);
                    assert forall|g: int| 0 <= g < f + 1 && import_target(self@, fx as int, seg@, g) implies r@.contains(g as usize) by {
                        if g < f {
                            let k = choose|k: int| 0 <= k < before.len() && before[k] == g as usize;
                            assert(r@[k] == g as usize);
                        }
                    }
                    assert forall|k: int| 0 <= k < r@.len() implies #[trigger] import_target(self@, fx as int, seg@, r@[k] as int) by {
                        if k < before.len() {
                            assert(r@[k] == before[k]);
                        }
                    }
                }
            }
            f = f + 1;
        }
        proof {
            assert forall|g: int| import_target(self@, fx as int, seg@, g) implies r@.contains(g as usize) by {
                assert(self.nodes@.len() == total);
            }
        }
        r
    }

    /// Adds an `Imports` edge from the file of `x` to each file that import
    /// `k` of `x` names.
    fn link_import(&mut self, x: &FileExtractions, k: usize)
        requires
            old(self)@.wf(),
            k < x.imports@.len(),
        ensures
            final(self)@.wf(),
            added_links(final(self)@, old(self)@),
            import_resolved(final(self)@, *x, k as int),
    {
        let seg = import_segment_of(&chars_of(x.imports[k].path.as_str()));
        let ghost g0 = self@;
        match self.find_file(&x.file_path) {
            Some(fx) => {
                let targets = self.import_targets(fx, &seg);
                let mut t: usize = 0;
                while t < targets.len()
                    invariant
                        self@.wf(),
                        added_links(self@, g0),
                        fx < g0.nodes.len(),
                        t <= targets@.len(),
                        forall|m: int| 0 <= m < targets@.len() ==> #[trigger] import_target(g0, fx as int, seg@, targets@[m] as int),
                        forall|m: int| 0 <= m < t ==> self@.edges.contains(Edge { src: fx, dst: #[trigger] targets@[m], kind: EdgeKind::Imports }),
                    decreases targets@.len() - t,
                {
                    let f = targets[t];
                    assert(import_target(g0, fx as int, seg@, f as int));
                    let ghost before = self@;
                    self.add_edge(fx, f, EdgeKind::Imports);
                    proof {
                        let g = self@;
                        lemma_added_links_trans(g0, before, g);
                        assert forall|m: int| 0 <= m < t + 1 implies g.edges.contains(Edge { src: fx, dst: #[trigger] targets@[m], kind: EdgeKind::Imports }) by {
                            let e = Edge { src: fx, dst: targets@[m], kind: EdgeKind::Imports };
                            if m < t || before.edges.contains(e) {
                                if m < t {
                                    assert(before.edges.contains(e));
                                }
                                let j = choose|j: int| 0 <= j < before.edges.len() && before.edges[j] == e;
                                assert(g.edges[j] == e);
                            } else {
                                assert(g.edges[before.edges.len() as int] == e);
                            }
                        }
                    }
                    t = t + 1;
                }
                proof {
                    let g = self@;
                    assert forall|a: int, f: int| #[trigger] first_file(g, x.file_path@, a) && #[trigger] import_target(g, a, import_segment(x.imports@[k as int].path@), f)
                        implies g.edges.contains(Edge { src: a as usize, dst: f as usize, kind: EdgeKind::Imports }) by {
                        assert(first_file(g0, x.file_path@, fx as int));
                        lemma_first_file_same_nodes(g0, g, x.file_path@, fx as int);
                        lemma_first_file_unique(g, x.file_path@, a, fx as int);
                        assert(self.nodes@.len() == g.nodes.len());
                        assert(import_target(g0, fx as int, seg@, f));
                        assert(targets@.contains(f as usize));
                        let m = choose|m: int| 0 <= m < targets@.len() && targets@[m] == f as usize;
                    }
                }
            },
            None => {
                proof {
                    assert forall|a: int, f: int| #[trigger] first_file(self@, x.file_path@, a) && #[trigger] import_target(self@, a, import_segment(x.imports@[k as int].path@), f)
                        implies self@.edges.contains(Edge { src: a as usize, dst: f as usize, kind: EdgeKind::Imports }) by {
                    }
                }
            },
        }
    }

    /// Merges a batch of extractions: files first, then every symbol with its
    /// `Defines` edge, then calls, resolved by the callee's short name to
    /// every visible symbol of that name, then imports, resolved to every
    /// other visible file whose path without extension ends with the last
    /// segment of the imported path.
    pub fn build_from_extractions(&mut self, batch: Vec<FileExtractions>)
        requires
            old(self)@.wf(),
        ensures
            final(self)@.wf(),
            grew_from(final(self)@, old(self)@),
            one_definer(old(self)@) ==> one_definer(final(self)@),
            forall|x: int, y: int| 0 <= x < batch@.len() && 0 <= y < batch@[x].symbols@.len() ==> exists|i: int|
                old(self)@.nodes.len() <= i < final(self)@.nodes.len() && final(self)@.nodes[i] == #[trigger] symbol_node(batch@[x], y),
            forall|x: int, c: int| 0 <= x < batch@.len() && 0 <= c < batch@[x].calls@.len() ==> #[trigger] call_resolved(
                final(self)@, old(self)@.nodes.len() as int, batch@[x], c),
            forall|x: int, k: int| 0 <= x < batch@.len() && 0 <= k < batch@[x].imports@.len() ==> #[trigger] import_resolved(
                final(self)@, batch@[x], k),
            forall|i: int| old(self)@.nodes.len() <= i < final(self)@.nodes.len() ==> #[trigger] node_from_batch(final(self)@.nodes[i], batch@),
    {
        let base = self.nodes.len();
        let mut x: usize = 0;
        while x < batch.len()
            invariant
                x <= batch@.len(),
                self@.wf(),
                base == old(self)@.nodes.len(),
                grew_from(self@, old(self)@),
                one_definer(old(self)@) ==> one_definer(self@),
                forall|xx: int, y: int| 0 <= xx < x && 0 <= y < batch@[xx].symbols@.len() ==> exists|i: int|
                    old(self)@.nodes.len() <= i < self@.nodes.len() && self@.nodes[i] == #[trigger] symbol_node(batch@[xx], y),
                forall|i: int| old(self)@.nodes.len() <= i < self@.nodes.len() ==> #[trigger] node_from_batch(self@.nodes[i], batch@),
            decreases batch@.len() - x,
        {
            let ghost before = self@;
            self.add_file_symbols(&batch[x]);
            proof {
                let g = self@;
                assert forall|i: int| old(self)@.nodes.len() <= i < g.nodes.len() implies #[trigger] node_from_batch(g.nodes[i], batch@) by {
                    if i < before.nodes.len() {
                        assert(g.nodes[i] == before.nodes[i]);
                    } else {
                        assert(node_from(g.nodes[i], batch@[x as int]));
                    }
                }
            }
            proof {
                let g = self@;
                lemma_grew_trans(old(self)@, before, g);
                assert forall|xx: int, y: int| 0 <= xx < x + 1 && 0 <= y < batch@[xx].symbols@.len() implies exists|i: int|
                    old(self)@.nodes.len() <= i < g.nodes.len() && g.nodes[i] == #[trigger] symbol_node(batch@[xx], y) by {
                    if xx < x {
                        let i = choose|i: int| old(self)@.nodes.len() <= i < before.nodes.len() && before.nodes[i] == symbol_node(batch@[xx], y);
                        assert(g.nodes[i] == before.nodes[i]);
                    } else {
                        let i = choose|i: int| before.nodes.len() <= i < g.nodes.len() && g.nodes[i] == symbol_node(batch@[x as int], y);
                    }
                }
            }
            x = x + 1;
        }
        let ghost mid = self@;
        let mut x: usize = 0;
        while x < batch.len()
            invariant
                x <= batch@.len(),
                self@.wf(),
                base == old(self)@.nodes.len(),
                added_links(self@, mid),
                forall|xx: int, c: int| 0 <= xx < x && 0 <= c < batch@[xx].calls@.len() ==> #[trigger] call_resolved(
                    self@, base as int, batch@[xx], c),
            decreases batch@.len() - x,
        {
            let ex = &batch[x];
            let mut c: usize = 0;
            while c < ex.calls.len()
                invariant
                    x < batch@.len(),
                    *ex == batch@[x as int],
                    c <= ex.calls@.len(),
                    self@.wf(),
                    added_links(self@, mid),
                    forall|xx: int, cc: int| 0 <= xx < x && 0 <= cc < batch@[xx].calls@.len() ==> #[trigger] call_resolved(
                        self@, base as int, batch@[xx], cc),
                    forall|cc: int| 0 <= cc < c ==> #[trigger] call_resolved(self@, base as int, batch@[x as int], cc),
                decreases ex.calls@.len() - c,
            {
                let ghost before = self@;
                self.link_call(base, ex, c);
                proof {
                    let g = self@;
                    lemma_added_links_trans(mid, before, g);
                    assert forall|xx: int, cc: int| 0 <= xx < x && 0 <= cc < batch@[xx].calls@.len() implies #[trigger] call_resolved(
                        g, base as int, batch@[xx], cc) by {
                        lemma_call_resolved_kept(before, g, base as int, batch@[xx], cc);
                    }
                    assert forall|cc: int| 0 <= cc < c + 1 implies #[trigger] call_resolved(g, base as int, batch@[x as int], cc) by {
                        if cc < c {
                            lemma_call_resolved_kept(before, g, base as int, batch@[x as int], cc);
                        }
                    }
                }
                c = c + 1;
            }
            x = x + 1;
        }
        let mut x: usize = 0;
        while x < batch.len()
            invariant
                x <= batch@.len(),
                self@.wf(),
                base == old(self)@.nodes.len(),
                added_links(self@, mid),
                forall|xx: int, c: int| 0 <= xx < batch@.len() && 0 <= c < batch@[xx].calls@.len() ==> #[trigger] call_resolved(
                    self@, base as int, batch@[xx], c),
                forall|xx: int, k: int| 0 <= xx < x && 0 <= k < batch@[xx].imports@.len() ==> #[trigger] import_resolved(
                    self@, batch@[xx], k),
            decreases batch@.len() - x,
        {
            let ex = &batch[x];
            let mut k: usize = 0;
            while k < ex.imports.len()
                invariant
                    x < batch@.len(),
                    *ex == batch@[x as int],
                    k <= ex.imports@.len(),
                    self@.wf(),
                    added_links(self@, mid),
                    forall|xx: int, c: int| 0 <= xx < batch@.len() && 0 <= c < batch@[xx].calls@.len() ==> #[trigger] call_resolved(
                        self@, base as int, batch@[xx], c),
                    forall|xx: int, kk: int| 0 <= xx < x && 0 <= kk < batch@[xx].imports@.len() ==> #[trigger] import_resolved(
                        self@, batch@[xx], kk),
                    forall|kk: int| 0 <= kk < k ==> #[trigger] import_resolved(self@, batch@[x as int], kk),
                decreases ex.imports@.len() - k,
            {
                let ghost before = self@;
                self.link_import(ex, k);
                proof {
                    let g = self@;
                    lemma_added_links_trans(mid, before, g);
                    assert forall|xx: int, c: int| 0 <= xx < batch@.len() && 0 <= c < batch@[xx].calls@.len() implies #[trigger] call_resolved(
                        g, base as int, batch@[xx], c) by {
                        lemma_call_resolved_kept(before, g, base as int, batch@[xx], c);
                    }
                    assert forall|xx: int, kk: int| 0 <= xx < x && 0 <= kk < batch@[xx].imports@.len() implies #[trigger] import_resolved(
                        g, batch@[xx], kk) by {
                        lemma_import_resolved_kept(before, g, batch@[xx], kk);
                    }
                    assert forall|kk: int| 0 <= kk < k + 1 implies #[trigger] import_resolved(g, batch@[x as int], kk) by {
                        if kk < k {
                            lemma_import_resolved_kept(before, g, batch@[x as int], kk);
                        }
                    }
                }
                k = k + 1;
            }
            x = x + 1;
        }
        proof {
            let g = self@;
            if one_definer(old(self)@) {
                lemma_added_links_keeps_definer(mid, g);
            }
            assert(grew_from(g, mid));
            lemma_grew_trans(old(self)@, mid, g);
            assert forall|xx: int, y: int| 0 <= xx < batch@.len() && 0 <= y < batch@[xx].symbols@.len() implies exists|i: int|
                old(self)@.nodes.len() <= i < g.nodes.len() && g.nodes[i] == #[trigger] symbol_node(batch@[xx], y) by {
                let i = choose|i: int| old(self)@.nodes.len() <= i < mid.nodes.len() && mid.nodes[i] == symbol_node(batch@[xx], y);
            }
            assert forall|i: int| old(self)@.nodes.len() <= i < g.nodes.len() implies #[trigger] node_from_batch(g.nodes[i], batch@) by {
                assert(g.nodes[i] == mid.nodes[i]);
            }
        }
    }
}


/// The flat form of a graph: nodes in index order, edges by node index.
#[derive(Clone, Debug)]
pub struct SerializableGraph {
    pub nodes: Vec<NodeData>,
    pub edges: Vec<Edge>,
}

impl View for SerializableGraph {
    type V = GraphView;

    open spec fn view(&self) -> GraphView {
        GraphView { nodes: self.nodes@.map_values(|n: NodeData| n@), edges: self.edges@ }
    }
}

/// Why a flat graph could not be loaded.
#[derive(Clone, Copy, Debug, PartialEq, Eq, Structural)]
pub enum LoadError {
    /// Edge at this position names a node that does not exist, or a call
    /// edge touches a file node.
    BadEdge(usize),
}

/// The flat form that saving a graph produces.
pub open spec fn saved(g: GraphView) -> GraphView {
    g
}

/// The graph that loading a flat form produces, if it is consistent.
pub open spec fn loaded(s: GraphView) -> Option<GraphView> {
    if s.wf() {
        Some(s)
    } else {
        None
    }
}

/// Saving a well-formed graph and loading the result gives back the same
/// nodes (tombstones included) and edges, hence the same statistics.
pub proof fn law_save_load_round_trip(g: GraphView)
    requires
        g.wf(),
    ensures
        loaded(saved(g)) == Some(g),
        stats_of(loaded(saved(g)).unwrap()) == stats_of(g),
{
}

/// After `remove_file(p)`, no visible node belongs to `p`: no query can return a symbol of `p`.
pub proof fn law_removed_file_is_invisible(before: GraphView, after: GraphView, p: Seq<char>)
    requires
        after.nodes.len() == before.nodes.len(),
        forall|i: int| 0 <= i < before.nodes.len() ==> #[trigger] after.nodes[i] == tombstone_if_in(before.nodes[i], p),
    ensures
        forall|i: int| #[trigger] after.visible(i) ==> after.nodes[i].file != p,
        forall|q: Seq<char>, i: int| #[trigger] is_match(after, q, i) ==> after.nodes[i].file != p,
{
    assert forall|i: int| #[trigger] after.visible(i) implies after.nodes[i].file != p by {
        assert(after.nodes[i] == tombstone_if_in(before.nodes[i], p));
    }
    assert forall|q: Seq<char>, i: int| #[trigger] is_match(after, q, i) implies after.nodes[i].file != p by {
        assert(after.visible(i));
    }
}

/// For every visible call edge `u -> v`, both ends are visible symbols,
/// `u` is among the dependents of `v`'s name, and `v` among the
/// dependencies of `u`'s name.
pub proof fn law_call_edges_are_queryable(g: GraphView, j: int)
    requires
        g.wf(),
        0 <= j < g.edges.len(),
        g.edges[j].kind == EdgeKind::Calls,
        g.edge_visible(g.edges[j]),
    ensures
        g.is_symbol(g.edges[j].src as int),
        g.is_symbol(g.edges[j].dst as int),
        linked(g, g.nodes[g.edges[j].dst as int].name, true, g.edges[j].src as int),
        linked(g, g.nodes[g.edges[j].src as int].name, false, g.edges[j].dst as int),
{
    let e = g.edges[j];
    assert(links(g, g.nodes[e.dst as int].name, true, j, e.src as int));
    assert(links(g, g.nodes[e.src as int].name, false, j, e.dst as int));
}

impl CodeGraph {
    /// The flat form: nodes in index order, edges by index.
    pub fn to_serializable(&self) -> (r: SerializableGraph)
        ensures
            r@ == saved(self@),
    {
        let mut nodes: Vec<NodeData> = Vec::new();
        let mut i: usize = 0;
        while i < self.nodes.len()
            invariant
                i <= self.nodes@.len(),
                nodes@.len() == i,
                forall|k: int| 0 <= k < i ==> (#[trigger] nodes@[k])@ == self.nodes@[k]@,
            decreases self.nodes@.len() - i,
        {
            nodes.push(self.nodes[i].copy());
            i = i + 1;
        }
        let r = SerializableGraph { nodes, edges: self.edges.clone() };
        assert(r.edges@ =~= self.edges@);
        assert(r@.nodes =~= self@.nodes);
        r
    }

    /// Rebuilds a graph from its flat form; ids are positions.
    pub fn from_serializable(sg: SerializableGraph) -> (r: Result<CodeGraph, LoadError>)
        ensures
            match r {
                Ok(g) => loaded(sg@) == Some(g@),
                Err(_) => loaded(sg@) is None,
            },
    {
        let ghost sv = sg@;
        let n = sg.nodes.len();
        let mut j: usize = 0;
        while j < sg.edges.len()
            invariant
                sv == sg@,
                n == sv.nodes.len(),
                sg.nodes@.len() == n,
                j <= sv.edges.len(),
                forall|k: int| 0 <= k < j ==> {
                    let e = #[trigger] sv.edges[k];
                    &&& e.src < sv.nodes.len()
                    &&& e.dst < sv.nodes.len()
                    &&& e.kind == EdgeKind::Calls ==> sv.nodes[e.src as int].kind != NodeKind::File
                        && sv.nodes[e.dst as int].kind != NodeKind::File
                },
            decreases sv.edges.len() - j,
        {
            let e = sg.edges[j];
            assert(sv.edges[j as int] == e);
            if e.src >= n || e.dst >= n {
                return Err(LoadError::BadEdge(j));
            }
            assert(sv.nodes[e.src as int] == sg.nodes@[e.src as int]@);
            assert(sv.nodes[e.dst as int] == sg.nodes@[e.dst as int]@);
            if e.kind == EdgeKind::Calls && (sg.nodes[e.src].kind == NodeKind::File || sg.nodes[e.dst].kind == NodeKind::File) {
                return Err(LoadError::BadEdge(j));
            }
            j = j + 1;
        }
        let g = CodeGraph { nodes: sg.nodes, edges: sg.edges };
        assert(g@ == sv);
        Ok(g)
    }
}


/// Node `i` is a starting point of a graph search for `q`: visible, and its
/// name (a file's name is its path) contains `q`.
pub open spec fn seed(g: GraphView, q: Seq<char>, i: int) -> bool {
    g.visible(i) && has_substring(g.nodes[i].name, q)
}

/// Node `i` is at most `d` visible edges (either direction) from a seed.
pub open spec fn reach(g: GraphView, q: Seq<char>, d: nat, i: int) -> bool
    decreases d,
{
    if d == 0 {
        seed(g, q, i)
    } else {
        let p = (d - 1) as nat;
        reach(g, q, p, i) || exists|j: int|
            0 <= j < g.edges.len() && g.edge_visible(#[trigger] g.edges[j]) && ((reach(g, q, p, g.edges[j].src as int)
                && g.edges[j].dst == i) || (reach(g, q, p, g.edges[j].dst as int) && g.edges[j].src == i))
    }
}

/// Visible edge `j` joins node `i` to a node reached within `d` steps.
pub open spec fn step(g: GraphView, q: Seq<char>, d: nat, j: int, i: int) -> bool {
    0 <= j < g.edges.len() && g.edge_visible(g.edges[j]) && ((reach(g, q, d, g.edges[j].src as int)
        && g.edges[j].dst == i) || (reach(g, q, d, g.edges[j].dst as int) && g.edges[j].src == i))
}

/// One round more: what was reached, and what one visible edge leads to.
pub proof fn lemma_reach_succ(g: GraphView, q: Seq<char>, k: nat, i: int)
    ensures
        reach(g, q, k + 1, i) == (reach(g, q, k, i) || exists|j: int| #[trigger] step(g, q, k, j, i)),
{
    let d = (k + 1) as nat;
    let p = (d - 1) as nat;
    assert(p == k);
    if reach(g, q, d, i) && !reach(g, q, k, i) {
        let j = choose|j: int|
            0 <= j < g.edges.len() && g.edge_visible(#[trigger] g.edges[j]) && ((reach(g, q, p, g.edges[j].src as int)
                && g.edges[j].dst == i) || (reach(g, q, p, g.edges[j].dst as int) && g.edges[j].src == i));
        assert(step(g, q, k, j, i));
    }
    if exists|j: int| #[trigger] step(g, q, k, j, i) {
        let j = choose|j: int| #[trigger] step(g, q, k, j, i);
        assert(g.edges[j] == g.edges[j]);
    }
}

/// Once a round adds nothing, no later round does.
pub proof fn lemma_reach_stable(g: GraphView, q: Seq<char>, k: nat, m: nat)
    requires
        k <= m,
        forall|i: int| reach(g, q, k + 1, i) == reach(g, q, k, i),
    ensures
        forall|i: int| reach(g, q, m, i) == reach(g, q, k, i),
    decreases m - k,
{
    if m > k {
        lemma_reach_stable(g, q, k, (m - 1) as nat);
        assert forall|i: int| reach(g, q, m, i) == reach(g, q, k, i) by {
            assert forall|j: int| #[trigger] step(g, q, (m - 1) as nat, j, i) == step(g, q, k, j, i) by {
                if 0 <= j < g.edges.len() {
                    assert(reach(g, q, (m - 1) as nat, g.edges[j].src as int) == reach(g, q, k, g.edges[j].src as int));
                    assert(reach(g, q, (m - 1) as nat, g.edges[j].dst as int) == reach(g, q, k, g.edges[j].dst as int));
                }
            }
            lemma_reach_succ(g, q, k, i);
            lemma_reach_succ(g, q, (m - 1) as nat, i);
            assert(((m - 1) as nat + 1) as nat == m);
        }
    }
}

/// A relationship between two reached nodes.
#[derive(Clone, Debug)]
pub struct Connection {
    pub from: String,
    pub to: String,
    pub relationship: EdgeKind,
}

/// The neighbourhood of a query in the graph.
#[derive(Clone, Debug)]
pub struct GraphSearchResult {
    /// Paths of the reached files, in index order.
    pub matched_files: Vec<String>,
    /// The reached symbols, in index order.
    pub symbols: Vec<SearchResult>,
    /// The visible edges between reached nodes, in edge order.
    pub connections: Vec<Connection>,
}

/// The visible edges among the first `n` whose ends are both reached.
pub open spec fn connections_of(g: GraphView, q: Seq<char>, d: nat, n: int) -> Seq<Edge>
    decreases n,
{
    if n <= 0 {
        Seq::empty()
    } else {
        let rest = connections_of(g, q, d, n - 1);
        let e = g.edges[n - 1];
        if g.edge_visible(e) && reach(g, q, d, e.src as int) && reach(g, q, d, e.dst as int) {
            rest.push(e)
        } else {
            rest
        }
    }
}

/// `c` shows edge `e` of `g` by the names of its ends.
pub open spec fn shows_edge(c: Connection, e: Edge, g: GraphView) -> bool {
    c.from@ == g.nodes[e.src as int].name && c.to@ == g.nodes[e.dst as int].name && c.relationship == e.kind
}

/// `r` is the neighbourhood of `q` within `d` steps.
pub open spec fn neighbourhood(r: GraphSearchResult, g: GraphView, q: Seq<char>, d: nat) -> bool {
    &&& forall|k: int| 0 <= k < r.symbols@.len() ==> #[trigger] near_symbol(r.symbols@[k], g, q, d)
    &&& forall|k1: int, k2: int| 0 <= k1 < k2 < r.symbols@.len() ==> r.symbols@[k1].node < r.symbols@[k2].node
    &&& forall|i: int| #[trigger] symbol_covered(r.symbols@, g, q, d, i)
    &&& forall|k: int| 0 <= k < r.matched_files@.len() ==> #[trigger] file_reached(r.matched_files@[k], g, q, d)
    &&& forall|i: int| #[trigger] file_covered(r.matched_files@, g, q, d, i)
    &&& r.connections@.len() == connections_of(g, q, d, g.edges.len() as int).len()
    &&& forall|k: int| 0 <= k < r.connections@.len() ==> #[trigger] shows_edge(r.connections@[k], connections_of(g, q, d, g.edges.len() as int)[k], g)
}

/// If node `i` is a reached symbol, `syms` reports it.
pub open spec fn symbol_covered(syms: Seq<SearchResult>, g: GraphView, q: Seq<char>, d: nat, i: int) -> bool {
    g.is_symbol(i) && reach(g, q, d, i) ==> exists|k: int| 0 <= k < syms.len() && syms[k].node == i
}

/// If node `i` is a reached file, `files` holds its path.
pub open spec fn file_covered(files: Seq<String>, g: GraphView, q: Seq<char>, d: nat, i: int) -> bool {
    g.is_file(i) && reach(g, q, d, i) ==> exists|k: int| 0 <= k < files.len() && files[k]@ == g.nodes[i].file
}

/// `f` is the path of a reached visible file.
pub open spec fn file_reached(f: String, g: GraphView, q: Seq<char>, d: nat) -> bool {
    exists|i: int| g.is_file(i) && reach(g, q, d, i) && f@ == #[trigger] g.nodes[i].file
}

/// `h` reports a reached visible symbol.
pub open spec fn near_symbol(h: SearchResult, g: GraphView, q: Seq<char>, d: nat) -> bool {
    g.is_symbol(h.node as int) && reach(g, q, d, h.node as int) && reports(h, g, h.node as int)
}

impl CodeGraph {
    /// Marks of the seeds of `q`.
    fn seed_marks(&self, q: &Vec<char>) -> (r: Vec<bool>)
        ensures
            r@.len() == self@.nodes.len(),
            forall|i: int| 0 <= i < r@.len() ==> (#[trigger] r@[i] <==> reach(self@, q@, 0, i)),
    {
        let mut r: Vec<bool> = Vec::new();
        let mut i: usize = 0;
        while i < self.nodes.len()
            invariant
                i <= self.nodes@.len(),
                self@.nodes.len() == self.nodes@.len(),
                r@.len() == i,
                forall|k: int| 0 <= k < i ==> (#[trigger] r@[k] <==> reach(self@, q@, 0, k)),
            decreases self.nodes@.len() - i,
        {
            let n = &self.nodes[i];
            assert(self@.nodes[i as int] == n@);
            let hit = !n.removed && contains_seq(&chars_of(n.name.as_str()), q);
            r.push(hit);
            i = i + 1;
        }
        r
    }

    /// One more round: the marks of `reach(d + 1)` from those of `reach(d)`.
    fn widen(&self, q: &Vec<char>, d: Ghost<nat>, cur: &Vec<bool>) -> (r: Vec<bool>)
        requires
            self@.wf(),
            cur@.len() == self@.nodes.len(),
            forall|i: int| 0 <= i < cur@.len() ==> (#[trigger] cur@[i] <==> reach(self@, q@, d@, i)),
        ensures
            r@.len() == self@.nodes.len(),
            forall|i: int| 0 <= i < r@.len() ==> (#[trigger] r@[i] <==> reach(self@, q@, d@ + 1, i)),
    {
        let ghost g = self@;
        let mut next: Vec<bool> = Vec::new();
        let mut i: usize = 0;
        while i < cur.len()
            invariant
                i <= cur@.len(),
                next@.len() == i,
                forall|k: int| 0 <= k < i ==> next@[k] == cur@[k],
            decreases cur@.len() - i,
        {
            next.push(cur[i]);
            i = i + 1;
        }
        let mut j: usize = 0;
        while j < self.edges.len()
            invariant
                g == self@,
                g.wf(),
                g.edges == self.edges@,
                g.nodes.len() == self.nodes@.len(),
                cur@.len() == g.nodes.len(),
                next@.len() == g.nodes.len(),
                j <= g.edges.len(),
                forall|x: int| 0 <= x < cur@.len() ==> (#[trigger] cur@[x] <==> reach(g, q@, d@, x)),
                forall|x: int| 0 <= x < next@.len() ==> (#[trigger] next@[x] <==> (reach(g, q@, d@, x) || exists|jj: int| 0 <= jj < j && #[trigger] step(g, q@, d@, jj, x))),
            decreases g.edges.len() - j,
        {
            let e = self.edges[j];
            assert(g.edges[j as int] == e);
            assert(g.nodes[e.src as int] == self.nodes@[e.src as int]@);
            assert(g.nodes[e.dst as int] == self.nodes@[e.dst as int]@);
            let vis = !self.nodes[e.src].removed && !self.nodes[e.dst].removed;
            let ghost before = next@;
            if vis && cur[e.src] {
                next.set(e.dst, true);
            }
            if vis && cur[e.dst] {
                next.set(e.src, true);
            }
            assert forall|x: int| 0 <= x < next@.len() implies (#[trigger] next@[x] <==> (reach(g, q@, d@, x) || exists|jj: int| 0 <= jj < j + 1 && #[trigger] step(g, q@, d@, jj, x))) by {
                if step(g, q@, d@, j as int, x) {
                    assert(next@[x]);
                }
                if next@[x] && !before[x] {
                    assert(step(g, q@, d@, j as int, x));
                }
                if exists|jj: int| 0 <= jj < j + 1 && #[trigger] step(g, q@, d@, jj, x) {
                    let jj = choose|jj: int| 0 <= jj < j + 1 && step(g, q@, d@, jj, x);
                    if jj < j {
                        assert(before[x]);
                    }
                }
            }
            j = j + 1;
        }
        proof {
            assert forall|i: int| 0 <= i < next@.len() implies (#[trigger] next@[i] <==> reach(g, q@, d@ + 1, i)) by {
                lemma_reach_succ(g, q@, d@, i);
                if exists|jj: int| #[trigger] step(g, q@, d@, jj, i) {
                    let jj = choose|jj: int| step(g, q@, d@, jj, i);
                    assert(0 <= jj < j);
                }
            }
        }
        next
    }

    /// The nodes within `depth` visible edges (either direction) of the
    /// nodes whose name contains `query`: reached files, reached symbols, and
    /// the edges among them.
    pub fn search_graph(&self, query: &str, depth: usize) -> (r: GraphSearchResult)
        requires
            self@.wf(),
        ensures
            neighbourhood(r, self@, query@, depth as nat),
    {
        let q = chars_of(query);
        let mut marks = self.seed_marks(&q);
        let mut k: usize = 0;
        let mut stable = false;
        while k < depth && !stable
            invariant
                self@.wf(),
                q@ == query@,
                k <= depth,
                marks@.len() == self@.nodes.len(),
                forall|i: int| 0 <= i < marks@.len() ==> (#[trigger] marks@[i] <==> reach(self@, q@, k as nat, i)),
                stable ==> forall|i: int| reach(self@, q@, depth as nat, i) == reach(self@, q@, k as nat, i),
            decreases depth - k, if stable { 0int } else { 1int },
        {
            let next = self.widen(&q, Ghost(k as nat), &marks);
            let mut same = true;
            let mut i: usize = 0;
            while i < next.len()
                invariant
                    i <= next@.len(),
                    next@.len() == marks@.len(),
                    same ==> forall|x: int| 0 <= x < i ==> next@[x] == marks@[x],
                decreases next@.len() - i,
            {
                if next[i] != marks[i] {
                    same = false;
                }
                i = i + 1;
            }
            if same {
                proof {
                    assert forall|x: int| reach(self@, q@, (k + 1) as nat, x) == reach(self@, q@, k as nat, x) by {
                        if !(0 <= x < self@.nodes.len()) {
                            lemma_reach_in_range(self@, q@, (k + 1) as nat, x);
                            lemma_reach_in_range(self@, q@, k as nat, x);
                        } else {
                            assert(next@[x] == marks@[x]);
                        }
                    }
                    lemma_reach_stable(self@, q@, k as nat, depth as nat);
                }
                stable = true;
            } else {
                marks = next;
                k = k + 1;
            }
        }
        proof {
            if !stable {
                assert(k == depth);
            }
        }
        self.collect_reached(&marks, Ghost(depth as nat), &q)
    }

    /// Lists what the marks say is reached.
    fn collect_reached(&self, marks: &Vec<bool>, d: Ghost<nat>, q: &Vec<char>) -> (r: GraphSearchResult)
        requires
            marks@.len() == self@.nodes.len(),
            forall|i: int| 0 <= i < marks@.len() ==> (#[trigger] marks@[i] <==> reach(self@, q@, d@, i)),
        ensures
            neighbourhood(r, self@, q@, d@),
    {
        let ghost g = self@;
        let mut files: Vec<String> = Vec::new();
        let mut symbols: Vec<SearchResult> = Vec::new();
        let mut i: usize = 0;
        while i < self.nodes.len()
            invariant
                g == self@,
                i <= self.nodes@.len(),
                g.nodes.len() == self.nodes@.len(),
                marks@.len() == g.nodes.len(),
                forall|x: int| 0 <= x < marks@.len() ==> (#[trigger] marks@[x] <==> reach(g, q@, d@, x)),
                forall|k: int| 0 <= k < symbols@.len() ==> #[trigger] near_symbol(symbols@[k], g, q@, d@),
                forall|k: int| 0 <= k < symbols@.len() ==> #[trigger] symbols@[k].node < i,
                forall|k1: int, k2: int| 0 <= k1 < k2 < symbols@.len() ==> symbols@[k1].node < symbols@[k2].node,
                forall|x: int| 0 <= x < i && g.is_symbol(x) && reach(g, q@, d@, x) ==> exists|k: int| 0 <= k < symbols@.len() && symbols@[k].node == x,
                forall|k: int| 0 <= k < files@.len() ==> #[trigger] file_reached(files@[k], g, q@, d@),
                forall|x: int| 0 <= x < i && g.is_file(x) && reach(g, q@, d@, x) ==> exists|k: int| 0 <= k < files@.len() && files@[k]@ == g.nodes[x].file,
            decreases self.nodes@.len() - i,
        {
            let n = &self.nodes[i];
            assert(g.nodes[i as int] == n@);
            if marks[i] && !n.removed {
                if n.kind == NodeKind::File {
                    let ghost before = files@;
                    files.push(n.file_path.clone());
                    assert(g.is_file(i as int));
                    assert forall|k: int| 0 <= k < files@.len() implies #[trigger] file_reached(files@[k], g, q@, d@) by {
                        if k < before.len() {
                            assert(files@[k] == before[k]);
                        } else {
                            assert(files@[k]@ == g.nodes[i as int].file);
                            assert(g.is_file(i as int) && reach(g, q@, d@, i as int));
                        }
                    }
                    assert forall|x: int| 0 <= x < i + 1 && g.is_file(x) && reach(g, q@, d@, x) implies exists|k: int| 0 <= k < files@.len() && files@[k]@ == g.nodes[x].file by {
                        if x == i {
                            assert(files@[files@.len() - 1]@ == g.nodes[x].file);
                        } else {
                            let k = choose|k: int| 0 <= k < before.len() && before[k]@ == g.nodes[x].file;
                            assert(files@[k] == before[k]);
                        }
                    }
                } else {
                    let ghost before = symbols@;
                    symbols.push(self.report(i));
                    assert forall|k: int| 0 <= k < symbols@.len() implies #[trigger] near_symbol(symbols@[k], g, q@, d@) by {
                        if k < before.len() {
                            assert(symbols@[k] == before[k]);
                        }
                    }
                    assert forall|x: int| 0 <= x < i + 1 && g.is_symbol(x) && reach(g, q@, d@, x) implies exists|k: int| 0 <= k < symbols@.len() && symbols@[k].node == x by {
                        if x == i {
                            assert(symbols@[symbols@.len() - 1].node == x);
                        } else {
                            let k = choose|k: int| 0 <= k < before.len() && before[k].node == x;
                            assert(symbols@[k] == before[k]);
                        }
                    }
                }
            }
            i = i + 1;
        }
        let mut conns: Vec<Connection> = Vec::new();
        let mut j: usize = 0;
        while j < self.edges.len()
            invariant
                g == self@,
                g.edges == self.edges@,
                g.nodes.len() == self.nodes@.len(),
                j <= g.edges.len(),
                marks@.len() == g.nodes.len(),
                forall|x: int| 0 <= x < marks@.len() ==> (#[trigger] marks@[x] <==> reach(g, q@, d@, x)),
                conns@.len() == connections_of(g, q@, d@, j as int).len(),
                forall|x: int| 0 <= x < g.nodes.len() && g.is_symbol(x) && reach(g, q@, d@, x) ==> exists|k: int| 0 <= k < symbols@.len() && symbols@[k].node == x,
                forall|x: int| 0 <= x < g.nodes.len() && g.is_file(x) && reach(g, q@, d@, x) ==> exists|k: int| 0 <= k < files@.len() && files@[k]@ == g.nodes[x].file,
                forall|k: int| 0 <= k < conns@.len() ==> #[trigger] shows_edge(conns@[k], connections_of(g, q@, d@, j as int)[k], g),
            decreases g.edges.len() - j,
        {
            let e = self.edges[j];
            assert(g.edges[j as int] == e);
            if e.src < self.nodes.len() && e.dst < self.nodes.len() {
                assert(g.nodes[e.src as int] == self.nodes@[e.src as int]@);
                assert(g.nodes[e.dst as int] == self.nodes@[e.dst as int]@);
                if !self.nodes[e.src].removed && !self.nodes[e.dst].removed && marks[e.src] && marks[e.dst] {
                    let ghost before = conns@;
                    conns.push(Connection {
                        from: self.nodes[e.src].name.clone(),
                        to: self.nodes[e.dst].name.clone(),
                        relationship: e.kind,
                    });
                    assert forall|k: int| 0 <= k < conns@.len() implies #[trigger] shows_edge(conns@[k], connections_of(g, q@, d@, j + 1)[k], g) by {
                        if k < before.len() {
                            assert(conns@[k] == before[k]);
                        }
                    }
                } else {
                    assert(connections_of(g, q@, d@, j + 1) == connections_of(g, q@, d@, j as int));
                }
            } else {
                assert(!g.visible(e.src as int) || !g.visible(e.dst as int));
                assert(connections_of(g, q@, d@, j + 1) == connections_of(g, q@, d@, j as int));
            }
            j = j + 1;
        }
        proof {
            assert forall|x: int| #[trigger] symbol_covered(symbols@, g, q@, d@, x) by {
                if g.is_symbol(x) {
                    assert(0 <= x < g.nodes.len());
                }
            }
            assert forall|x: int| #[trigger] file_covered(files@, g, q@, d@, x) by {
                if g.is_file(x) {
                    assert(0 <= x < g.nodes.len());
                }
            }
        }
        GraphSearchResult { matched_files: files, symbols, connections: conns }
    }
}

/// Only existing nodes are reached.
pub proof fn lemma_reach_in_range(g: GraphView, q: Seq<char>, d: nat, i: int)
    requires
        !(0 <= i < g.nodes.len()),
        g.wf(),
    ensures
        !reach(g, q, d, i),
    decreases d,
{
    if d > 0 {
        let p = (d - 1) as nat;
        lemma_reach_in_range(g, q, p, i);
        assert forall|j: int| !#[trigger] step(g, q, p, j, i) by {
            if 0 <= j < g.edges.len() {
                assert(g.edges[j].src < g.nodes.len());
            }
        }
        lemma_reach_succ(g, q, p, i);
        assert((p + 1) as nat == d);
    }
}


/// A fresh graph holding a batch of extractions: what a full build makes of
/// the files that were read and parsed.
pub fn build_graph(extractions: Vec<FileExtractions>) -> (g: CodeGraph)
    ensures
        g@.wf(),
        one_definer(g@),
        forall|i: int| 0 <= i < g@.nodes.len() ==> !(#[trigger] g@.nodes[i]).removed,
        forall|x: int, y: int| 0 <= x < extractions@.len() && 0 <= y < extractions@[x].symbols@.len() ==> exists|i: int|
            0 <= i < g@.nodes.len() && g@.nodes[i] == #[trigger] symbol_node(extractions@[x], y),
        forall|x: int, c: int| 0 <= x < extractions@.len() && 0 <= c < extractions@[x].calls@.len() ==> #[trigger] call_resolved(
            g@, 0, extractions@[x], c),
        forall|x: int, k: int| 0 <= x < extractions@.len() && 0 <= k < extractions@[x].imports@.len() ==> #[trigger] import_resolved(
            g@, extractions@[x], k),
        forall|i: int| 0 <= i < g@.nodes.len() ==> #[trigger] node_from_batch(g@.nodes[i], extractions@),
{
    let mut g = CodeGraph::new();
    g.build_from_extractions(extractions);
    g
}


/// A symbol that a build took in keeps its name character for character,
/// and a search for that exact name matches it (so two symbols of the same
/// name in different files are both found).
pub proof fn law_symbols_found_by_their_names(g: GraphView, x: FileExtractions, y: int, i: int)
    requires
        0 <= y < x.symbols@.len(),
        0 <= i < g.nodes.len(),
        g.nodes[i] == symbol_node(x, y),
    ensures
        g.nodes[i].name == x.symbols@[y].name@,
        g.nodes[i].file == x.file_path@,
        is_match(g, x.symbols@[y].name@, i),
{
    let n = x.symbols@[y].name@;
    assert(n.subrange(0, n.len() as int) =~= n);
    assert(crate::text::occurs_at(n, n, 0));
}


/// When some visible symbol is named exactly `q`, a search for `q` returns
/// at least one hit, and its first hit is named exactly `q` (an exact match
/// ranks before any other).
pub proof fn law_exact_match_comes_first(g: GraphView, q: Seq<char>, limit: nat, hits: Seq<SearchResult>, e: int)
    requires
        search_outcome(g, q, limit, hits),
        limit > 0,
        g.is_symbol(e),
        g.nodes[e].name == q,
    ensures
        hits.len() > 0,
        g.nodes[hits[0].node as int].name == q,
        hits[0].symbol@ == q,
{
    let n = q;
    assert(n.subrange(0, n.len() as int) =~= n);
    assert(crate::text::occurs_at(n, n, 0));
    assert(is_match(g, q, e));
    if hits.len() == 0 {
        assert(exists|k: int| 0 <= k < hits.len() && hits[k].node == e);
    }
    assert(reports(hits[0], g, hits[0].node as int));
    if exists|k2: int| 0 <= k2 < hits.len() && hits[k2].node == e {
        let k2 = choose|k2: int| 0 <= k2 < hits.len() && hits[k2].node == e;
        if k2 > 0 {
            assert(rank_le(g, q, hits[0].node as int, hits[k2].node as int));
        }
    } else {
        assert(rank_le(g, q, hits[0].node as int, e));
    }
}

/// When exactly two visible symbols match `n` (say, one name in two files),
/// a search for `n` with room for three or more hits returns both of them.
pub proof fn law_both_matches_found(g: GraphView, n: Seq<char>, limit: nat, hits: Seq<SearchResult>, a: int, b: int)
    requires
        search_outcome(g, n, limit, hits),
        limit >= 3,
        a != b,
        is_match(g, n, a),
        is_match(g, n, b),
        forall|i: int| #[trigger] is_match(g, n, i) ==> i == a || i == b,
    ensures
        hits.len() == 2,
        exists|k: int| 0 <= k < hits.len() && hits[k].node == a,
        exists|k: int| 0 <= k < hits.len() && hits[k].node == b,
{
    if hits.len() >= 3 {
        assert(reports(hits[0], g, hits[0].node as int));
        assert(reports(hits[1], g, hits[1].node as int));
        assert(reports(hits[2], g, hits[2].node as int));
        assert(is_match(g, n, hits[0].node as int));
        assert(is_match(g, n, hits[1].node as int));
        assert(is_match(g, n, hits[2].node as int));
        assert(false);
    }
    assert(exists|k: int| 0 <= k < hits.len() && hits[k].node == a);
    assert(exists|k: int| 0 <= k < hits.len() && hits[k].node == b);
    if hits.len() < 2 {
        let ka = choose|k: int| 0 <= k < hits.len() && hits[k].node == a;
        let kb = choose|k: int| 0 <= k < hits.len() && hits[k].node == b;
        assert(ka == kb);
    }
}


/// A resolved call fans out: every visible symbol named like the callee is
/// among the dependencies of the caller's name, whatever file it is in.
pub proof fn law_calls_fan_out(g: GraphView, base: int, x: FileExtractions, c: int, u: int, v: int)
    requires
        call_resolved(g, base, x, c),
        0 <= c < x.calls@.len(),
        new_symbol_named(g, base, x.file_path@, x.calls@[c].caller@, u),
        g.is_symbol(v),
        g.nodes[v].name == x.calls@[c].callee@,
        g.nodes.len() <= usize::MAX,
    ensures
        linked(g, g.nodes[u].name, false, v),
{
    let e = Edge { src: u as usize, dst: v as usize, kind: EdgeKind::Calls };
    assert(g.edges.contains(e));
    let j = choose|j: int| 0 <= j < g.edges.len() && g.edges[j] == e;
    assert(links(g, g.nodes[u].name, false, j, v));
}

} // verus!
