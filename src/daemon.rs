//! The daemon's protocol and decisions: requests, what each one is
//! answered with, and the lifecycle of the server. Sockets, threads, locks
//! and JSON stay with the program that runs the daemon.

use vstd::prelude::*;

use crate::context::{
    anchor_dependencies, anchor_stats, context_fits, get_context, owned, ContextResponse,
    DependencyResponse, StatsResponse,
};
use crate::graph::{
    lists_linked, neighbourhood, stats_of, CodeGraph, GraphSearchResult, GraphStats, SearchResult,
};
use crate::text::{chars_of, eq_seq};

verus! {

/// Directory, under a project root, that holds the daemon's files.
pub open spec fn anchor_dir(root: Seq<char>) -> Seq<char> {
    root + "/.anchor"@
}

fn join(root: &str, tail: &str) -> (r: String)
    ensures
        r@ == root@ + tail@,
{
    let mut v = chars_of(root);
    let t = chars_of(tail);
    let mut i: usize = 0;
    while i < t.len()
        invariant
            i <= t@.len(),
            v@ == root@ + t@.subrange(0, i as int),
        decreases t@.len() - i,
    {
        v.push(t[i]);
        i = i + 1;
    }
    assert(t@.subrange(0, t@.len() as int) =~= t@);
    crate::text::string_of(v.as_slice())
}

/// The daemon's socket: `<root>/.anchor/anchor.sock`.
pub fn socket_path(root: &str) -> (r: String)
    ensures
        r@ == root@ + "/.anchor/anchor.sock"@,
{
    join(root, "/.anchor/anchor.sock")
}

/// The daemon's pid file: `<root>/.anchor/daemon.pid`.
pub fn pid_path(root: &str) -> (r: String)
    ensures
        r@ == root@ + "/.anchor/daemon.pid"@,
{
    join(root, "/.anchor/daemon.pid")
}

/// The persisted graph: `<root>/.anchor/graph.bin`.
pub fn graph_path(root: &str) -> (r: String)
    ensures
        r@ == root@ + "/.anchor/graph.bin"@,
{
    join(root, "/.anchor/graph.bin")
}

/// A request from a client.
#[derive(Clone, Debug)]
pub enum Request {
    Search { query: String, depth: usize },
    Context { query: String, intent: String },
    Deps { symbol: String },
    Stats,
    Overview,
    Create { path: String, content: String },
    Insert { path: String, pattern: String, content: String },
    Replace { path: String, old: String, new: String },
    LockStatus { path: String },
    Locks,
    Rebuild,
    Ping,
    Shutdown,
}

/// What the daemon answers, or, for a rebuild, what it must do next.
#[derive(Debug)]
pub enum Reply {
    Pong,
    /// The shutdown flag is to be set.
    Goodbye,
    Stats(StatsResponse),
    Search(GraphSearchResult),
    Context(ContextResponse),
    Deps(DependencyResponse),
    Overview { stats: GraphStats, files: Vec<String>, entry_points: Vec<SearchResult> },
    /// Build a new graph off the lock, swap it in, and answer with its stats.
    Rebuild,
    Error(String),
}

/// The entry points among reached symbols: those named exactly `main`.
pub open spec fn is_entry_point(h: SearchResult) -> bool {
    h.symbol@ == "main"@
}

/// What the reply to `req` over graph `g` must be.
pub open spec fn answers(req: Request, g: crate::graph::GraphView, r: Reply) -> bool {
    match req {
        Request::Ping => r is Pong,
        Request::Shutdown => r is Goodbye,
        Request::Rebuild => r is Rebuild,
        Request::Stats => match r {
            Reply::Stats(s) => s.stats.file_count == stats_of(g).0 && s.stats.symbol_count == stats_of(g).1
                && s.stats.total_edges == stats_of(g).2,
            _ => false,
        },
        Request::Search { query, depth } => match r {
            Reply::Search(x) => neighbourhood(x, g, query@, depth as nat),
            _ => false,
        },
        Request::Context { query, intent } => match r {
            Reply::Context(c) => context_fits(c, g, query@, intent@, None),
            _ => false,
        },
        Request::Deps { symbol } => match r {
            Reply::Deps(d) => d.symbol@ == symbol@ && lists_linked(d.dependents@, g, symbol@, true)
                && lists_linked(d.dependencies@, g, symbol@, false),
            _ => false,
        },
        Request::Overview => match r {
            Reply::Overview { stats, files, entry_points } => {
                &&& stats.file_count == stats_of(g).0
                &&& stats.symbol_count == stats_of(g).1
                &&& stats.total_edges == stats_of(g).2
                &&& exists|x: GraphSearchResult| neighbourhood(x, g, "src/"@, 0) && files@ == x.matched_files@
                &&& exists|x: GraphSearchResult| neighbourhood(x, g, "main"@, 0) && entry_points@ == x.symbols@.filter(|h: SearchResult| is_entry_point(h))
            },
            _ => false,
        },
        _ => r is Error,
    }
}

/// Keeps the hits named exactly `main`.
fn entry_points(hits: Vec<SearchResult>) -> (r: Vec<SearchResult>)
    ensures
        r@ == hits@.filter(|h: SearchResult| is_entry_point(h)),
{
    let main = chars_of("main");
    let mut r: Vec<SearchResult> = Vec::new();
    let mut i: usize = 0;
    while i < hits.len()
        invariant
            i <= hits@.len(),
            main@ == "main"@,
            r@ == hits@.subrange(0, i as int).filter(|h: SearchResult| is_entry_point(h)),
        decreases hits@.len() - i,
    {
        let h = &hits[i];
        assert(hits@.subrange(0, i + 1).drop_last() =~= hits@.subrange(0, i as int));
        if eq_seq(&chars_of(h.symbol.as_str()), &main) {
            r.push(h.copy());
        }
        proof {
            reveal(Seq::filter);
        }
        i = i + 1;
    }
    assert(hits@.subrange(0, hits@.len() as int) =~= hits@);
    r
}

/// Answers one request over the current graph. Reads only: a rebuild is
/// handed back as an action, and the write and lock requests are refused.
pub fn process_request(graph: &CodeGraph, request: &Request) -> (r: Reply)
    requires
        graph@.wf(),
    ensures
        answers(*request, graph@, r),
{
    match request {
        Request::Ping => Reply::Pong,
        Request::Shutdown => Reply::Goodbye,
        Request::Rebuild => Reply::Rebuild,
        Request::Stats => Reply::Stats(anchor_stats(graph)),
        Request::Search { query, depth } => Reply::Search(graph.search_graph(query.as_str(), *depth)),
        Request::Context { query, intent } => Reply::Context(get_context(graph, query.as_str(), intent.as_str())),
        Request::Deps { symbol } => Reply::Deps(anchor_dependencies(graph, symbol.as_str())),
        Request::Overview => {
            let stats = graph.stats();
            let files = graph.search_graph("src/", 0);
            let mains = graph.search_graph("main", 0);
            Reply::Overview {
                stats,
                files: files.matched_files,
                entry_points: entry_points(mains.symbols),
            }
        },
        _ => Reply::Error(owned("write and lock requests are not served by this daemon")),
    }
}

/// The lifecycle of the daemon.
#[derive(Clone, Copy, Debug, PartialEq, Eq, Structural)]
pub enum DaemonState {
    Starting,
    Serving,
    Draining,
    Exited,
}

/// What happens to the daemon.
#[derive(Clone, Copy, Debug, PartialEq, Eq, Structural)]
pub enum DaemonEvent {
    InitialBuildDone,
    ShutdownRequested,
    AcceptFailed,
    InFlightDone,
}

/// The lifecycle: `Starting -> Serving` after the initial build; `Serving ->
/// Draining` on shutdown or a fatal accept error; `Draining -> Exited` once
/// the requests in flight are done. Anything else leaves the state alone.
pub open spec fn next_state_spec(s: DaemonState, e: DaemonEvent) -> DaemonState {
    match (s, e) {
        (DaemonState::Starting, DaemonEvent::InitialBuildDone) => DaemonState::Serving,
        (DaemonState::Serving, DaemonEvent::ShutdownRequested) => DaemonState::Draining,
        (DaemonState::Serving, DaemonEvent::AcceptFailed) => DaemonState::Draining,
        (DaemonState::Draining, DaemonEvent::InFlightDone) => DaemonState::Exited,
        _ => s,
    }
}

/// The next lifecycle state.
pub fn next_state(s: DaemonState, e: DaemonEvent) -> (r: DaemonState)
    ensures
        r == next_state_spec(s, e),
{
    match (s, e) {
        (DaemonState::Starting, DaemonEvent::InitialBuildDone) => DaemonState::Serving,
        (DaemonState::Serving, DaemonEvent::ShutdownRequested) => DaemonState::Draining,
        (DaemonState::Serving, DaemonEvent::AcceptFailed) => DaemonState::Draining,
        (DaemonState::Draining, DaemonEvent::InFlightDone) => DaemonState::Exited,
        _ => s,
    }
}

/// Does the daemon accept connections in this state?
pub fn accepts_connections(s: DaemonState) -> (b: bool)
    ensures
        b == (s == DaemonState::Serving),
{
    s == DaemonState::Serving
}

/// The daemon's storage directory.
pub struct Storage {
    root: String,
}

impl Storage {
    /// Storage rooted at an existing directory.
    pub fn open(root: &str) -> (s: Storage)
        ensures
            s.root_view() == root@,
    {
        Storage { root: owned(root) }
    }

    pub closed spec fn root_view(&self) -> Seq<char> {
        self.root@
    }

    /// The root directory.
    pub fn root(&self) -> (r: &str)
        ensures
            r@ == self.root_view(),
    {
        self.root.as_str()
    }
}

} // verus!
