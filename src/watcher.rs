//! Decisions of the file watcher: which paths to ignore, how a debounced
//! batch of events is coalesced, and how one file's update is applied to the
//! graph. Subscribing to file-system events stays outside the library.

use vstd::prelude::*;

use crate::graph::{
    added_links, call_resolved, grew_from, import_resolved, lemma_added_links_keeps_definer,
    lemma_added_links_trans, lemma_call_resolved_kept, lemma_import_resolved_kept, node_from,
    node_from_batch, one_definer, symbol_node, tombstone_if_in, CodeGraph, Edge, EdgeKind, FileExtractions, GraphView, NodeKind,
};
use crate::language::{language_of_path, SupportedLanguage};
use crate::text::{chars_of, eq_seq};

verus! {

/// Default debounce window, in milliseconds.
pub const DEFAULT_DEBOUNCE_MS: u64 = 200;

/// The debounce window to use: the default when zero is asked for.
pub fn debounce_ms(requested: u64) -> (r: u64)
    ensures
        r == if requested == 0 { DEFAULT_DEBOUNCE_MS } else { requested },
{
    if requested == 0 {
        DEFAULT_DEBOUNCE_MS
    } else {
        requested
    }
}

/// Directory names that are never watched.
pub open spec fn ignored_name(c: Seq<char>) -> bool {
    c == ".git"@ || c == "target"@ || c == "node_modules"@ || c == ".anchor"@ || c == "__pycache__"@
        || c == ".venv"@ || c == "dist"@ || c == "build"@
}

/// The `/`-separated components of a path, empty ones included.
pub open spec fn components(p: Seq<char>, n: int) -> (Seq<Seq<char>>, Seq<char>)
    decreases n,
{
    if n <= 0 {
        (Seq::empty(), Seq::empty())
    } else {
        let (done, cur) = components(p, n - 1);
        if p[n - 1] == '/' {
            (done.push(cur), Seq::empty())
        } else {
            (done, cur.push(p[n - 1]))
        }
    }
}

/// Some component of the path is an ignored directory name.
pub open spec fn ignored_path(p: Seq<char>) -> bool {
    let (done, last) = components(p, p.len() as int);
    ignored_name(last) || exists|k: int| 0 <= k < done.len() && ignored_name(#[trigger] done[k])
}

fn is_ignored_name(c: &Vec<char>) -> (b: bool)
    ensures
        b == ignored_name(c@),
{
    eq_seq(c, &chars_of(".git")) || eq_seq(c, &chars_of("target")) || eq_seq(c, &chars_of("node_modules"))
        || eq_seq(c, &chars_of(".anchor")) || eq_seq(c, &chars_of("__pycache__")) || eq_seq(
        c,
        &chars_of(".venv"),
    ) || eq_seq(c, &chars_of("dist")) || eq_seq(c, &chars_of("build"))
}

/// Is some component of the path an ignored directory name?
pub fn should_ignore(path: &str) -> (b: bool)
    ensures
        b == ignored_path(path@),
{
    let p = chars_of(path);
    let mut cur: Vec<char> = Vec::new();
    let mut found = false;
    let mut i: usize = 0;
    while i < p.len()
        invariant
            i <= p@.len(),
            cur@ == components(p@, i as int).1,
            found == exists|k: int| 0 <= k < components(p@, i as int).0.len() && ignored_name(#[trigger] components(p@, i as int).0[k]),
        decreases p@.len() - i,
    {
        let ghost before = components(p@, i as int);
        if p[i] == '/' {
            let hit = is_ignored_name(&cur);
            proof {
                let after = components(p@, i + 1);
                assert(after.0 == before.0.push(before.1));
                if found {
                    let k = choose|k: int| 0 <= k < before.0.len() && ignored_name(#[trigger] before.0[k]);
                    assert(after.0[k] == before.0[k]);
                }
                if hit {
                    assert(after.0[before.0.len() as int] == before.1);
                }
                if exists|k: int| 0 <= k < after.0.len() && ignored_name(#[trigger] after.0[k]) {
                    let k = choose|k: int| 0 <= k < after.0.len() && ignored_name(#[trigger] after.0[k]);
                    if k < before.0.len() {
                        assert(after.0[k] == before.0[k]);
                    }
                }
            }
            found = found || hit;
            cur = Vec::new();
        } else {
            cur.push(p[i]);
            proof {
                let after = components(p@, i + 1);
                assert(after.0 == before.0);
            }
        }
        i = i + 1;
    }
    found || is_ignored_name(&cur)
}

/// What a debounced event says of a path.
#[derive(Clone, Copy, Debug, PartialEq, Eq, Structural)]
pub enum FileEventKind {
    /// Created, modified or removed; settled.
    Any,
    /// Still being written.
    AnyContinuous,
}

/// One debounced event.
#[derive(Clone, Debug)]
pub struct FileEvent {
    pub path: String,
    pub kind: FileEventKind,
}

/// An event is kept when its path is watched and names a supported language.
pub open spec fn kept(e: FileEvent) -> bool {
    !ignored_path(e.path@) && language_of_path(e.path@) is Some
}

/// From position `i` on, the last event on `e`'s path has `e`'s kind.
pub open spec fn last_from(events: Seq<FileEvent>, i: int, e: FileEvent) -> bool {
    exists|j: int|
        i <= j < events.len() && (#[trigger] events[j]).path@ == e.path@ && events[j].kind == e.kind
            && forall|j2: int| j < j2 < events.len() ==> events[j2].path@ != e.path@
}

/// Some entry of `r` is on the path of `e`.
pub open spec fn has_path(r: Seq<FileEvent>, e: FileEvent) -> bool {
    exists|k: int| 0 <= k < r.len() && r[k].path@ == e.path@
}

/// Coalesces a batch: events on ignored or unsupported paths are dropped,
/// and each remaining path appears once, with the kind of its last event.
pub fn coalesce(events: &Vec<FileEvent>) -> (r: Vec<FileEvent>)
    ensures
        forall|k: int| 0 <= k < r@.len() ==> #[trigger] kept(r@[k]),
        forall|k1: int, k2: int| 0 <= k1 < k2 < r@.len() ==> r@[k1].path@ != r@[k2].path@,
        forall|j: int| 0 <= j < events@.len() && #[trigger] kept(events@[j]) ==> has_path(r@, events@[j]),
        forall|k: int| 0 <= k < r@.len() ==> #[trigger] last_from(events@, 0, r@[k]),
{
    let mut r: Vec<FileEvent> = Vec::new();
    let mut i: usize = events.len();
    while i > 0
        invariant
            i <= events@.len(),
            forall|k: int| 0 <= k < r@.len() ==> #[trigger] kept(r@[k]),
            forall|k1: int, k2: int| 0 <= k1 < k2 < r@.len() ==> r@[k1].path@ != r@[k2].path@,
            forall|j: int| i <= j < events@.len() && #[trigger] kept(events@[j]) ==> has_path(r@, events@[j]),
            forall|k: int| 0 <= k < r@.len() ==> #[trigger] last_from(events@, i as int, r@[k]),
        decreases i,
    {
        let e = &events[i - 1];
        let keep = !should_ignore(e.path.as_str()) && SupportedLanguage::from_path(e.path.as_str()).is_some();
        if keep {
            let ep = chars_of(e.path.as_str());
            let mut k: usize = 0;
            let mut seen = false;
            while k < r.len() && !seen
                invariant
                    k <= r@.len(),
                    ep@ == e.path@,
                    seen ==> has_path(r@, *e),
                    !seen ==> forall|m: int| 0 <= m < k ==> r@[m].path@ != ep@,
                decreases r@.len() - k,
            {
                if eq_seq(&chars_of(r[k].path.as_str()), &ep) {
                    seen = true;
                }
                k = k + 1;
            }
            if !seen {
                let ghost before = r@;
                r.push(FileEvent { path: e.path.clone(), kind: e.kind });
                proof {
                    assert(r@[before.len() as int].path@ == e.path@);
                    assert forall|j2: int| i - 1 < j2 < events@.len() implies events@[j2].path@ != e.path@ by {
                        if events@[j2].path@ == e.path@ {
                            assert(kept(events@[j2]));
                            assert(has_path(before, events@[j2]));
                        }
                    }
                    assert(last_from(events@, i - 1, r@[before.len() as int]));
                    assert forall|kk: int| 0 <= kk < r@.len() implies #[trigger] last_from(events@, i - 1, r@[kk]) by {
                        if kk < before.len() {
                            assert(r@[kk] == before[kk]);
                            assert(last_from(events@, i as int, before[kk]));
                        }
                    }
                    assert forall|j: int| i - 1 <= j < events@.len() && #[trigger] kept(events@[j]) implies has_path(r@, events@[j]) by {
                        if j >= i {
                            let kk = choose|kk: int| 0 <= kk < before.len() && before[kk].path@ == events@[j].path@;
                            assert(r@[kk] == before[kk]);
                        } else {
                            assert(r@[before.len() as int].path@ == events@[j].path@);
                        }
                    }
                    assert forall|k1: int, k2: int| 0 <= k1 < k2 < r@.len() implies r@[k1].path@ != r@[k2].path@ by {
                        if k2 == before.len() {
                            assert(r@[k1] == before[k1]);
                        } else {
                            assert(r@[k1] == before[k1]);
                            assert(r@[k2] == before[k2]);
                        }
                    }
                    assert forall|kk: int| 0 <= kk < r@.len() implies #[trigger] kept(r@[kk]) by {
                        if kk < before.len() {
                            assert(r@[kk] == before[kk]);
                        }
                    }
                }
            } else {
                proof {
                    assert forall|kk: int| 0 <= kk < r@.len() implies #[trigger] last_from(events@, i - 1, r@[kk]) by {
                        assert(last_from(events@, i as int, r@[kk]));
                    }
                }
            }
        } else {
            proof {
                assert(!kept(events@[i - 1]));
                assert forall|kk: int| 0 <= kk < r@.len() implies #[trigger] last_from(events@, i - 1, r@[kk]) by {
                    assert(last_from(events@, i as int, r@[kk]));
                }
            }
        }
        i = i - 1;
    }
    r
}

/// What to do for one coalesced event.
#[derive(Clone, Copy, Debug, PartialEq, Eq, Structural)]
pub enum WatchAction {
    /// Re-extract the file and replace its symbols.
    Rebuild,
    /// Drop the file's symbols.
    Remove,
    /// Leave it for the next window.
    Defer,
}

/// A settled event on an existing file rebuilds it, on a missing one
/// removes it; a continuous write is deferred.
pub fn plan(kind: FileEventKind, exists: bool) -> (a: WatchAction)
    ensures
        kind == FileEventKind::AnyContinuous ==> a == WatchAction::Defer,
        kind == FileEventKind::Any && exists ==> a == WatchAction::Rebuild,
        kind == FileEventKind::Any && !exists ==> a == WatchAction::Remove,
{
    match kind {
        FileEventKind::AnyContinuous => WatchAction::Defer,
        FileEventKind::Any => if exists {
            WatchAction::Rebuild
        } else {
            WatchAction::Remove
        },
    }
}

/// Applies one file's update: its old symbols are tombstoned, then, if it
/// was re-extracted, the new extraction is merged. Meant to run under the
/// graph's write lock, so that readers see all of it or none of it.
pub fn apply_file_update(graph: &mut CodeGraph, path: &String, extraction: Option<FileExtractions>)
    requires
        old(graph)@.wf(),
        extraction matches Some(x) ==> x.file_path@ == path@,
    ensures
        final(graph)@.wf(),
        one_definer(old(graph)@) ==> one_definer(final(graph)@),
        update_law(old(graph)@, final(graph)@, path@, extraction),
        callers_relinked(old(graph)@, final(graph)@, path@),
        extraction is None ==> final(graph)@.nodes.len() == old(graph)@.nodes.len(),
        forall|i: int| 0 <= i < old(graph)@.nodes.len() ==> #[trigger] final(graph)@.nodes[i] == tombstone_if_in(old(graph)@.nodes[i], path@),
        extraction matches Some(x) ==> forall|i: int|
            old(graph)@.nodes.len() <= i < final(graph)@.nodes.len() ==> #[trigger] node_from(final(graph)@.nodes[i], x),
        extraction matches Some(x) ==> forall|c: int|
            0 <= c < x.calls@.len() ==> #[trigger] call_resolved(final(graph)@, old(graph)@.nodes.len() as int, x, c),
        extraction matches Some(x) ==> forall|k: int|
            0 <= k < x.imports@.len() ==> #[trigger] import_resolved(final(graph)@, x, k),
{
    let ghost before = graph@;
    let incoming = incoming_callers(graph, path);
    graph.remove_file(path);
    let base = graph.node_count();
    let ghost mid = graph@;
    match extraction {
        Some(x) => {
            let ghost xv = x;
            let mut batch: Vec<FileExtractions> = Vec::new();
            batch.push(x);
            graph.build_from_extractions(batch);
            proof {
                assert(batch@[0] == xv);
                assert forall|i: int| before.nodes.len() <= i < graph@.nodes.len() implies #[trigger] node_from(graph@.nodes[i], xv) by {
                    assert(node_from_batch(graph@.nodes[i], batch@));
                    let k = choose|k: int| 0 <= k < batch@.len() && #[trigger] node_from(graph@.nodes[i], batch@[k]);
                }
                assert forall|c: int| 0 <= c < xv.calls@.len() implies #[trigger] call_resolved(graph@, before.nodes.len() as int, xv, c) by {
                    assert(call_resolved(graph@, mid.nodes.len() as int, batch@[0], c));
                }
                assert forall|k: int| 0 <= k < xv.imports@.len() implies #[trigger] import_resolved(graph@, xv, k) by {
                    assert(import_resolved(graph@, batch@[0], k));
                }
                law_update_replaces_file(before, mid, graph@, path@, Some(xv));
            }
        },
        None => {
            proof {
                law_update_replaces_file(before, mid, graph@, path@, None);
            }
        },
    }
    let ghost built = graph@;
    relink(graph, &incoming, path, base);
    proof {
        let g = graph@;
        if one_definer(before) {
            lemma_added_links_keeps_definer(built, g);
        }
        assert forall|i: int| 0 <= i < before.nodes.len() implies #[trigger] g.nodes[i] == tombstone_if_in(before.nodes[i], path@) by {
            assert(g.nodes[i] == built.nodes[i]);
            assert(built.nodes[i] == mid.nodes[i]);
        }
        if extraction is Some {
            let x = extraction->Some_0;
            assert forall|i: int| before.nodes.len() <= i < g.nodes.len() implies #[trigger] node_from(g.nodes[i], x) by {
                assert(g.nodes[i] == built.nodes[i]);
            }
            assert forall|c: int| 0 <= c < x.calls@.len() implies #[trigger] call_resolved(g, before.nodes.len() as int, x, c) by {
                lemma_call_resolved_kept(built, g, before.nodes.len() as int, x, c);
            }
            assert forall|k: int| 0 <= k < x.imports@.len() implies #[trigger] import_resolved(g, x, k) by {
                lemma_import_resolved_kept(built, g, x, k);
            }
        }
        assert forall|i: int| 0 <= i < before.nodes.len() && #[trigger] g.visible(i) implies g.nodes[i].file != path@ by {
            assert(built.visible(i));
        }
        if extraction is Some {
            let e = extraction->Some_0;
            assert forall|y: int| 0 <= y < e.symbols@.len() implies exists|i: int|
                before.nodes.len() <= i < g.nodes.len() && g.nodes[i] == #[trigger] symbol_node(e, y) by {
                let i = choose|i: int| before.nodes.len() <= i < built.nodes.len() && built.nodes[i] == symbol_node(e, y);
            }
        }
        assert forall|j: int, i: int|
            0 <= j < before.edges.len() && #[trigger] call_into(before, path@, before.edges[j]) && before.nodes.len() <= i
                && #[trigger] g.is_symbol(i) && g.nodes[i].file == path@ && g.nodes[i].name == before.nodes[before.edges[j].dst as int].name
            implies g.edges.contains(Edge { src: before.edges[j].src, dst: i as usize, kind: EdgeKind::Calls }) by {
            let k = choose|k: int| 0 <= k < incoming@.len() && incoming@[k].0 == before.edges[j].src
                && incoming@[k].1@ == before.nodes[before.edges[j].dst as int].name;
            assert(built.is_symbol(i));
            assert(relinked_one(g, incoming@[k].0, incoming@[k].1@, path@, base as int, i));
        }
    }
}

/// Edge `e` of `g` is a visible call into a symbol of file `p` from a symbol of another file.
pub open spec fn call_into(g: GraphView, p: Seq<char>, e: Edge) -> bool {
    &&& e.kind == EdgeKind::Calls
    &&& e.src < g.nodes.len() && e.dst < g.nodes.len()
    &&& g.edge_visible(e)
    &&& g.nodes[e.dst as int].file == p
    &&& g.nodes[e.src as int].file != p
}

/// Every caller in another file of a symbol of `p` before the update calls,
/// after it, each new symbol of `p` of the same name.
pub open spec fn callers_relinked(before: GraphView, after: GraphView, p: Seq<char>) -> bool {
    forall|j: int, i: int|
        0 <= j < before.edges.len() && #[trigger] call_into(before, p, before.edges[j]) && before.nodes.len() <= i
            && #[trigger] after.is_symbol(i) && after.nodes[i].file == p && after.nodes[i].name == before.nodes[before.edges[j].dst as int].name
            ==> after.edges.contains(Edge { src: before.edges[j].src, dst: i as usize, kind: EdgeKind::Calls })
}

/// Caller `u` calls node `i` if `i` is a symbol of `p` named `name` added after the first `base` nodes.
pub open spec fn relinked_one(g: GraphView, u: usize, name: Seq<char>, p: Seq<char>, base: int, i: int) -> bool {
    base <= i && g.is_symbol(i) && g.nodes[i].file == p && g.nodes[i].name == name ==> g.edges.contains(
        Edge { src: u, dst: i as usize, kind: EdgeKind::Calls },
    )
}

/// The callers in other files of the symbols of `path`, each with the name it calls.
fn incoming_callers(graph: &CodeGraph, path: &String) -> (r: Vec<(usize, String)>)
    requires
        graph@.wf(),
    ensures
        forall|k: int| 0 <= k < r@.len() ==> (#[trigger] r@[k]).0 < graph@.nodes.len() && graph@.nodes[r@[k].0 as int].kind != NodeKind::File,
        forall|j: int| 0 <= j < graph@.edges.len() && #[trigger] call_into(graph@, path@, graph@.edges[j]) ==> exists|k: int|
            0 <= k < r@.len() && r@[k].0 == graph@.edges[j].src && r@[k].1@ == graph@.nodes[graph@.edges[j].dst as int].name,
{
    let edges = graph.edge_list();
    let count = graph.node_count();
    let mut r: Vec<(usize, String)> = Vec::new();
    let mut j: usize = 0;
    while j < edges.len()
        invariant
            j <= edges@.len(),
            edges@ == graph@.edges,
            count == graph@.nodes.len(),
            graph@.wf(),
            forall|k: int| 0 <= k < r@.len() ==> (#[trigger] r@[k]).0 < graph@.nodes.len() && graph@.nodes[r@[k].0 as int].kind != NodeKind::File,
            forall|jj: int| 0 <= jj < j && #[trigger] call_into(graph@, path@, graph@.edges[jj]) ==> exists|k: int|
                0 <= k < r@.len() && r@[k].0 == graph@.edges[jj].src && r@[k].1@ == graph@.nodes[graph@.edges[jj].dst as int].name,
        decreases edges@.len() - j,
    {
        let e = edges[j];
        assert(graph@.edges[j as int] == e);
        let ghost before = r@;
        if e.kind == EdgeKind::Calls && e.src < count && e.dst < count {
            let s = graph.node(e.src);
            let d = graph.node(e.dst);
            if !s.removed && !d.removed && d.file_path == *path && s.file_path != *path {
                r.push((e.src, d.name.clone()));
                assert(r@[r@.len() - 1].0 == e.src);
            }
        }
        assert forall|jj: int| 0 <= jj < j + 1 && #[trigger] call_into(graph@, path@, graph@.edges[jj]) implies exists|k: int|
            0 <= k < r@.len() && r@[k].0 == graph@.edges[jj].src && r@[k].1@ == graph@.nodes[graph@.edges[jj].dst as int].name by {
            if jj < j {
                let k = choose|k: int| 0 <= k < before.len() && before[k].0 == graph@.edges[jj].src && before[k].1@ == graph@.nodes[graph@.edges[jj].dst as int].name;
                assert(r@[k] == before[k]);
            } else {
                assert(r@[r@.len() - 1].0 == e.src);
            }
        }
        assert forall|k: int| 0 <= k < r@.len() implies (#[trigger] r@[k]).0 < graph@.nodes.len() && graph@.nodes[r@[k].0 as int].kind != NodeKind::File by {
            if k < before.len() {
                assert(r@[k] == before[k]);
            }
        }
        j = j + 1;
    }
    r
}

/// Links each caller to every symbol of `path` added after the first `base`
/// nodes that has the name it calls.
fn relink(graph: &mut CodeGraph, incoming: &Vec<(usize, String)>, path: &String, base: usize)
    requires
        old(graph)@.wf(),
        forall|k: int| 0 <= k < incoming@.len() ==> (#[trigger] incoming@[k]).0 < old(graph)@.nodes.len() && old(graph)@.nodes[incoming@[k].0 as int].kind != NodeKind::File,
    ensures
        final(graph)@.wf(),
        added_links(final(graph)@, old(graph)@),
        forall|k: int, i: int| 0 <= k < incoming@.len() ==> #[trigger] relinked_one(final(graph)@, incoming@[k].0, incoming@[k].1@, path@, base as int, i),
{
    let ghost g0 = graph@;
    let count = graph.node_count();
    let mut k: usize = 0;
    while k < incoming.len()
        invariant
            k <= incoming@.len(),
            graph@.wf(),
            added_links(graph@, g0),
            count == g0.nodes.len(),
            forall|kk: int| 0 <= kk < incoming@.len() ==> (#[trigger] incoming@[kk]).0 < g0.nodes.len() && g0.nodes[incoming@[kk].0 as int].kind != NodeKind::File,
            forall|kk: int, i: int| 0 <= kk < k ==> #[trigger] relinked_one(graph@, incoming@[kk].0, incoming@[kk].1@, path@, base as int, i),
        decreases incoming@.len() - k,
    {
        let u = incoming[k].0;
        let ghost outer = graph@;
        let mut v: usize = base;
        while v < count
            invariant
                graph@.wf(),
                added_links(graph@, g0),
                added_links(graph@, outer),
                count == g0.nodes.len(),
                u == incoming@[k as int].0,
                k < incoming@.len(),
                u < g0.nodes.len() && g0.nodes[u as int].kind != NodeKind::File,
                forall|kk: int, i: int| 0 <= kk < k ==> #[trigger] relinked_one(outer, incoming@[kk].0, incoming@[kk].1@, path@, base as int, i),
                forall|i: int| i < v ==> #[trigger] relinked_one(graph@, u, incoming@[k as int].1@, path@, base as int, i),
            decreases count - v,
        {
            let n = graph.node(v);
            let ghost prev = graph@;
            if !n.removed && n.kind != NodeKind::File && n.file_path == *path && n.name == incoming[k].1 {
                graph.add_edge(u, v, EdgeKind::Calls);
            }
            proof {
                let g = graph@;
                assert(added_links(g, prev));
                lemma_added_links_trans(g0, prev, g);
                lemma_added_links_trans(outer, prev, g);
                assert forall|i: int| i < v + 1 implies #[trigger] relinked_one(g, u, incoming@[k as int].1@, path@, base as int, i) by {
                    if base <= i && g.is_symbol(i) && g.nodes[i].file == path@ && g.nodes[i].name == incoming@[k as int].1@ {
                        let e = Edge { src: u, dst: i as usize, kind: EdgeKind::Calls };
                        if i < v {
                            assert(relinked_one(prev, u, incoming@[k as int].1@, path@, base as int, i));
                            let jj = choose|jj: int| 0 <= jj < prev.edges.len() && prev.edges[jj] == e;
                            assert(g.edges[jj] == e);
                        } else if prev.edges.contains(e) {
                            let jj = choose|jj: int| 0 <= jj < prev.edges.len() && prev.edges[jj] == e;
                            assert(g.edges[jj] == e);
                        } else {
                            assert(g.edges[prev.edges.len() as int] == e);
                        }
                    }
                }
            }
            v = v + 1;
        }
        proof {
            let g = graph@;
            assert forall|kk: int, i: int| 0 <= kk < k + 1 implies #[trigger] relinked_one(g, incoming@[kk].0, incoming@[kk].1@, path@, base as int, i) by {
                if kk < k {
                    let e = Edge { src: incoming@[kk].0, dst: i as usize, kind: EdgeKind::Calls };
                    if base <= i && g.is_symbol(i) && g.nodes[i].file == path@ && g.nodes[i].name == incoming@[kk].1@ {
                        assert(relinked_one(outer, incoming@[kk].0, incoming@[kk].1@, path@, base as int, i));
                        let jj = choose|jj: int| 0 <= jj < outer.edges.len() && outer.edges[jj] == e;
                        assert(g.edges[jj] == e);
                    }
                } else {
                    if base <= i && g.is_symbol(i) {
                        assert(i < g.nodes.len());
                        assert(relinked_one(g, incoming@[k as int].0, incoming@[k as int].1@, path@, base as int, i));
                    }
                }
            }
        }
        k = k + 1;
    }
}

/// After an update of file `p`: no node that existed before and belongs to
/// `p` is visible, and every symbol of the new extraction has a node.
pub open spec fn update_law(before: GraphView, after: GraphView, p: Seq<char>, x: Option<FileExtractions>) -> bool {
    &&& forall|i: int| 0 <= i < before.nodes.len() && #[trigger] after.visible(i) ==> after.nodes[i].file != p
    &&& x matches Some(e) ==> forall|y: int| 0 <= y < e.symbols@.len() ==> exists|i: int|
        before.nodes.len() <= i < after.nodes.len() && after.nodes[i] == #[trigger] symbol_node(e, y)
}

/// The watcher's update of one file replaces what the graph knew of it:
/// stated over the tombstoning step and the merge step.
pub proof fn law_update_replaces_file(before: GraphView, mid: GraphView, after: GraphView, p: Seq<char>, x: Option<FileExtractions>)
    requires
        mid.nodes.len() == before.nodes.len(),
        forall|i: int| 0 <= i < before.nodes.len() ==> #[trigger] mid.nodes[i] == tombstone_if_in(before.nodes[i], p),
        x is None ==> after == mid,
        x matches Some(e) ==> grew_from(after, mid) && forall|y: int| 0 <= y < e.symbols@.len() ==> exists|i: int|
            mid.nodes.len() <= i < after.nodes.len() && after.nodes[i] == #[trigger] symbol_node(e, y),
    ensures
        update_law(before, after, p, x),
{
    assert forall|i: int| 0 <= i < before.nodes.len() && #[trigger] after.visible(i) implies after.nodes[i].file != p by {
        assert(mid.nodes[i] == tombstone_if_in(before.nodes[i], p));
        if x is Some {
            assert(after.nodes[i] == mid.nodes[i]);
        }
    }
}


/// Removing a file that held every visible node leaves nothing visible:
/// no file, no symbol, no edge.
pub proof fn law_deleting_the_only_file(before: GraphView, after: GraphView, p: Seq<char>)
    requires
        after.nodes.len() == before.nodes.len(),
        forall|i: int| 0 <= i < before.nodes.len() ==> #[trigger] after.nodes[i] == tombstone_if_in(before.nodes[i], p),
        forall|i: int| #[trigger] before.visible(i) ==> before.nodes[i].file == p,
    ensures
        crate::graph::stats_of(after) == (0nat, 0nat, 0nat),
{
    assert forall|i: int| !#[trigger] after.visible(i) by {
        if 0 <= i < after.nodes.len() {
            assert(after.nodes[i] == tombstone_if_in(before.nodes[i], p));
            if !before.nodes[i].removed {
                assert(before.visible(i));
            }
        }
    }
    lemma_no_visible_nodes(after, after.nodes.len() as int);
    lemma_no_visible_edges(after, after.edges.len() as int);
}

proof fn lemma_no_visible_nodes(g: GraphView, n: int)
    requires
        forall|i: int| !#[trigger] g.visible(i),
    ensures
        crate::graph::count_files(g, n) == 0,
        crate::graph::count_symbols(g, n) == 0,
    decreases n,
{
    if n > 0 {
        lemma_no_visible_nodes(g, n - 1);
        assert(!g.visible(n - 1));
    }
}

proof fn lemma_no_visible_edges(g: GraphView, m: int)
    requires
        forall|i: int| !#[trigger] g.visible(i),
    ensures
        crate::graph::count_edges(g, m) == 0,
    decreases m,
{
    if m > 0 {
        lemma_no_visible_edges(g, m - 1);
        assert(!g.visible(g.edges[m - 1].src as int));
    }
}

} // verus!
