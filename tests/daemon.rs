use anchor::daemon::{
    accepts_connections, next_state, pid_path, process_request, socket_path, DaemonEvent,
    DaemonState, Reply, Request, Storage,
};
use anchor::graph::{CodeGraph, ExtractedSymbol, FileExtractions, NodeKind};
use anchor::watcher::{coalesce, debounce_ms, plan, should_ignore, FileEvent, FileEventKind, WatchAction};

fn graph() -> CodeGraph {
    let mut g = CodeGraph::new();
    g.build_from_extractions(vec![FileExtractions {
        file_path: "src/main.rs".to_string(),
        symbols: vec![ExtractedSymbol {
            name: "main".to_string(),
            kind: NodeKind::Function,
            line_start: 1,
            line_end: 3,
            code_snippet: "fn main() {}".to_string(),
            parent: None,
        }],
        imports: vec![],
        calls: vec![],
    }]);
    g
}

#[test]
fn paths_under_anchor_dir() {
    assert_eq!(socket_path("/p"), "/p/.anchor/anchor.sock");
    assert_eq!(pid_path("/p"), "/p/.anchor/daemon.pid");
    assert_eq!(Storage::open("/p/.anchor").root(), "/p/.anchor");
}

#[test]
fn ping_shutdown_and_reads() {
    let g = graph();
    assert!(matches!(process_request(&g, &Request::Ping), Reply::Pong));
    assert!(matches!(process_request(&g, &Request::Shutdown), Reply::Goodbye));
    assert!(matches!(process_request(&g, &Request::Rebuild), Reply::Rebuild));
    match process_request(&g, &Request::Stats) {
        Reply::Stats(s) => {
            assert_eq!(s.stats.file_count, 1);
            assert_eq!(s.stats.symbol_count, 1);
            assert!(s.stats.symbol_count >= s.stats.file_count);
        }
        other => panic!("unexpected {:?}", other),
    }
    match process_request(&g, &Request::Overview) {
        Reply::Overview { files, entry_points, .. } => {
            assert_eq!(files, vec!["src/main.rs".to_string()]);
            assert_eq!(entry_points.len(), 1);
            assert_eq!(entry_points[0].symbol, "main");
        }
        other => panic!("unexpected {:?}", other),
    }
    assert!(matches!(process_request(&g, &Request::Locks), Reply::Error(_)));
}

#[test]
fn lifecycle() {
    let s = next_state(DaemonState::Starting, DaemonEvent::InitialBuildDone);
    assert_eq!(s, DaemonState::Serving);
    assert!(accepts_connections(s));
    let s = next_state(s, DaemonEvent::ShutdownRequested);
    assert_eq!(s, DaemonState::Draining);
    assert!(!accepts_connections(s));
    assert_eq!(next_state(s, DaemonEvent::InFlightDone), DaemonState::Exited);
    assert_eq!(next_state(DaemonState::Starting, DaemonEvent::ShutdownRequested), DaemonState::Starting);
}

#[test]
fn watcher_decisions() {
    assert!(should_ignore("/p/target/debug/x.rs"));
    assert!(should_ignore("node_modules/a.js"));
    assert!(!should_ignore("/p/src/targets.rs"));
    assert_eq!(debounce_ms(0), 200);
    assert_eq!(debounce_ms(50), 50);
    let ev = |p: &str, k: FileEventKind| FileEvent { path: p.to_string(), kind: k };
    let out = coalesce(&vec![
        ev("/p/src/a.rs", FileEventKind::AnyContinuous),
        ev("/p/.git/index", FileEventKind::Any),
        ev("/p/README.md", FileEventKind::Any),
        ev("/p/src/a.rs", FileEventKind::Any),
        ev("/p/src/b.py", FileEventKind::Any),
    ]);
    assert_eq!(out.len(), 2);
    let a = out.iter().find(|e| e.path == "/p/src/a.rs").unwrap();
    assert_eq!(a.kind, FileEventKind::Any);
    assert_eq!(plan(FileEventKind::Any, true), WatchAction::Rebuild);
    assert_eq!(plan(FileEventKind::Any, false), WatchAction::Remove);
    assert_eq!(plan(FileEventKind::AnyContinuous, true), WatchAction::Defer);
}

#[test]
fn watcher_update_replaces_file() {
    let mut g = graph();
    let newer = FileExtractions {
        file_path: "src/main.rs".to_string(),
        symbols: vec![ExtractedSymbol {
            name: "run".to_string(),
            kind: NodeKind::Function,
            line_start: 1,
            line_end: 2,
            code_snippet: "fn run() {}".to_string(),
            parent: None,
        }],
        imports: vec![],
        calls: vec![],
    };
    anchor::watcher::apply_file_update(&mut g, &"src/main.rs".to_string(), Some(newer));
    assert!(g.search("main", 3).is_empty());
    assert_eq!(g.search("run", 3).len(), 1);
    assert_eq!(g.stats().file_count, 1);
    anchor::watcher::apply_file_update(&mut g, &"src/main.rs".to_string(), None);
    assert_eq!(g.stats().file_count, 0);
    assert_eq!(g.stats().symbol_count, 0);
}

#[test]
fn update_keeps_callers_in_other_files() {
    let sym = |n: &str| ExtractedSymbol {
        name: n.to_string(),
        kind: NodeKind::Function,
        line_start: 1,
        line_end: 2,
        code_snippet: format!("fn {}() {{}}", n),
        parent: None,
    };
    let lib = FileExtractions { file_path: "src/lib.rs".to_string(), symbols: vec![sym("helper")], imports: vec![], calls: vec![] };
    let app = FileExtractions {
        file_path: "src/app.rs".to_string(),
        symbols: vec![sym("run")],
        imports: vec![],
        calls: vec![anchor::graph::ExtractedCall { caller: "run".to_string(), callee: "helper".to_string(), line: 1 }],
    };
    let mut g = anchor::graph::build_graph(vec![lib.clone(), app]);
    assert_eq!(g.dependents("helper").len(), 1);
    anchor::watcher::apply_file_update(&mut g, &"src/lib.rs".to_string(), Some(lib));
    let users = g.dependents("helper");
    assert_eq!(users.len(), 1);
    assert_eq!(users[0].symbol, "run");
    assert_eq!(g.dependencies("run").len(), 1);
}
