use anchor::graph::{
    CodeGraph, EdgeKind, ExtractedCall, ExtractedSymbol, FileExtractions, NodeKind,
};

fn sym(name: &str, kind: NodeKind, line: usize, code: &str) -> ExtractedSymbol {
    ExtractedSymbol {
        name: name.to_string(),
        kind,
        line_start: line,
        line_end: line + 2,
        code_snippet: code.to_string(),
        parent: None,
    }
}

fn call(caller: &str, callee: &str, line: usize) -> ExtractedCall {
    ExtractedCall { caller: caller.to_string(), callee: callee.to_string(), line }
}

fn auth_file() -> FileExtractions {
    FileExtractions {
        file_path: "src/auth.rs".to_string(),
        symbols: vec![
            sym("login", NodeKind::Function, 1, "pub fn login(u: &str, p: &str) -> bool {"),
            sym("validate", NodeKind::Function, 6, "fn validate(s: &str) -> bool {"),
            sym("check_password", NodeKind::Function, 10, "fn check_password(pw: &str) -> bool {"),
        ],
        imports: vec![],
        calls: vec![call("login", "validate", 2), call("login", "check_password", 3)],
    }
}

#[test]
fn small_rust_file_dependencies() {
    let mut g = CodeGraph::new();
    g.build_from_extractions(vec![auth_file()]);
    let stats = g.stats();
    assert!(stats.symbol_count >= 3);
    assert_eq!(stats.file_count, 1);
    let deps: Vec<String> = g.dependencies("login").iter().map(|d| d.symbol.clone()).collect();
    assert!(deps.contains(&"validate".to_string()));
    assert!(deps.contains(&"check_password".to_string()));
    let users: Vec<String> = g.dependents("validate").iter().map(|d| d.symbol.clone()).collect();
    assert_eq!(users, vec!["login".to_string()]);
    assert_eq!(g.dependents("validate")[0].relationship, EdgeKind::Calls);
}

#[test]
fn test_save_and_load_roundtrip() {
    let mut graph = CodeGraph::new();
    let file_idx = graph.add_file("src/main.rs".to_string());
    let fn_idx = graph.add_symbol(
        "main".to_string(),
        NodeKind::Function,
        "src/main.rs".to_string(),
        1,
        10,
        "fn main() {}".to_string(),
    );
    graph.add_edge(file_idx, fn_idx, EdgeKind::Defines);
    let helper_idx = graph.add_symbol(
        "helper".to_string(),
        NodeKind::Function,
        "src/main.rs".to_string(),
        12,
        20,
        "fn helper() {}".to_string(),
    );
    graph.add_edge(file_idx, helper_idx, EdgeKind::Defines);
    graph.add_edge(fn_idx, helper_idx, EdgeKind::Calls);

    let loaded = CodeGraph::from_serializable(graph.to_serializable()).unwrap();
    let orig_stats = graph.stats();
    let loaded_stats = loaded.stats();
    assert_eq!(orig_stats.file_count, loaded_stats.file_count);
    assert_eq!(orig_stats.symbol_count, loaded_stats.symbol_count);
    assert_eq!(orig_stats.total_edges, loaded_stats.total_edges);
    assert_eq!(loaded_stats.total_edges, 3);

    let results = loaded.search("main", 3);
    assert_eq!(results.len(), 1);
    assert_eq!(results[0].symbol, "main");
    let calls = loaded.dependencies("main");
    assert_eq!(calls.len(), 1);
    assert_eq!(calls[0].symbol, "helper");
}

#[test]
fn test_save_load_preserves_removed_nodes() {
    let mut graph = CodeGraph::new();
    let file_idx = graph.add_file("src/old.rs".to_string());
    let fn_idx = graph.add_symbol(
        "old_fn".to_string(),
        NodeKind::Function,
        "src/old.rs".to_string(),
        1,
        5,
        "fn old_fn() {}".to_string(),
    );
    graph.add_edge(file_idx, fn_idx, EdgeKind::Defines);
    graph.remove_file(&"src/old.rs".to_string());

    let loaded = CodeGraph::from_serializable(graph.to_serializable()).unwrap();
    let stats = loaded.stats();
    assert_eq!(stats.file_count, 0);
    assert_eq!(stats.symbol_count, 0);
    assert_eq!(loaded.search("old_fn", 3).len(), 0);
    assert_eq!(loaded.node_count(), 2);
    assert!(loaded.node(1).removed);
}

#[test]
fn load_rejects_dangling_edge() {
    let mut graph = CodeGraph::new();
    graph.add_file("a.rs".to_string());
    let mut flat = graph.to_serializable();
    flat.edges.push(anchor::graph::Edge { src: 0, dst: 7, kind: EdgeKind::Imports });
    assert!(CodeGraph::from_serializable(flat).is_err());
}

#[test]
fn incremental_delete_empties_graph() {
    let mut g = CodeGraph::new();
    g.build_from_extractions(vec![auth_file()]);
    g.remove_file(&"src/auth.rs".to_string());
    let stats = g.stats();
    assert_eq!(stats.file_count, 0);
    assert_eq!(stats.symbol_count, 0);
    assert_eq!(stats.total_edges, 0);
    assert!(g.search("login", 3).is_empty());
    assert!(g.dependents("validate").is_empty());
}

#[test]
fn search_orders_exact_prefix_then_rest() {
    let mut g = CodeGraph::new();
    g.build_from_extractions(vec![FileExtractions {
        file_path: "b.rs".to_string(),
        symbols: vec![
            sym("my_login", NodeKind::Function, 1, ""),
            sym("login_form", NodeKind::Function, 4, ""),
            sym("login", NodeKind::Function, 8, ""),
            sym("login_x", NodeKind::Function, 12, ""),
        ],
        imports: vec![],
        calls: vec![],
    }]);
    let r = g.search("login", 10);
    let names: Vec<&str> = r.iter().map(|x| x.symbol.as_str()).collect();
    assert_eq!(names, vec!["login", "login_x", "login_form", "my_login"]);
    assert_eq!(g.search("login", 2).len(), 2);
    assert_eq!(g.search("login", 0).len(), 0);
    assert_eq!(g.search("nothing", 5).len(), 0);
    assert_eq!(g.search("", 3).len(), 3);
}

#[test]
fn same_name_in_two_files_fans_out() {
    let mut g = CodeGraph::new();
    let a = FileExtractions {
        file_path: "a.rs".to_string(),
        symbols: vec![sym("helper", NodeKind::Function, 1, "fn helper() {}")],
        imports: vec![],
        calls: vec![],
    };
    let b = FileExtractions {
        file_path: "b.rs".to_string(),
        symbols: vec![
            sym("helper", NodeKind::Function, 1, "fn helper() {}"),
            sym("run", NodeKind::Function, 5, "fn run() { helper() }"),
        ],
        imports: vec![],
        calls: vec![call("run", "helper", 5)],
    };
    g.build_from_extractions(vec![a, b]);
    let found = g.search("helper", 5);
    assert_eq!(found.len(), 2);
    assert_eq!(found[0].file, "a.rs");
    assert_eq!(found[1].file, "b.rs");
    let callees = g.dependencies("run");
    assert_eq!(callees.len(), 2);
    assert_eq!(g.dependents("helper")[0].symbol, "run");
}

#[test]
fn unicode_names_are_kept_and_searchable() {
    let mut g = CodeGraph::new();
    g.build_from_extractions(vec![FileExtractions {
        file_path: "test_unicode.py".to_string(),
        symbols: vec![
            sym("café", NodeKind::Function, 2, "def café():"),
            sym("Ñoño", NodeKind::Class, 5, "class Ñoño:"),
        ],
        imports: vec![],
        calls: vec![],
    }]);
    let r = g.search("caf", 5);
    assert_eq!(r.len(), 1);
    assert_eq!(r[0].symbol, "café");
    assert_eq!(g.search("Ñoño", 5)[0].symbol.as_bytes(), "Ñoño".as_bytes());
}

#[test]
fn file_symbols_lists_only_that_file() {
    let mut g = CodeGraph::new();
    g.build_from_extractions(vec![auth_file()]);
    let syms = g.symbols_in_file("src/auth.rs");
    assert_eq!(syms.len(), 3);
    assert_eq!(syms[0].symbol, "login");
    assert!(g.symbols_in_file("other.rs").is_empty());
}

#[test]
fn add_file_is_idempotent() {
    let mut g = CodeGraph::new();
    let a = g.add_file("x.rs".to_string());
    let b = g.add_file("x.rs".to_string());
    assert_eq!(a, b);
    assert_eq!(g.node_count(), 1);
    assert_eq!(NodeKind::Function.label(), "function");
    assert_eq!(EdgeKind::Calls.label(), "calls");
}

#[test]
fn every_symbol_has_one_defines_edge() {
    let mut g = CodeGraph::new();
    g.build_from_extractions(vec![auth_file()]);
    g.remove_file(&"src/auth.rs".to_string());
    g.build_from_extractions(vec![auth_file()]);
    for i in 0..g.node_count() {
        let n = g.node(i);
        if !n.removed && n.kind != NodeKind::File {
            let incoming = g
                .edge_list()
                .iter()
                .filter(|e| e.kind == EdgeKind::Defines && e.dst == i)
                .count();
            assert_eq!(incoming, 1);
        }
    }
    assert_eq!(g.stats().symbol_count, 3);
    assert_eq!(g.stats().file_count, 1);
}

#[test]
fn calls_edges_are_queryable_both_ways() {
    let mut g = CodeGraph::new();
    g.build_from_extractions(vec![auth_file()]);
    for e in g.edge_list().clone() {
        if e.kind == EdgeKind::Calls {
            let u = g.node(e.src).name.clone();
            let v = g.node(e.dst).name.clone();
            assert!(g.dependents(&v).iter().any(|d| d.node == e.src));
            assert!(g.dependencies(&u).iter().any(|d| d.node == e.dst));
        }
    }
}

#[test]
fn imports_link_files_and_show_as_dependents() {
    let util = FileExtractions {
        file_path: "src/util.js".to_string(),
        symbols: vec![sym("helper", NodeKind::Function, 1, "function helper() {}")],
        imports: vec![],
        calls: vec![],
    };
    let app = FileExtractions {
        file_path: "src/app.js".to_string(),
        symbols: vec![],
        imports: vec![anchor::graph::ExtractedImport {
            path: "./util".to_string(),
            symbols: vec!["helper".to_string()],
            line: 1,
        }],
        calls: vec![],
    };
    let g = anchor::graph::build_graph(vec![util, app]);
    let importers = g.dependents("src/util.js");
    assert_eq!(importers.len(), 1);
    assert_eq!(importers[0].symbol, "src/app.js");
    assert_eq!(importers[0].relationship, EdgeKind::Imports);
    assert_eq!(g.stats().total_edges, 2);
}
