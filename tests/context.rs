use anchor::context::{
    anchor_dependencies, anchor_file_symbols, anchor_search, anchor_stats, get_context,
    get_context_for_change, is_backend_file, Query,
};
use anchor::extract::{extract_file, ExtractError, SyntaxNode};
use anchor::graph::{CodeGraph, FileExtractions};
use anchor::language::SupportedLanguage;
use anchor::lines::find_usages_in_code;

fn grammar(lang: SupportedLanguage) -> tree_sitter::Language {
    match lang {
        SupportedLanguage::Rust => tree_sitter_rust::LANGUAGE.into(),
        SupportedLanguage::Python => tree_sitter_python::LANGUAGE.into(),
        SupportedLanguage::JavaScript => tree_sitter_javascript::LANGUAGE.into(),
        SupportedLanguage::TypeScript => tree_sitter_typescript::LANGUAGE_TYPESCRIPT.into(),
        SupportedLanguage::Tsx => tree_sitter_typescript::LANGUAGE_TSX.into(),
        SupportedLanguage::Go => tree_sitter_go::LANGUAGE.into(),
        SupportedLanguage::Java => tree_sitter_java::LANGUAGE.into(),
        SupportedLanguage::CSharp => tree_sitter_c_sharp::LANGUAGE.into(),
        SupportedLanguage::Ruby => tree_sitter_ruby::LANGUAGE.into(),
        SupportedLanguage::Cpp | SupportedLanguage::Swift => tree_sitter_cpp::LANGUAGE.into(),
    }
}

fn convert(node: tree_sitter::Node, field: Option<&str>, source: &[u8]) -> SyntaxNode {
    let mut children = Vec::new();
    for i in 0..node.child_count() {
        if let Some(child) = node.child(i) {
            children.push(convert(child, node.field_name_for_child(i as u32), source));
        }
    }
    SyntaxNode {
        kind: node.kind().to_string(),
        field: field.map(|f| f.to_string()),
        start_row: node.start_position().row,
        end_row: node.end_position().row,
        text: node.utf8_text(source).unwrap_or("").to_string(),
        children,
    }
}

/// Parses `source` with the grammar of `path` (an empty tree when no
/// language matches) and extracts it.
fn extract(path: &str, source: &str) -> Result<FileExtractions, ExtractError> {
    let root = match SupportedLanguage::from_path(path) {
        Some(lang) => {
            let mut parser = tree_sitter::Parser::new();
            parser.set_language(&grammar(lang)).unwrap();
            let tree = parser.parse(source, None).unwrap();
            convert(tree.root_node(), None, source.as_bytes())
        }
        None => SyntaxNode {
            kind: "unknown".to_string(),
            field: None,
            start_row: 0,
            end_row: 0,
            text: source.to_string(),
            children: vec![],
        },
    };
    extract_file(path, &root)
}

fn build_test_graph() -> CodeGraph {
    let source = r#"
pub fn process(input: &str) -> String {
    validate(input);
    transform(input)
}

fn validate(s: &str) -> bool {
    !s.is_empty()
}

fn transform(s: &str) -> String {
    s.to_uppercase()
}

#[test]
fn test_process() {
    assert_eq!(process("hi"), "HI");
}
"#;
    let extraction = extract("src/lib.rs", source).unwrap();
    let mut graph = CodeGraph::new();
    graph.build_from_extractions(vec![extraction]);
    graph
}

#[test]
fn test_explore_intent() {
    let graph = build_test_graph();
    let response = get_context(&graph, "validate", "explore");
    assert!(response.found);
    assert!(!response.symbols.is_empty());
    assert_eq!(response.intent, "explore");
    assert_eq!(response.used_by.len(), 1);
    assert_eq!(response.used_by[0].name, "process");
    assert_eq!(response.used_by[0].relationship, "calls");
}

#[test]
fn test_change_intent() {
    let graph = build_test_graph();
    let response = get_context(&graph, "validate", "change");
    assert!(response.found);
    assert_eq!(response.intent, "change");
    assert_eq!(response.edits.len(), 1);
    assert_eq!(response.edits[0].in_symbol, "process");
    assert_eq!(response.edits[0].usage, "validate(input)");
    assert_eq!(response.edits[0].line, 3);
}

#[test]
fn test_create_intent() {
    let graph = build_test_graph();
    let response = get_context(&graph, "validate", "create");
    assert!(response.found);
    assert_eq!(response.intent, "create");
    assert!(response.patterns.iter().any(|p| p.name == "transform"));
    assert!(response.patterns.iter().all(|p| p.name != "validate" && p.kind == "function"));
}

#[test]
fn test_signature_aware_change() {
    let graph = build_test_graph();
    let response = get_context_for_change(&graph, "validate", "change", None);
    assert!(response.found);
    for edit in &response.edits {
        assert!(edit.suggested.is_none());
    }
    let response = get_context_for_change(
        &graph,
        "validate",
        "change",
        Some("validate(s: &str, strict: bool) -> bool"),
    );
    assert!(response.found);
    for edit in &response.edits {
        if edit.suggested.is_some() {
            assert!(edit.new_args.iter().any(|a| a.contains("strict")));
        }
    }
    let edit = &response.edits[0];
    assert_eq!(edit.in_symbol, "process");
    assert_eq!(edit.usage, "validate(input)");
    assert_eq!(edit.suggested, Some("validate(input, <strict>)".to_string()));
    assert_eq!(edit.new_args, vec!["strict: bool".to_string()]);
    assert!(edit.removed_args.is_empty());
}

#[test]
fn change_lists_tests_that_mention_the_symbol() {
    let graph = build_test_graph();
    let response = get_context(&graph, "process", "modify");
    assert_eq!(response.tests.len(), 1);
    assert_eq!(response.tests[0].name, "test_process");
}

#[test]
fn unknown_intent_explores_and_missing_symbol_is_not_found() {
    let graph = build_test_graph();
    let r = get_context(&graph, "process", "whatever");
    assert_eq!(r.uses.len(), 2);
    assert!(r.edits.is_empty());
    let r = get_context(&graph, "nothing_like_this", "explore");
    assert!(!r.found);
    assert!(r.symbols.is_empty() && r.used_by.is_empty());
}

#[test]
fn test_find_usages_in_code() {
    let code = r#"
fn process(input: &str) {
    let valid = validate(input);
    if valid {
        transform(input);
    }
}
"#;
    let usages = find_usages_in_code(code, "validate");
    assert_eq!(usages.len(), 1);
    assert_eq!(usages[0].1, "validate(input)");
    let usages = find_usages_in_code(code, "transform");
    assert_eq!(usages.len(), 1);
    assert_eq!(usages[0].1, "transform(input)");
    assert_eq!(usages[0].0, 4);
    assert_eq!(usages[0].2, "transform(input);");
}

#[test]
fn test_file_symbols_nonexistent() {
    let graph = CodeGraph::new();
    let response = anchor_file_symbols(&graph, "nonexistent.rs");
    assert!(!response.found);
    assert!(response.symbols.is_empty());
}

#[test]
fn file_symbols_and_search_responses() {
    let graph = build_test_graph();
    let r = anchor_file_symbols(&graph, "src/lib.rs");
    assert!(r.found);
    let names: Vec<&str> = r.symbols.iter().map(|s| s.name.as_str()).collect();
    assert_eq!(names, vec!["process", "validate", "transform", "test_process"]);
    let s = anchor_search(&graph, Query::Simple("process".to_string()));
    assert_eq!(s.count, 2);
    assert_eq!(s.results[0].symbol, "process");
    let s = anchor_search(
        &graph,
        Query::Structured { symbol: "process".to_string(), kind: Some("FUNCTION".to_string()), file: Some("other".to_string()) },
    );
    assert!(!s.found);
    let d = anchor_dependencies(&graph, "process");
    assert_eq!(d.dependencies.len(), 2);
    assert_eq!(anchor_stats(&graph).stats.symbol_count, 4);
    assert_eq!(Query::Simple("x".to_string()).symbol_name(), "x");
}

#[test]
fn test_is_backend_file() {
    assert!(is_backend_file("/project/server/index.ts"));
    assert!(is_backend_file("/project/api/routes/users.js"));
    assert!(is_backend_file("/project/app.server.ts"));
    assert!(!is_backend_file("/project/src/components/Button.tsx"));
    assert!(!is_backend_file("/project/pages/index.tsx"));
    assert!(is_backend_file("/PROJECT/API/x.js"));
}

#[test]
fn graph_search_reaches_neighbours() {
    let graph = build_test_graph();
    let r = graph.search_graph("validate", 0);
    assert_eq!(r.symbols.len(), 1);
    let r = graph.search_graph("validate", 1);
    let names: Vec<&str> = r.symbols.iter().map(|s| s.symbol.as_str()).collect();
    assert_eq!(names, vec!["process", "validate"]);
    assert_eq!(r.matched_files, vec!["src/lib.rs".to_string()]);
    assert!(r.connections.iter().any(|c| c.from == "process" && c.to == "validate"));
    let r = graph.search_graph("validate", 100);
    assert_eq!(r.symbols.len(), 4);
}

#[test]
fn context_window_marks_the_usage_line() {
    let text = "a\nb\nc\nd\ne\nf\n";
    let w = anchor::lines::context_lines(text, 3, 2);
    assert_eq!(w, vec!["    1| a", "    2| b", ">   3| c", "    4| d", "    5| e"]);
    let w = anchor::lines::context_lines(text, 6, 2);
    assert_eq!(w, vec!["    4| d", "    5| e", ">   6| f"]);
    assert!(anchor::lines::context_lines(text, 0, 2).is_empty());
    assert!(anchor::lines::context_lines(text, 7, 2).is_empty());
    let many: String = (1..=12345).map(|i| format!("l{}\n", i)).collect();
    assert_eq!(anchor::lines::context_lines(&many, 12345, 0), vec![">12345| l12345"]);
}

#[test]
fn nested_rust_function_is_not_a_method() {
    let src = "fn outer() {\n    fn inner() {}\n}\nstruct S;\nimpl S {\n    fn m(&self) {\n        fn helper() {}\n    }\n}\n";
    let x = extract("n.rs", src).unwrap();
    let kind = |n: &str| x.symbols.iter().find(|s| s.name == n).unwrap().kind;
    assert_eq!(kind("outer"), anchor::graph::NodeKind::Function);
    assert_eq!(kind("inner"), anchor::graph::NodeKind::Function);
    assert_eq!(kind("m"), anchor::graph::NodeKind::Method);
    assert_eq!(kind("helper"), anchor::graph::NodeKind::Function);
    assert!(x.symbols.iter().any(|s| s.name == "S" && s.kind == anchor::graph::NodeKind::Impl));
}
