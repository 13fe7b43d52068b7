use anchor::extract::{extract_file, SyntaxNode};
use anchor::graph::{CodeGraph, NodeKind};
use anchor::language::{bounded_snippet, SupportedLanguage};

fn node(kind: &str, field: Option<&str>, rows: (usize, usize), text: &str, children: Vec<SyntaxNode>) -> SyntaxNode {
    SyntaxNode {
        kind: kind.to_string(),
        field: field.map(|f| f.to_string()),
        start_row: rows.0,
        end_row: rows.1,
        text: text.to_string(),
        children,
    }
}

fn ident(field: &str, row: usize, text: &str) -> SyntaxNode {
    node("identifier", Some(field), (row, row), text, vec![])
}

fn rust_call(row: usize, callee: &str) -> SyntaxNode {
    let text = format!("{}(x)", callee);
    node("call_expression", None, (row, row), &text, vec![ident("function", row, callee)])
}

fn rust_fn(name: &str, rows: (usize, usize), text: &str, body: Vec<SyntaxNode>) -> SyntaxNode {
    let mut children = vec![ident("name", rows.0, name)];
    children.push(node("block", Some("body"), rows, "{}", body));
    node("function_item", None, rows, text, children)
}

fn auth_tree() -> SyntaxNode {
    node(
        "source_file",
        None,
        (0, 12),
        "",
        vec![
            rust_fn("login", (0, 3), "pub fn login(u: &str, p: &str) -> bool {\n    validate(u) && check_password(p)\n}", vec![
                rust_call(1, "validate"),
                rust_call(1, "self::check_password"),
            ]),
            rust_fn("validate", (5, 7), "fn validate(s: &str) -> bool {\n    !s.is_empty()\n}", vec![]),
            rust_fn("check_password", (9, 11), "fn check_password(pw: &str) -> bool {\n    pw.len() > 8\n}", vec![]),
        ],
    )
}

#[test]
fn comments_only_give_nothing() {
    let root = node("source_file", None, (0, 2), "// a\n  // b\n", vec![
        node("line_comment", None, (0, 0), "// a", vec![]),
        node("line_comment", None, (1, 1), "// b", vec![]),
    ]);
    let x = extract_file("c.rs", &root).unwrap();
    assert!(x.symbols.is_empty() && x.imports.is_empty() && x.calls.is_empty());
}

#[test]
fn small_rust_file_end_to_end() {
    let x = extract_file("src/auth.rs", &auth_tree()).unwrap();
    let names: Vec<&str> = x.symbols.iter().map(|s| s.name.as_str()).collect();
    assert_eq!(names, vec!["login", "validate", "check_password"]);
    assert_eq!(x.symbols[0].line_start, 1);
    assert_eq!(x.symbols[0].line_end, 4);
    assert_eq!(x.calls.len(), 2);
    assert_eq!(x.calls[1].callee, "check_password");
    assert_eq!(x.calls[1].caller, "login");
    let mut g = CodeGraph::new();
    g.build_from_extractions(vec![x]);
    assert!(g.stats().symbol_count >= 3);
    let deps: Vec<String> = g.dependencies("login").iter().map(|d| d.symbol.clone()).collect();
    assert!(deps.contains(&"validate".to_string()));
    assert!(deps.contains(&"check_password".to_string()));
    let users: Vec<String> = g.dependents("validate").iter().map(|d| d.symbol.clone()).collect();
    assert!(users.contains(&"login".to_string()));
}

#[test]
fn rust_impl_methods_and_imports() {
    let method = rust_fn("new", (2, 4), "pub fn new() -> Self { Config {} }", vec![]);
    let imp = node("impl_item", None, (1, 5), "impl Display for Config {\n}", vec![
        node("type_identifier", Some("trait"), (1, 1), "Display", vec![]),
        node("type_identifier", Some("type"), (1, 1), "Config", vec![]),
        node("declaration_list", Some("body"), (1, 5), "{}", vec![method]),
    ]);
    let use_decl = node("use_declaration", None, (0, 0), "use std::collections::HashMap;", vec![]);
    let root = node("source_file", None, (0, 5), "", vec![use_decl, imp]);
    let x = extract_file("lib.rs", &root).unwrap();
    assert_eq!(x.imports.len(), 1);
    assert_eq!(x.imports[0].path, "std::collections::HashMap");
    assert_eq!(x.symbols[0].name, "Config");
    assert_eq!(x.symbols[0].kind, NodeKind::Impl);
    assert_eq!(x.symbols[1].name, "new");
    assert_eq!(x.symbols[1].kind, NodeKind::Method);
    assert_eq!(x.symbols[1].parent, Some("Config".to_string()));
}

#[test]
fn python_from_import_and_unicode() {
    let imp = node("import_from_statement", None, (0, 0), "from typing import Optional, List", vec![]);
    let f = node("function_definition", None, (2, 3), "def café():\n    return 1", vec![ident("name", 2, "café")]);
    let root = node("module", None, (0, 3), "", vec![imp, f]);
    let x = extract_file("test_unicode.py", &root).unwrap();
    assert_eq!(x.imports[0].path, "typing");
    assert_eq!(x.imports[0].symbols, vec!["Optional".to_string(), "List".to_string()]);
    assert_eq!(x.symbols[0].name, "café");
    assert_eq!(x.symbols[0].kind, NodeKind::Function);
}

#[test]
fn javascript_imports_and_constants() {
    let imp = node("import_statement", None, (0, 0), "import { a, b as c } from './util';", vec![]);
    let decl = node("lexical_declaration", None, (1, 1), "const MAX_SIZE = 10;", vec![node(
        "variable_declarator",
        None,
        (1, 1),
        "MAX_SIZE = 10",
        vec![ident("name", 1, "MAX_SIZE"), node("number", Some("value"), (1, 1), "10", vec![])],
    )]);
    let root = node("program", None, (0, 1), "", vec![imp, decl]);
    let x = extract_file("app.js", &root).unwrap();
    assert_eq!(x.imports[0].path, "./util");
    assert_eq!(x.imports[0].symbols, vec!["a".to_string(), "b".to_string()]);
    assert_eq!(x.symbols[0].kind, NodeKind::Constant);
}

#[test]
fn language_by_extension() {
    assert_eq!(SupportedLanguage::from_path("a/b/c.rs"), Some(SupportedLanguage::Rust));
    assert_eq!(SupportedLanguage::from_path("x.tsx"), Some(SupportedLanguage::Tsx));
    assert_eq!(SupportedLanguage::from_path("x.mjs"), Some(SupportedLanguage::JavaScript));
    assert_eq!(SupportedLanguage::from_path("x.hpp"), Some(SupportedLanguage::Cpp));
    assert_eq!(SupportedLanguage::from_path(".rs"), None);
    assert_eq!(SupportedLanguage::from_path("dir.rs/file"), None);
    assert_eq!(SupportedLanguage::from_path("main.lua"), None);
}

#[test]
fn snippet_is_bounded() {
    let long: String = (0..10000).map(|i| format!("line {}\n", i)).collect();
    let s = bounded_snippet(&long);
    assert!(s.ends_with("\n    // ..."));
    let kept = &s[..s.len() - "\n    // ...".len()];
    assert_eq!(kept.lines().count(), 10);
    assert!(kept.len() <= 2048);

    let wide: String = std::iter::repeat("é").take(3000).collect();
    let s = bounded_snippet(&wide);
    assert!(s.ends_with("\n    // ... (truncated)"));
    let kept = &s[..s.len() - "\n    // ... (truncated)".len()];
    assert_eq!(kept.len(), 2048);
    assert!(kept.chars().all(|c| c == 'é'));

    assert_eq!(bounded_snippet("fn a() {}"), "fn a() {}");
    let ten = "1\n2\n3\n4\n5\n6\n7\n8\n9\n10\n";
    assert_eq!(bounded_snippet(ten), ten);
}
