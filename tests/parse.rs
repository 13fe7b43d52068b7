use anchor::context::{anchor_dependencies, anchor_file_symbols, anchor_search, anchor_stats, Query};
use anchor::extract::{extract_file, ExtractError, SyntaxNode};
use anchor::graph::{CodeGraph, FileExtractions, NodeKind};
use anchor::language::SupportedLanguage;

fn grammar(lang: SupportedLanguage) -> tree_sitter::Language {
    match lang {
        SupportedLanguage::Rust => tree_sitter_rust::LANGUAGE.into(),
        SupportedLanguage::Python => tree_sitter_python::LANGUAGE.into(),
        SupportedLanguage::JavaScript => tree_sitter_javascript::LANGUAGE.into(),
        SupportedLanguage::TypeScript => tree_sitter_typescript::LANGUAGE_TYPESCRIPT.into(),
        SupportedLanguage::Tsx => tree_sitter_typescript::LANGUAGE_TSX.into(),
        SupportedLanguage::Go => tree_sitter_go::LANGUAGE.into(),
        SupportedLanguage::Java => tree_sitter_java::LANGUAGE.into(),
        SupportedLanguage::CSharp => tree_sitter_c_sharp::LANGUAGE.into(),
        SupportedLanguage::Ruby => tree_sitter_ruby::LANGUAGE.into(),
        SupportedLanguage::Cpp | SupportedLanguage::Swift => tree_sitter_cpp::LANGUAGE.into(),
    }
}

fn convert(node: tree_sitter::Node, field: Option<&str>, source: &[u8]) -> SyntaxNode {
    let mut children = Vec::new();
    for i in 0..node.child_count() {
        if let Some(child) = node.child(i) {
            children.push(convert(child, node.field_name_for_child(i as u32), source));
        }
    }
    SyntaxNode {
        kind: node.kind().to_string(),
        field: field.map(|f| f.to_string()),
        start_row: node.start_position().row,
        end_row: node.end_position().row,
        text: node.utf8_text(source).unwrap_or("").to_string(),
        children,
    }
}

/// Parses `source` with the grammar of `path` (an empty tree when no
/// language matches) and extracts it.
fn extract(path: &str, source: &str) -> Result<FileExtractions, ExtractError> {
    let root = match SupportedLanguage::from_path(path) {
        Some(lang) => {
            let mut parser = tree_sitter::Parser::new();
            parser.set_language(&grammar(lang)).unwrap();
            let tree = parser.parse(source, None).unwrap();
            convert(tree.root_node(), None, source.as_bytes())
        }
        None => SyntaxNode {
            kind: "unknown".to_string(),
            field: None,
            start_row: 0,
            end_row: 0,
            text: source.to_string(),
            children: vec![],
        },
    };
    extract_file(path, &root)
}

#[test]
fn test_parse_rust_code() {
    let source = r#"
use std::collections::HashMap;

pub struct Config {
    name: String,
    values: HashMap<String, i32>,
}

impl Config {
    pub fn new(name: &str) -> Self {
        Config {
            name: name.to_string(),
            values: HashMap::new(),
        }
    }

    pub fn get(&self, key: &str) -> Option<&i32> {
        self.values.get(key)
    }

    pub fn set(&mut self, key: String, value: i32) {
        self.values.insert(key, value);
    }
}

fn main() {
    let mut config = Config::new("test");
    config.set("port".to_string(), 8080);
    println!("{:?}", config.get("port"));
}
"#;
    let extraction = extract("test.rs", source).unwrap();
    assert!(!extraction.symbols.is_empty());
    let symbol_names: Vec<&str> = extraction.symbols.iter().map(|s| s.name.as_str()).collect();
    assert!(symbol_names.contains(&"Config"), "Should find struct Config");
    assert!(symbol_names.contains(&"main"), "Should find fn main");
    assert!(symbol_names.contains(&"new"), "Should find method new");
    assert!(symbol_names.contains(&"get"), "Should find method get");
    assert!(symbol_names.contains(&"set"), "Should find method set");
    assert!(!extraction.imports.is_empty());
    assert!(extraction.imports[0].path.contains("HashMap"));

    let mut graph = CodeGraph::new();
    graph.build_from_extractions(vec![extraction]);
    let stats = graph.stats();
    assert!(stats.symbol_count >= 5, "Should have at least 5 symbols");
    assert_eq!(stats.file_count, 1, "Should have 1 file");
    let results = graph.search("Config", 3);
    assert!(!results.is_empty(), "Should find Config");
    assert_eq!(results[0].symbol, "Config");
    let results = graph.search("main", 3);
    assert!(!results.is_empty(), "Should find main");
}

#[test]
fn test_parse_python_code() {
    let source = r#"
import os
from typing import Optional, List

class UserService:
    def __init__(self, db):
        self.db = db

    def get_user(self, user_id: int) -> Optional[dict]:
        return self.db.find(user_id)

    def create_user(self, name: str) -> dict:
        return self.db.insert({"name": name})

def main():
    service = UserService(None)
    user = service.get_user(1)
    print(user)
"#;
    let extraction = extract("test.py", source).unwrap();
    let symbol_names: Vec<&str> = extraction.symbols.iter().map(|s| s.name.as_str()).collect();
    assert!(symbol_names.contains(&"UserService"), "Should find class UserService");
    assert!(symbol_names.contains(&"main"), "Should find function main");
    assert!(symbol_names.contains(&"get_user"), "Should find method get_user");
    let mut graph = CodeGraph::new();
    graph.build_from_extractions(vec![extraction]);
    let results = graph.search("UserService", 3);
    assert!(!results.is_empty());
    assert_eq!(results[0].kind, NodeKind::Class);
}

#[test]
fn test_parse_javascript_code() {
    let source = r#"
import { useState } from 'react';
import axios from 'axios';

class ApiClient {
    constructor(baseUrl) {
        this.baseUrl = baseUrl;
    }

    async fetchData(endpoint) {
        return axios.get(`${this.baseUrl}/${endpoint}`);
    }
}

function App() {
    const [data, setData] = useState(null);
    return data;
}

const API_URL = "https://api.example.com";
"#;
    let extraction = extract("test.js", source).unwrap();
    let symbol_names: Vec<&str> = extraction.symbols.iter().map(|s| s.name.as_str()).collect();
    assert!(symbol_names.contains(&"ApiClient"), "Should find class ApiClient");
    assert!(symbol_names.contains(&"App"), "Should find function App");
    assert!(!extraction.imports.is_empty());
    let mut graph = CodeGraph::new();
    graph.build_from_extractions(vec![extraction]);
    let results = graph.search("ApiClient", 3);
    assert!(!results.is_empty());
    assert_eq!(results[0].kind, NodeKind::Class);
}

#[test]
fn test_query_api() {
    let source = r#"
pub fn login(username: &str, password: &str) -> bool {
    validate(username);
    check_password(password);
    true
}

fn validate(input: &str) -> bool {
    !input.is_empty()
}

fn check_password(pw: &str) -> bool {
    pw.len() >= 8
}
"#;
    let extraction = extract("auth.rs", source).unwrap();
    let mut graph = CodeGraph::new();
    graph.build_from_extractions(vec![extraction]);

    let response = anchor_search(&graph, Query::Simple("login".to_string()));
    assert!(response.found);
    assert_eq!(response.count, 1);
    assert_eq!(response.results[0].symbol, "login");
    assert!(response.results[0].code.contains("pub fn login"));

    let response = anchor_search(
        &graph,
        Query::Structured { symbol: "validate".to_string(), kind: Some("function".to_string()), file: None },
    );
    assert!(response.found);
    assert_eq!(response.results[0].symbol, "validate");

    let deps = anchor_dependencies(&graph, "login");
    assert!(!deps.dependencies.is_empty() || deps.dependents.is_empty());
    let names: Vec<&str> = deps.dependencies.iter().map(|d| d.symbol.as_str()).collect();
    assert!(names.contains(&"validate") && names.contains(&"check_password"));
    let validate_deps = anchor_dependencies(&graph, "validate");
    let users: Vec<&str> = validate_deps.dependents.iter().map(|d| d.symbol.as_str()).collect();
    assert_eq!(users, vec!["login"]);

    let stats_response = anchor_stats(&graph);
    assert!(stats_response.stats.symbol_count >= 3);
}

#[test]
fn test_extract_unsupported_language() {
    let result = extract("main.lua", "print('hello')");
    assert!(result.is_err());
    let err = result.unwrap_err();
    assert!(matches!(err, ExtractError::UnsupportedLanguage(_)), "Expected UnsupportedLanguage, got: {:?}", err);
}

#[test]
fn test_extract_empty_source() {
    let extraction = extract("empty.rs", "").unwrap();
    assert!(extraction.symbols.is_empty());
    assert!(extraction.imports.is_empty());
    assert!(extraction.calls.is_empty());
}

#[test]
fn whitespace_and_comments_give_nothing() {
    let extraction = extract("c.rs", "\n   // only a comment\n/* and a block */\n\t\n").unwrap();
    assert!(extraction.symbols.is_empty());
    assert!(extraction.imports.is_empty());
    assert!(extraction.calls.is_empty());
}

#[test]
fn test_extract_malformed_syntax() {
    let result = extract("bad.rs", "fn broken( { struct }}}}");
    assert!(result.is_ok());
}

#[test]
fn test_extract_no_extension() {
    let result = extract("Makefile", "all: build");
    assert!(result.is_err());
    assert!(matches!(result.unwrap_err(), ExtractError::UnsupportedLanguage(_)));
}

#[test]
fn test_file_symbols_query() {
    let source = r#"
fn alpha() {}
fn beta() {}
struct Gamma {}
"#;
    let extraction = extract("src/abc.rs", source).unwrap();
    let mut graph = CodeGraph::new();
    graph.build_from_extractions(vec![extraction]);
    let response = anchor_file_symbols(&graph, "src/abc.rs");
    assert!(response.found);
    assert_eq!(response.symbols.len(), 3);
    let names: Vec<&str> = response.symbols.iter().map(|s| s.name.as_str()).collect();
    assert!(names.contains(&"alpha"));
    assert!(names.contains(&"beta"));
    assert!(names.contains(&"Gamma"));
}

#[test]
fn test_parse_unicode_identifiers_python() {
    let source = r#"
def café():
    return "coffee"

class Ñoño:
    pass
"#;
    let extraction = extract("test_unicode.py", source).unwrap();
    let symbol_names: Vec<&str> = extraction.symbols.iter().map(|s| s.name.as_str()).collect();
    assert!(symbol_names.contains(&"café"), "Should find unicode function name");
    assert!(symbol_names.contains(&"Ñoño"), "Should find unicode class name");
    let mut graph = CodeGraph::new();
    graph.build_from_extractions(vec![extraction]);
    let results = graph.search("café", 3);
    assert!(!results.is_empty(), "Should find unicode symbol via search");
}

#[test]
fn test_parse_typescript_code() {
    let source = r#"
import { Request, Response } from 'express';

interface UserDTO {
    id: number;
    name: string;
}

type UserID = number;

enum Role {
    Admin,
    User,
    Guest,
}

class UserController {
    async getUser(req: Request, res: Response): Promise<void> {
        const user = await this.findUser(req.params.id);
        res.json(user);
    }
}

function createApp(): void {
    console.log("starting");
}
"#;
    let extraction = extract("test.ts", source).unwrap();
    let symbol_names: Vec<&str> = extraction.symbols.iter().map(|s| s.name.as_str()).collect();
    assert!(symbol_names.contains(&"UserDTO"), "Should find interface");
    assert!(symbol_names.contains(&"UserID"), "Should find type alias");
    assert!(symbol_names.contains(&"Role"), "Should find enum");
    assert!(symbol_names.contains(&"UserController"), "Should find class");
    assert!(symbol_names.contains(&"createApp"), "Should find function");
    let mut graph = CodeGraph::new();
    graph.build_from_extractions(vec![extraction]);
    let results = graph.search("UserDTO", 3);
    assert!(!results.is_empty());
    assert_eq!(results[0].kind, NodeKind::Interface);
}

#[test]
fn small_rust_login_file_scenario() {
    let source = "pub fn login(u: &str, p: &str) -> bool {\n    validate(u) && check_password(p)\n}\n\nfn validate(s: &str) -> bool { !s.is_empty() }\n\nfn check_password(pw: &str) -> bool { pw.len() > 8 }\n";
    let x = extract("src/auth.rs", source).unwrap();
    let mut g = CodeGraph::new();
    g.build_from_extractions(vec![x]);
    assert!(g.stats().symbol_count >= 3);
    let deps: Vec<String> = g.dependencies("login").iter().map(|d| d.symbol.clone()).collect();
    assert!(deps.contains(&"validate".to_string()));
    assert!(deps.contains(&"check_password".to_string()));
    let users: Vec<String> = g.dependents("validate").iter().map(|d| d.symbol.clone()).collect();
    assert!(users.contains(&"login".to_string()));
}

#[test]
fn change_intent_on_parsed_source() {
    let source = "pub fn process(input: &str) -> String {\n    validate(input);\n    input.to_string()\n}\n\nfn validate(s: &str) -> bool {\n    !s.is_empty()\n}\n";
    let x = extract("src/lib.rs", source).unwrap();
    let mut g = CodeGraph::new();
    g.build_from_extractions(vec![x]);
    let r = anchor::context::get_context_for_change(&g, "validate", "change", Some("validate(s: &str, strict: bool) -> bool"));
    assert!(!r.edits.is_empty());
    let e = &r.edits[0];
    assert_eq!(e.in_symbol, "process");
    assert_eq!(e.usage, "validate(input)");
    assert_eq!(e.suggested, Some("validate(input, <strict>)".to_string()));
    assert_eq!(e.new_args, vec!["strict: bool".to_string()]);
    assert!(e.removed_args.is_empty());
}

#[test]
fn long_file_snippets_are_bounded() {
    let body: String = (0..10000).map(|i| format!("    let v{} = {};\n", i, i)).collect();
    let source = format!("fn huge() {{\n{}}}\n", body);
    let x = extract("big.rs", &source).unwrap();
    let s = &x.symbols[0].code_snippet;
    assert!(s.ends_with("\n    // ..."));
    assert!(s.len() <= 2048 + "\n    // ...".len());
    assert_eq!(s.lines().count(), 11);
}
