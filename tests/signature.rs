use anchor::signature::{extract_call_args, extract_call_expression, Signature};

#[test]
fn test_extract_call_expression() {
    assert_eq!(extract_call_expression("validate(input)"), Some("validate(input)".to_string()));
    assert_eq!(extract_call_expression("validate(a, b, c)"), Some("validate(a, b, c)".to_string()));
    assert_eq!(
        extract_call_expression("validate(nested(x))"),
        Some("validate(nested(x))".to_string())
    );
}

#[test]
fn test_signature_parsing() {
    let sig = Signature::parse("fn validate(input: &str) -> bool").unwrap();
    assert_eq!(sig.name, "validate");
    assert_eq!(sig.params.len(), 1);
    assert_eq!(sig.params[0].name, "input");
    assert_eq!(sig.params[0].typ, "&str");
    assert_eq!(sig.return_type, Some("bool".to_string()));

    let sig = Signature::parse("validate(input: &str, strict: bool) -> bool").unwrap();
    assert_eq!(sig.params.len(), 2);
    assert_eq!(sig.params[1].name, "strict");

    let sig = Signature::parse("process(data: Vec<u8>)").unwrap();
    assert_eq!(sig.return_type, None);
}

#[test]
fn test_signature_diff() {
    let old = Signature::parse("validate(input: &str) -> bool").unwrap();
    let new = Signature::parse("validate(input: &str, strict: bool) -> bool").unwrap();
    let (added, removed) = old.diff(&new);
    assert_eq!(added.len(), 1);
    assert_eq!(added[0].name, "strict");
    assert_eq!(removed.len(), 0);
}

#[test]
fn test_extract_call_args() {
    assert_eq!(extract_call_args("foo()"), Vec::<String>::new());
    assert_eq!(extract_call_args("foo(x)"), vec!["x"]);
    assert_eq!(extract_call_args("foo(x, y)"), vec!["x", "y"]);
    assert_eq!(extract_call_args("foo(a, b, c)"), vec!["a", "b", "c"]);
    assert_eq!(extract_call_args("foo(bar(x), y)"), vec!["bar(x)", "y"]);
}

#[test]
fn diff_is_complementary_when_swapped() {
    let a = Signature::parse("f(x: i32, y: i32)").unwrap();
    let b = Signature::parse("f(y: i32, z: u8)").unwrap();
    let (added_ab, removed_ab) = a.diff(&b);
    let (added_ba, removed_ba) = b.diff(&a);
    let names = |ps: &Vec<anchor::signature::Param>| ps.iter().map(|p| p.name.clone()).collect::<Vec<_>>();
    assert_eq!(names(&added_ab), vec!["z"]);
    assert_eq!(names(&removed_ab), vec!["x"]);
    assert_eq!(names(&added_ab), names(&removed_ba));
    assert_eq!(names(&removed_ab), names(&added_ba));
}

#[test]
fn signature_params_split_at_top_level_commas_only() {
    let sig = Signature::parse("  fn map(m: HashMap<K, V>, f: Fn(a, b)) -> Out  ").unwrap();
    assert_eq!(sig.name, "map");
    assert_eq!(sig.params.len(), 2);
    assert_eq!(sig.params[0].name, "m");
    assert_eq!(sig.params[0].typ, "HashMap<K, V>");
    assert_eq!(sig.params[1].name, "f");
    assert_eq!(sig.params[1].typ, "Fn(a, b)");
    let arrow = Signature::parse("g(h: impl Fn(u8) -> u8, n: Vec<Vec<u8>>)").unwrap();
    assert_eq!(arrow.params.len(), 2);
    assert_eq!(arrow.params[1].typ, "Vec<Vec<u8>>");
    assert_eq!(sig.return_type, Some("Out".to_string()));
    assert!(Signature::parse("no parens").is_none());
    assert!(Signature::parse(")oops(").is_none());
    let bare = Signature::parse("g(a, b)").unwrap();
    assert_eq!(bare.params[1].name, "b");
    assert_eq!(bare.params[1].typ, "");
}

#[test]
fn call_expression_needs_balance() {
    assert_eq!(extract_call_expression("f(a(b)"), None);
    assert_eq!(extract_call_expression("no call"), None);
    assert_eq!(extract_call_expression("f(x) + g(y)"), Some("f(x)".to_string()));
    assert_eq!(extract_call_args("f(a, , b)"), vec!["a", "", "b"]);
    assert_eq!(extract_call_args("f(a,)"), vec!["a"]);
}
