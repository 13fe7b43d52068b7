use std::sync::Arc;

use anchor::regex;
use anchor::regex::{parse, Matcher, Regex};

#[test]
fn test_literal_match() {
    let r = Regex::lit('a');
    assert!(regex::matches(&r, "a"));
    assert!(!regex::matches(&r, "b"));
    assert!(!regex::matches(&r, ""));
    assert!(!regex::matches(&r, "aa"));
}

#[test]
fn test_concat() {
    let r = Regex::concat(Regex::lit('a'), Regex::lit('b'));
    assert!(regex::matches(&r, "ab"));
    assert!(!regex::matches(&r, "a"));
    assert!(!regex::matches(&r, "b"));
    assert!(!regex::matches(&r, "ba"));
}

#[test]
fn test_union() {
    let r = Regex::union(Regex::lit('a'), Regex::lit('b'));
    assert!(regex::matches(&r, "a"));
    assert!(regex::matches(&r, "b"));
    assert!(!regex::matches(&r, "c"));
    assert!(!regex::matches(&r, "ab"));
}

#[test]
fn test_star() {
    let r = Regex::star(Regex::lit('a'));
    assert!(regex::matches(&r, ""));
    assert!(regex::matches(&r, "a"));
    assert!(regex::matches(&r, "aa"));
    assert!(regex::matches(&r, "aaa"));
    assert!(!regex::matches(&r, "b"));
    assert!(!regex::matches(&r, "ab"));
}

#[test]
fn test_string() {
    let r = Regex::string("hello");
    assert!(regex::matches(&r, "hello"));
    assert!(!regex::matches(&r, "hell"));
    assert!(!regex::matches(&r, "helloo"));
}

#[test]
fn test_intersection() {
    let a_star = Regex::star(Regex::lit('a'));
    let a_plus = Regex::plus(Regex::lit('a'));
    let r = Regex::intersect(a_star, a_plus);
    assert!(!regex::matches(&r, ""));
    assert!(regex::matches(&r, "a"));
    assert!(regex::matches(&r, "aa"));
}

#[test]
fn test_negation() {
    let r = Regex::negate(Regex::lit('a'));
    assert!(!regex::matches(&r, "a"));
    assert!(regex::matches(&r, "b"));
    assert!(regex::matches(&r, ""));
    assert!(regex::matches(&r, "aa"));
}

#[test]
fn test_complex() {
    let config = Regex::string("Config");
    let any_star = Regex::star(Arc::new(Regex::Any));
    let manager = Regex::string("Manager");
    let r = Regex::concat(Regex::concat(config, any_star), manager);
    assert!(regex::matches(&r, "ConfigManager"));
    assert!(regex::matches(&r, "ConfigFileManager"));
    assert!(regex::matches(&r, "ConfigXYZManager"));
    assert!(!regex::matches(&r, "Config"));
    assert!(!regex::matches(&r, "Manager"));
    assert!(!regex::matches(&r, "MyConfigManager"));
}

#[test]
fn test_integration_simple() {
    let r = parse("hello").unwrap();
    assert!(regex::matches(&r, "hello"));
    assert!(!regex::matches(&r, "world"));
}

#[test]
fn test_integration_star() {
    let r = parse("a*b").unwrap();
    assert!(regex::matches(&r, "b"));
    assert!(regex::matches(&r, "ab"));
    assert!(regex::matches(&r, "aaab"));
    assert!(!regex::matches(&r, "a"));
}

#[test]
fn test_integration_intersection() {
    let r = parse("a.*&.*b").unwrap();
    assert!(regex::matches(&r, "ab"));
    assert!(regex::matches(&r, "axxb"));
    assert!(!regex::matches(&r, "a"));
    assert!(!regex::matches(&r, "b"));
    assert!(!regex::matches(&r, "ba"));
}

#[test]
fn test_integration_negation() {
    let r = parse("~(bad)").unwrap();
    assert!(!regex::matches(&r, "bad"));
    assert!(regex::matches(&r, "good"));
    assert!(regex::matches(&r, "ba"));
    assert!(regex::matches(&r, ""));
}

#[test]
fn test_camel_case_pattern() {
    let r = parse("Config.*Manager").unwrap();
    assert!(regex::matches(&r, "ConfigManager"));
    assert!(regex::matches(&r, "ConfigFileManager"));
    assert!(regex::matches(&r, "ConfigXYZManager"));
    assert!(!regex::matches(&r, "Config"));
    assert!(!regex::matches(&r, "Manager"));
    assert!(!regex::matches(&r, "MyConfigManager"));
}

#[test]
fn test_prefix_match() {
    let r = parse("Config.*").unwrap();
    assert!(regex::matches(&r, "Config"));
    assert!(regex::matches(&r, "ConfigFile"));
    assert!(regex::matches(&r, "ConfigManager"));
    assert!(!regex::matches(&r, "MyConfig"));
}

#[test]
fn test_suffix_match() {
    let r = parse(".*Manager").unwrap();
    assert!(regex::matches(&r, "Manager"));
    assert!(regex::matches(&r, "FileManager"));
    assert!(regex::matches(&r, "ConfigManager"));
    assert!(!regex::matches(&r, "ManagerX"));
}

#[test]
fn test_exact_match() {
    let r = parse("Config").unwrap();
    assert!(regex::matches(&r, "Config"));
    assert!(!regex::matches(&r, "ConfigFile"));
    assert!(!regex::matches(&r, "MyConfig"));
}

#[test]
fn test_character_class() {
    let r = parse("[A-Z][a-z]+").unwrap();
    assert!(regex::matches(&r, "Config"));
    assert!(regex::matches(&r, "Manager"));
    assert!(!regex::matches(&r, "config"));
    assert!(!regex::matches(&r, "CONFIG"));
}

#[test]
fn test_matcher_with_cache() {
    let pattern = parse("test.*").unwrap();
    let mut matcher = Matcher::new(pattern);
    assert!(matcher.is_match("test"));
    assert!(matcher.is_match("testing"));
    assert!(matcher.is_match("test123"));
    assert!(!matcher.is_match("Test"));
    assert!(!matcher.is_match("mytest"));
}

#[test]
fn test_parse_literal() {
    let r = parse("abc").unwrap();
    assert!(regex::matches(&r, "abc"));
    assert!(!regex::matches(&r, "ab"));
}

#[test]
fn test_parse_star() {
    let r = parse("a*").unwrap();
    assert!(regex::matches(&r, ""));
    assert!(regex::matches(&r, "a"));
    assert!(regex::matches(&r, "aaa"));
}

#[test]
fn test_parse_union() {
    let r = parse("a|b").unwrap();
    assert!(regex::matches(&r, "a"));
    assert!(regex::matches(&r, "b"));
    assert!(!regex::matches(&r, "c"));
}

#[test]
fn test_parse_intersection() {
    let r = parse("a.*&.*b").unwrap();
    assert!(regex::matches(&r, "ab"));
    assert!(regex::matches(&r, "axxxb"));
    assert!(!regex::matches(&r, "a"));
    assert!(!regex::matches(&r, "b"));
}

#[test]
fn test_parse_negation() {
    let r = parse("~a").unwrap();
    assert!(!regex::matches(&r, "a"));
    assert!(regex::matches(&r, "b"));
    assert!(regex::matches(&r, ""));
}

#[test]
fn test_parse_group() {
    let r = parse("(ab)+").unwrap();
    assert!(regex::matches(&r, "ab"));
    assert!(regex::matches(&r, "abab"));
    assert!(!regex::matches(&r, "a"));
    assert!(!regex::matches(&r, ""));
}

#[test]
fn test_parse_any() {
    let r = parse("a.b").unwrap();
    assert!(regex::matches(&r, "aab"));
    assert!(regex::matches(&r, "axb"));
    assert!(!regex::matches(&r, "ab"));
}

#[test]
fn test_parse_class() {
    let r = parse("[a-c]+").unwrap();
    assert!(regex::matches(&r, "a"));
    assert!(regex::matches(&r, "abc"));
    assert!(regex::matches(&r, "cba"));
    assert!(!regex::matches(&r, "d"));
}

#[test]
fn parse_reports_unclosed_group_and_class() {
    let e = parse("(ab").unwrap_err();
    assert_eq!(e.message, "Expected ')'");
    assert_eq!(e.position, 3);
    let e = parse("[ab").unwrap_err();
    assert_eq!(e.message, "Expected ']'");
    assert!(parse("a\\").is_err());
}

#[test]
fn prefix_match_accepts_some_prefix() {
    let mut m = Matcher::new(parse("ab").unwrap());
    assert!(m.is_prefix_match("abc"));
    assert!(!m.is_prefix_match("acb"));
    let mut e = Matcher::new(parse("x*").unwrap());
    assert!(e.is_prefix_match(""));
}

#[test]
fn negated_class_and_escape() {
    let r = parse("[^a-c]").unwrap();
    assert!(!regex::matches(&r, "b"));
    assert!(regex::matches(&r, "d"));
    let r = parse("a\\*").unwrap();
    assert!(regex::matches(&r, "a*"));
    assert!(!regex::matches(&r, "aa"));
}

#[test]
fn plain_patterns_are_literal_strings() {
    let r = parse("héllo world").unwrap();
    assert!(regex::matches(&r, "héllo world"));
    assert!(!regex::matches(&r, "héllo"));
    assert!(parse("a|b&c*").is_ok());
}
