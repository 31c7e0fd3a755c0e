use machunt::filters::{
    compile_exclude_rules, compile_file_exclude_rules, compile_pattern, is_dot_dir, is_excluded,
    is_file_excluded, sanitize_owned_rules, sanitize_roots, sanitize_rules, to_matchable_path,
    validate_pattern_rules, wildcard_to_regex,
};
use machunt::paths::{file_name_str, parent_key, path_eq_exec, path_starts_with_exec};
use machunt::search::convert_wildcard_to_regex;
use machunt::text::{parse_decimal_u64, split_ws, trim_str, u64_to_decimal};

fn strings(items: &[&str]) -> Vec<String> {
    items.iter().map(|s| s.to_string()).collect()
}

#[test]
fn sanitize_rules_trims_drops_and_dedups() {
    let out = sanitize_rules(&strings(&[" a ", "a", "", "  ", "b", "a "]));
    assert_eq!(out, strings(&["a", "b"]));
    // Sanitizing twice changes nothing.
    assert_eq!(sanitize_rules(&out), out);
    assert_eq!(sanitize_owned_rules(strings(&["x", " x"])), strings(&["x"]));
}

#[test]
fn sanitize_roots_keeps_absolute_roots() {
    let out = sanitize_roots(strings(&["/a/", "rel", " / ", "/a", "/b//", ""]));
    assert_eq!(out, strings(&["/a", "/", "/b"]));
}

#[test]
fn exact_rules_exclude_whole_subtrees() {
    let rules = compile_exclude_rules(&strings(&[" /Users/me/tmp "]), &[]);
    assert!(is_excluded("/Users/me/tmp", true, &rules));
    assert!(is_excluded("/Users/me/tmp/a/b.txt", false, &rules));
    assert!(!is_excluded("/Users/me/tmpx", false, &rules));
    assert!(!is_excluded("/Users/me", true, &rules));
}

#[test]
fn pattern_rules_match_the_path_text() {
    let rules = compile_exclude_rules(&[], &strings(&["node_modules", "/private/var/**"]));
    assert!(is_excluded("/w/node_modules", true, &rules));
    assert!(is_excluded("/w/NODE_MODULES/x.js", false, &rules));
    assert!(is_excluded("/private/var/log", true, &rules));
    assert!(!is_excluded("/w/src/main.rs", false, &rules));
}

#[test]
fn file_rules_look_at_the_name_only() {
    let rules = compile_file_exclude_rules(true, &strings(&["*.log"]));
    assert!(is_file_excluded("/a/.hidden", false, &rules));
    assert!(is_file_excluded("/a/App.LOG", false, &rules));
    assert!(!is_file_excluded("/a/app.txt", false, &rules));
    assert!(!is_file_excluded("/a/.git", true, &rules));
    let no_dots = compile_file_exclude_rules(false, &[]);
    assert!(!is_file_excluded("/a/.hidden", false, &no_dots));
}

#[test]
fn matchable_paths_end_directories_with_a_slash() {
    assert_eq!(to_matchable_path("/a", true), "/a/");
    assert_eq!(to_matchable_path("/a/", true), "/a/");
    assert_eq!(to_matchable_path("/a", false), "/a");
}

#[test]
fn dot_directories() {
    assert!(is_dot_dir("/a/.git", true));
    assert!(!is_dot_dir("/a/.git", false));
    assert!(!is_dot_dir("/a/git", true));
    assert!(!is_dot_dir("/", true));
}

#[test]
fn patterns_compile_as_regex_or_wildcard() {
    let raw = compile_pattern("^/tmp/.*$").unwrap();
    assert!(raw.is_match("/TMP/x"));
    let wild = compile_pattern("*.log").unwrap();
    assert!(wild.is_match("app.log"));
    assert!(!wild.is_match("dir/app.log"));
    assert!(validate_pattern_rules(&strings(&["*.log", "(a|b)"])).is_ok());
    let w = wildcard_to_regex("a?c").unwrap();
    assert!(w.is_match("ABC"));
    assert!(!w.is_match("a/c"));
}

#[test]
fn wildcard_conversion() {
    let re = convert_wildcard_to_regex("{foo,bar}.txt", true).unwrap();
    assert!(re.is_match("foo.txt"));
    assert!(re.is_match("bar.txt"));
    assert!(!re.is_match("Foo.txt"));
    let ci = convert_wildcard_to_regex("**/*.RS", false).unwrap();
    assert!(ci.is_match("src/main.rs"));
    // Characters other than the wildcards are taken literally.
    let dot = convert_wildcard_to_regex("a.c+", true).unwrap();
    assert!(dot.is_match("a.c+"));
    assert!(!dot.is_match("abc+"));
    assert!(!dot.is_match("a.cc"));
}

#[test]
fn path_components() {
    assert_eq!(file_name_str("/a/b.txt"), Some("b.txt".to_string()));
    assert_eq!(file_name_str("/a/b/"), Some("b".to_string()));
    assert_eq!(file_name_str("/"), None);
    assert_eq!(file_name_str("/a/.."), None);
    assert!(path_starts_with_exec("/a/b", "/a"));
    assert!(path_starts_with_exec("/a//b/", "/a/b"));
    assert!(!path_starts_with_exec("/ab", "/a"));
    assert!(path_eq_exec("/a//b/", "/a/b"));
    assert!(!path_eq_exec("/a/b", "a/b"));
    assert_eq!(parent_key("/a/b.txt"), "/a");
    assert_eq!(parent_key("/a"), "/");
    assert_eq!(parent_key("/"), "");
}

#[test]
fn text_helpers() {
    assert_eq!(trim_str("  x y \n"), "x y");
    assert_eq!(trim_str("\u{3000}x\u{a0}"), "x");
    assert_eq!(parse_decimal_u64("123"), Some(123));
    assert_eq!(parse_decimal_u64("+7"), Some(7));
    assert_eq!(parse_decimal_u64(""), None);
    assert_eq!(parse_decimal_u64("12a"), None);
    assert_eq!(parse_decimal_u64("18446744073709551615"), Some(u64::MAX));
    assert_eq!(parse_decimal_u64("18446744073709551616"), None);
    assert_eq!(u64_to_decimal(0), "0");
    assert_eq!(u64_to_decimal(9070), "9070");
    assert_eq!(parse_decimal_u64(&u64_to_decimal(42)), Some(42));
    let words = split_ws(&" a  bc\td ".chars().collect());
    let words: Vec<String> = words.iter().map(|w| w.iter().collect()).collect();
    assert_eq!(words, strings(&["a", "bc", "d"]));
}
