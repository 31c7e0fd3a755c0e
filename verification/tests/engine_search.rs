use machunt::engine::{
    candidate_paths, char_prefix, default_watch_roots, effective_limit, extract_literal, fetch_limit,
    full_path, fuzzy_matches, fuzzy_tokens, include_allowed, keep_flagged, longest_token,
    normalize_watch_roots, pattern_like_filter, pattern_matches, pattern_target, prefix_allowed,
    prepare_exclude_dir_settings, prepare_exclude_file_settings, roots_or_default, search_query,
    sort_by_metadata, tokens_all_match, truncate_results,
};
use machunt::filters::compile_pattern;
use machunt::model::SortKey;
use machunt::query::fuzzy_candidates_plan;
use machunt::search::convert_wildcard_to_regex;

fn strings(items: &[&str]) -> Vec<String> {
    items.iter().map(|s| s.to_string()).collect()
}

fn rows(items: &[(&str, &str)]) -> Vec<(String, String)> {
    items.iter().map(|(d, n)| (d.to_string(), n.to_string())).collect()
}

#[test]
fn test_fuzzy_token_match() {
    // The fuzzy search's token matching, through the library's own steps.
    let filename = "AgentSyste代理商管理系统 Struts2 远程代码执行漏洞";
    let query = "系统 Struts2 远程";
    let lowered_name = search_query(filename, false);
    let tokens = fuzzy_tokens(query, false);
    let all_match = tokens_all_match(&lowered_name, &tokens);
    assert!(all_match, "tokens {:?} should match '{}'", tokens, lowered_name);

    let query2 = "代理 执行 struts2";
    let tokens2 = fuzzy_tokens(query2, false);
    let all_match2 = tokens_all_match(&lowered_name, &tokens2);
    assert!(all_match2, "tokens {:?} should match '{}'", tokens2, lowered_name);

    // Verify DB pre-filter: "struts2" first 2 chars = "st", LIKE '%st%' should match.
    let prefilter = longest_token(&tokens2).unwrap();
    assert_eq!(prefilter, "struts2");
    let prefix = char_prefix(&prefilter, 2);
    assert_eq!(prefix, "st");
    assert!(lowered_name.contains(&prefix), "LIKE '%{}%' should match '{}'", prefix, lowered_name);

    // Test that non-matching query is rejected.
    let query3 = "不存在 关键词";
    let tokens3 = fuzzy_tokens(query3, false);
    let all_match3 = tokens_all_match(&lowered_name, &tokens3);
    assert!(!all_match3);
}

#[test]
fn full_path_joins_directory_and_name() {
    assert_eq!(full_path("/", "etc"), "/etc");
    assert_eq!(full_path("/Users/me", "a.txt"), "/Users/me/a.txt");
}

#[test]
fn prefix_allowed_compares_components() {
    let prefix = Some("/Users/me".to_string());
    assert!(prefix_allowed("/Users/me/a.txt", &prefix));
    assert!(prefix_allowed("/Users/me", &prefix));
    assert!(!prefix_allowed("/Users/meow/a.txt", &prefix));
    assert!(prefix_allowed("/anything", &None));
}

#[test]
fn include_allowed_follows_the_kinds_asked_for() {
    assert!(include_allowed(true, true, false, false));
    assert!(include_allowed(true, false, true, false));
    assert!(!include_allowed(true, false, false, true));
    assert!(include_allowed(false, true, false, true));
    assert!(!include_allowed(false, true, true, false));
    assert!(!include_allowed(false, false, true, true));
}

#[test]
fn candidate_paths_keep_rows_under_the_prefix() {
    let r = rows(&[("/a", "x"), ("/b", "y"), ("/", "a"), ("/a/c", "z")]);
    let out = candidate_paths(&r, &Some("/a".to_string()));
    assert_eq!(out, strings(&["/a/x", "/a", "/a/c/z"]));
    let all = candidate_paths(&r, &None);
    assert_eq!(all.len(), 4);
}

#[test]
fn keep_flagged_and_truncate() {
    let items = strings(&["a", "b", "c"]);
    assert_eq!(keep_flagged(items.clone(), &vec![true, false, true]), strings(&["a", "c"]));
    assert_eq!(truncate_results(items.clone(), 2), strings(&["a", "b"]));
    assert_eq!(truncate_results(items.clone(), 5), items);
}

#[test]
fn limits() {
    assert_eq!(fetch_limit(10, SortKey::Size), 30);
    assert_eq!(fetch_limit(10, SortKey::Modified), 30);
    assert_eq!(fetch_limit(10, SortKey::Name), 20);
    assert_eq!(effective_limit(None), 500);
    assert_eq!(effective_limit(Some(7)), 7);
}

#[test]
fn extract_literal_takes_the_longest_run() {
    assert_eq!(extract_literal("*.rs"), ".rs");
    assert_eq!(extract_literal("foo*bar?bazz"), "bazz");
    assert_eq!(extract_literal("ab*cd"), "ab");
    assert_eq!(extract_literal("***"), "");
    assert_eq!(extract_literal("报告*x"), "报告");
}

#[test]
fn pattern_like_filter_needs_two_bytes() {
    assert_eq!(pattern_like_filter("*.RS", false), "%.rs%");
    assert_eq!(pattern_like_filter("*.RS", true), "%.RS%");
    assert_eq!(pattern_like_filter("a*", false), "%");
    assert_eq!(pattern_like_filter("é*", false), "%é%");
}

#[test]
fn pattern_target_lowercases_unless_case_matters() {
    assert_eq!(pattern_target("ReadMe.MD", false), "readme.md");
    assert_eq!(pattern_target("ReadMe.MD", true), "ReadMe.MD");
}

#[test]
fn pattern_matches_filters_by_regex_and_prefix() {
    let re = convert_wildcard_to_regex("*.rs", false).unwrap();
    let r = rows(&[("/src", "main.RS"), ("/src", "lib.c"), ("/other", "x.rs")]);
    let out = pattern_matches(&r, &re, false, &Some("/src".to_string()));
    assert_eq!(out, strings(&["/src/main.RS"]));
    let sensitive = convert_wildcard_to_regex("*.rs", true).unwrap();
    let out2 = pattern_matches(&r, &sensitive, true, &None);
    assert_eq!(out2, strings(&["/other/x.rs"]));
}

#[test]
fn pattern_filter_lets_alternatives_through() {
    assert_eq!(pattern_like_filter("{foo,bar}", false), "%");
    assert_eq!(pattern_like_filter("{foo,bar}", true), "%");
    assert_eq!(pattern_like_filter("foo,bar", false), "%");
    assert_eq!(pattern_like_filter("report{1,2}.txt", false), "%");
}

#[test]
fn pattern_filter_keeps_names_the_pattern_accepts() {
    let re = convert_wildcard_to_regex("*report*.pdf", true).unwrap();
    let r = rows(&[("/d", "annual report 2024.pdf")]);
    assert_eq!(pattern_matches(&r, &re, true, &None), strings(&["/d/annual report 2024.pdf"]));
    let fragment = extract_literal("*report*.pdf");
    assert_eq!(fragment, "report");
    assert!("annual report 2024.pdf".contains(fragment.as_str()));
}

#[test]
fn pattern_with_alternatives_matches_each_branch() {
    let re = convert_wildcard_to_regex("{foo,bar}", false).unwrap();
    let r = rows(&[("/d", "foo"), ("/d", "bar"), ("/d", "baz")]);
    assert_eq!(pattern_matches(&r, &re, false, &None), strings(&["/d/foo", "/d/bar"]));
}

#[test]
fn fuzzy_matches_need_every_token() {
    let tokens = fuzzy_tokens("REPORT 2024", false);
    assert_eq!(tokens, strings(&["report", "2024"]));
    let r = rows(&[("/d", "Annual Report 2024.pdf"), ("/d", "report 2023.pdf"), ("/e", "2024 report")]);
    let out = fuzzy_matches(&r, &tokens, false, &Some("/d".to_string()));
    assert_eq!(out, strings(&["/d/Annual Report 2024.pdf"]));
    let sensitive = fuzzy_tokens("Report", true);
    let out2 = fuzzy_matches(&r, &sensitive, true, &None);
    assert_eq!(out2, strings(&["/d/Annual Report 2024.pdf"]));
}

#[test]
fn fuzzy_prefilter_plan_uses_the_longest_token() {
    let tokens = strings(&["ab", "struts2", "x"]);
    let plan = fuzzy_candidates_plan(&tokens, None, None, 100).unwrap();
    assert!(plan.sql.contains("f.name_lower LIKE ?"));
    match &plan.params[0] {
        machunt::query::SqlParam::Text(t) => assert_eq!(t, "%st%"),
        _ => panic!("expected a text parameter"),
    }
    assert!(fuzzy_candidates_plan(&Vec::new(), None, None, 100).is_none());
    assert!(fuzzy_candidates_plan(&tokens, None, None, 0).is_none());
}

#[test]
fn sort_by_metadata_is_stable() {
    let paths = strings(&["/a", "/b", "/c", "/d"]);
    let asc = sort_by_metadata(&paths, &vec![3, 1, 3, 0], true);
    assert_eq!(asc, strings(&["/d", "/b", "/a", "/c"]));
    let desc = sort_by_metadata(&paths, &vec![3, 1, 3, 0], false);
    assert_eq!(desc, strings(&["/a", "/c", "/b", "/d"]));
}

#[test]
fn watch_roots_default_to_the_top_level() {
    assert_eq!(default_watch_roots(Vec::new()), strings(&["/"]));
    assert_eq!(default_watch_roots(strings(&["/Users", "/Applications"])), strings(&["/Users", "/Applications"]));
    assert_eq!(roots_or_default(Vec::new(), strings(&["/x"])), strings(&["/x"]));
    assert_eq!(roots_or_default(strings(&["/y"]), strings(&["/x"])), strings(&["/y"]));
}

#[test]
fn normalize_watch_roots_keeps_existing_directories() {
    let roots = strings(&[" /Users/ ", "/tmp", "", "/Users", "/gone"]);
    let sanitized = machunt::filters::sanitize_roots(roots.clone());
    assert_eq!(sanitized, strings(&["/Users", "/tmp", "/gone"]));
    let out = normalize_watch_roots(roots, &vec![true, true, false]);
    assert_eq!(out, strings(&["/Users", "/tmp"]));
}

#[test]
fn exclude_settings_are_sanitized_and_checked() {
    let ok = prepare_exclude_dir_settings(strings(&[" /a ", "/a", ""]), strings(&["/x/**"])).unwrap();
    assert_eq!(ok.0, strings(&["/a"]));
    assert_eq!(ok.1, strings(&["/x/**"]));
    // A rule that is no regex is still usable as a wildcard pattern.
    let fallback = prepare_exclude_dir_settings(Vec::new(), strings(&["re:("])).unwrap();
    assert_eq!(fallback.1, strings(&["re:("]));
    let files = prepare_exclude_file_settings(true, strings(&["*.log", " *.log "])).unwrap();
    assert_eq!(files, (true, strings(&["*.log"])));
    assert_eq!(prepare_exclude_file_settings(false, strings(&["re:["])).unwrap(), (false, strings(&["re:["])));
    assert!(compile_pattern("*.log").is_ok());
}

#[test]
fn stored_paths_read_back_as_themselves() {
    for path in ["/Users/me/a.txt", "/etc", "/a/../b", "/Volumes/X/.hidden"] {
        let row = machunt::query::index_row_for("", path).unwrap();
        assert_eq!(full_path(&row.dir, &row.name), path);
        let key = machunt::query::delete_key(path).unwrap();
        assert_eq!((key.0.as_str(), key.1.as_str()), (row.dir.as_str(), row.name.as_str()));
    }
}
