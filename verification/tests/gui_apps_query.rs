use machunt::apps::{
    app_for_extension, app_for_extension_en, english_app_name, extension_of, group_by_app, group_by_app_en,
};
use machunt::file_actions::{
    activate_application, activation_script, applescript_escape, folder_open_action, open_container_path, picked_app,
    picked_folder, preview_targets, resolve_app_path, selected_paths, terminal_open_action, trash_script, OpenAction,
};
use machunt::gui::{
    absorb_results, apply_launch_settings, apply_launch_settings_via_system_events, service_registration_change, LaunchPlan, bundle_path_of, cli_include_flags,
    cli_search_mode, default_exclude_file_patterns, default_exclude_pattern_dirs, group_results_by_app,
    login_item_names, macos_major_from, make_login_item_script, merges_substring_results,
    migrate_legacy_settings, normalize_loaded_settings, remove_login_item_script, resume_point_is_stale,
    semver, settings_menu_text, shortcut_input, snapshot_gui_settings, sort_key_from_name, sort_results,
    supports_smappservice, to_search_options, tray_labels, update_check_response, wants_more_results,
    watch_response, AppState, GuiSettings, SearchRequest, SearchResultItem,
    DEFAULT_WINDOW_TOGGLE_SHORTCUT,
};
use machunt::gui::{app_groups, result_item, watch_start_decision, watch_start_response, watch_stop_response, WatchStart};
use machunt::model::{SearchMode, SortKey};
use machunt::query::{
    decode_string_list, encode_string_list, event_id_value, extension_sql, include_dirs_value,
    index_row_for, like_escape_exec, like_to_glob_exec, parse_event_id, parse_include_dirs,
    path_prefix_clause, search_fts_plan, search_like_plan, sort_clause, sql_quote_exec,
    subtree_deletion_for, SqlParam, SubtreeDeletion,
};

fn strings(items: &[&str]) -> Vec<String> {
    items.iter().map(|s| s.to_string()).collect()
}

fn item(name: &str, path: &str, parent: &str, size: Option<u64>) -> SearchResultItem {
    SearchResultItem {
        name: name.to_string(),
        path: path.to_string(),
        parent: parent.to_string(),
        is_dir: false,
        is_file: true,
        size_bytes: size,
        modified_unix_ms: None,
    }
}

#[test]
fn default_settings() {
    let s = GuiSettings::default();
    assert_eq!(s.window_toggle_shortcut, DEFAULT_WINDOW_TOGGLE_SHORTCUT);
    assert!(s.show_dock_icon && !s.launch_at_login);
    assert_eq!(s.max_results, 500);
    assert_eq!(s.exclude_pattern_dirs, default_exclude_pattern_dirs());
    assert_eq!(default_exclude_pattern_dirs()[0], "/System/**");
    assert_eq!(s.exclude_file_patterns, default_exclude_file_patterns());
    assert_eq!(default_exclude_file_patterns(), strings(&[".DS_Store"]));
    assert_eq!(s.default_folder_action, "Finder");
    assert_eq!(s.default_terminal_action, "Terminal");
}

#[test]
fn loaded_settings_get_a_shortcut() {
    let mut s = GuiSettings::default();
    s.window_toggle_shortcut = "   ".to_string();
    s.max_results = 42;
    let n = normalize_loaded_settings(s);
    assert_eq!(n.window_toggle_shortcut, DEFAULT_WINDOW_TOGGLE_SHORTCUT);
    assert_eq!(n.max_results, 42);
    let mut t = GuiSettings::default();
    t.window_toggle_shortcut = "Alt+Space".to_string();
    assert_eq!(normalize_loaded_settings(t).window_toggle_shortcut, "Alt+Space");
    assert_eq!(shortcut_input("  Cmd+K "), Ok("Cmd+K".to_string()));
    assert_eq!(shortcut_input("  "), Err("Shortcut cannot be empty".to_string()));
}

#[test]
fn legacy_settings_are_adopted_only_when_empty() {
    let mut s = GuiSettings::default();
    s.exclude_pattern_dirs = Vec::new();
    let m = migrate_legacy_settings(s, strings(&["/a"]), Vec::new(), strings(&["/Users"]));
    assert!(m.adopted_excludes && m.adopted_roots);
    assert_eq!(m.settings.exclude_exact_dirs, strings(&["/a"]));
    assert_eq!(m.settings.watch_roots, strings(&["/Users"]));
    let kept = migrate_legacy_settings(GuiSettings::default(), strings(&["/a"]), Vec::new(), Vec::new());
    assert!(!kept.adopted_excludes && !kept.adopted_roots);
    assert_eq!(kept.settings.exclude_pattern_dirs, default_exclude_pattern_dirs());
}

#[test]
fn app_state_and_its_snapshot() {
    let mut s = GuiSettings::default();
    s.exclude_exact_dirs = strings(&[" /a ", "/a"]);
    s.exclude_file_patterns = strings(&["*.tmp", " *.tmp"]);
    s.max_results = 77;
    let state = AppState::new(s, Vec::new(), strings(&["/Users"]));
    assert!(!state.watch_started && !state.index_loaded && !state.is_quitting);
    assert_eq!(state.exclude_exact_dirs, strings(&["/a"]));
    assert_eq!(state.exclude_pattern_dirs, default_exclude_pattern_dirs());
    assert_eq!(state.exclude_file_patterns, strings(&["*.tmp"]));
    assert_eq!(state.watch_roots, strings(&["/Users"]));
    let snap = snapshot_gui_settings(&state).unwrap();
    assert_eq!(snap.max_results, 77);
    assert_eq!(snap.exclude_exact_dirs, strings(&["/a"]));
    assert_eq!(snap.watch_roots, strings(&["/Users"]));
    let root_only = AppState::new(GuiSettings::default(), Vec::new(), Vec::new());
    assert_eq!(root_only.watch_roots, strings(&["/"]));
    let chosen = AppState::new(GuiSettings::default(), strings(&["/tmp"]), strings(&["/Users"]));
    assert_eq!(chosen.watch_roots, strings(&["/tmp"]));
}

#[test]
fn watch_responses() {
    let r = watch_response(true, "auto", Some(9070));
    assert_eq!(r.code, "running");
    assert_eq!(r.message, "Watcher running (EventID 9070)");
    assert_eq!(watch_response(true, "auto", None).message, "Watcher running");
    let s = watch_response(false, "manual", Some(1));
    assert_eq!(s.code, "stopped");
    assert_eq!(s.message, "Watcher stopped");
    assert_eq!(s.mode, "manual");
    assert!(resume_point_is_stale(10, 60011));
    assert!(!resume_point_is_stale(10, 50010));
    assert!(!resume_point_is_stale(70000, 10));
}

#[test]
fn search_requests() {
    assert_eq!(sort_key_from_name(&Some("size".to_string())), SortKey::Size);
    assert_eq!(sort_key_from_name(&Some("bogus".to_string())), SortKey::Name);
    assert_eq!(sort_key_from_name(&None), SortKey::Name);
    let req = SearchRequest {
        query: "abc".to_string(),
        mode: SearchMode::Substring,
        regex_enabled: None,
        case_sensitive: None,
        path_prefix: Some("/Users".to_string()),
        include_files: None,
        include_dirs: Some(false),
        limit: Some(3),
        extensions: Some(strings(&["pdf"])),
        sort_key: Some("modified".to_string()),
        sort_ascending: None,
    };
    let o = to_search_options(&req, SearchMode::Fuzzy, Some(9));
    assert_eq!(o.query, "abc");
    assert_eq!(o.mode, SearchMode::Fuzzy);
    assert!(!o.case_sensitive);
    assert!(o.include_files && !o.include_dirs);
    assert_eq!(o.limit, Some(9));
    assert_eq!(o.path_prefix, Some("/Users".to_string()));
    assert_eq!(o.extensions, Some(strings(&["pdf"])));
    assert_eq!(o.sort_key, SortKey::Modified);
    assert!(merges_substring_results(SearchMode::Pattern, Some(true)));
    assert!(!merges_substring_results(SearchMode::Pattern, None));
    assert!(!merges_substring_results(SearchMode::Substring, Some(true)));
}

#[test]
fn merging_results() {
    let merged = absorb_results(strings(&["/a"]), &strings(&["/b", "/a", "/c", "/d"]), Some(3));
    assert_eq!(merged, strings(&["/a", "/b", "/c"]));
    let all = absorb_results(strings(&["/a"]), &strings(&["/b", "/a"]), None);
    assert_eq!(all, strings(&["/a", "/b"]));
    assert!(!wants_more_results(0, Some(0)));
    assert!(wants_more_results(2, Some(3)));
    assert!(!wants_more_results(3, Some(3)));
    assert!(wants_more_results(100, None));
}

#[test]
fn sorting_merged_results() {
    let items = vec![
        item("b.txt", "/x/b.txt", "/x", Some(5)),
        item("A.md", "/y/A.md", "/y", Some(1)),
        item("c.rs", "/a/c.rs", "/a", Some(5)),
    ];
    let paths = |v: Vec<SearchResultItem>| v.into_iter().map(|i| i.path).collect::<Vec<_>>();
    assert_eq!(paths(sort_results(&items, SortKey::Name, true)), strings(&["/y/A.md", "/x/b.txt", "/a/c.rs"]));
    assert_eq!(paths(sort_results(&items, SortKey::Name, false)), strings(&["/a/c.rs", "/x/b.txt", "/y/A.md"]));
    assert_eq!(paths(sort_results(&items, SortKey::Size, true)), strings(&["/y/A.md", "/x/b.txt", "/a/c.rs"]));
    assert_eq!(paths(sort_results(&items, SortKey::Size, false)), strings(&["/x/b.txt", "/a/c.rs", "/y/A.md"]));
    assert_eq!(paths(sort_results(&items, SortKey::Path, true)), strings(&["/a/c.rs", "/x/b.txt", "/y/A.md"]));
    assert_eq!(paths(sort_results(&items, SortKey::Type, true)), strings(&["/y/A.md", "/a/c.rs", "/x/b.txt"]));
}

#[test]
fn versions_and_updates() {
    assert_eq!(semver("1.2.3"), Some((1, 2, 3)));
    assert_eq!(semver("1.2.3_fix"), Some((1, 2, 3)));
    assert_eq!(semver("1.2"), None);
    assert_eq!(semver("1.x.2.3"), Some((1, 2, 3)));
    assert_eq!(semver("4294967296.1.2.3"), Some((1, 2, 3)));
    let newer = update_check_response("1.2.3", "v1.3.0");
    assert!(newer.has_update);
    assert_eq!(newer.latest_version, "v1.3.0");
    let same = update_check_response("1.2.3", "v1.2.3");
    assert!(!same.has_update);
    assert_eq!(same.latest_version, "v1.2.3");
    let older = update_check_response("1.2.3", "1.2.0");
    assert!(!older.has_update);
    let odd = update_check_response("1.2.3", "beta");
    assert!(odd.has_update);
    assert_eq!(odd.latest_version, "vbeta");
}

#[test]
fn menu_texts() {
    assert_eq!(settings_menu_text(Some("zh")), "偏好设置");
    assert_eq!(settings_menu_text(Some("en")), "Preferences");
    assert_eq!(settings_menu_text(None), "Preferences");
    assert_eq!(tray_labels(Some("zh")).quit, "退出 MacHunt");
    assert_eq!(tray_labels(None).search, "Search");
}

#[test]
fn login_items() {
    assert_eq!(
        remove_login_item_script("Mac\"Hunt"),
        "tell application \"System Events\"\nif exists login item \"Mac\\\"Hunt\" then\ndelete login item \"Mac\\\"Hunt\"\nend if\nend tell"
    );
    assert_eq!(
        make_login_item_script("A", "/Applications/A.app"),
        "tell application \"System Events\"\nmake login item at end with properties {name:\"A\", path:\"/Applications/A.app\"}\nend tell"
    );
    assert_eq!(login_item_names(Some("MacHunt")), strings(&["MacHunt"]));
    assert_eq!(login_item_names(Some("Other")), strings(&["MacHunt", "Other"]));
    assert_eq!(login_item_names(None), strings(&["MacHunt"]));
    assert_eq!(
        bundle_path_of("/Applications/MacHunt.app/Contents/MacOS/machunt"),
        Ok("/Applications/MacHunt.app".to_string())
    );
    assert_eq!(
        bundle_path_of("/usr/local/bin/machunt"),
        Err("Launch at login requires running the bundled .app".to_string())
    );
    assert_eq!(bundle_path_of("machunt"), Err("Failed to resolve bundle path".to_string()));
    let plan = apply_launch_settings_via_system_events(true, Ok("/Applications/Finder Tools.app".to_string()));
    assert_eq!(plan.scripts.len(), 3);
    assert_eq!(plan.scripts[1], remove_login_item_script("Finder Tools"));
    assert_eq!(plan.scripts[2], make_login_item_script("Finder Tools", "/Applications/Finder Tools.app"));
    assert!(plan.failure.is_none());
    let off = apply_launch_settings_via_system_events(false, Err("no bundle".to_string()));
    assert_eq!(off.scripts, vec![remove_login_item_script("MacHunt")]);
    assert!(off.failure.is_none());
    let failing = apply_launch_settings_via_system_events(true, Err("no bundle".to_string()));
    assert_eq!(failing.scripts.len(), 1);
    assert_eq!(failing.failure, Some("no bundle".to_string()));
    assert_eq!(macos_major_from(" 14.4.1\n"), Some(14));
    assert_eq!(macos_major_from("13"), Some(13));
    assert_eq!(macos_major_from("x.1"), None);
    assert!(supports_smappservice(Some(13)));
    assert!(!supports_smappservice(Some(12)));
    assert!(!supports_smappservice(None));
}

#[test]
fn command_line_choices() {
    assert_eq!(cli_include_flags(false, false), (true, true));
    assert_eq!(cli_include_flags(true, false), (true, false));
    assert_eq!(cli_include_flags(false, true), (false, true));
    assert_eq!(cli_include_flags(true, true), (true, true));
    assert_eq!(cli_search_mode(true, true), SearchMode::Fuzzy);
    assert_eq!(cli_search_mode(false, true), SearchMode::Pattern);
    assert_eq!(cli_search_mode(false, false), SearchMode::Substring);
}

#[test]
fn applications_for_extensions() {
    assert_eq!(extension_of("Report.PDF"), "pdf");
    assert_eq!(extension_of("archive"), "");
    assert_eq!(extension_of(".bashrc"), "bashrc");
    assert_eq!(app_for_extension("pdf"), "预览");
    assert_eq!(app_for_extension("PSD"), "Adobe Photoshop");
    assert_eq!(app_for_extension(""), "其他");
    assert_eq!(app_for_extension("zzz"), "其他");
    assert_eq!(app_for_extension_en("pdf"), "Preview");
    assert_eq!(app_for_extension_en("txt"), "TextEdit");
    assert_eq!(app_for_extension_en("docx"), "Microsoft Word");
    assert_eq!(app_for_extension_en(""), "Other");
    assert_eq!(app_for_extension_en("zzz"), "Other");
}

#[test]
fn grouping_by_application() {
    let paths = strings(&["/a/x.pdf", "/a/y.txt", "/b/z.PDF", "/c/noext"]);
    let groups = group_by_app_en(&paths);
    assert_eq!(groups[0], ("Preview".to_string(), strings(&["/a/x.pdf", "/b/z.PDF"])));
    assert_eq!(groups[1], ("Other".to_string(), strings(&["/c/noext"])));
    assert_eq!(groups[2], ("TextEdit".to_string(), strings(&["/a/y.txt"])));
    let cn = group_by_app(&paths);
    assert_eq!(cn[0].0, "预览");
    assert_eq!(cn.len(), 3);
    let via_gui = group_results_by_app(&paths, Some("en")).unwrap();
    assert_eq!(via_gui, groups);
    assert_eq!(group_results_by_app(&paths, Some("zh")).unwrap(), cn);
}

#[test]
fn file_actions() {
    assert_eq!(open_container_path("/a/b.txt", true, false), Ok("/a".to_string()));
    assert_eq!(open_container_path("/a", true, true), Ok("/a".to_string()));
    assert_eq!(open_container_path("/a", false, true), Err("Target path does not exist".to_string()));
    assert_eq!(open_container_path("/", true, false), Err("Unable to resolve parent directory".to_string()));
    assert_eq!(applescript_escape("a\\b\"c"), "a\\\\b\\\"c");
    assert_eq!(activation_script("Finder"), "tell application \"Finder\" to activate");
    assert_eq!(trash_script("/a/b"), "tell application \"Finder\" to delete POSIX file \"/a/b\"");
    assert_eq!(resolve_app_path("Custom|/Applications/X.app", ""), "/Applications/X.app");
    assert_eq!(resolve_app_path("Finder", "Y|/Applications/Y.app"), "/Applications/Y.app");
    assert!(matches!(folder_open_action("Finder", ""), OpenAction::App(a) if a == "Finder"));
    assert!(matches!(folder_open_action("QSpace Pro", ""), OpenAction::App(a) if a == "QSpace Pro"));
    assert!(matches!(folder_open_action("X|/Applications/X.app", ""), OpenAction::Custom(p) if p == "/Applications/X.app"));
    assert!(matches!(terminal_open_action("WezTerm", ""), OpenAction::WezTerm));
    assert!(matches!(terminal_open_action("Terminal", ""), OpenAction::App(a) if a == "Terminal"));
    assert!(matches!(terminal_open_action("iTerm|/Applications/iTerm.app", ""), OpenAction::Custom(p) if p == "/Applications/iTerm.app"));
    assert_eq!(picked_folder(" /Users/me/ \n"), Some("/Users/me".to_string()));
    assert_eq!(picked_folder("/"), Some("/".to_string()));
    assert_eq!(picked_folder("  "), None);
    assert_eq!(picked_app("/Applications/Safari.app/\n"), Some("Safari|/Applications/Safari.app".to_string()));
    assert_eq!(picked_app("/bin/ls"), None);
    assert_eq!(selected_paths(&strings(&[" /a ", "", "/b"])), Ok(strings(&["/a", "/b"])));
    assert_eq!(selected_paths(&strings(&["  "])), Err("No paths selected".to_string()));
}

#[test]
fn index_queries() {
    assert_eq!(like_escape_exec("50%_off"), "50\\%\\_off");
    assert_eq!(sql_quote_exec("it's"), "it''s");
    assert_eq!(like_to_glob_exec("%a_b%"), "*a?b*");
    assert_eq!(extension_sql(None), "");
    assert_eq!(extension_sql(Some(&strings(&["pdf"]))), " AND (f.name_lower LIKE '%.pdf')");
    assert_eq!(sort_clause(SortKey::Path, false), "ORDER BY d.path DESC, f.name_lower DESC");
    let (clause, param) = path_prefix_clause(Some("/a_b"));
    assert!(!clause.is_empty());
    assert_eq!(param, Some("/a\\_b%".to_string()));
    assert_eq!(path_prefix_clause(Some("")).1, None);
    assert!(search_fts_plan("  ", false, None, None, SortKey::Name, true, 10).is_none());
    assert!(search_fts_plan("abc", false, None, None, SortKey::Name, true, 0).is_none());
    let plan = search_fts_plan("report", false, None, None, SortKey::Name, true, 10).unwrap();
    assert!(matches!(plan.params.last(), Some(SqlParam::Int(10))));
    let like = search_like_plan("%Ab%", true, Some("/x"), None, SortKey::Name, true, 5);
    assert!(like.sql.contains("f.name GLOB ?"));
    assert!(matches!(&like.params[0], SqlParam::Text(t) if t == "*Ab*"));
    assert!(matches!(&like.params[1], SqlParam::Text(t) if t == "/x%"));
    assert!(matches!(like.params[2], SqlParam::Int(5)));
    let row = index_row_for("", "/a/Report.PDF").unwrap();
    assert_eq!((row.dir.as_str(), row.name.as_str(), row.name_lower.as_str()), ("/a", "Report.PDF", "report.pdf"));
    assert!(matches!(subtree_deletion_for("/"), SubtreeDeletion::Everything));
    assert!(matches!(subtree_deletion_for("/a/"), SubtreeDeletion::Under { exact, like } if exact == "/a" && like == "/a/%"));
    assert_eq!(include_dirs_value(true), "1");
    assert!(parse_include_dirs(&include_dirs_value(true)));
    assert!(!parse_include_dirs(&include_dirs_value(false)));
    assert_eq!(parse_event_id(&event_id_value(123456789)), Some(123456789));
    assert_eq!(parse_event_id("x"), None);
    let list = strings(&["a \"q\"", "b\\c", "中文"]);
    let text = encode_string_list(&list);
    assert_eq!(decode_string_list(&text), list);
    assert_eq!(decode_string_list("not json"), Vec::<String>::new());
    assert_eq!(decode_string_list("[\"x\"]"), strings(&["x"]));
}

#[test]
fn launch_settings_plans() {
    assert!(matches!(apply_launch_settings(true, Some(14), Err("x".to_string())), LaunchPlan::ServiceManagement { launch_at_login: true }));
    match apply_launch_settings(false, Some(12), Ok("/Applications/MacHunt.app".to_string())) {
        LaunchPlan::SystemEvents(plan) => {
            assert_eq!(plan.scripts, vec![remove_login_item_script("MacHunt")]);
            assert!(plan.failure.is_none());
        }
        _ => panic!("expected System Events scripts"),
    }
    assert!(matches!(apply_launch_settings(true, None, Ok("/A.app".to_string())), LaunchPlan::SystemEvents(_)));
    assert_eq!(service_registration_change(true, false), Some(true));
    assert_eq!(service_registration_change(false, true), Some(false));
    assert_eq!(service_registration_change(true, true), None);
    assert_eq!(service_registration_change(false, false), None);
    assert_eq!(activate_application("Finder", true), Ok(()));
    assert_eq!(activate_application("Finder", false), Err("Failed to activate Finder".to_string()));
}

#[test]
fn application_groups_with_extensions() {
    let paths = strings(&["/a/x.pdf", "/a/y.PNG", "/b/z.pdf", "/c/noext", "/d/w.txt", "/d/v.png"]);
    let groups = app_groups(&paths, true);
    assert_eq!(groups.len(), 2);
    assert_eq!(groups[0].app_name, "Preview");
    assert_eq!(groups[0].count, 4);
    assert_eq!(groups[0].extensions, strings(&["pdf", "png"]));
    assert_eq!(groups[1].app_name, "TextEdit");
    assert_eq!(groups[1].count, 1);
    assert_eq!(groups[1].extensions, strings(&["txt"]));
    let cn = app_groups(&paths, false);
    assert_eq!(cn[0].app_name, "预览");
    assert!(app_groups(&strings(&["/a/noext", "/"]), true).is_empty());
}

#[test]
fn watcher_start_and_stop_answers() {
    assert_eq!(watch_start_decision(true, true, Some(5), 10), WatchStart::AlreadyRunning);
    assert_eq!(watch_start_decision(false, false, Some(5), 10), WatchStart::Bootstrap);
    assert_eq!(watch_start_decision(false, true, Some(5), 10), WatchStart::Resume(5));
    assert_eq!(watch_start_decision(false, true, Some(5), 50006), WatchStart::CatchUp { gap: 50001 });
    assert_eq!(watch_start_decision(false, true, Some(5), 50005), WatchStart::Resume(5));
    assert_eq!(watch_start_decision(false, true, None, 10), WatchStart::FromNow);
    let running = watch_start_response(WatchStart::AlreadyRunning, Some(3));
    assert_eq!((running.code.as_str(), running.last_event_id), ("already_running", Some(3)));
    let resume = watch_start_response(WatchStart::Resume(42), None);
    assert_eq!(resume.message, "Watcher resumed from EventID 42");
    assert_eq!(resume.last_event_id, Some(42));
    let gap = watch_start_response(WatchStart::CatchUp { gap: 60000 }, None);
    assert_eq!(gap.message, "Watcher started (gap: 60000, background catch-up running)");
    assert_eq!(watch_start_response(WatchStart::Bootstrap, None).mode, "bootstrap");
    assert_eq!(watch_start_response(WatchStart::FromNow, None).code, "active");
    let idle = watch_stop_response(false, false, Some(1));
    assert_eq!((idle.running, idle.code.as_str()), (false, "not_running"));
    let stopped = watch_stop_response(true, true, Some(9));
    assert_eq!((stopped.running, stopped.message.as_str(), stopped.last_event_id), (false, "Watcher stopped", Some(9)));
    let stopping = watch_stop_response(true, false, None);
    assert_eq!((stopping.running, stopping.code.as_str()), (true, "stopping"));
}

#[test]
fn result_items() {
    let f = result_item("/a/b.txt", false, true, 12, Some(7));
    assert_eq!((f.name.as_str(), f.parent.as_str(), f.size_bytes, f.modified_unix_ms), ("b.txt", "/a", Some(12), Some(7)));
    let d = result_item("/a", true, false, 0, None);
    assert_eq!((d.name.as_str(), d.parent.as_str(), d.size_bytes), ("a", "/", None));
    let root = result_item("/", true, false, 0, None);
    assert_eq!((root.name.as_str(), root.parent.as_str()), ("", ""));
}

#[test]
fn settings_commands_update_the_state() {
    let mut state = AppState::new(GuiSettings::default(), strings(&["/Users"]), Vec::new());
    let resp = state.set_exclude_dir_settings(strings(&[" /tmp ", "/tmp"]), strings(&["*.cache"])).unwrap();
    assert_eq!(resp.exact_dirs, strings(&["/tmp"]));
    assert_eq!(resp.pattern_dirs, strings(&["*.cache"]));
    assert_eq!(state.exclude_exact_dirs, strings(&["/tmp"]));
    assert_eq!(state.watch_roots, strings(&["/Users"]));
    let files = state.set_exclude_file_settings(true, strings(&["*.log", ""])).unwrap();
    assert!(files.exclude_dot_files);
    assert_eq!(files.file_patterns, strings(&["*.log"]));
    assert!(state.exclude_dot_files);
    let roots = state.set_watch_roots_settings(Vec::new(), strings(&["/Applications"]));
    assert_eq!(roots.roots, strings(&["/Applications"]));
    assert_eq!(state.watch_roots, strings(&["/Applications"]));
    // What the commands stored is what the next snapshot saves.
    let snap = snapshot_gui_settings(&state).unwrap();
    assert_eq!(snap.exclude_exact_dirs, strings(&["/tmp"]));
    assert_eq!(snap.exclude_file_patterns, strings(&["*.log"]));
    assert!(snap.exclude_dot_files);
    assert_eq!(snap.watch_roots, strings(&["/Applications"]));
}

#[test]
fn string_list_setting_is_stored_as_json() {
    assert_eq!(encode_string_list(&strings(&["x", "y z"])), "[\"x\",\"y z\"]");
    assert_eq!(encode_string_list(&Vec::new()), "[]");
    let stored = encode_string_list(&strings(&["/Users/a/.cache"]));
    assert_eq!(decode_string_list(&stored), strings(&["/Users/a/.cache"]));
}

#[test]
fn english_app_name_translates_the_chinese_one() {
    for ext in ["png", "TXT", "ttf", "mp3", "command", "zip", "dmg", "html", "docx", "", "unknownext"] {
        assert_eq!(app_for_extension_en(ext), english_app_name(&app_for_extension(ext)));
        assert!(app_for_extension_en(ext).is_ascii());
    }
    assert_eq!(english_app_name("预览"), "Preview");
    assert_eq!(english_app_name("其他"), "Other");
}

#[test]
fn sorting_merged_results_keeps_each_row_whole() {
    let items = vec![
        SearchResultItem {
            name: "b.txt".to_string(),
            path: "/x/b.txt".to_string(),
            parent: "/x".to_string(),
            is_dir: false,
            is_file: true,
            size_bytes: Some(5),
            modified_unix_ms: Some(1700),
        },
        SearchResultItem {
            name: "Docs".to_string(),
            path: "/y/Docs".to_string(),
            parent: "/y".to_string(),
            is_dir: true,
            is_file: false,
            size_bytes: None,
            modified_unix_ms: Some(1600),
        },
    ];
    let sorted = sort_results(&items, SortKey::Modified, true);
    assert_eq!(sorted.len(), 2);
    let first = &sorted[0];
    assert_eq!((first.name.as_str(), first.path.as_str(), first.parent.as_str()), ("Docs", "/y/Docs", "/y"));
    assert_eq!((first.is_dir, first.is_file, first.size_bytes, first.modified_unix_ms), (true, false, None, Some(1600)));
    let second = &sorted[1];
    assert_eq!((second.name.as_str(), second.path.as_str(), second.parent.as_str()), ("b.txt", "/x/b.txt", "/x"));
    assert_eq!((second.is_dir, second.is_file, second.size_bytes, second.modified_unix_ms), (false, true, Some(5), Some(1700)));
}

#[test]
fn preview_opens_the_existing_paths() {
    assert_eq!(preview_targets(&Vec::new(), &Vec::new()), Ok(Vec::new()));
    assert_eq!(
        preview_targets(&strings(&["/a/x.png", "/gone", "/b/y.pdf"]), &vec![true, false, true]),
        Ok(strings(&["/a/x.png", "/b/y.pdf"]))
    );
    assert_eq!(
        preview_targets(&strings(&["/gone"]), &vec![false]),
        Err("Target path does not exist".to_string())
    );
    assert_eq!(
        preview_targets(&strings(&["/a/x\0y", "/b"]), &vec![true, true]),
        Err("Target path contains NUL byte".to_string())
    );
    assert_eq!(preview_targets(&strings(&["/a/x\0y", "/b"]), &vec![false, true]), Ok(strings(&["/b"])));
}
