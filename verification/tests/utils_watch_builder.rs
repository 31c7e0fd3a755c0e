use machunt::builder::{
    batch_is_full, build_mode, build_roots, build_start, descends_into, index_records, keeps_entry, progress_due,
    BuildFilterSettings, BuildMode, BuildStart, WalkEntry,
};
use machunt::filters::{compile_exclude_rules, compile_file_exclude_rules};
use machunt::utils::{
    flag_file_contents, log_path_in_scope, log_settings_from_env_value, log_settings_from_flag_file,
    logs_to_prune, normalize_path_for_index, root_directories, should_skip_path, timestamp_secs,
    timestamp_text, LogBudget, LogWrite, MAX_LOG_BYTES,
};
use machunt::watcher::{
    classify_event, drop_causes, is_watch_root, is_watch_running, since_event, upsert_decision,
    watch_stream_roots, EventAction, WatchRuntime, FLAG_HISTORY_DONE, FLAG_ITEM_CREATED,
    FLAG_ITEM_INODE_META_MOD, FLAG_ITEM_IS_FILE, FLAG_ITEM_MODIFIED, FLAG_ITEM_REMOVED,
    FLAG_ITEM_RENAMED, FLAG_KERNEL_DROPPED, FLAG_MUST_SCAN_SUBDIRS, FLAG_USER_DROPPED,
    FSEVENT_SINCE_NOW,
};

fn strings(items: &[&str]) -> Vec<String> {
    items.iter().map(|s| s.to_string()).collect()
}

#[test]
fn skipped_system_paths() {
    assert!(should_skip_path("/dev"));
    assert!(should_skip_path("/private/var/vm"));
    assert!(should_skip_path("/Users/me/Library/Caches/MacHunt/index.db"));
    assert!(should_skip_path("/Volumes/X/.Spotlight-V100/a"));
    assert!(!should_skip_path("/dev/null"));
    assert!(!should_skip_path("/Users/me"));
}

#[test]
fn index_paths_drop_volume_aliases() {
    assert_eq!(normalize_path_for_index("/System/Volumes/Data/Users/me"), "/Users/me");
    assert_eq!(normalize_path_for_index("/System/Volumes/Data"), "/");
    assert_eq!(normalize_path_for_index("/Volumes/Macintosh HD/Applications"), "/Applications");
    assert_eq!(normalize_path_for_index("/Volumes/Other/x"), "/Volumes/Other/x");
}

#[test]
fn root_directories_keep_directories_not_skipped() {
    let entries = vec![
        ("/Users".to_string(), true),
        ("/dev".to_string(), true),
        ("/etc".to_string(), false),
        ("/Applications".to_string(), true),
    ];
    assert_eq!(root_directories(&entries), strings(&["/Users", "/Applications"]));
}

#[test]
fn log_settings() {
    let off = log_settings_from_env_value(" Off ");
    assert!(!off.enabled);
    assert!(off.scope.is_none());
    assert!(!log_settings_from_env_value("").enabled);
    let on = log_settings_from_env_value("1");
    assert!(on.enabled);
    assert!(on.scope.is_none());
    let scoped = log_settings_from_env_value(" /Users/me ");
    assert!(scoped.enabled);
    assert_eq!(scoped.scope, Some("/Users/me".to_string()));
    // What is written to the flag file reads back the same.
    let flag = log_settings_from_flag_file(&flag_file_contents("  /tmp/x  "));
    assert!(flag.enabled);
    assert_eq!(flag.scope, Some("/tmp/x".to_string()));
    assert!(log_path_in_scope(&Some("/tmp".to_string()), "/tmp/a"));
    assert!(!log_path_in_scope(&Some("/tmp".to_string()), "/var/a"));
    assert!(log_path_in_scope(&None, "/var/a"));
}

#[test]
fn log_budget_caps_once() {
    let mut b = LogBudget::new();
    assert_eq!(b.account(9), LogWrite::Line);
    assert_eq!(b.written, 10);
    let mut full = LogBudget { written: MAX_LOG_BYTES, capped: false };
    assert_eq!(full.account(3), LogWrite::CapNotice);
    assert!(full.capped);
    assert_eq!(full.account(3), LogWrite::Drop);
    assert_eq!(full.written, MAX_LOG_BYTES);
    assert_eq!(logs_to_prune(3), 0);
    assert_eq!(logs_to_prune(10), 1);
    assert_eq!(logs_to_prune(12), 3);
}

#[test]
fn timestamps() {
    assert_eq!(timestamp_text(Some(1700000000)), "1700000000");
    assert_eq!(timestamp_text(None), "0");
    let now = timestamp_secs();
    assert!(!now.is_empty() && now.chars().all(|c| c.is_ascii_digit()));
    assert!(now.parse::<u64>().unwrap() > 1600000000);
}

#[test]
fn event_classification() {
    let rules = compile_exclude_rules(&strings(&["/Users/me/tmp"]), &[]);
    assert_eq!(classify_event(FLAG_HISTORY_DONE, "/dev", &rules), EventAction::HistoryDone);
    assert_eq!(classify_event(FLAG_ITEM_CREATED, "/dev", &rules), EventAction::Ignore);
    assert_eq!(
        classify_event(FLAG_ITEM_CREATED | FLAG_ITEM_IS_FILE, "/Users/me/tmp/a", &rules),
        EventAction::Excluded { log: true }
    );
    assert_eq!(classify_event(FLAG_MUST_SCAN_SUBDIRS, "/Users/me", &rules), EventAction::Reconcile);
    assert_eq!(classify_event(FLAG_ITEM_REMOVED, "/Users/me/d", &rules), EventAction::RemoveTree);
    assert_eq!(
        classify_event(FLAG_ITEM_RENAMED, "/Users/me/d", &rules),
        EventAction::IndexDirectory { clean_parent: true }
    );
    assert_eq!(
        classify_event(FLAG_ITEM_CREATED, "/Users/me/d", &rules),
        EventAction::IndexDirectory { clean_parent: false }
    );
    assert_eq!(classify_event(FLAG_ITEM_INODE_META_MOD, "/Users/me/d", &rules), EventAction::DirectoryMetadata);
    assert_eq!(classify_event(0, "/Users/me/d", &rules), EventAction::DirectoryIdle);
    assert_eq!(
        classify_event(FLAG_ITEM_REMOVED | FLAG_ITEM_IS_FILE, "/Users/me/f", &rules),
        EventAction::RemoveFile
    );
    assert_eq!(
        classify_event(FLAG_ITEM_RENAMED | FLAG_ITEM_IS_FILE, "/Users/me/f", &rules),
        EventAction::UpsertFile { clean_parent: true }
    );
    assert_eq!(
        classify_event(FLAG_ITEM_MODIFIED | FLAG_ITEM_IS_FILE, "/Users/me/f", &rules),
        EventAction::UpsertFile { clean_parent: false }
    );
    assert_eq!(
        classify_event(FLAG_ITEM_INODE_META_MOD | FLAG_ITEM_IS_FILE, "/Users/me/f", &rules),
        EventAction::RefreshMetadata
    );
    assert_eq!(classify_event(FLAG_ITEM_IS_FILE, "/Users/me/f", &rules), EventAction::Unrecognized);
    assert_eq!(drop_causes(FLAG_USER_DROPPED | FLAG_KERNEL_DROPPED), (true, true, false));
}

#[test]
fn watch_runtime_lifecycle() {
    let mut rt = WatchRuntime::idle();
    assert!(!is_watch_running(&rt));
    assert_eq!(rt.stop_target(), None);
    assert!(rt.begin());
    assert!(!rt.begin());
    assert!(is_watch_running(&rt));
    assert_eq!(rt.stop_target(), None);
    rt.attach(7, 9);
    assert_eq!(rt.stop_target(), Some((7, 9)));
    rt.finish();
    assert!(!is_watch_running(&rt));
    assert_eq!(since_event(None), FSEVENT_SINCE_NOW);
    assert_eq!(since_event(Some(42)), 42);
}

#[test]
fn stream_roots_and_watch_roots() {
    assert_eq!(watch_stream_roots(&strings(&["/a", "/b\0c"])), strings(&["/a"]));
    assert_eq!(watch_stream_roots(&strings(&["\0"])), strings(&["/"]));
    assert!(is_watch_root("/Users/", &strings(&["/Users", "/Applications"])));
    assert!(!is_watch_root("/Users/me", &strings(&["/Users"])));
}

#[test]
fn upserts_follow_the_rules() {
    let rules = compile_exclude_rules(&strings(&["/x"]), &[]);
    let file_rules = compile_file_exclude_rules(true, &[]);
    assert_eq!(upsert_decision("/a/Report.PDF", false, false, &rules, &file_rules), Some("report.pdf".to_string()));
    assert_eq!(upsert_decision("/a/dir", true, false, &rules, &file_rules), None);
    assert_eq!(upsert_decision("/a/Dir", true, true, &rules, &file_rules), Some("dir".to_string()));
    assert_eq!(upsert_decision("/x/a", false, true, &rules, &file_rules), None);
    assert_eq!(upsert_decision("/a/.env", false, true, &rules, &file_rules), None);
    assert_eq!(upsert_decision("/dev", true, true, &rules, &file_rules), None);
}

#[test]
fn build_decisions() {
    assert!(matches!(build_start(Some("/a"), true, true), BuildStart::ClearAll));
    match build_start(Some("/a"), false, true) {
        BuildStart::ClearUnder(p) => assert_eq!(p, "/a"),
        _ => panic!("expected a subtree to clear"),
    }
    assert!(matches!(build_start(Some("/a"), false, false), BuildStart::KeepAll));
    assert!(matches!(build_start(None, false, true), BuildStart::KeepAll));

    let filters = BuildFilterSettings {
        include_dirs: false,
        exclude_exact_dirs: Vec::new(),
        exclude_pattern_dirs: Vec::new(),
        watch_roots: Some(strings(&["/Users"])),
    };
    let system = strings(&["/Applications", "/Users"]);
    assert_eq!(build_roots(Some("/tmp".to_string()), &filters, system.clone()), strings(&["/tmp"]));
    assert_eq!(build_roots(None, &filters, system.clone()), strings(&["/Users"]));
    let empty = BuildFilterSettings { watch_roots: Some(Vec::new()), ..filters.clone() };
    assert_eq!(build_roots(None, &empty, system.clone()), system);
    let none = BuildFilterSettings { watch_roots: None, ..filters };
    assert_eq!(build_roots(None, &none, system.clone()), system);

    assert!(batch_is_full(50000));
    assert!(!batch_is_full(49999));
    assert!(progress_due(500000));
    assert!(progress_due(520000));
    assert!(!progress_due(600000));
}

#[test]
fn walk_entries_become_records() {
    let rules = compile_exclude_rules(&strings(&["/w/skip"]), &[]);
    assert!(descends_into("/w/a", true, &rules));
    assert!(!descends_into("/w/skip", true, &rules));
    assert!(!descends_into("/dev", true, &rules));
    let entries = vec![
        WalkEntry { path: "/w/A.txt".to_string(), name: "A.txt".to_string(), is_dir: false, is_file: true },
        WalkEntry { path: "/w/dir".to_string(), name: "dir".to_string(), is_dir: true, is_file: false },
        WalkEntry { path: "/w/skip/b".to_string(), name: "b".to_string(), is_dir: false, is_file: true },
        WalkEntry {
            path: "/System/Volumes/Data/w/C".to_string(),
            name: "C".to_string(),
            is_dir: false,
            is_file: true,
        },
    ];
    assert!(keeps_entry(&entries[0], false, &rules));
    assert!(!keeps_entry(&entries[1], false, &rules));
    assert!(keeps_entry(&entries[1], true, &rules));
    assert!(!keeps_entry(&entries[2], true, &rules));
    let records = index_records(&entries, false, &rules);
    assert_eq!(
        records,
        vec![("a.txt".to_string(), "/w/A.txt".to_string()), ("c".to_string(), "/w/C".to_string())]
    );
    let with_dirs = index_records(&entries, true, &rules);
    assert_eq!(with_dirs.len(), 3);
}

#[test]
fn search_options_ask_for_some_kind() {
    let base = machunt::model::SearchOptions {
        query: "q".to_string(),
        mode: machunt::model::SearchMode::Substring,
        case_sensitive: false,
        path_prefix: None,
        include_files: false,
        include_dirs: false,
        limit: Some(5),
        extensions: None,
        size_min_bytes: None,
        size_max_bytes: None,
        time_min_ms: None,
        time_max_ms: None,
        sort_key: machunt::model::SortKey::Name,
        sort_ascending: true,
    };
    let n = base.clone().normalize();
    assert!(n.include_files && n.include_dirs);
    assert_eq!(n.limit, Some(5));
    let again = n.clone().normalize();
    assert!(again.include_files && again.include_dirs);
    let files_only = machunt::model::SearchOptions { include_files: true, ..base }.normalize();
    assert!(files_only.include_files && !files_only.include_dirs);
}

#[test]
fn capped_log_stays_silent() {
    let mut b = LogBudget { written: MAX_LOG_BYTES + 5, capped: false };
    assert_eq!(b.account(1), LogWrite::CapNotice);
    for len in [0usize, 10, 1000] {
        assert_eq!(b.account(len), LogWrite::Drop);
    }
    assert_eq!(b.written, MAX_LOG_BYTES + 5);
    assert!(b.capped);
}

#[test]
fn build_mode_keeps_scoped_builds_scoped() {
    let some = Some("/Users/a/Projects".to_string());
    assert_eq!(build_mode(&some, false, true), BuildMode::Scoped);
    assert_eq!(build_mode(&some, false, false), BuildMode::Scoped);
    assert_eq!(build_mode(&some, true, false), BuildMode::Scoped);
    assert_eq!(build_mode(&some, true, true), BuildMode::Full);
    assert_eq!(build_mode(&None, false, false), BuildMode::Full);
    assert_eq!(build_mode(&None, true, true), BuildMode::Full);
}
