//! The desktop front end's settings, responses and decisions: defaults and
//! migration of stored settings, the request a search is run with, how
//! results are merged and ordered, what the watcher reports, update checks,
//! menu texts and login-item scripts.
use vstd::prelude::*;

use crate::filters::sanitized;
use crate::model::{SearchMode, SearchOptions, SortKey};
use crate::paths::parent;
use crate::strings::{lemma_views_push, views};
use crate::text::pair;

verus! {

pub const DEFAULT_WINDOW_TOGGLE_SHORTCUT: &'static str = "CmdOrCtrl+Shift+KeyD";

// ─────────────────────────── settings ───────────────────────────

#[derive(Debug, Clone)]
pub struct GuiSettings {
    pub window_toggle_shortcut: String,
    pub launch_at_login: bool,
    pub silent_start: bool,
    pub show_dock_icon: bool,
    pub auto_vacuum_on_rebuild: bool,
    pub auto_check_update: bool,
    pub exclude_exact_dirs: Vec<String>,
    pub exclude_pattern_dirs: Vec<String>,
    pub exclude_dot_files: bool,
    pub exclude_file_patterns: Vec<String>,
    pub watch_roots: Vec<String>,
    pub default_folder_action: String,
    pub default_terminal_action: String,
    pub custom_folder_app: String,
    pub custom_terminal_app: String,
    pub max_results: usize,
}

pub fn default_auto_vacuum_on_rebuild() -> (r: bool)
    ensures
        r,
{
    true
}

pub fn default_auto_check_update() -> (r: bool)
    ensures
        r,
{
    true
}

/// Directories excluded until the user says otherwise.
pub open spec fn default_pattern_dirs() -> Seq<Seq<char>> {
    seq![
        "/System/**"@,
        "/private/var/**"@,
        "/private/tmp/**"@,
        "/.Spotlight-V100/**"@,
        "/.fseventsd/**"@,
        "/dev/**"@,
        "/proc/**"@,
    ]
}

pub fn default_exclude_pattern_dirs() -> (r: Vec<String>)
    ensures
        views(r@) == default_pattern_dirs(),
{
    let mut r: Vec<String> = Vec::new();
    r.push(crate::text::owned("/System/**"));
    r.push(crate::text::owned("/private/var/**"));
    r.push(crate::text::owned("/private/tmp/**"));
    r.push(crate::text::owned("/.Spotlight-V100/**"));
    r.push(crate::text::owned("/.fseventsd/**"));
    r.push(crate::text::owned("/dev/**"));
    r.push(crate::text::owned("/proc/**"));
    assert(views(r@) =~= default_pattern_dirs());
    r
}

pub fn default_exclude_file_patterns() -> (r: Vec<String>)
    ensures
        views(r@) == seq![".DS_Store"@],
{
    let mut r: Vec<String> = Vec::new();
    r.push(crate::text::owned(".DS_Store"));
    assert(views(r@) =~= seq![".DS_Store"@]);
    r
}

impl Default for GuiSettings {
    fn default() -> (s: Self)
        ensures
            s.window_toggle_shortcut@ == DEFAULT_WINDOW_TOGGLE_SHORTCUT@,
            !s.launch_at_login,
            !s.silent_start,
            s.show_dock_icon,
            s.auto_vacuum_on_rebuild,
            s.auto_check_update,
            s.exclude_exact_dirs@.len() == 0,
            views(s.exclude_pattern_dirs@) == default_pattern_dirs(),
            !s.exclude_dot_files,
            views(s.exclude_file_patterns@) == seq![".DS_Store"@],
            s.watch_roots@.len() == 0,
            s.default_folder_action@ == "Finder"@,
            s.default_terminal_action@ == "Terminal"@,
            s.custom_folder_app@.len() == 0,
            s.custom_terminal_app@.len() == 0,
            s.max_results == 500,
    {
        GuiSettings {
            window_toggle_shortcut: crate::text::owned(DEFAULT_WINDOW_TOGGLE_SHORTCUT),
            launch_at_login: false,
            silent_start: false,
            show_dock_icon: true,
            auto_vacuum_on_rebuild: default_auto_vacuum_on_rebuild(),
            auto_check_update: default_auto_check_update(),
            exclude_exact_dirs: Vec::new(),
            exclude_pattern_dirs: default_exclude_pattern_dirs(),
            exclude_dot_files: false,
            exclude_file_patterns: default_exclude_file_patterns(),
            watch_roots: Vec::new(),
            default_folder_action: crate::text::owned("Finder"),
            default_terminal_action: crate::text::owned("Terminal"),
            custom_folder_app: String::new(),
            custom_terminal_app: String::new(),
            max_results: 500,
        }
    }
}

/// Loaded settings with a blank shortcut get the default one.
pub fn normalize_loaded_settings(mut settings: GuiSettings) -> (r: GuiSettings)
    ensures
        crate::text::trim(settings.window_toggle_shortcut@).len() == 0 ==> r.window_toggle_shortcut@
            == DEFAULT_WINDOW_TOGGLE_SHORTCUT@,
        crate::text::trim(settings.window_toggle_shortcut@).len() > 0 ==> r.window_toggle_shortcut
            == settings.window_toggle_shortcut,
        r.launch_at_login == settings.launch_at_login,
        r.silent_start == settings.silent_start,
        r.show_dock_icon == settings.show_dock_icon,
        r.auto_vacuum_on_rebuild == settings.auto_vacuum_on_rebuild,
        r.auto_check_update == settings.auto_check_update,
        r.exclude_exact_dirs == settings.exclude_exact_dirs,
        r.exclude_pattern_dirs == settings.exclude_pattern_dirs,
        r.exclude_dot_files == settings.exclude_dot_files,
        r.exclude_file_patterns == settings.exclude_file_patterns,
        r.watch_roots == settings.watch_roots,
        r.default_folder_action == settings.default_folder_action,
        r.default_terminal_action == settings.default_terminal_action,
        r.custom_folder_app == settings.custom_folder_app,
        r.custom_terminal_app == settings.custom_terminal_app,
        r.max_results == settings.max_results,
{
    let t = crate::text::trim_str(settings.window_toggle_shortcut.as_str());
    if t.as_str().is_empty() {
        settings.window_toggle_shortcut = crate::text::owned(DEFAULT_WINDOW_TOGGLE_SHORTCUT);
    }
    settings
}

/// What the app adopts from the engine's older stored settings: the
/// exclusion lists when its own are both empty and the engine has some, and
/// the watch roots when its own are empty and the engine has some.
pub struct LegacyMigration {
    pub settings: GuiSettings,
    pub adopted_excludes: bool,
    pub adopted_roots: bool,
}

pub fn migrate_legacy_settings(
    mut settings: GuiSettings,
    legacy_exact_dirs: Vec<String>,
    legacy_pattern_dirs: Vec<String>,
    legacy_watch_roots: Vec<String>,
) -> (r: LegacyMigration)
    ensures
        r.adopted_excludes == (settings.exclude_exact_dirs@.len() == 0
            && settings.exclude_pattern_dirs@.len() == 0 && (legacy_exact_dirs@.len() > 0
            || legacy_pattern_dirs@.len() > 0)),
        r.adopted_excludes ==> r.settings.exclude_exact_dirs == legacy_exact_dirs
            && r.settings.exclude_pattern_dirs == legacy_pattern_dirs,
        !r.adopted_excludes ==> r.settings.exclude_exact_dirs == settings.exclude_exact_dirs
            && r.settings.exclude_pattern_dirs == settings.exclude_pattern_dirs,
        r.adopted_roots == (settings.watch_roots@.len() == 0 && legacy_watch_roots@.len() > 0),
        r.adopted_roots ==> r.settings.watch_roots == legacy_watch_roots,
        !r.adopted_roots ==> r.settings.watch_roots == settings.watch_roots,
{
    let mut adopted_excludes = false;
    if settings.exclude_exact_dirs.len() == 0 && settings.exclude_pattern_dirs.len() == 0 && (
    legacy_exact_dirs.len() > 0 || legacy_pattern_dirs.len() > 0) {
        settings.exclude_exact_dirs = legacy_exact_dirs;
        settings.exclude_pattern_dirs = legacy_pattern_dirs;
        adopted_excludes = true;
    }
    let mut adopted_roots = false;
    if settings.watch_roots.len() == 0 && legacy_watch_roots.len() > 0 {
        settings.watch_roots = legacy_watch_roots;
        adopted_roots = true;
    }
    LegacyMigration { settings, adopted_excludes, adopted_roots }
}

/// A shortcut as typed: trimmed, and refused when empty.
pub fn shortcut_input(raw: &str) -> (r: Result<String, String>)
    ensures
        crate::text::trim(raw@).len() == 0 ==> (r matches Err(e) && e@ == "Shortcut cannot be empty"@),
        crate::text::trim(raw@).len() > 0 ==> (r matches Ok(s) && s@ == crate::text::trim(raw@)),
{
    let t = crate::text::trim_str(raw);
    if t.as_str().is_empty() {
        return Err(crate::text::owned("Shortcut cannot be empty"));
    }
    Ok(t)
}

// ─────────────────────────── live state ───────────────────────────

/// The desktop app's live settings and flags.
pub struct AppState {
    pub watch_started: bool,
    pub index_loaded: bool,
    pub window_toggle_shortcut: String,
    pub launch_at_login: bool,
    pub silent_start: bool,
    pub show_dock_icon: bool,
    pub auto_vacuum_on_rebuild: bool,
    pub auto_check_update: bool,
    pub exclude_exact_dirs: Vec<String>,
    pub exclude_pattern_dirs: Vec<String>,
    pub exclude_dot_files: bool,
    pub exclude_file_patterns: Vec<String>,
    pub watch_roots: Vec<String>,
    pub default_folder_action: String,
    pub default_terminal_action: String,
    pub custom_folder_app: String,
    pub custom_terminal_app: String,
    pub max_results: usize,
    pub is_quitting: bool,
}

impl AppState {
    /// The state the app starts with, from its stored settings (after the
    /// legacy migration): exclusion lists as the engine accepts them (both
    /// emptied when a pattern cannot be used), the file exclusion settings
    /// likewise (switched off and emptied), and the watch roots.
    /// `existing_roots` are the settings' roots after `normalize_watch_roots`;
    /// where none is left, the top-level directories `root_dirs` (or `/`) are
    /// watched.
    pub fn new(settings: GuiSettings, existing_roots: Vec<String>, root_dirs: Vec<String>) -> (r: AppState)
        ensures
            !r.watch_started && !r.index_loaded && !r.is_quitting,
            r.window_toggle_shortcut == settings.window_toggle_shortcut,
            r.launch_at_login == settings.launch_at_login,
            r.silent_start == settings.silent_start,
            r.show_dock_icon == settings.show_dock_icon,
            r.auto_vacuum_on_rebuild == settings.auto_vacuum_on_rebuild,
            r.auto_check_update == settings.auto_check_update,
            r.default_folder_action == settings.default_folder_action,
            r.default_terminal_action == settings.default_terminal_action,
            r.custom_folder_app == settings.custom_folder_app,
            r.custom_terminal_app == settings.custom_terminal_app,
            r.max_results == settings.max_results,
            r.exclude_dot_files == settings.exclude_dot_files,
            crate::engine::rules_usable(sanitized(views(settings.exclude_pattern_dirs@))) ==> views(
                r.exclude_exact_dirs@,
            ) == sanitized(views(settings.exclude_exact_dirs@)) && views(r.exclude_pattern_dirs@)
                == sanitized(views(settings.exclude_pattern_dirs@)),
            !crate::engine::rules_usable(sanitized(views(settings.exclude_pattern_dirs@)))
                ==> r.exclude_exact_dirs@.len() == 0 && r.exclude_pattern_dirs@.len() == 0,
            crate::engine::rules_usable(sanitized(views(settings.exclude_file_patterns@)))
                ==> views(r.exclude_file_patterns@) == sanitized(views(settings.exclude_file_patterns@)),
            !crate::engine::rules_usable(sanitized(views(settings.exclude_file_patterns@)))
                ==> r.exclude_file_patterns@.len() == 0,
            existing_roots@.len() > 0 ==> r.watch_roots@ == existing_roots@,
            existing_roots@.len() == 0 && root_dirs@.len() > 0 ==> r.watch_roots@ == root_dirs@,
            existing_roots@.len() == 0 && root_dirs@.len() == 0 ==> views(r.watch_roots@) == seq![seq!['/']],
    {
        let (exclude_exact_dirs, exclude_pattern_dirs) = match crate::engine::prepare_exclude_dir_settings(
            settings.exclude_exact_dirs,
            settings.exclude_pattern_dirs,
        ) {
            Ok(pair) => pair,
            Err(_) => (Vec::new(), Vec::new()),
        };
        let exclude_file_patterns = match crate::engine::prepare_exclude_file_settings(
            settings.exclude_dot_files,
            settings.exclude_file_patterns,
        ) {
            Ok((_, p)) => p,
            Err(_) => Vec::new(),
        };
        let watch_roots = crate::engine::roots_or_default(
            existing_roots,
            crate::engine::default_watch_roots(root_dirs),
        );
        AppState {
            watch_started: false,
            index_loaded: false,
            window_toggle_shortcut: settings.window_toggle_shortcut,
            launch_at_login: settings.launch_at_login,
            silent_start: settings.silent_start,
            show_dock_icon: settings.show_dock_icon,
            auto_vacuum_on_rebuild: settings.auto_vacuum_on_rebuild,
            auto_check_update: settings.auto_check_update,
            exclude_exact_dirs,
            exclude_pattern_dirs,
            exclude_dot_files: settings.exclude_dot_files,
            exclude_file_patterns,
            watch_roots,
            default_folder_action: settings.default_folder_action,
            default_terminal_action: settings.default_terminal_action,
            custom_folder_app: settings.custom_folder_app,
            custom_terminal_app: settings.custom_terminal_app,
            max_results: settings.max_results,
            is_quitting: false,
        }
    }
}

impl AppState {
    /// Takes new exclusion lists as the engine accepts them (sanitized);
    /// refused, leaving the state as it was, when a pattern cannot be used.
    pub fn set_exclude_dir_settings(&mut self, exact_dirs: Vec<String>, pattern_dirs: Vec<String>) -> (r: Result<
        ExcludeDirSettingsResponse,
        String,
    >)
        ensures
            r is Ok <==> crate::engine::rules_usable(sanitized(views(pattern_dirs@))),
            r is Err ==> *final(self) == *old(self),
            r matches Ok(resp) ==> views(resp.exact_dirs@) == sanitized(views(exact_dirs@)) && views(
                resp.pattern_dirs@,
            ) == sanitized(views(pattern_dirs@)) && views(final(self).exclude_exact_dirs@) == views(
                resp.exact_dirs@,
            ) && views(final(self).exclude_pattern_dirs@) == views(resp.pattern_dirs@) && *final(self) == (
            AppState {
                exclude_exact_dirs: final(self).exclude_exact_dirs,
                exclude_pattern_dirs: final(self).exclude_pattern_dirs,
                ..*old(self)
            }),
    {
        match crate::engine::prepare_exclude_dir_settings(exact_dirs, pattern_dirs) {
            Ok((exact, pattern)) => {
                self.exclude_exact_dirs = crate::strings::clone_strings(&exact);
                self.exclude_pattern_dirs = crate::strings::clone_strings(&pattern);
                Ok(ExcludeDirSettingsResponse { exact_dirs: exact, pattern_dirs: pattern })
            },
            Err(e) => Err(e),
        }
    }

    /// Takes new file exclusion settings as the engine accepts them (name
    /// patterns sanitized); refused, leaving the state as it was, when a
    /// pattern cannot be used.
    pub fn set_exclude_file_settings(&mut self, exclude_dot_files: bool, file_patterns: Vec<String>) -> (r:
        Result<ExcludeFileSettingsResponse, String>)
        ensures
            r is Ok <==> crate::engine::rules_usable(sanitized(views(file_patterns@))),
            r is Err ==> *final(self) == *old(self),
            r matches Ok(resp) ==> resp.exclude_dot_files == exclude_dot_files && views(resp.file_patterns@)
                == sanitized(views(file_patterns@)) && views(final(self).exclude_file_patterns@) == views(
                resp.file_patterns@,
            ) && *final(self) == (AppState {
                exclude_dot_files,
                exclude_file_patterns: final(self).exclude_file_patterns,
                ..*old(self)
            }),
    {
        match crate::engine::prepare_exclude_file_settings(exclude_dot_files, file_patterns) {
            Ok((dot, patterns)) => {
                self.exclude_dot_files = dot;
                self.exclude_file_patterns = crate::strings::clone_strings(&patterns);
                Ok(ExcludeFileSettingsResponse { exclude_dot_files: dot, file_patterns: patterns })
            },
            Err(e) => Err(e),
        }
    }

    /// Takes new watch roots: `existing_roots` are the requested roots after
    /// `normalize_watch_roots`; where none is left, the top-level directories
    /// `root_dirs` (or `/`) are watched.
    pub fn set_watch_roots_settings(&mut self, existing_roots: Vec<String>, root_dirs: Vec<String>) -> (r:
        WatchRootsSettingsResponse)
        ensures
            existing_roots@.len() > 0 ==> r.roots@ == existing_roots@,
            existing_roots@.len() == 0 && root_dirs@.len() > 0 ==> r.roots@ == root_dirs@,
            existing_roots@.len() == 0 && root_dirs@.len() == 0 ==> views(r.roots@) == seq![seq!['/']],
            views(final(self).watch_roots@) == views(r.roots@),
            *final(self) == (AppState { watch_roots: final(self).watch_roots, ..*old(self) }),
    {
        let roots = crate::engine::roots_or_default(existing_roots, crate::engine::default_watch_roots(root_dirs));
        self.watch_roots = crate::strings::clone_strings(&roots);
        WatchRootsSettingsResponse { roots }
    }
}

/// The settings as they stand in the live state, ready to be stored.
pub fn snapshot_gui_settings(state: &AppState) -> (r: Result<GuiSettings, String>)
    ensures
        r matches Ok(s) && s.window_toggle_shortcut@ == state.window_toggle_shortcut@
            && s.launch_at_login == state.launch_at_login && s.silent_start == state.silent_start
            && s.show_dock_icon == state.show_dock_icon && s.auto_vacuum_on_rebuild
            == state.auto_vacuum_on_rebuild && s.auto_check_update == state.auto_check_update
            && views(s.exclude_exact_dirs@) == views(state.exclude_exact_dirs@) && views(
            s.exclude_pattern_dirs@,
        ) == views(state.exclude_pattern_dirs@) && s.exclude_dot_files == state.exclude_dot_files
            && views(s.exclude_file_patterns@) == views(state.exclude_file_patterns@) && views(
            s.watch_roots@,
        ) == views(state.watch_roots@) && s.default_folder_action@ == state.default_folder_action@
            && s.default_terminal_action@ == state.default_terminal_action@ && s.custom_folder_app@
            == state.custom_folder_app@ && s.custom_terminal_app@ == state.custom_terminal_app@
            && s.max_results == state.max_results,
{
    Ok(
        GuiSettings {
            window_toggle_shortcut: crate::text::clone_string(&state.window_toggle_shortcut),
            launch_at_login: state.launch_at_login,
            silent_start: state.silent_start,
            show_dock_icon: state.show_dock_icon,
            auto_vacuum_on_rebuild: state.auto_vacuum_on_rebuild,
            auto_check_update: state.auto_check_update,
            exclude_exact_dirs: crate::strings::clone_strings(&state.exclude_exact_dirs),
            exclude_pattern_dirs: crate::strings::clone_strings(&state.exclude_pattern_dirs),
            exclude_dot_files: state.exclude_dot_files,
            exclude_file_patterns: crate::strings::clone_strings(&state.exclude_file_patterns),
            watch_roots: crate::strings::clone_strings(&state.watch_roots),
            default_folder_action: crate::text::clone_string(&state.default_folder_action),
            default_terminal_action: crate::text::clone_string(&state.default_terminal_action),
            custom_folder_app: crate::text::clone_string(&state.custom_folder_app),
            custom_terminal_app: crate::text::clone_string(&state.custom_terminal_app),
            max_results: state.max_results,
        },
    )
}

// ─────────────────────────── responses ───────────────────────────

#[derive(Debug, Clone)]
pub struct LaunchSettingsResponse {
    pub launch_at_login: bool,
    pub silent_start: bool,
    pub show_dock_icon: bool,
}

#[derive(Debug, Clone)]
pub struct AutoVacuumSettingsResponse {
    pub auto_vacuum_on_rebuild: bool,
}

#[derive(Debug, Clone)]
pub struct AutoCheckUpdateResponse {
    pub auto_check_update: bool,
}

#[derive(Debug, Clone)]
pub struct MaxResultsResponse {
    pub max_results: usize,
}

#[derive(Debug, Clone)]
pub struct ExcludeDirSettingsResponse {
    pub exact_dirs: Vec<String>,
    pub pattern_dirs: Vec<String>,
}

#[derive(Debug, Clone)]
pub struct ExcludeFileSettingsResponse {
    pub exclude_dot_files: bool,
    pub file_patterns: Vec<String>,
}

#[derive(Debug, Clone)]
pub struct WatchRootsSettingsResponse {
    pub roots: Vec<String>,
}

#[derive(Debug, Clone)]
pub struct FileManagerSettingsResponse {
    pub default_folder_action: String,
    pub default_terminal_action: String,
    pub custom_folder_app: String,
    pub custom_terminal_app: String,
}

#[derive(Debug, Clone)]
pub struct SearchRequest {
    pub query: String,
    pub mode: SearchMode,
    pub regex_enabled: Option<bool>,
    pub case_sensitive: Option<bool>,
    pub path_prefix: Option<String>,
    pub include_files: Option<bool>,
    pub include_dirs: Option<bool>,
    pub limit: Option<usize>,
    pub extensions: Option<Vec<String>>,
    pub sort_key: Option<String>,
    pub sort_ascending: Option<bool>,
}

#[derive(Debug)]
pub struct SearchResultItem {
    pub name: String,
    pub path: String,
    pub parent: String,
    pub is_dir: bool,
    pub is_file: bool,
    pub size_bytes: Option<u64>,
    pub modified_unix_ms: Option<u64>,
}

#[derive(Debug)]
pub struct SearchResponse {
    pub items: Vec<SearchResultItem>,
    pub total: usize,
    pub took_ms: u64,
}

#[derive(Debug, Clone)]
pub struct InitResponse {
    pub indexed: usize,
    pub has_index: bool,
    pub last_event_id: Option<u64>,
}

#[derive(Debug, Clone)]
pub struct BuildResponse {
    pub indexed: usize,
    pub took_ms: u64,
}

#[derive(Debug, Clone)]
pub struct BuildEvent {
    pub phase: String,
    pub indexed: Option<usize>,
    pub took_ms: Option<u64>,
}

#[derive(Debug, Clone)]
pub struct WatchResponse {
    pub running: bool,
    pub mode: String,
    pub code: String,
    pub message: String,
    pub last_event_id: Option<u64>,
}

#[derive(Debug, Clone)]
pub struct UpdateCheckResponse {
    pub has_update: bool,
    pub latest_version: String,
}

#[derive(Debug, Clone)]
pub struct AppGroupItem {
    pub app_name: String,
    pub count: usize,
    pub extensions: Vec<String>,
}

#[derive(Debug, Clone)]
pub struct AppGroupResponse {
    pub groups: Vec<AppGroupItem>,
}

// ─────────────────────────── application groups ───────────────────────────

/// The extension of a path's file name, lower-cased (empty when it has none).
pub open spec fn path_ext(path: Seq<char>) -> Seq<char> {
    crate::apps::ext_of(crate::engine::or_empty(crate::paths::file_name(path)))
}

fn path_ext_exec(path: &str) -> (r: String)
    ensures
        r@ == path_ext(path@),
{
    let name = match crate::paths::file_name_str(path) {
        Some(n) => n,
        None => String::new(),
    };
    crate::apps::extension_of(name.as_str())
}

/// The paths whose file name has an extension, in order.
pub open spec fn with_ext(paths: Seq<Seq<char>>) -> Seq<Seq<char>>
    decreases paths.len(),
{
    if paths.len() == 0 {
        Seq::empty()
    } else {
        let prev = with_ext(paths.drop_last());
        if path_ext(paths.last()).len() > 0 {
            prev.push(paths.last())
        } else {
            prev
        }
    }
}

/// Texts in strictly increasing order.
pub open spec fn strictly_sorted(s: Seq<Seq<char>>) -> bool {
    forall|i: int, j: int|
        0 <= i < j < s.len() ==> crate::sorting::text_le(s[i], s[j]) && s[i] != s[j]
}

/// An application group as listed: its name, how many of the paths it
/// opens, and the distinct extensions among them in increasing order.
pub open spec fn lists_group(item: AppGroupItem, group: (Seq<char>, Seq<Seq<char>>)) -> bool {
    &&& item.app_name@ == group.0
    &&& item.count == group.1.len()
    &&& strictly_sorted(views(item.extensions@))
    &&& forall|e: Seq<char>|
        #[trigger] views(item.extensions@).contains(e) <==> exists|k: int|
            0 <= k < group.1.len() && path_ext(#[trigger] group.1[k]) == e
}

fn text_le_str(a: &String, b: &String) -> (r: bool)
    ensures
        r == crate::sorting::text_le(a@, b@),
{
    crate::sorting::text_le_exec(&crate::text::chars_of(a.as_str()), &crate::text::chars_of(b.as_str()))
}

/// Adds `x` to a strictly increasing list unless it is there already.
fn insert_sorted(v: &mut Vec<String>, x: String)
    requires
        strictly_sorted(views(old(v)@)),
    ensures
        strictly_sorted(views(final(v)@)),
        forall|e: Seq<char>| #[trigger] views(final(v)@).contains(e) <==> (views(old(v)@).contains(e) || e == x@),
{
    let ghost old_v = views(v@);
    let mut pos: usize = 0;
    while pos < v.len() && text_le_str(&v[pos], &x)
        invariant
            pos <= v.len(),
            views(v@) == old_v,
            strictly_sorted(old_v),
            forall|k: int| 0 <= k < pos ==> crate::sorting::text_le(#[trigger] old_v[k], x@) && old_v[k] != x@,
        decreases v.len() - pos,
    {
        if crate::text::str_eq(v[pos].as_str(), x.as_str()) {
            assert(old_v[pos as int] == x@);
            return;
        }
        pos = pos + 1;
    }
    let ghost xv = x@;
    assert forall|k: int| pos <= k < old_v.len() implies crate::sorting::text_le(xv, #[trigger] old_v[k])
        && old_v[k] != xv by {
        crate::sorting::lemma_text_total(xv, old_v[pos as int]);
        crate::sorting::lemma_text_total(xv, xv);
        assert(!crate::sorting::text_le(old_v[pos as int], xv));
        if k > pos {
            assert(crate::sorting::text_le(old_v[pos as int], old_v[k]));
            crate::sorting::lemma_text_trans(xv, old_v[pos as int], old_v[k]);
        }
    }
    v.insert(pos, x);
    assert(views(v@) =~= old_v.insert(pos as int, xv));
    let ghost nv = views(v@);
    assert forall|i: int, j: int| 0 <= i < j < nv.len() implies crate::sorting::text_le(nv[i], nv[j]) && nv[i]
        != nv[j] by {
        if j < pos {
            assert(nv[i] == old_v[i] && nv[j] == old_v[j]);
        } else if i < pos && j == pos {
            assert(nv[i] == old_v[i] && nv[j] == xv);
        } else if i < pos {
            assert(nv[i] == old_v[i] && nv[j] == old_v[j - 1]);
            assert(crate::sorting::text_le(old_v[i], xv));
            assert(crate::sorting::text_le(xv, old_v[j - 1]));
            crate::sorting::lemma_text_trans(old_v[i], xv, old_v[j - 1]);
            assert(old_v[i] != old_v[j - 1]);
        } else if i == pos {
            assert(nv[i] == xv && nv[j] == old_v[j - 1]);
            assert(crate::sorting::text_le(xv, old_v[j - 1]) && old_v[j - 1] != xv);
        } else {
            assert(nv[i] == old_v[i - 1] && nv[j] == old_v[j - 1]);
        }
    }
    assert forall|e: Seq<char>| #[trigger] nv.contains(e) <==> (old_v.contains(e) || e == xv) by {
        if nv.contains(e) {
            let j = choose|j: int| 0 <= j < nv.len() && nv[j] == e;
            if j < pos {
                assert(old_v[j] == e);
            } else if j > pos {
                assert(old_v[j - 1] == e);
            }
        }
        if old_v.contains(e) {
            let j = choose|j: int| 0 <= j < old_v.len() && old_v[j] == e;
            if j < pos {
                assert(nv[j] == e);
            } else {
                assert(nv[j + 1] == e);
            }
        }
        if e == xv {
            assert(nv[pos as int] == e);
        }
    }
}

fn with_ext_paths(paths: &Vec<String>) -> (r: Vec<String>)
    ensures
        views(r@) == with_ext(views(paths@)),
{
    let ghost pv = views(paths@);
    let mut r: Vec<String> = Vec::new();
    let mut i: usize = 0;
    while i < paths.len()
        invariant
            i <= paths.len(),
            pv == views(paths@),
            views(r@) == with_ext(pv.take(i as int)),
        decreases paths.len() - i,
    {
        assert(pv.take(i + 1).drop_last() =~= pv.take(i as int));
        assert(pv.take(i + 1).last() == paths@[i as int]@);
        let e = path_ext_exec(paths[i].as_str());
        if !e.as_str().is_empty() {
            let s = crate::text::clone_string(&paths[i]);
            proof {
                lemma_views_push(r@, s);
            }
            r.push(s);
        }
        i = i + 1;
    }
    assert(pv.take(paths.len() as int) =~= pv);
    r
}

/// The distinct extensions of `members`, in increasing order.
fn member_extensions(members: &Vec<String>) -> (r: Vec<String>)
    ensures
        strictly_sorted(views(r@)),
        forall|e: Seq<char>| #[trigger] views(r@).contains(e) <==> exists|k: int|
            0 <= k < members@.len() && path_ext(#[trigger] members@[k]@) == e,
{
    let mut r: Vec<String> = Vec::new();
    let mut i: usize = 0;
    while i < members.len()
        invariant
            i <= members.len(),
            strictly_sorted(views(r@)),
            forall|e: Seq<char>| #[trigger] views(r@).contains(e) <==> exists|k: int|
                0 <= k < i && path_ext(#[trigger] members@[k]@) == e,
        decreases members.len() - i,
    {
        let e = path_ext_exec(members[i].as_str());
        let ghost ev = e@;
        let ghost before = views(r@);
        insert_sorted(&mut r, e);
        assert forall|x: Seq<char>| #[trigger] views(r@).contains(x) <==> exists|k: int|
            0 <= k < i + 1 && path_ext(#[trigger] members@[k]@) == x by {
            if views(r@).contains(x) {
                if before.contains(x) {
                    let k = choose|k: int| 0 <= k < i && path_ext(#[trigger] members@[k]@) == x;
                    assert(0 <= k < i + 1);
                } else {
                    assert(path_ext(members@[i as int]@) == x);
                }
            }
            if exists|k: int| 0 <= k < i + 1 && path_ext(#[trigger] members@[k]@) == x {
                let k = choose|k: int| 0 <= k < i + 1 && path_ext(#[trigger] members@[k]@) == x;
                if k < i {
                    assert(before.contains(x));
                } else {
                    assert(x == ev);
                }
            }
        }
        i = i + 1;
    }
    r
}

/// The application groups of the paths that have an extension, largest
/// first (equal counts by application name), each with its distinct
/// extensions; application names in English when `english`.
pub fn app_groups(paths: &Vec<String>, english: bool) -> (r: Vec<AppGroupItem>)
    ensures
        exists|g: Seq<(Seq<char>, Seq<Seq<char>>)>|
            #[trigger] crate::apps::is_grouping(with_ext(views(paths@)), english, g) && r@.len() == g.len()
                && forall|i: int| 0 <= i < g.len() ==> lists_group(#[trigger] r@[i], g[i]),
{
    let kept = with_ext_paths(paths);
    let groups = if english {
        crate::apps::group_by_app_en(kept.as_slice())
    } else {
        crate::apps::group_by_app(kept.as_slice())
    };
    let ghost g = crate::apps::group_views(groups@);
    let mut r: Vec<AppGroupItem> = Vec::new();
    let mut i: usize = 0;
    while i < groups.len()
        invariant
            i <= groups.len(),
            g == crate::apps::group_views(groups@),
            r@.len() == i,
            forall|k: int| 0 <= k < i ==> lists_group(#[trigger] r@[k], g[k]),
        decreases groups.len() - i,
    {
        let members = &groups[i].1;
        let exts = member_extensions(members);
        let item = AppGroupItem {
            app_name: crate::text::clone_string(&groups[i].0),
            count: members.len(),
            extensions: exts,
        };
        assert(g[i as int] == (groups@[i as int].0@, views(groups@[i as int].1@)));
        assert forall|e: Seq<char>| #[trigger] views(item.extensions@).contains(e) <==> exists|k: int|
            0 <= k < g[i as int].1.len() && path_ext(#[trigger] g[i as int].1[k]) == e by {
            if views(item.extensions@).contains(e) {
                let k = choose|k: int| 0 <= k < members@.len() && path_ext(#[trigger] members@[k]@) == e;
                assert(g[i as int].1[k] == members@[k]@);
            }
            if exists|k: int| 0 <= k < g[i as int].1.len() && path_ext(#[trigger] g[i as int].1[k]) == e {
                let k = choose|k: int| 0 <= k < g[i as int].1.len() && path_ext(#[trigger] g[i as int].1[k]) == e;
                assert(g[i as int].1[k] == members@[k]@);
            }
        }
        r.push(item);
        i = i + 1;
    }
    assert(crate::apps::is_grouping(with_ext(views(paths@)), english, g));
    r
}

/// A search result as listed: its file name and parent directory (empty
/// when the path has none), its kind, its size when it is a file, and its
/// modification time, as read from the disk (`file_size` and the kinds are
/// false and 0 for a path that is gone).
pub fn result_item(path: &str, is_dir: bool, is_file: bool, file_size: u64, modified_unix_ms: Option<u64>) -> (r:
    SearchResultItem)
    ensures
        r.name@ == crate::engine::or_empty(crate::paths::file_name(path@)),
        r.path@ == path@,
        r.parent@ == crate::query::parent_text(path@),
        r.is_dir == is_dir,
        r.is_file == is_file,
        r.size_bytes == if is_file {
            Some(file_size)
        } else {
            None
        },
        r.modified_unix_ms == modified_unix_ms,
{
    let name = match crate::paths::file_name_str(path) {
        Some(n) => n,
        None => String::new(),
    };
    SearchResultItem {
        name,
        path: crate::text::owned(path),
        parent: crate::paths::parent_key(path),
        is_dir,
        is_file,
        size_bytes: if is_file {
            Some(file_size)
        } else {
            None
        },
        modified_unix_ms,
    }
}

/// The watcher's state as reported: running with its resume point (when
/// known), or stopped.
pub open spec fn watch_message(running: bool, last_event_id: Option<u64>) -> Seq<char> {
    if running {
        match last_event_id {
            Some(id) => "Watcher running (EventID "@ + crate::text::decimal(id as nat) + ")"@,
            None => "Watcher running"@,
        }
    } else {
        "Watcher stopped"@
    }
}

pub fn watch_response(running: bool, mode: &str, last_event_id: Option<u64>) -> (r: WatchResponse)
    ensures
        r.running == running,
        r.mode@ == mode@,
        r.code@ == if running {
            "running"@
        } else {
            "stopped"@
        },
        r.message@ == watch_message(running, last_event_id),
        r.last_event_id == last_event_id,
{
    let code = if running {
        crate::text::owned("running")
    } else {
        crate::text::owned("stopped")
    };
    let message = if running {
        match last_event_id {
            Some(id) => {
                let mut m = crate::text::owned("Watcher running (EventID ");
                let d = crate::text::u64_to_decimal(id);
                crate::text::append_str(&mut m, d.as_str());
                crate::text::append_str(&mut m, ")");
                m
            },
            None => crate::text::owned("Watcher running"),
        }
    } else {
        crate::text::owned("Watcher stopped")
    };
    WatchResponse { running, mode: crate::text::owned(mode), code, message, last_event_id }
}

/// A stored resume point is stale when the event stream has moved on by more
/// than 50 000 events since; the watcher then starts now and a catch-up
/// index runs instead of a replay.
pub fn resume_point_is_stale(last_event_id: u64, current_event_id: u64) -> (r: bool)
    ensures
        r == (last_event_id < current_event_id && current_event_id - last_event_id > 50000),
{
    last_event_id < current_event_id && current_event_id - last_event_id > 50000
}

/// What starting the watcher on request does.
#[derive(Debug, Clone, Copy, PartialEq, Eq, Structural)]
pub enum WatchStart {
    /// A watcher is already running: nothing to start.
    AlreadyRunning,
    /// There is no index yet: watch from now and build the whole index in
    /// the background.
    Bootstrap,
    /// Replay the events since the stored resume point.
    Resume(u64),
    /// The stored resume point is stale by `gap` events: watch from now and
    /// catch up with a background build.
    CatchUp { gap: u64 },
    /// No resume point is stored: watch from now.
    FromNow,
}

pub fn watch_start_decision(running: bool, has_index: bool, last_event_id: Option<u64>, current_event_id: u64) -> (r:
    WatchStart)
    ensures
        running ==> r == WatchStart::AlreadyRunning,
        !running && !has_index ==> r == WatchStart::Bootstrap,
        !running && has_index ==> match last_event_id {
            Some(id) => if id < current_event_id && current_event_id - id > 50000 {
                r == WatchStart::CatchUp { gap: (current_event_id - id) as u64 }
            } else {
                r == WatchStart::Resume(id)
            },
            None => r == WatchStart::FromNow,
        },
{
    if running {
        return WatchStart::AlreadyRunning;
    }
    if !has_index {
        return WatchStart::Bootstrap;
    }
    match last_event_id {
        Some(id) => {
            if resume_point_is_stale(id, current_event_id) {
                WatchStart::CatchUp { gap: current_event_id - id }
            } else {
                WatchStart::Resume(id)
            }
        },
        None => WatchStart::FromNow,
    }
}

/// The answer to a start request: `stored_event_id` is reported while a
/// watcher is already running.
pub fn watch_start_response(start: WatchStart, stored_event_id: Option<u64>) -> (r: WatchResponse)
    ensures
        r.running,
        match start {
            WatchStart::AlreadyRunning => r.mode@ == "active"@ && r.code@ == "already_running"@
                && r.message@ == "Watcher is already running"@ && r.last_event_id == stored_event_id,
            WatchStart::Bootstrap => r.mode@ == "bootstrap"@ && r.code@ == "bootstrap"@ && r.message@
                == "Watcher started; initial index build runs in background"@ && r.last_event_id is None,
            WatchStart::Resume(id) => r.mode@ == "resume"@ && r.code@ == "resume"@ && r.message@
                == "Watcher resumed from EventID "@ + crate::text::decimal(id as nat) && r.last_event_id
                == Some(id),
            WatchStart::CatchUp { gap } => r.mode@ == "active"@ && r.code@ == "active"@ && r.message@
                == "Watcher started (gap: "@ + crate::text::decimal(gap as nat) + ", background catch-up running)"@
                && r.last_event_id is None,
            WatchStart::FromNow => r.mode@ == "active"@ && r.code@ == "active"@ && r.message@
                == "Watcher started (startup cleanup skipped for fast launch)"@ && r.last_event_id is None,
        },
{
    match start {
        WatchStart::AlreadyRunning => WatchResponse {
            running: true,
            mode: crate::text::owned("active"),
            code: crate::text::owned("already_running"),
            message: crate::text::owned("Watcher is already running"),
            last_event_id: stored_event_id,
        },
        WatchStart::Bootstrap => WatchResponse {
            running: true,
            mode: crate::text::owned("bootstrap"),
            code: crate::text::owned("bootstrap"),
            message: crate::text::owned("Watcher started; initial index build runs in background"),
            last_event_id: None,
        },
        WatchStart::Resume(id) => {
            let d = crate::text::u64_to_decimal(id);
            WatchResponse {
                running: true,
                mode: crate::text::owned("resume"),
                code: crate::text::owned("resume"),
                message: crate::text::concat_str("Watcher resumed from EventID ", d.as_str()),
                last_event_id: Some(id),
            }
        },
        WatchStart::CatchUp { gap } => {
            let d = crate::text::u64_to_decimal(gap);
            let mut m = crate::text::concat_str("Watcher started (gap: ", d.as_str());
            crate::text::append_str(&mut m, ", background catch-up running)");
            WatchResponse {
                running: true,
                mode: crate::text::owned("active"),
                code: crate::text::owned("active"),
                message: m,
                last_event_id: None,
            }
        },
        WatchStart::FromNow => WatchResponse {
            running: true,
            mode: crate::text::owned("active"),
            code: crate::text::owned("active"),
            message: crate::text::owned("Watcher started (startup cleanup skipped for fast launch)"),
            last_event_id: None,
        },
    }
}

/// The answer to a stop request: not running; stopped (reporting the resume
/// point then stored); or still stopping when the stream did not stop yet.
pub fn watch_stop_response(running: bool, stopped: bool, stored_event_id: Option<u64>) -> (r: WatchResponse)
    ensures
        r.last_event_id == stored_event_id,
        !running ==> !r.running && r.mode@ == "inactive"@ && r.code@ == "not_running"@ && r.message@
            == "Watcher is not running"@,
        running && stopped ==> !r.running && r.mode@ == "stopped"@ && r.code@ == "stopped"@
            && r.message@ == "Watcher stopped"@,
        running && !stopped ==> r.running && r.mode@ == "stopping"@ && r.code@ == "stopping"@
            && r.message@ == "Watcher is stopping..."@,
{
    if !running {
        return WatchResponse {
            running: false,
            mode: crate::text::owned("inactive"),
            code: crate::text::owned("not_running"),
            message: crate::text::owned("Watcher is not running"),
            last_event_id: stored_event_id,
        };
    }
    if stopped {
        return watch_response(false, "stopped", stored_event_id);
    }
    WatchResponse {
        running: true,
        mode: crate::text::owned("stopping"),
        code: crate::text::owned("stopping"),
        message: crate::text::owned("Watcher is stopping..."),
        last_event_id: stored_event_id,
    }
}

// ─────────────────────────── search requests ───────────────────────────

/// The sort a request names: `path`, `type`, `size`, `modified`, else name.
pub open spec fn sort_key_named(name: Option<Seq<char>>) -> SortKey {
    match name {
        Some(n) => if n == "path"@ {
            SortKey::Path
        } else if n == "type"@ {
            SortKey::Type
        } else if n == "size"@ {
            SortKey::Size
        } else if n == "modified"@ {
            SortKey::Modified
        } else {
            SortKey::Name
        },
        None => SortKey::Name,
    }
}

pub fn sort_key_from_name(name: &Option<String>) -> (r: SortKey)
    ensures
        r == sort_key_named(crate::engine::opt_view(*name)),
{
    match name {
        Some(n) => {
            let s = n.as_str();
            if crate::text::str_eq(s, "path") {
                SortKey::Path
            } else if crate::text::str_eq(s, "type") {
                SortKey::Type
            } else if crate::text::str_eq(s, "size") {
                SortKey::Size
            } else if crate::text::str_eq(s, "modified") {
                SortKey::Modified
            } else {
                SortKey::Name
            }
        },
        None => SortKey::Name,
    }
}

fn clone_opt_strings(v: &Option<Vec<String>>) -> (r: Option<Vec<String>>)
    ensures
        match (v, r) {
            (Some(a), Some(b)) => views(a@) == views(b@),
            (None, None) => true,
            _ => false,
        },
{
    match v {
        Some(a) => Some(crate::strings::clone_strings(a)),
        None => None,
    }
}

/// The options a request is searched with: defaults of case-insensitive,
/// both files and directories, name order, ascending.
pub fn to_search_options(req: &SearchRequest, mode: SearchMode, limit: Option<usize>) -> (o: SearchOptions)
    ensures
        o.query@ == req.query@,
        o.mode == mode,
        o.case_sensitive == match req.case_sensitive {
            Some(b) => b,
            None => false,
        },
        crate::engine::opt_view(o.path_prefix) == crate::engine::opt_view(req.path_prefix),
        o.include_files == match req.include_files {
            Some(b) => b,
            None => true,
        },
        o.include_dirs == match req.include_dirs {
            Some(b) => b,
            None => true,
        },
        o.limit == limit,
        match (req.extensions, o.extensions) {
            (Some(a), Some(b)) => views(a@) == views(b@),
            (None, None) => true,
            _ => false,
        },
        o.size_min_bytes is None && o.size_max_bytes is None,
        o.time_min_ms is None && o.time_max_ms is None,
        o.sort_key == sort_key_named(crate::engine::opt_view(req.sort_key)),
        o.sort_ascending == match req.sort_ascending {
            Some(b) => b,
            None => true,
        },
{
    let sort_key = sort_key_from_name(&req.sort_key);
    SearchOptions {
        query: req.query.clone(),
        mode,
        case_sensitive: match req.case_sensitive {
            Some(b) => b,
            None => false,
        },
        path_prefix: match &req.path_prefix {
            Some(p) => Some(p.clone()),
            None => None,
        },
        include_files: match req.include_files {
            Some(b) => b,
            None => true,
        },
        include_dirs: match req.include_dirs {
            Some(b) => b,
            None => true,
        },
        limit,
        extensions: clone_opt_strings(&req.extensions),
        size_min_bytes: None,
        size_max_bytes: None,
        time_min_ms: None,
        time_max_ms: None,
        sort_key,
        sort_ascending: match req.sort_ascending {
            Some(b) => b,
            None => true,
        },
    }
}

/// Regex searches merge in the plain substring results: a wildcard search
/// with regex enabled.
pub fn merges_substring_results(mode: SearchMode, regex_enabled: Option<bool>) -> (r: bool)
    ensures
        r == (mode == SearchMode::Pattern && regex_enabled == Some(true)),
{
    let enabled = match regex_enabled {
        Some(b) => b,
        None => false,
    };
    enabled && mode == SearchMode::Pattern
}

/// Adds `items` to `acc`, skipping paths already present, and stops as soon
/// as the limit is reached (checked after every item).
pub open spec fn absorb(acc: Seq<Seq<char>>, items: Seq<Seq<char>>, limit: Option<usize>) -> Seq<Seq<char>>
    decreases items.len(),
{
    if items.len() == 0 {
        acc
    } else {
        let next = if acc.contains(items[0]) {
            acc
        } else {
            acc.push(items[0])
        };
        if limit matches Some(l) && next.len() >= l {
            next
        } else {
            absorb(next, items.drop_first(), limit)
        }
    }
}

/// Merging keeps what was merged before and repeats nothing: from a list
/// without repeats, `absorb` gives a list without repeats that starts with
/// it, whose further entries all come from `items`, and that stops growing
/// at the limit.
pub proof fn lemma_absorb_merges(acc: Seq<Seq<char>>, items: Seq<Seq<char>>, limit: Option<usize>)
    requires
        crate::strings::no_dups(acc),
    ensures
        crate::strings::no_dups(absorb(acc, items, limit)),
        absorb(acc, items, limit).len() >= acc.len(),
        absorb(acc, items, limit).take(acc.len() as int) == acc,
        forall|k: int|
            acc.len() <= k < absorb(acc, items, limit).len() ==> items.contains(
                #[trigger] absorb(acc, items, limit)[k],
            ),
        limit matches Some(l) ==> (acc.len() < l ==> absorb(acc, items, limit).len() <= l),
    decreases items.len(),
{
    if items.len() > 0 {
        let next = if acc.contains(items[0]) {
            acc
        } else {
            acc.push(items[0])
        };
        assert(crate::strings::no_dups(next)) by {
            if !acc.contains(items[0]) {
                assert forall|i: int, j: int| 0 <= i < j < next.len() implies next[i] != next[j] by {
                    if j == acc.len() {
                        assert(acc[i] == next[i]);
                    }
                }
            }
        }
        assert(next.take(acc.len() as int) =~= acc);
        if !(limit matches Some(l) && next.len() >= l) {
            lemma_absorb_merges(next, items.drop_first(), limit);
            let r = absorb(next, items.drop_first(), limit);
            assert(r.take(acc.len() as int) =~= r.take(next.len() as int).take(acc.len() as int));
            assert forall|k: int| acc.len() <= k < r.len() implies items.contains(#[trigger] r[k]) by {
                if k < next.len() {
                    assert(r[k] == r.take(next.len() as int)[k]);
                    assert(next[k] == items[0]);
                } else {
                    assert(items.drop_first().contains(r[k]));
                    let j = choose|j: int| 0 <= j < items.drop_first().len() && items.drop_first()[j] == r[k];
                    assert(items[j + 1] == r[k]);
                }
            }
        } else {
            assert forall|k: int| acc.len() <= k < next.len() implies items.contains(#[trigger] next[k]) by {
                assert(next[k] == items[0]);
            }
        }
    } else {
        assert(acc.take(acc.len() as int) =~= acc);
    }
}

pub fn absorb_results(acc: Vec<String>, items: &Vec<String>, limit: Option<usize>) -> (r: Vec<String>)
    ensures
        views(r@) == absorb(views(acc@), views(items@), limit),
{
    let ghost iv = views(items@);
    let ghost acc0 = views(acc@);
    let mut out = acc;
    let ghost target = absorb(acc0, iv, limit);
    let mut i: usize = 0;
    assert(iv.skip(0) == iv);
    while i < items.len()
        invariant
            i <= items.len(),
            iv == views(items@),
            acc0 == views(acc@),
            target == absorb(acc0, iv, limit),
            absorb(views(out@), iv.skip(i as int), limit) == target,
        decreases items.len() - i,
    {
        assert(iv.skip(i as int)[0] == items@[i as int]@);
        assert(iv.skip(i as int).drop_first() == iv.skip(i + 1));
        let ghost before = views(out@);
        if !crate::strings::contains_string(&out, &items[i]) {
            let s = items[i].clone();
            proof {
                lemma_views_push(out@, s);
            }
            out.push(s);
        }
        assert(views(out@) == if before.contains(iv[i as int]) {
            before
        } else {
            before.push(iv[i as int])
        });
        assert(views(out@).len() == out@.len());
        match limit {
            Some(l) => {
                if out.len() >= l {
                    assert(iv.skip(i as int)[0] == iv[i as int]);
                    return out;
                }
            },
            None => {},
        }
        i = i + 1;
    }
    assert(iv.skip(items.len() as int) =~= Seq::<Seq<char>>::empty());
    out
}

/// Whether the second list is wanted after the first: not for a limit of 0,
/// and only while the merged list is under the limit.
pub fn wants_more_results(merged_len: usize, limit: Option<usize>) -> (r: bool)
    ensures
        r == match limit {
            Some(l) => l != 0 && merged_len < l,
            None => true,
        },
{
    match limit {
        Some(l) => l != 0 && merged_len < l,
        None => true,
    }
}

fn clone_item(it: &SearchResultItem) -> (r: SearchResultItem)
    ensures
        r.name@ == it.name@,
        r.path@ == it.path@,
        r.parent@ == it.parent@,
        r.is_dir == it.is_dir,
        r.is_file == it.is_file,
        r.size_bytes == it.size_bytes,
        r.modified_unix_ms == it.modified_unix_ms,
{
    SearchResultItem {
        name: it.name.clone(),
        path: it.path.clone(),
        parent: it.parent.clone(),
        is_dir: it.is_dir,
        is_file: it.is_file,
        size_bytes: it.size_bytes,
        modified_unix_ms: it.modified_unix_ms,
    }
}

/// The text after the last `.` of a name, or nothing.
pub open spec fn dot_suffix(name: Seq<char>) -> Seq<char> {
    match crate::paths::last_dot(name) {
        Some(k) => name.skip(k + 1),
        None => Seq::empty(),
    }
}

/// The keys merged results are sorted by: the lower-cased name; the parent
/// then the lower-cased name; or the text after the last `.` then the
/// lower-cased name.
pub open spec fn item_text_key(key: SortKey, name: Seq<char>, parent: Seq<char>) -> Seq<Seq<char>> {
    match key {
        SortKey::Path => seq![parent, crate::text::lowercase(name)],
        SortKey::Type => seq![dot_suffix(name), crate::text::lowercase(name)],
        _ => seq![crate::text::lowercase(name)],
    }
}

fn item_text_sort_key(key: SortKey, it: &SearchResultItem) -> (k: crate::sorting::TextKey)
    ensures
        k.texts() == item_text_key(key, it.name@, it.parent@),
{
    let lower = crate::text::chars_of(crate::text::to_lowercase(it.name.as_str()).as_str());
    let mut parts: Vec<Vec<char>> = Vec::new();
    match key {
        SortKey::Path => {
            parts.push(crate::text::chars_of(it.parent.as_str()));
            parts.push(lower);
        },
        SortKey::Type => {
            let nv = crate::text::chars_of(it.name.as_str());
            let suffix = match crate::paths::last_dot_exec(&nv) {
                Some(k) => {
                    proof {
                        crate::paths::lemma_last_dot_bound(nv@);
                    }
                    crate::text::slice_chars(&nv, k + 1, nv.len())
                },
                None => Vec::new(),
            };
            parts.push(suffix);
            parts.push(lower);
        },
        _ => {
            parts.push(lower);
        },
    }
    let k = crate::sorting::TextKey { parts };
    assert(k.texts() =~= item_text_key(key, it.name@, it.parent@));
    k
}

/// The number merged results are sorted by for size and time: the value, or 0.
pub open spec fn item_number_key(key: SortKey, size: Option<u64>, modified: Option<u64>) -> u64 {
    let v = if key == SortKey::Size {
        size
    } else {
        modified
    };
    match v {
        Some(x) => x,
        None => 0,
    }
}

/// Two result rows hold the same name, path, parent, kind, size and time.
pub open spec fn same_item(a: SearchResultItem, b: SearchResultItem) -> bool {
    &&& a.name@ == b.name@
    &&& a.path@ == b.path@
    &&& a.parent@ == b.parent@
    &&& a.is_dir == b.is_dir
    &&& a.is_file == b.is_file
    &&& a.size_bytes == b.size_bytes
    &&& a.modified_unix_ms == b.modified_unix_ms
}

fn reorder_items(items: &Vec<SearchResultItem>, order: &Vec<usize>) -> (r: Vec<SearchResultItem>)
    requires
        forall|k: int| 0 <= k < order@.len() ==> #[trigger] order@[k] < items@.len(),
    ensures
        r@.len() == order@.len(),
        forall|k: int| 0 <= k < order@.len() ==> same_item(#[trigger] r@[k], items@[order@[k] as int]),
{
    let mut r: Vec<SearchResultItem> = Vec::new();
    let mut k: usize = 0;
    while k < order.len()
        invariant
            k <= order.len(),
            forall|j: int| 0 <= j < order@.len() ==> #[trigger] order@[j] < items@.len(),
            r@.len() == k,
            forall|j: int| 0 <= j < k ==> same_item(#[trigger] r@[j], items@[order@[j] as int]),
        decreases order.len() - k,
    {
        r.push(clone_item(&items[order[k]]));
        k = k + 1;
    }
    r
}

/// The numbers the merged results are ordered by, for size and time.
pub open spec fn item_number_keys(items: Seq<SearchResultItem>, key: SortKey) -> Seq<u64> {
    items.map_values(|it: SearchResultItem| item_number_key(key, it.size_bytes, it.modified_unix_ms))
}

/// `r` lists the items at the positions `order` names, in that order.
pub open spec fn arranged_by(r: Seq<SearchResultItem>, items: Seq<SearchResultItem>, order: Seq<usize>) -> bool {
    &&& r.len() == order.len()
    &&& forall|k: int| 0 <= k < order.len() ==> same_item(#[trigger] r[k], items[order[k] as int])
}

/// Some row of `r` is the same as `it` in every field.
pub open spec fn holds_item(r: Seq<SearchResultItem>, it: SearchResultItem) -> bool {
    exists|k: int| 0 <= k < r.len() && same_item(r[k], it)
}

/// Rows arranged by a list of distinct positions, one per item, hold every
/// item, unchanged.
proof fn lemma_arranged_keeps_every_item(r: Seq<SearchResultItem>, items: Seq<SearchResultItem>, order: Seq<usize>)
    requires
        arranged_by(r, items, order),
        order.len() == items.len(),
        forall|k: int| 0 <= k < order.len() ==> #[trigger] order[k] < items.len(),
        forall|a: int, b: int| 0 <= a < b < order.len() ==> order[a] != order[b],
    ensures
        forall|i: int| 0 <= i < items.len() ==> holds_item(r, #[trigger] items[i]),
{
    assert forall|i: int| 0 <= i < items.len() implies holds_item(r, #[trigger] items[i]) by {
        crate::sorting::lemma_distinct_indices_cover(order, items.len() as int, i);
        let k = choose|k: int| 0 <= k < order.len() && order[k] == i;
        assert(same_item(r[k], items[order[k] as int]));
    }
}

/// `order` is the stable order of the items by their text key (name, parent
/// then name, or extension then name) in the given direction.
pub open spec fn is_stable_text_order(
    items: Seq<SearchResultItem>,
    key: SortKey,
    ascending: bool,
    order: Seq<usize>,
) -> bool {
    &&& order.len() == items.len()
    &&& forall|k: int| 0 <= k < order.len() ==> #[trigger] order[k] < items.len()
    &&& forall|i: int, j: int| 0 <= i < j < order.len() ==> order[i] != order[j]
    &&& forall|i: int, j: int|
        #![trigger order[i], order[j]]
        0 <= i < j < order.len() ==> {
            let a = order[i] as int;
            let b = order[j] as int;
            let ka = item_text_key(key, items[a].name@, items[a].parent@);
            let kb = item_text_key(key, items[b].name@, items[b].parent@);
            if ascending {
                (crate::sorting::texts_le(ka, kb) && !crate::sorting::texts_le(kb, ka)) || (
                crate::sorting::texts_le(ka, kb) && crate::sorting::texts_le(kb, ka) && a < b)
            } else {
                (crate::sorting::texts_le(kb, ka) && !crate::sorting::texts_le(ka, kb)) || (
                crate::sorting::texts_le(ka, kb) && crate::sorting::texts_le(kb, ka) && a < b)
            }
        }
}

/// Merged results sorted (stably) by the requested key and direction.
pub fn sort_results(items: &Vec<SearchResultItem>, key: SortKey, ascending: bool) -> (r: Vec<SearchResultItem>)
    ensures
        key == SortKey::Size || key == SortKey::Modified ==> exists|order: Seq<usize>|
            #[trigger] arranged_by(r@, items@, order) && crate::sorting::is_stable_order(
                item_number_keys(items@, key),
                ascending,
                order,
            ),
        !(key == SortKey::Size || key == SortKey::Modified) ==> exists|order: Seq<usize>|
            #[trigger] arranged_by(r@, items@, order) && is_stable_text_order(items@, key, ascending, order),
        r@.len() == items@.len(),
        forall|i: int| 0 <= i < items@.len() ==> holds_item(r@, #[trigger] items@[i]),
{
    if key == SortKey::Size || key == SortKey::Modified {
        let mut keys: Vec<u64> = Vec::new();
        let mut i: usize = 0;
        while i < items.len()
            invariant
                i <= items.len(),
                keys@ == items@.take(i as int).map_values(
                    |it: SearchResultItem| item_number_key(key, it.size_bytes, it.modified_unix_ms),
                ),
            decreases items.len() - i,
        {
            let v = if key == SortKey::Size {
                items[i].size_bytes
            } else {
                items[i].modified_unix_ms
            };
            let x = match v {
                Some(x) => x,
                None => 0,
            };
            keys.push(x);
            i = i + 1;
            assert(keys@ =~= items@.take(i as int).map_values(
                |it: SearchResultItem| item_number_key(key, it.size_bytes, it.modified_unix_ms),
            ));
        }
        assert(items@.take(items.len() as int) =~= items@);
        let order = crate::sorting::stable_order(&keys, ascending);
        let r = reorder_items(items, &order);
        assert(crate::sorting::is_stable_order(keys@, ascending, order@));
        assert(arranged_by(r@, items@, order@));
        proof {
            lemma_arranged_keeps_every_item(r@, items@, order@);
        }
        r
    } else {
        let mut keys: Vec<crate::sorting::TextKey> = Vec::new();
        let mut i: usize = 0;
        while i < items.len()
            invariant
                i <= items.len(),
                keys@.len() == i,
                forall|k: int|
                    0 <= k < i ==> (#[trigger] keys@[k]).texts() == item_text_key(key, items@[k].name@, items@[k].parent@),
            decreases items.len() - i,
        {
            keys.push(item_text_sort_key(key, &items[i]));
            i = i + 1;
        }
        let order = crate::sorting::stable_order(&keys, ascending);
        let r = reorder_items(items, &order);
        assert forall|i: int, j: int| #![trigger order@[i], order@[j]] 0 <= i < j < order@.len() implies ({
            let a = order@[i] as int;
            let b = order@[j] as int;
            let ka = item_text_key(key, items@[a].name@, items@[a].parent@);
            let kb = item_text_key(key, items@[b].name@, items@[b].parent@);
            if ascending {
                (crate::sorting::texts_le(ka, kb) && !crate::sorting::texts_le(kb, ka)) || (
                crate::sorting::texts_le(ka, kb) && crate::sorting::texts_le(kb, ka) && a < b)
            } else {
                (crate::sorting::texts_le(kb, ka) && !crate::sorting::texts_le(ka, kb)) || (
                crate::sorting::texts_le(ka, kb) && crate::sorting::texts_le(kb, ka) && a < b)
            }
        }) by {
            assert(crate::sorting::goes_before(keys@, ascending, order@[i] as int, order@[j] as int));
        }
        assert(arranged_by(r@, items@, order@));
        assert(is_stable_text_order(items@, key, ascending, order@));
        proof {
            lemma_arranged_keeps_every_item(r@, items@, order@);
        }
        r
    }
}

// ─────────────────────────── update check ───────────────────────────

/// The pieces of `s` between `.`s (as `str::split('.')` yields them).
pub open spec fn dot_pieces_acc(s: Seq<char>, cur: Seq<char>) -> Seq<Seq<char>>
    decreases s.len(),
{
    if s.len() == 0 {
        seq![cur]
    } else if s[0] == '.' {
        seq![cur] + dot_pieces_acc(s.drop_first(), Seq::empty())
    } else {
        dot_pieces_acc(s.drop_first(), cur.push(s[0]))
    }
}

/// The leading run of ASCII digits of `p`.
pub open spec fn lead_digits(p: Seq<char>) -> Seq<char>
    decreases p.len(),
{
    if p.len() == 0 || !crate::text::is_ascii_digit(p[0]) {
        Seq::empty()
    } else {
        seq![p[0]] + lead_digits(p.drop_first())
    }
}

/// The number a version piece starts with, when it fits in 32 bits.
pub open spec fn piece_number(p: Seq<char>) -> Option<u32> {
    let d = lead_digits(p);
    if d.len() > 0 && crate::text::digits_value(d) <= u32::MAX {
        Some(crate::text::digits_value(d) as u32)
    } else {
        None
    }
}

pub open spec fn piece_numbers(ps: Seq<Seq<char>>) -> Seq<u32>
    decreases ps.len(),
{
    if ps.len() == 0 {
        Seq::empty()
    } else {
        match piece_number(ps[0]) {
            Some(n) => seq![n] + piece_numbers(ps.drop_first()),
            None => piece_numbers(ps.drop_first()),
        }
    }
}

/// A version read as its first three numbers: each `.`-separated piece
/// contributes the number its digits start with (pieces without one are
/// skipped, so `1.2.3_fix` is 1.2.3).
pub open spec fn semver_spec(s: Seq<char>) -> Option<(u32, u32, u32)> {
    let n = piece_numbers(dot_pieces_acc(s, Seq::empty()));
    if n.len() >= 3 {
        Some((n[0], n[1], n[2]))
    } else {
        None
    }
}

/// The number the digits at the start of `p` spell, when it fits in 32 bits.
fn piece_number_exec(p: &Vec<char>) -> (r: Option<u32>)
    ensures
        r == piece_number(p@),
{
    let mut k: usize = 0;
    let mut value: u64 = 0;
    let mut overflow = false;
    assert(p@.skip(0) == p@);
    while k < p.len() && '0' <= p[k] && p[k] <= '9'
        invariant
            k <= p.len(),
            lead_digits(p@) == p@.take(k as int) + lead_digits(p@.skip(k as int)),
            forall|j: int| 0 <= j < k ==> crate::text::is_ascii_digit(#[trigger] p@[j]),
            !overflow ==> value == crate::text::digits_value(p@.take(k as int)) && value <= u32::MAX,
            overflow ==> crate::text::digits_value(p@.take(k as int)) > u32::MAX,
        decreases p.len() - k,
    {
        assert(p@.skip(k as int).drop_first() =~= p@.skip(k + 1));
        assert(p@.take(k + 1) =~= p@.take(k as int) + seq![p@[k as int]]);
        assert(p@.take(k + 1).drop_last() =~= p@.take(k as int));
        let d: u64 = (p[k] as u32 - '0' as u32) as u64;
        let ghost prev = crate::text::digits_value(p@.take(k as int));
        assert(crate::text::digits_value(p@.take(k + 1)) == prev * 10 + d);
        if !overflow {
            value = value * 10 + d;
            if value > 0xffff_ffff {
                overflow = true;
            }
        } else {
            assert(prev * 10 + d >= prev) by (nonlinear_arith)
                requires
                    prev >= 0,
                    d >= 0,
            ;
        }
        k = k + 1;
    }
    assert(lead_digits(p@.skip(k as int)) == Seq::<char>::empty());
    assert(lead_digits(p@) =~= p@.take(k as int));
    if k == 0 || overflow {
        None
    } else {
        Some(value as u32)
    }
}

/// Reads the first three version numbers, as `1.2.3` or `1.2.3_fix`.
pub fn semver(s: &str) -> (r: Option<(u32, u32, u32)>)
    ensures
        r == semver_spec(s@),
{
    let v = crate::text::chars_of(s);
    let mut nums: Vec<u32> = Vec::new();
    let mut cur: Vec<char> = Vec::new();
    let mut i: usize = 0;
    let ghost total = piece_numbers(dot_pieces_acc(s@, Seq::empty()));
    assert(v@.skip(0) == v@);
    while i < v.len()
        invariant
            i <= v.len(),
            v@ == s@,
            nums@ + piece_numbers(dot_pieces_acc(v@.skip(i as int), cur@)) == total,
        decreases v.len() - i,
    {
        assert(v@.skip(i as int).drop_first() =~= v@.skip(i + 1));
        assert(v@.skip(i as int)[0] == v[i as int]);
        if v[i] == '.' {
            let ghost rest = piece_numbers(dot_pieces_acc(v@.skip(i + 1), Seq::empty()));
            assert(piece_numbers(seq![cur@] + dot_pieces_acc(v@.skip(i + 1), Seq::empty())) == match piece_number(cur@) {
                Some(n) => seq![n] + rest,
                None => rest,
            }) by {
                assert((seq![cur@] + dot_pieces_acc(v@.skip(i + 1), Seq::empty())).drop_first() =~= dot_pieces_acc(v@.skip(i + 1), Seq::empty()));
            }
            match piece_number_exec(&cur) {
                Some(n) => {
                    let ghost before = nums@;
                    nums.push(n);
                    assert(before + (seq![n] + rest) =~= nums@ + rest);
                },
                None => {},
            }
            cur = Vec::new();
            assert(cur@ =~= Seq::<char>::empty());
        } else {
            cur.push(v[i]);
        }
        i = i + 1;
    }
    assert(v@.skip(v.len() as int) =~= Seq::<char>::empty());
    assert(piece_numbers(seq![cur@]) == match piece_number(cur@) {
        Some(n) => seq![n],
        None => Seq::<u32>::empty(),
    }) by {
        assert(seq![cur@].drop_first() =~= Seq::<Seq<char>>::empty());
        assert(piece_numbers(Seq::<Seq<char>>::empty()) == Seq::<u32>::empty());
        assert(seq![cur@][0] == cur@);
        if let Some(n) = piece_number(cur@) {
            assert(seq![n] + Seq::<u32>::empty() =~= seq![n]);
        }
    }
    match piece_number_exec(&cur) {
        Some(n) => {
            nums.push(n);
        },
        None => {},
    }
    assert(nums@ =~= total);
    if nums.len() >= 3 {
        Some((nums[0], nums[1], nums[2]))
    } else {
        None
    }
}

/// Version `a` is newer than `b` (comparing the numbers in turn).
pub open spec fn newer(a: (u32, u32, u32), b: (u32, u32, u32)) -> bool {
    a.0 > b.0 || (a.0 == b.0 && (a.1 > b.1 || (a.1 == b.1 && a.2 > b.2)))
}

/// Leading `v`s removed from a tag.
pub open spec fn strip_v(s: Seq<char>) -> Seq<char>
    decreases s.len(),
{
    if s.len() > 0 && s[0] == 'v' {
        strip_v(s.drop_first())
    } else {
        s
    }
}

/// An update is offered when the latest release tag is a newer version, or,
/// when either does not read as a version, when the tag differs.
pub open spec fn has_update_spec(current: Seq<char>, tag: Seq<char>) -> bool {
    match (semver_spec(current), semver_spec(tag)) {
        (Some(c), Some(l)) => newer(l, c),
        _ => tag != current,
    }
}

/// The answer of an update check, given the running version and the latest
/// release's tag name (leading `v`s ignored).
pub fn update_check_response(current: &str, tag_name: &str) -> (r: UpdateCheckResponse)
    ensures
        r.has_update == has_update_spec(current@, strip_v(tag_name@)),
        r.latest_version@ == seq!['v'] + if r.has_update {
            strip_v(tag_name@)
        } else {
            current@
        },
{
    let tv = crate::text::chars_of(tag_name);
    let mut k: usize = 0;
    assert(tv@.skip(0) == tv@);
    while k < tv.len() && tv[k] == 'v'
        invariant
            k <= tv.len(),
            strip_v(tv@) == strip_v(tv@.skip(k as int)),
        decreases tv.len() - k,
    {
        assert(tv@.skip(k as int).drop_first() =~= tv@.skip(k + 1));
        k = k + 1;
    }
    assert(strip_v(tv@.skip(k as int)) == tv@.skip(k as int));
    assert(tv@.skip(k as int) =~= tv@.subrange(k as int, tv.len() as int));
    let tag = crate::text::string_of(&crate::text::slice_chars(&tv, k, tv.len()));
    let has_update = match (semver(current), semver(tag.as_str())) {
        (Some(c), Some(l)) => l.0 > c.0 || (l.0 == c.0 && (l.1 > c.1 || (l.1 == c.1 && l.2 > c.2))),
        _ => !crate::text::str_eq(tag.as_str(), current),
    };
    let mut latest = String::new();
    crate::text::push_char(&mut latest, 'v');
    if has_update {
        crate::text::append_str(&mut latest, tag.as_str());
    } else {
        crate::text::append_str(&mut latest, current);
    }
    UpdateCheckResponse { has_update, latest_version: latest }
}

// ─────────────────────────── menus ───────────────────────────

/// The settings menu item: Chinese for `zh`, else English.
pub fn settings_menu_text(language: Option<&str>) -> (r: &'static str)
    ensures
        match language {
            Some(l) => if l@ == "zh"@ {
                r@ == "偏好设置"@
            } else {
                r@ == "Preferences"@
            },
            None => r@ == "Preferences"@,
        },
{
    match language {
        Some(l) => {
            if crate::text::str_eq(l, "zh") {
                "偏好设置"
            } else {
                "Preferences"
            }
        },
        None => "Preferences",
    }
}

/// Localised tray menu labels.
pub struct TrayLabels {
    pub search: &'static str,
    pub pinned: &'static str,
    pub settings: &'static str,
    pub quit: &'static str,
}

pub fn tray_labels(language: Option<&str>) -> (r: TrayLabels)
    ensures
        (language matches Some(l) && l@ == "zh"@) ==> r.search@ == "搜索"@ && r.pinned@ == "收藏"@
            && r.settings@ == "设置..."@ && r.quit@ == "退出 MacHunt"@,
        !(language matches Some(l) && l@ == "zh"@) ==> r.search@ == "Search"@ && r.pinned@
            == "Pinned"@ && r.settings@ == "Settings..."@ && r.quit@ == "Quit MacHunt"@,
{
    let zh = match language {
        Some(l) => crate::text::str_eq(l, "zh"),
        None => false,
    };
    if zh {
        TrayLabels { search: "搜索", pinned: "收藏", settings: "设置...", quit: "退出 MacHunt" }
    } else {
        TrayLabels { search: "Search", pinned: "Pinned", settings: "Settings...", quit: "Quit MacHunt" }
    }
}

// ─────────────────────────── launch at login ───────────────────────────

pub const AUTOSTART_LAUNCH_AGENT_LABEL: &'static str = "com.dacj4n.machunt.autostart";

pub const DEFAULT_LOGIN_ITEM_NAME: &'static str = "MacHunt";

/// The System Events script that removes a login item by name.
pub fn remove_login_item_script(name: &str) -> (r: String)
    ensures
        r@ == "tell application \"System Events\"\nif exists login item \""@ + crate::file_actions::script_escape(name@)
            + "\" then\ndelete login item \""@ + crate::file_actions::script_escape(name@)
            + "\"\nend if\nend tell"@,
{
    let e = crate::file_actions::applescript_escape(name);
    let mut r = crate::text::owned("tell application \"System Events\"\nif exists login item \"");
    crate::text::append_str(&mut r, e.as_str());
    crate::text::append_str(&mut r, "\" then\ndelete login item \"");
    crate::text::append_str(&mut r, e.as_str());
    crate::text::append_str(&mut r, "\"\nend if\nend tell");
    r
}

/// The System Events script that adds a login item for the bundle.
pub fn make_login_item_script(name: &str, path: &str) -> (r: String)
    ensures
        r@ == "tell application \"System Events\"\nmake login item at end with properties {name:\""@
            + crate::file_actions::script_escape(name@) + "\", path:\""@ + crate::file_actions::script_escape(path@)
            + "\"}\nend tell"@,
{
    let mut r = crate::text::owned("tell application \"System Events\"\nmake login item at end with properties {name:\"");
    let n = crate::file_actions::applescript_escape(name);
    crate::text::append_str(&mut r, n.as_str());
    crate::text::append_str(&mut r, "\", path:\"");
    let p = crate::file_actions::applescript_escape(path);
    crate::text::append_str(&mut r, p.as_str());
    crate::text::append_str(&mut r, "\"}\nend tell");
    r
}

/// The login items to remove before adding one: the default name, and the
/// bundle's name when it differs.
pub fn login_item_names(bundle_name: Option<&str>) -> (r: Vec<String>)
    ensures
        match bundle_name {
            Some(b) => if b@ == DEFAULT_LOGIN_ITEM_NAME@ {
                views(r@) == seq![DEFAULT_LOGIN_ITEM_NAME@]
            } else {
                views(r@) == seq![DEFAULT_LOGIN_ITEM_NAME@, b@]
            },
            None => views(r@) == seq![DEFAULT_LOGIN_ITEM_NAME@],
        },
{
    let mut r: Vec<String> = Vec::new();
    r.push(crate::text::owned(DEFAULT_LOGIN_ITEM_NAME));
    match bundle_name {
        Some(b) => {
            if !crate::text::str_eq(b, DEFAULT_LOGIN_ITEM_NAME) {
                r.push(crate::text::owned(b));
            }
        },
        None => {},
    }
    assert(views(r@) =~= match bundle_name {
        Some(b) => if b@ == DEFAULT_LOGIN_ITEM_NAME@ {
            seq![DEFAULT_LOGIN_ITEM_NAME@]
        } else {
            seq![DEFAULT_LOGIN_ITEM_NAME@, b@]
        },
        None => seq![DEFAULT_LOGIN_ITEM_NAME@],
    });
    r
}

/// The app bundle a running executable belongs to: three levels up from
/// `Contents/MacOS/<exe>`, and it must be a `.app`.
pub open spec fn bundle_path_spec(exe: Seq<char>) -> Result<Seq<char>, Seq<char>> {
    match parent(exe) {
        Some(a) => match parent(a) {
            Some(b) => match parent(b) {
                Some(c) => if crate::paths::extension(c) == Some("app"@) {
                    Ok(c)
                } else {
                    Err("Launch at login requires running the bundled .app"@)
                },
                None => Err("Failed to resolve bundle path"@),
            },
            None => Err("Failed to resolve bundle path"@),
        },
        None => Err("Failed to resolve bundle path"@),
    }
}

pub fn bundle_path_of(exe_path: &str) -> (r: Result<String, String>)
    ensures
        match bundle_path_spec(exe_path@) {
            Ok(b) => r matches Ok(s) && s@ == b,
            Err(e) => r matches Err(s) && s@ == e,
        },
{
    let exe = crate::text::chars_of(exe_path);
    let up = match crate::paths::parent_chars(&exe) {
        Some(a) => match crate::paths::parent_chars(&a) {
            Some(b) => crate::paths::parent_chars(&b),
            None => None,
        },
        None => None,
    };
    match up {
        Some(c) => {
            let is_app = match crate::paths::extension_chars(&c) {
                Some(ext) => crate::text::seq_eq(&ext, &crate::text::chars_of("app")),
                None => false,
            };
            if is_app {
                Ok(crate::text::string_of(&c))
            } else {
                Err(crate::text::owned("Launch at login requires running the bundled .app"))
            }
        },
        None => Err(crate::text::owned("Failed to resolve bundle path")),
    }
}

/// The System Events scripts that bring the login items in line with the
/// setting, to be run in order until one fails; `failure` is the error to
/// report once they all succeeded (when the item cannot be added).
pub struct LoginItemPlan {
    pub scripts: Vec<String>,
    pub failure: Option<String>,
}

/// The name a bundle's login item has: the bundle's file stem.
pub open spec fn bundle_name_of(bundle: Result<Seq<char>, Seq<char>>) -> Option<Seq<char>> {
    match bundle {
        Ok(b) => crate::paths::file_stem(b),
        Err(_) => None,
    }
}

pub open spec fn cleanup_names(bundle: Result<Seq<char>, Seq<char>>) -> Seq<Seq<char>> {
    match bundle_name_of(bundle) {
        Some(n) => if n == DEFAULT_LOGIN_ITEM_NAME@ {
            seq![DEFAULT_LOGIN_ITEM_NAME@]
        } else {
            seq![DEFAULT_LOGIN_ITEM_NAME@, n]
        },
        None => seq![DEFAULT_LOGIN_ITEM_NAME@],
    }
}

pub open spec fn remove_script(name: Seq<char>) -> Seq<char> {
    "tell application \"System Events\"\nif exists login item \""@ + crate::file_actions::script_escape(name)
        + "\" then\ndelete login item \""@ + crate::file_actions::script_escape(name)
        + "\"\nend if\nend tell"@
}

pub open spec fn make_script(name: Seq<char>, path: Seq<char>) -> Seq<char> {
    "tell application \"System Events\"\nmake login item at end with properties {name:\""@
        + crate::file_actions::script_escape(name) + "\", path:\""@ + crate::file_actions::script_escape(path)
        + "\"}\nend tell"@
}

pub fn apply_launch_settings_via_system_events(launch_at_login: bool, bundle_path: Result<String, String>) -> (r:
    LoginItemPlan)
    ensures
        ({
            let b = crate::file_actions::result_view(bundle_path);
            let removals = cleanup_names(b).map_values(|n: Seq<char>| remove_script(n));
            if !launch_at_login {
                views(r.scripts@) == removals && r.failure is None
            } else {
                match b {
                    Ok(p) => {
                        let name = match crate::paths::file_stem(p) {
                            Some(n) => n,
                            None => DEFAULT_LOGIN_ITEM_NAME@,
                        };
                        views(r.scripts@) == removals.push(make_script(name, p)) && r.failure is None
                    },
                    Err(e) => views(r.scripts@) == removals && (r.failure matches Some(f) && f@ == e),
                }
            }
        }),
{
    let ghost b = crate::file_actions::result_view(bundle_path);
    let stem: Option<String> = match &bundle_path {
        Ok(p) => match crate::paths::file_stem_chars(&crate::text::chars_of(p.as_str())) {
            Some(v) => Some(crate::text::string_of(&v)),
            None => None,
        },
        Err(_) => None,
    };
    let names = match &stem {
        Some(n) => login_item_names(Some(n.as_str())),
        None => login_item_names(None),
    };
    assert(views(names@) == cleanup_names(b));
    let mut scripts: Vec<String> = Vec::new();
    let mut i: usize = 0;
    while i < names.len()
        invariant
            i <= names.len(),
            views(scripts@) == views(names@).take(i as int).map_values(|n: Seq<char>| remove_script(n)),
        decreases names.len() - i,
    {
        let sc = remove_login_item_script(names[i].as_str());
        let ghost before = scripts@;
        scripts.push(sc);
        assert(views(scripts@) =~= views(names@).take(i + 1).map_values(|n: Seq<char>| remove_script(n))) by {
            lemma_views_push(before, sc);
            assert(views(names@).take(i + 1) =~= views(names@).take(i as int).push(names@[i as int]@));
        }
        i = i + 1;
    }
    assert(views(names@).take(names.len() as int) =~= views(names@));
    if !launch_at_login {
        return LoginItemPlan { scripts, failure: None };
    }
    match bundle_path {
        Ok(p) => {
            let name = match stem {
                Some(n) => n,
                None => crate::text::owned(DEFAULT_LOGIN_ITEM_NAME),
            };
            let sc = make_login_item_script(name.as_str(), p.as_str());
            proof {
                lemma_views_push(scripts@, sc);
            }
            scripts.push(sc);
            LoginItemPlan { scripts, failure: None }
        },
        Err(e) => LoginItemPlan { scripts, failure: Some(e) },
    }
}

/// The major version in `sw_vers -productVersion` output: the number before
/// the first `.` of the trimmed text.
pub open spec fn first_piece(s: Seq<char>) -> Seq<char> {
    dot_pieces_acc(s, Seq::empty())[0]
}

pub fn macos_major_from(output: &str) -> (r: Option<u32>)
    ensures
        match crate::text::parse_u64(first_piece(crate::text::trim(output@))) {
            Some(n) => if n <= u32::MAX {
                r == Some(n as u32)
            } else {
                r is None
            },
            None => r is None,
        },
{
    let t = crate::text::trim_chars(&crate::text::chars_of(output));
    let mut k: usize = 0;
    while k < t.len() && t[k] != '.'
        invariant
            k <= t.len(),
            forall|j: int| 0 <= j < k ==> t@[j] != '.',
        decreases t.len() - k,
    {
        k = k + 1;
    }
    proof {
        lemma_first_piece(t@, k as int);
    }
    let piece = crate::text::string_of(&crate::text::slice_chars(&t, 0, k));
    match crate::text::parse_decimal_u64(piece.as_str()) {
        Some(n) => {
            if n <= 0xffff_ffff {
                Some(n as u32)
            } else {
                None
            }
        },
        None => None,
    }
}

proof fn lemma_dot_pieces_head(s: Seq<char>, cur: Seq<char>)
    ensures
        dot_pieces_acc(s, cur).len() > 0,
        (forall|j: int| 0 <= j < s.len() ==> s[j] != '.') ==> dot_pieces_acc(s, cur)[0] == cur + s,
        (s.len() > 0 && s[0] == '.') ==> dot_pieces_acc(s, cur)[0] == cur,
    decreases s.len(),
{
    if s.len() > 0 && s[0] != '.' {
        lemma_dot_pieces_head(s.drop_first(), cur.push(s[0]));
        assert(cur.push(s[0]) + s.drop_first() =~= cur + s);
    } else if s.len() == 0 {
        assert(cur + s =~= cur);
    }
}

proof fn lemma_first_piece(t: Seq<char>, k: int)
    requires
        0 <= k <= t.len(),
        forall|j: int| 0 <= j < k ==> t[j] != '.',
        k == t.len() || t[k] == '.',
    ensures
        first_piece(t) == t.take(k),
{
    assert(t.take(0) =~= Seq::<char>::empty());
    assert(t.skip(0) =~= t);
    lemma_first_piece_scan(t, 0, Seq::empty(), k);
}

proof fn lemma_first_piece_scan(t: Seq<char>, i: int, cur: Seq<char>, k: int)
    requires
        0 <= i <= k <= t.len(),
        forall|j: int| 0 <= j < k ==> t[j] != '.',
        k == t.len() || t[k] == '.',
        cur == t.take(i),
        dot_pieces_acc(t, Seq::empty())[0] == dot_pieces_acc(t.skip(i), cur)[0],
    ensures
        dot_pieces_acc(t, Seq::empty())[0] == t.take(k),
    decreases k - i,
{
    if i == k {
        lemma_dot_pieces_head(t.skip(i), cur);
        if k == t.len() {
            assert(t.skip(i) =~= Seq::<char>::empty());
            assert(cur + t.skip(i) =~= cur);
        }
    } else {
        assert(t.skip(i)[0] == t[i]);
        assert(t.skip(i).drop_first() =~= t.skip(i + 1));
        assert(cur.push(t[i]) =~= t.take(i + 1));
        lemma_first_piece_scan(t, i + 1, t.take(i + 1), k);
    }
}

/// The login-item API needs macOS 13 or later.
pub fn supports_smappservice(major: Option<u32>) -> (r: bool)
    ensures
        r == (major matches Some(m) && m >= 13),
{
    match major {
        Some(m) => m >= 13,
        None => false,
    }
}

/// How the launch-at-login setting is applied: through the ServiceManagement
/// login-item API where the system has it (macOS 13 and later), else through
/// System Events scripts.
pub enum LaunchPlan {
    ServiceManagement { launch_at_login: bool },
    SystemEvents(LoginItemPlan),
}

pub fn apply_launch_settings(launch_at_login: bool, macos_major: Option<u32>, bundle_path: Result<
    String,
    String,
>) -> (r: LaunchPlan)
    ensures
        (macos_major matches Some(m) && m >= 13) ==> (r matches LaunchPlan::ServiceManagement {
            launch_at_login: l,
        } && l == launch_at_login),
        !(macos_major matches Some(m) && m >= 13) ==> (r matches LaunchPlan::SystemEvents(p) && ({
            let b = crate::file_actions::result_view(bundle_path);
            let removals = cleanup_names(b).map_values(|n: Seq<char>| remove_script(n));
            if !launch_at_login {
                views(p.scripts@) == removals && p.failure is None
            } else {
                match b {
                    Ok(path) => {
                        let name = match crate::paths::file_stem(path) {
                            Some(n) => n,
                            None => DEFAULT_LOGIN_ITEM_NAME@,
                        };
                        views(p.scripts@) == removals.push(make_script(name, path)) && p.failure is None
                    },
                    Err(e) => views(p.scripts@) == removals && (p.failure matches Some(f) && f@ == e),
                }
            }
        })),
{
    if supports_smappservice(macos_major) {
        LaunchPlan::ServiceManagement { launch_at_login }
    } else {
        LaunchPlan::SystemEvents(apply_launch_settings_via_system_events(launch_at_login, bundle_path))
    }
}

/// What the ServiceManagement login item needs: `Some(true)` to register it,
/// `Some(false)` to unregister it, nothing when it already is as wanted
/// (an item awaiting approval counts as registered).
pub fn service_registration_change(launch_at_login: bool, is_registered: bool) -> (r: Option<bool>)
    ensures
        r == if launch_at_login == is_registered {
            None
        } else {
            Some(launch_at_login)
        },
{
    if launch_at_login == is_registered {
        None
    } else {
        Some(launch_at_login)
    }
}

/// Which of the language's grouping to use: English for `en`.
pub fn group_results_by_app(paths: &Vec<String>, language: Option<&str>) -> (r: Result<Vec<(String, Vec<String>)>, String>)
    ensures
        r matches Ok(g) && crate::apps::is_grouping(
            views(paths@),
            language matches Some(l) && l@ == "en"@,
            crate::apps::group_views(g@),
        ),
{
    let is_en = match language {
        Some(l) => crate::text::str_eq(l, "en"),
        None => false,
    };
    if is_en {
        Ok(crate::apps::group_by_app_en(paths.as_slice()))
    } else {
        Ok(crate::apps::group_by_app(paths.as_slice()))
    }
}

/// The flags the command line turns into the file/directory choice: both
/// unless exactly one of `--files` and `--dirs` is given.
pub fn cli_include_flags(files: bool, dirs: bool) -> (r: (bool, bool))
    ensures
        r == (!dirs || (files && dirs) || (!files && !dirs), !files || (files && dirs) || (!files
            && !dirs)),
{
    (!dirs || (files && dirs) || (!files && !dirs), !files || (files && dirs) || (!files && !dirs))
}

/// The search mode the command line asks for: fuzzy wins over pattern.
pub fn cli_search_mode(fuzzy: bool, pattern: bool) -> (r: SearchMode)
    ensures
        fuzzy ==> r == SearchMode::Fuzzy,
        !fuzzy && pattern ==> r == SearchMode::Pattern,
        !fuzzy && !pattern ==> r == SearchMode::Substring,
{
    if fuzzy {
        SearchMode::Fuzzy
    } else if pattern {
        SearchMode::Pattern
    } else {
        SearchMode::Substring
    }
}

} // verus!
