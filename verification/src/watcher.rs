//! What the file-system watcher does with each event it is handed.
//!
//! The event stream itself (FSEvents, the run loop) is driven outside this
//! library; here each event is turned into one action, and the watcher's
//! run state is kept.
use vstd::prelude::*;

use crate::engine::kept;
use crate::filters::{excluded, file_excluded};
verus! {

// Event flags, from CoreServices/FSEvents.framework/Headers/FSEvents.h.
/// The daemon could not deliver every event and flagged the enclosing directory
/// instead, expecting the client to rescan that subtree.
pub const FLAG_MUST_SCAN_SUBDIRS: u32 = 0x0000_0001;
/// The user-space queue overflowed.
pub const FLAG_USER_DROPPED: u32 = 0x0000_0002;
/// The kernel queue overflowed.
pub const FLAG_KERNEL_DROPPED: u32 = 0x0000_0004;
/// Event IDs wrapped around, so a stored resume ID is no longer meaningful.
pub const FLAG_EVENT_IDS_WRAPPED: u32 = 0x0000_0008;
/// End of the historical replay.
pub const FLAG_HISTORY_DONE: u32 = 0x0000_0010;
pub const FLAG_ITEM_CREATED: u32 = 0x0000_0100;
pub const FLAG_ITEM_REMOVED: u32 = 0x0000_0200;
pub const FLAG_ITEM_INODE_META_MOD: u32 = 0x0000_0400;
pub const FLAG_ITEM_RENAMED: u32 = 0x0000_0800;
pub const FLAG_ITEM_MODIFIED: u32 = 0x0000_1000;
pub const FLAG_ITEM_XATTR_MOD: u32 = 0x0000_8000;
pub const FLAG_ITEM_IS_FILE: u32 = 0x0001_0000;

pub const STREAM_FLAG_FILE_EVENTS: u32 = 0x0000_0010;
pub const STREAM_FLAG_WATCH_ROOT: u32 = 0x0000_0004;

/// Start the stream at "now" rather than replaying history.
pub const FSEVENT_SINCE_NOW: u64 = 0xffff_ffff_ffff_ffff;

/// The flags that say events were lost and the directory must be rescanned.
pub const DROP_FLAGS: u32 = 0x0000_000f;

/// What to do with one event.
#[derive(Clone, Copy, Debug, PartialEq, Eq)]
pub enum EventAction {
    /// The replay of past events is complete: persist the event ID.
    HistoryDone,
    /// The path is one the index never holds.
    Ignore,
    /// An exclusion rule covers the path; `log` when it is a file.
    Excluded { log: bool },
    /// Events were dropped: rescan this directory.
    Reconcile,
    /// A directory was removed: drop its whole subtree.
    RemoveTree,
    /// A directory was created or renamed: after cleaning stale entries of
    /// its parent (`clean_parent`, on rename), index it if it is a directory,
    /// else add it if it exists.
    IndexDirectory { clean_parent: bool },
    /// Only the metadata of a directory changed: log it.
    DirectoryMetadata,
    /// Nothing to do for this directory event.
    DirectoryIdle,
    /// A file was removed.
    RemoveFile,
    /// A file was created, renamed or modified: after cleaning stale entries
    /// of its parent (`clean_parent`, on a pure rename), add it if it is a
    /// file, else remove it.
    UpsertFile { clean_parent: bool },
    /// Only the metadata of a file changed: refresh it.
    RefreshMetadata,
    /// No flag this watcher acts on.
    Unrecognized,
}

pub open spec fn has_flag(flags: u32, f: u32) -> bool {
    flags & f != 0
}

/// The event is about a directory (the item-is-file flag is clear).
pub open spec fn event_is_dir(flags: u32) -> bool {
    flags & FLAG_ITEM_IS_FILE == 0
}

/// The action for an event with `flags` on `path`, `excluded` telling
/// whether an exclusion rule covers the path.
pub open spec fn event_action(flags: u32, path: Seq<char>, excluded: bool) -> EventAction {
    if has_flag(flags, FLAG_HISTORY_DONE) {
        EventAction::HistoryDone
    } else if crate::utils::skip_path(path) {
        EventAction::Ignore
    } else if excluded {
        EventAction::Excluded { log: !event_is_dir(flags) }
    } else if has_flag(flags, DROP_FLAGS) {
        EventAction::Reconcile
    } else if event_is_dir(flags) {
        if has_flag(flags, FLAG_ITEM_REMOVED) {
            EventAction::RemoveTree
        } else if has_flag(flags, FLAG_ITEM_CREATED) {
            EventAction::IndexDirectory { clean_parent: false }
        } else if has_flag(flags, FLAG_ITEM_RENAMED) {
            EventAction::IndexDirectory { clean_parent: true }
        } else if has_flag(flags, FLAG_ITEM_INODE_META_MOD | FLAG_ITEM_XATTR_MOD) {
            EventAction::DirectoryMetadata
        } else {
            EventAction::DirectoryIdle
        }
    } else if has_flag(flags, FLAG_ITEM_REMOVED) {
        EventAction::RemoveFile
    } else if has_flag(flags, FLAG_ITEM_CREATED | FLAG_ITEM_RENAMED | FLAG_ITEM_MODIFIED) {
        EventAction::UpsertFile {
            clean_parent: has_flag(flags, FLAG_ITEM_RENAMED) && !has_flag(flags, FLAG_ITEM_CREATED),
        }
    } else if has_flag(flags, FLAG_ITEM_INODE_META_MOD | FLAG_ITEM_XATTR_MOD) {
        EventAction::RefreshMetadata
    } else {
        EventAction::Unrecognized
    }
}

/// Decides what one file-system event means for the index. Exclusion rules
/// take priority over every kind of change, and a drop notification is
/// handled before the per-item flags (it carries none of them).
pub fn classify_event(flags: u32, path: &str, rules: &crate::filters::ExcludeRules) -> (a:
    EventAction)
    ensures
        a == event_action(
            flags,
            path@,
            crate::filters::excluded(rules.exact(), rules.patterns(), path@, event_is_dir(flags)),
        ),
{
    if flags & FLAG_HISTORY_DONE != 0 {
        return EventAction::HistoryDone;
    }
    if crate::utils::should_skip_path(path) {
        return EventAction::Ignore;
    }
    let is_dir = flags & FLAG_ITEM_IS_FILE == 0;
    if crate::filters::is_excluded(path, is_dir, rules) {
        return EventAction::Excluded { log: !is_dir };
    }
    if flags & DROP_FLAGS != 0 {
        return EventAction::Reconcile;
    }
    if is_dir {
        if flags & FLAG_ITEM_REMOVED != 0 {
            EventAction::RemoveTree
        } else if flags & FLAG_ITEM_CREATED != 0 {
            EventAction::IndexDirectory { clean_parent: false }
        } else if flags & FLAG_ITEM_RENAMED != 0 {
            EventAction::IndexDirectory { clean_parent: true }
        } else if flags & (FLAG_ITEM_INODE_META_MOD | FLAG_ITEM_XATTR_MOD) != 0 {
            EventAction::DirectoryMetadata
        } else {
            EventAction::DirectoryIdle
        }
    } else if flags & FLAG_ITEM_REMOVED != 0 {
        EventAction::RemoveFile
    } else if flags & (FLAG_ITEM_CREATED | FLAG_ITEM_RENAMED | FLAG_ITEM_MODIFIED) != 0 {
        EventAction::UpsertFile {
            clean_parent: flags & FLAG_ITEM_RENAMED != 0 && flags & FLAG_ITEM_CREATED == 0,
        }
    } else if flags & (FLAG_ITEM_INODE_META_MOD | FLAG_ITEM_XATTR_MOD) != 0 {
        EventAction::RefreshMetadata
    } else {
        EventAction::Unrecognized
    }
}

/// The named causes of a drop notification, for the log: user queue,
/// kernel queue, wrapped IDs.
pub fn drop_causes(flags: u32) -> (r: (bool, bool, bool))
    ensures
        r == (has_flag(flags, FLAG_USER_DROPPED), has_flag(flags, FLAG_KERNEL_DROPPED), has_flag(
            flags,
            FLAG_EVENT_IDS_WRAPPED,
        )),
{
    (flags & FLAG_USER_DROPPED != 0, flags & FLAG_KERNEL_DROPPED != 0, flags
        & FLAG_EVENT_IDS_WRAPPED != 0)
}

// ─────────────────────────── laws ───────────────────────────

/// Events on paths the index never holds never change it: apart from the end
/// of the replay, such an event is ignored.
pub proof fn lemma_skipped_paths_ignored(flags: u32, path: Seq<char>, excluded: bool)
    requires
        crate::utils::skip_path(path),
    ensures
        event_action(flags, path, excluded) == EventAction::HistoryDone || event_action(
            flags,
            path,
            excluded,
        ) == EventAction::Ignore,
{
}

/// Exclusion rules take absolute priority: no event on an excluded path adds,
/// removes or rescans anything.
pub proof fn lemma_excluded_paths_untouched(flags: u32, path: Seq<char>)
    ensures
        match event_action(flags, path, true) {
            EventAction::HistoryDone | EventAction::Ignore | EventAction::Excluded { .. } => true,
            _ => false,
        },
{
}

// ─────────────────────────── run state ───────────────────────────

/// The watcher's run state: the stream and run loop it runs on (as opaque
/// handles), and whether it is running.
#[derive(Clone, Copy, Debug, Default)]
pub struct WatchRuntime {
    pub stream_ref: usize,
    pub run_loop_ref: usize,
    pub running: bool,
}

impl WatchRuntime {
    pub fn idle() -> (r: Self)
        ensures
            r.stream_ref == 0 && r.run_loop_ref == 0 && !r.running,
    {
        WatchRuntime { stream_ref: 0, run_loop_ref: 0, running: false }
    }

    /// Claims the watcher for a new stream; `false` when one is already running.
    pub fn begin(&mut self) -> (started: bool)
        ensures
            started == !old(self).running,
            started ==> final(self).running && final(self).stream_ref == 0,
            started ==> final(self).run_loop_ref == 0,
            !started ==> *final(self) == *old(self),
    {
        if self.running {
            return false;
        }
        self.running = true;
        self.stream_ref = 0;
        self.run_loop_ref = 0;
        true
    }

    /// Records the stream and run loop once they exist.
    pub fn attach(&mut self, stream_ref: usize, run_loop_ref: usize)
        ensures
            final(self).stream_ref == stream_ref,
            final(self).run_loop_ref == run_loop_ref,
            final(self).running == old(self).running,
    {
        self.stream_ref = stream_ref;
        self.run_loop_ref = run_loop_ref;
    }

    /// The stream ended (or could not start): back to idle.
    pub fn finish(&mut self)
        ensures
            !final(self).running && final(self).stream_ref == 0 && final(self).run_loop_ref == 0,
    {
        self.running = false;
        self.stream_ref = 0;
        self.run_loop_ref = 0;
    }

    /// What a stop request must stop: the stream (when there is one) and the
    /// run loop; `None` when nothing is running yet.
    pub fn stop_target(&self) -> (r: Option<(usize, usize)>)
        ensures
            r is None <==> (!self.running || self.run_loop_ref == 0),
            r matches Some(t) ==> t == (self.stream_ref, self.run_loop_ref),
    {
        if !self.running || self.run_loop_ref == 0 {
            None
        } else {
            Some((self.stream_ref, self.run_loop_ref))
        }
    }
}

/// Whether a watcher stream is running.
pub fn is_watch_running(runtime: &WatchRuntime) -> (r: bool)
    ensures
        r == runtime.running,
{
    runtime.running
}

/// Where the stream starts: the stored event ID, else now.
pub fn since_event(since_event_id: Option<u64>) -> (r: u64)
    ensures
        r == match since_event_id {
            Some(id) => id,
            None => FSEVENT_SINCE_NOW,
        },
{
    match since_event_id {
        Some(id) => id,
        None => FSEVENT_SINCE_NOW,
    }
}

/// The roots handed to the stream: those without a NUL character (which a C
/// string cannot hold), or `/` when none is left.
pub open spec fn stream_roots(roots: Seq<Seq<char>>) -> Seq<Seq<char>> {
    let kept = roots.filter(|r: Seq<char>| !r.contains('\0'));
    if kept.len() == 0 {
        seq![seq!['/']]
    } else {
        kept
    }
}

pub fn watch_stream_roots(roots: &Vec<String>) -> (r: Vec<String>)
    ensures
        crate::strings::views(r@) == stream_roots(crate::strings::views(roots@)),
{
    let ghost rv = crate::strings::views(roots@);
    let mut kept: Vec<String> = Vec::new();
    let mut i: usize = 0;
    while i < roots.len()
        invariant
            i <= roots.len(),
            rv == crate::strings::views(roots@),
            crate::strings::views(kept@) == rv.take(i as int).filter(
                |r: Seq<char>| !r.contains('\0'),
            ),
        decreases roots.len() - i,
    {
        let cs = crate::text::chars_of(roots[i].as_str());
        let mut has_nul = false;
        let mut k: usize = 0;
        while k < cs.len()
            invariant
                k <= cs.len(),
                has_nul == cs@.take(k as int).contains('\0'),
            decreases cs.len() - k,
        {
            if cs[k] == '\0' {
                has_nul = true;
            }
            proof {
                let a = cs@.take(k as int);
                let b = cs@.take(k + 1);
                assert(b == a.push(cs@[k as int]));
                if b.contains('\0') {
                    let j = choose|j: int| 0 <= j < b.len() && b[j] == '\0';
                    if j < k {
                        assert(a[j] == '\0');
                    }
                }
                if a.contains('\0') {
                    let j = choose|j: int| 0 <= j < a.len() && a[j] == '\0';
                    assert(b[j] == '\0');
                }
                if cs@[k as int] == '\0' {
                    assert(b[k as int] == '\0');
                }
            }
            k = k + 1;
        }
        assert(cs@.take(cs.len() as int) == cs@);
        proof {
            crate::strings::lemma_views_take(roots@, i as int);
            assert(rv.take(i + 1).drop_last() == rv.take(i as int));
            reveal_with_fuel(Seq::filter, 1);
        }
        if !has_nul {
            let s = crate::text::clone_string(&roots[i]);
            proof {
                crate::strings::lemma_views_push(kept@, s);
            }
            kept.push(s);
        }
        i = i + 1;
    }
    assert(rv.take(roots.len() as int) == rv);
    if kept.len() == 0 {
        let mut out: Vec<String> = Vec::new();
        let root = crate::text::string_of(&crate::text::single('/'));
        out.push(root);
        assert(crate::strings::views(out@) =~= seq![seq!['/']]);
        return out;
    }
    kept
}

/// A drop flagged on a watch root would mean rescanning a whole volume from
/// inside the event callback, so such a rescan is skipped.
pub fn is_watch_root(dir: &str, roots: &Vec<String>) -> (r: bool)
    ensures
        r == exists|k: int| 0 <= k < roots@.len() && crate::paths::path_eq(dir@, #[trigger] roots@[k]@),
{
    let mut i: usize = 0;
    while i < roots.len()
        invariant
            i <= roots.len(),
            forall|k: int| 0 <= k < i ==> !crate::paths::path_eq(dir@, #[trigger] roots@[k]@),
        decreases roots.len() - i,
    {
        if crate::paths::path_eq_exec(dir, roots[i].as_str()) {
            return true;
        }
        i = i + 1;
    }
    false
}

/// Whether a path the watcher was told about goes into the index, and
/// under which lower-cased name: not for skipped or excluded paths, not for
/// directories unless those are indexed, and only when it has a file name.
pub open spec fn upsert_name(
    path: Seq<char>,
    is_dir: bool,
    include_dirs: bool,
    dir_excluded: bool,
    file_excluded: bool,
) -> Option<Seq<char>> {
    if crate::utils::skip_path(path) || dir_excluded || file_excluded || (!include_dirs && is_dir) {
        None
    } else {
        match crate::paths::file_name(path) {
            Some(name) => Some(crate::text::lowercase(name)),
            None => None,
        }
    }
}

pub fn upsert_decision(
    path: &str,
    is_dir: bool,
    include_dirs: bool,
    rules: &crate::filters::ExcludeRules,
    file_rules: &crate::filters::FileExcludeRules,
) -> (r: Option<String>)
    ensures
        match r {
            Some(n) => upsert_name(
                path@,
                is_dir,
                include_dirs,
                crate::filters::excluded(rules.exact(), rules.patterns(), path@, is_dir),
                crate::filters::file_excluded(
                    file_rules.exclude_dot_files,
                    file_rules.patterns(),
                    path@,
                    is_dir,
                ),
            ) == Some(n@),
            None => upsert_name(
                path@,
                is_dir,
                include_dirs,
                crate::filters::excluded(rules.exact(), rules.patterns(), path@, is_dir),
                crate::filters::file_excluded(
                    file_rules.exclude_dot_files,
                    file_rules.patterns(),
                    path@,
                    is_dir,
                ),
            ) is None,
        },
{
    if crate::utils::should_skip_path(path) {
        return None;
    }
    if crate::filters::is_excluded(path, is_dir, rules) {
        return None;
    }
    if crate::filters::is_file_excluded(path, is_dir, file_rules) {
        return None;
    }
    if !include_dirs && is_dir {
        return None;
    }
    match crate::paths::file_name_str(path) {
        Some(name) => Some(crate::text::to_lowercase(name.as_str())),
        None => None,
    }
}

} // verus!
