use vstd::prelude::*;

use crate::paths::{path_starts_with, path_starts_with_exec};
use crate::strings::{lemma_views_push, views};
use crate::text::{chars_of, clone_string, decimal, has_infix, has_prefix, lemma_trim_idempotent, owned, single, starts_with_seq, str_contains, str_eq, string_of, trim, trim_chars, trim_start_str, trim_start_str_chars, trim_str, u64_to_decimal};

verus! {

// ─────────────────────────── skipped paths ───────────────────────────

/// System locations that are never indexed (exact paths).
pub open spec fn is_system_skip(p: Seq<char>) -> bool {
    ||| p == "/dev"@
    ||| p == "/proc"@
    ||| p == "/sys"@
    ||| p == "/private/var/vm"@
    ||| p == "/private/var/run"@
    ||| p == "/private/var/folders"@
    ||| p == "/System/Volumes/Data"@
    ||| p == "/System/Volumes/Preboot"@
    ||| p == "/System/Volumes/Recovery"@
    ||| p == "/System/Volumes/VM"@
    ||| p == "/Volumes/System/Volumes/Data"@
    ||| p == "/Volumes/Macintosh HD"@
}

/// Paths holding one of these are never indexed: Spotlight's and FSEvents'
/// stores, and this program's own cache (so its writes are not indexed).
pub open spec fn has_skip_marker(p: Seq<char>) -> bool {
    ||| has_infix(p, "/.Spotlight-V100"@)
    ||| has_infix(p, "/.fseventsd"@)
    ||| has_infix(p, "/Library/Caches/MacHunt"@)
}

pub open spec fn skip_path(p: Seq<char>) -> bool {
    is_system_skip(p) || has_skip_marker(p)
}

/// Which paths are never indexed: exactly the system locations listed here
/// by name (device and kernel trees, swap, run and per-user temporary
/// folders, the system's data, preboot, recovery and VM volumes, and the
/// boot volume seen again under `/Volumes`), and every path holding
/// Spotlight's or FSEvents' store or this program's cache.
pub proof fn lemma_skipped_locations(p: Seq<char>)
    ensures
        skip_path("/dev"@),
        skip_path("/proc"@),
        skip_path("/sys"@),
        skip_path("/private/var/vm"@),
        skip_path("/private/var/run"@),
        skip_path("/private/var/folders"@),
        skip_path("/System/Volumes/Data"@),
        skip_path("/System/Volumes/Preboot"@),
        skip_path("/System/Volumes/Recovery"@),
        skip_path("/System/Volumes/VM"@),
        skip_path("/Volumes/System/Volumes/Data"@),
        skip_path("/Volumes/Macintosh HD"@),
        has_infix(p, "/.Spotlight-V100"@) ==> skip_path(p),
        has_infix(p, "/.fseventsd"@) ==> skip_path(p),
        has_infix(p, "/Library/Caches/MacHunt"@) ==> skip_path(p),
        skip_path(p) <==> (p != "/dev"@ && p != "/proc"@ && p != "/sys"@ && p != "/private/var/vm"@ && p != "/private/var/run"@ && p != "/private/var/folders"@ && p != "/System/Volumes/Data"@ && p != "/System/Volumes/Preboot"@ && p != "/System/Volumes/Recovery"@ && p != "/System/Volumes/VM"@ && p != "/Volumes/System/Volumes/Data"@ && p != "/Volumes/Macintosh HD"@) ==> (has_infix(p, "/.Spotlight-V100"@) || has_infix(p, "/.fseventsd"@)
            || has_infix(p, "/Library/Caches/MacHunt"@)),
{
}

pub fn has_skip_marker_exec(path: &str) -> (r: bool)
    ensures
        r == has_skip_marker(path@),
{
    str_contains(path, "/.Spotlight-V100") || str_contains(path, "/.fseventsd") || str_contains(
        path,
        "/Library/Caches/MacHunt",
    )
}

/// Whether the indexer and the watcher leave `path` alone.
pub fn should_skip_path(path: &str) -> (r: bool)
    ensures
        r == skip_path(path@),
{
    str_eq(path, "/dev") || str_eq(path, "/proc") || str_eq(path, "/sys") || str_eq(
        path,
        "/private/var/vm",
    ) || str_eq(path, "/private/var/run") || str_eq(path, "/private/var/folders") || str_eq(
        path,
        "/System/Volumes/Data",
    ) || str_eq(path, "/System/Volumes/Preboot") || str_eq(path, "/System/Volumes/Recovery")
        || str_eq(path, "/System/Volumes/VM") || str_eq(path, "/Volumes/System/Volumes/Data")
        || str_eq(path, "/Volumes/Macintosh HD") || has_skip_marker_exec(path)
}

/// The top-level directories a build walks by default, among the entries of
/// `/` (each with whether it is a directory): the directories that are not
/// skipped, in listing order.
pub open spec fn root_dirs_spec(entries: Seq<(Seq<char>, bool)>) -> Seq<Seq<char>>
    decreases entries.len(),
{
    if entries.len() == 0 {
        Seq::empty()
    } else {
        let prev = root_dirs_spec(entries.drop_last());
        let e = entries.last();
        if e.1 && !skip_path(e.0) {
            prev.push(e.0)
        } else {
            prev
        }
    }
}

pub open spec fn listing_view(entries: Seq<(String, bool)>) -> Seq<(Seq<char>, bool)> {
    entries.map_values(|e: (String, bool)| (e.0@, e.1))
}

pub fn root_directories(entries: &Vec<(String, bool)>) -> (r: Vec<String>)
    ensures
        views(r@) == root_dirs_spec(listing_view(entries@)),
{
    let ghost lv = listing_view(entries@);
    let mut r: Vec<String> = Vec::new();
    let mut i: usize = 0;
    while i < entries.len()
        invariant
            i <= entries.len(),
            lv == listing_view(entries@),
            views(r@) == root_dirs_spec(lv.take(i as int)),
        decreases entries.len() - i,
    {
        assert(lv.take(i + 1).drop_last() =~= lv.take(i as int));
        assert(lv.take(i + 1).last() == (entries@[i as int].0@, entries@[i as int].1));
        if entries[i].1 && !should_skip_path(entries[i].0.as_str()) {
            let s = clone_string(&entries[i].0);
            proof {
                lemma_views_push(r@, s);
            }
            r.push(s);
        }
        i = i + 1;
    }
    assert(lv.take(entries.len() as int) =~= lv);
    r
}

// ─────────────────────────── index paths ───────────────────────────

/// The data-volume prefix that `p` lies under (the firmlinked data volume,
/// the same seen through `/Volumes`, or the boot volume's mount), if any.
pub open spec fn volume_alias(p: Seq<char>) -> Option<Seq<char>> {
    if p == "/System/Volumes/Data"@ || has_prefix(p, "/System/Volumes/Data/"@) {
        Some("/System/Volumes/Data"@)
    } else if p == "/Volumes/System/Volumes/Data"@ || has_prefix(
        p,
        "/Volumes/System/Volumes/Data/"@,
    ) {
        Some("/Volumes/System/Volumes/Data"@)
    } else if p == "/Volumes/Macintosh HD"@ || has_prefix(p, "/Volumes/Macintosh HD/"@) {
        Some("/Volumes/Macintosh HD"@)
    } else {
        None
    }
}

/// The path under which an entry is indexed: an alias prefix of the data
/// volume is stripped (every leading repetition of it, as
/// `str::trim_start_matches` does), and an empty remainder becomes `/`.
pub open spec fn index_path(p: Seq<char>) -> Seq<char> {
    match volume_alias(p) {
        Some(prefix) => {
            let rest = trim_start_str(p, prefix);
            if rest.len() == 0 {
                seq!['/']
            } else {
                rest
            }
        },
        None => p,
    }
}

fn under_alias(p: &str, root: &str, root_slash: &str) -> (r: bool)
    ensures
        r == (p@ == root@ || has_prefix(p@, root_slash@)),
{
    str_eq(p, root) || crate::text::str_starts_with(p, root_slash)
}

pub fn normalize_path_for_index(path: &str) -> (r: String)
    ensures
        r@ == index_path(path@),
{
    let prefix: Option<&str> = if under_alias(path, "/System/Volumes/Data", "/System/Volumes/Data/") {
        Some("/System/Volumes/Data")
    } else if under_alias(
        path,
        "/Volumes/System/Volumes/Data",
        "/Volumes/System/Volumes/Data/",
    ) {
        Some("/Volumes/System/Volumes/Data")
    } else if under_alias(path, "/Volumes/Macintosh HD", "/Volumes/Macintosh HD/") {
        Some("/Volumes/Macintosh HD")
    } else {
        None
    };
    match prefix {
        Some(pre) => {
            let pv = chars_of(pre);
            proof {
                reveal_strlit("/System/Volumes/Data");
                reveal_strlit("/Volumes/System/Volumes/Data");
                reveal_strlit("/Volumes/Macintosh HD");
            }
            assert(pv@.len() > 0);
            let rest = trim_start_str_chars(&chars_of(path), &pv);
            if rest.len() == 0 {
                string_of(&single('/'))
            } else {
                string_of(&rest)
            }
        },
        None => owned(path),
    }
}

// ─────────────────────────── log settings ───────────────────────────

/// Whether to record diagnostics, and optionally what subtree to restrict them
/// to.
#[derive(Clone, Debug, PartialEq, Eq)]
pub struct LogSettings {
    pub enabled: bool,
    /// `Some(prefix)` means only messages about paths inside `prefix` are kept.
    pub scope: Option<String>,
}

impl Default for LogSettings {
    fn default() -> (r: Self)
        ensures
            !r.enabled,
            r.scope is None,
    {
        LogSettings { enabled: false, scope: None }
    }
}

/// ASCII lower case (`str::to_ascii_lowercase`).
pub open spec fn ascii_lower(s: Seq<char>) -> Seq<char> {
    s.map_values(|c: char| if 'A' <= c && c <= 'Z' { ((c as u32) + 32) as char } else { c })
}

pub fn to_ascii_lower(s: &Vec<char>) -> (r: Vec<char>)
    ensures
        r@ == ascii_lower(s@),
{
    let mut r: Vec<char> = Vec::new();
    let mut i: usize = 0;
    while i < s.len()
        invariant
            i <= s.len(),
            r@ == ascii_lower(s@).take(i as int),
        decreases s.len() - i,
    {
        let c = s[i];
        let l: char = if 'A' <= c && c <= 'Z' {
            char_from_ascii_upper(c)
        } else {
            c
        };
        r.push(l);
        i = i + 1;
        assert(r@ =~= ascii_lower(s@).take(i as int));
    }
    assert(ascii_lower(s@).take(s.len() as int) =~= ascii_lower(s@));
    r
}

fn char_from_ascii_upper(c: char) -> (r: char)
    requires
        'A' <= c <= 'Z',
    ensures
        r == ((c as u32) + 32) as char,
{
    if c == 'A' { 'a' } else if c == 'B' { 'b' } else if c == 'C' { 'c' } else if c == 'D' { 'd' }
    else if c == 'E' { 'e' } else if c == 'F' { 'f' } else if c == 'G' { 'g' } else if c == 'H' { 'h' }
    else if c == 'I' { 'i' } else if c == 'J' { 'j' } else if c == 'K' { 'k' } else if c == 'L' { 'l' }
    else if c == 'M' { 'm' } else if c == 'N' { 'n' } else if c == 'O' { 'o' } else if c == 'P' { 'p' }
    else if c == 'Q' { 'q' } else if c == 'R' { 'r' } else if c == 'S' { 's' } else if c == 'T' { 't' }
    else if c == 'U' { 'u' } else if c == 'V' { 'v' } else if c == 'W' { 'w' } else if c == 'X' { 'x' }
    else if c == 'Y' { 'y' } else { 'z' }
}

/// Values of the environment switch that mean "off".
pub open spec fn is_off_word(v: Seq<char>) -> bool {
    v.len() == 0 || v == "0"@ || v == "false"@ || v == "off"@ || v == "no"@
}

/// A scope is kept only when it is an absolute path.
pub open spec fn scope_of(v: Seq<char>) -> Option<Seq<char>> {
    if has_prefix(v, seq!['/']) {
        Some(v)
    } else {
        None
    }
}

pub open spec fn scope_view(s: Option<String>) -> Option<Seq<char>> {
    match s {
        Some(x) => Some(x@),
        None => None,
    }
}

fn scope_from(v: &Vec<char>) -> (r: Option<String>)
    ensures
        scope_view(r) == scope_of(v@),
{
    if starts_with_seq(v, &single('/')) {
        Some(string_of(v))
    } else {
        None
    }
}

/// The settings the `MACHUNT_LOG` switch asks for: off for an empty value
/// or `0`/`false`/`off`/`no` (any case); else on, scoped when the value is a path.
pub fn log_settings_from_env_value(raw: &str) -> (r: LogSettings)
    ensures
        is_off_word(ascii_lower(trim(raw@))) ==> !r.enabled && r.scope is None,
        !is_off_word(ascii_lower(trim(raw@))) ==> r.enabled && scope_view(r.scope) == scope_of(
            trim(raw@),
        ),
{
    let value = trim_chars(&chars_of(raw));
    let lower = string_of(&to_ascii_lower(&value));
    let l = lower.as_str();
    if l.is_empty() || str_eq(l, "0") || str_eq(l, "false") || str_eq(l, "off") || str_eq(l, "no") {
        return LogSettings { enabled: false, scope: None };
    }
    LogSettings { enabled: true, scope: scope_from(&value) }
}

/// The settings the flag file asks for: on, scoped when its trimmed contents
/// are a path.
pub fn log_settings_from_flag_file(contents: &str) -> (r: LogSettings)
    ensures
        r.enabled,
        scope_view(r.scope) == scope_of(trim(contents@)),
{
    let trimmed = trim_chars(&chars_of(contents));
    LogSettings { enabled: true, scope: scope_from(&trimmed) }
}

/// What the flag file holds when logging is switched on with `scope`.
pub fn flag_file_contents(scope: &str) -> (r: String)
    ensures
        r@ == trim(scope@),
{
    trim_str(scope)
}

/// Reading back what was written: switching logging on with a scope and then
/// reading the flag file gives logging on, scoped to that (trimmed) scope
/// when it is an absolute path.
pub proof fn lemma_flag_file_roundtrip(scope: Seq<char>)
    ensures
        scope_of(trim(trim(scope))) == scope_of(trim(scope)),
{
    lemma_trim_idempotent(scope);
}

/// Whether a line about `path` is kept: always without a scope, else only
/// inside it.
pub fn log_path_in_scope(scope: &Option<String>, path: &str) -> (r: bool)
    ensures
        r == match scope {
            Some(s) => path_starts_with(path@, s@),
            None => true,
        },
{
    match scope {
        Some(s) => path_starts_with_exec(path, s.as_str()),
        None => true,
    }
}

/// Cap on a single log file.
pub const MAX_LOG_BYTES: u64 = 33554432;

/// How many log files to keep around.
pub const MAX_LOG_FILES: usize = 10;

/// The accounting that stops a log file at [`MAX_LOG_BYTES`].
#[derive(Clone, Copy, Debug, PartialEq, Eq)]
pub struct LogBudget {
    pub written: u64,
    pub capped: bool,
}

/// What to do with one more line.
#[derive(Clone, Copy, Debug, PartialEq, Eq)]
pub enum LogWrite {
    /// Write the line.
    Line,
    /// The cap was just reached: write the one notice saying so.
    CapNotice,
    /// Over the cap and already noted: drop the line.
    Drop,
}

/// One line of `len` bytes offered to the budget `b`: what is done with it,
/// and the budget after it.
pub open spec fn budget_step(b: LogBudget, len: nat) -> (LogBudget, LogWrite) {
    if b.written >= MAX_LOG_BYTES {
        if !b.capped {
            (LogBudget { written: b.written, capped: true }, LogWrite::CapNotice)
        } else {
            (b, LogWrite::Drop)
        }
    } else {
        (LogBudget { written: (b.written + len + 1) as u64, capped: b.capped }, LogWrite::Line)
    }
}

/// Once the cap notice has been written, every later line is dropped and the
/// budget no longer changes.
pub proof fn lemma_capped_log_stays_silent(b: LogBudget, len: nat, later: nat)
    requires
        budget_step(b, len).1 == LogWrite::CapNotice,
    ensures
        budget_step(budget_step(b, len).0, later).1 == LogWrite::Drop,
        budget_step(budget_step(b, len).0, later).0 == budget_step(b, len).0,
{
}

impl LogBudget {
    pub fn new() -> (r: Self)
        ensures
            r.written == 0,
            !r.capped,
    {
        LogBudget { written: 0, capped: false }
    }

    /// Decides about a line of `len` bytes and accounts for it: a written
    /// line costs its length plus the newline.
    pub fn account(&mut self, len: usize) -> (w: LogWrite)
        requires
            len <= isize::MAX,
        ensures
            (*final(self), w) == budget_step(*old(self), len as nat),
            old(self).written >= MAX_LOG_BYTES && !old(self).capped ==> w == LogWrite::CapNotice
                && final(self).capped && final(self).written == old(self).written,
            old(self).written >= MAX_LOG_BYTES && old(self).capped ==> w == LogWrite::Drop
                && *final(self) == *old(self),
            old(self).written < MAX_LOG_BYTES ==> w == LogWrite::Line && final(self).capped
                == old(self).capped && final(self).written == old(self).written + len + 1,
    {
        if self.written >= MAX_LOG_BYTES {
            if !self.capped {
                self.capped = true;
                return LogWrite::CapNotice;
            }
            return LogWrite::Drop;
        }
        self.written = self.written + len as u64 + 1;
        LogWrite::Line
    }
}

/// How many of `count` existing log files to remove before a new one is
/// opened, so that at most [`MAX_LOG_FILES`] remain.
pub fn logs_to_prune(count: usize) -> (r: usize)
    ensures
        count < MAX_LOG_FILES ==> r == 0,
        count >= MAX_LOG_FILES ==> r == count - (MAX_LOG_FILES - 1),
{
    if count < MAX_LOG_FILES {
        0
    } else {
        count - (MAX_LOG_FILES - 1)
    }
}

// ─────────────────────────── timestamps ───────────────────────────

#[verifier::external_type_specification]
#[verifier::external_body]
pub struct ExSystemTime(std::time::SystemTime);

#[verifier::external_type_specification]
#[verifier::external_body]
pub struct ExSystemTimeError(std::time::SystemTimeError);

/// `SystemTime::now`: the system clock's reading; nothing is claimed of it.
#[verifier::external_body]
fn system_time_now() -> std::time::SystemTime {
    std::time::SystemTime::now()
}

/// `SystemTime::duration_since(UNIX_EPOCH)`: how long after the epoch `t`
/// is, or an error for a time before it; nothing is claimed of the value.
#[verifier::external_body]
fn since_unix_epoch(t: std::time::SystemTime) -> Result<std::time::Duration, std::time::SystemTimeError> {
    t.duration_since(std::time::UNIX_EPOCH)
}

/// `Duration::as_secs`: the whole seconds of `d`; nothing is claimed of them.
#[verifier::external_body]
fn whole_seconds(d: &std::time::Duration) -> u64 {
    d.as_secs()
}

/// Seconds since the Unix epoch by the system clock, or `None` for a clock
/// set before 1970.
fn unix_time_secs() -> Option<u64> {
    match since_unix_epoch(system_time_now()) {
        Ok(d) => Some(whole_seconds(&d)),
        Err(_) => None,
    }
}

/// The decimal text of the seconds since the epoch of `secs`, or `0` when the
/// clock reads before the epoch.
pub fn timestamp_text(secs: Option<u64>) -> (r: String)
    ensures
        r@ == match secs {
            Some(s) => decimal(s as nat),
            None => decimal(0),
        },
{
    match secs {
        Some(s) => u64_to_decimal(s),
        None => u64_to_decimal(0),
    }
}

/// The current time as decimal seconds since the Unix epoch (names the log files).
pub fn timestamp_secs() -> (r: String)
    ensures
        exists|s: u64| r@ == decimal(s as nat),
{
    let secs = unix_time_secs();
    let r = timestamp_text(secs);
    match secs {
        Some(s) => assert(r@ == decimal(s as nat)),
        None => assert(r@ == decimal(0u64 as nat)),
    }
    r
}

} // verus!
