//! Building the index: which directories a build walks, which entries it
//! descends into and keeps, the record each kept entry becomes, and when a
//! batch is handed to the database.
use vstd::prelude::*;

verus! {

/// Records are handed to the database in batches of this size.
pub const BATCH_SIZE: usize = 50000;

/// Progress is reported once per this many scanned records.
pub const PROGRESS_EVERY: usize = 500000;

/// What a build indexes besides files, and what it leaves out.
#[derive(Clone, Debug)]
pub struct BuildFilterSettings {
    pub include_dirs: bool,
    pub exclude_exact_dirs: Vec<String>,
    pub exclude_pattern_dirs: Vec<String>,
    pub watch_roots: Option<Vec<String>>,
}

/// One entry met while walking a root: its path, its file name, and its kind.
#[derive(Clone, Debug)]
pub struct WalkEntry {
    pub path: String,
    pub name: String,
    pub is_dir: bool,
    pub is_file: bool,
}

/// How a build treats the stored index. A full build fills a fresh index
/// that then replaces the old one; a scoped build replaces only what lies
/// under the path it was given. After either, the full-text table is filled
/// again from the files, so that it holds every indexed name.
#[derive(PartialEq, Eq, Structural, Clone, Copy, Debug)]
pub enum BuildMode {
    Full,
    Scoped,
}

/// A build given a path is scoped unless a rebuild that reclaims space was
/// asked for; a build of everything is full.
pub open spec fn build_mode_spec(has_path: bool, rebuild: bool, auto_vacuum_on_rebuild: bool) -> BuildMode {
    if has_path && !(rebuild && auto_vacuum_on_rebuild) {
        BuildMode::Scoped
    } else {
        BuildMode::Full
    }
}

pub fn build_mode(path: &Option<String>, rebuild: bool, auto_vacuum_on_rebuild: bool) -> (r: BuildMode)
    ensures
        r == build_mode_spec(path is Some, rebuild, auto_vacuum_on_rebuild),
{
    if path.is_some() && !(rebuild && auto_vacuum_on_rebuild) {
        BuildMode::Scoped
    } else {
        BuildMode::Full
    }
}

/// What happens to the stored index before a build: all of it is cleared for
/// a rebuild, or what lies under the given (existing) root is.
pub enum BuildStart {
    ClearAll,
    ClearUnder(String),
    KeepAll,
}

pub fn build_start(path: Option<&str>, rebuild: bool, root_exists: bool) -> (r: BuildStart)
    ensures
        rebuild ==> r is ClearAll,
        !rebuild && root_exists && path is Some ==> (r matches BuildStart::ClearUnder(p) && p@
            == path->0@),
        !rebuild && !(root_exists && path is Some) ==> r is KeepAll,
{
    if rebuild {
        BuildStart::ClearAll
    } else {
        match path {
            Some(p) => {
                if root_exists {
                    BuildStart::ClearUnder(crate::text::owned(p))
                } else {
                    BuildStart::KeepAll
                }
            },
            None => BuildStart::KeepAll,
        }
    }
}

/// The directories a build walks: the one it was asked for; else the
/// configured watch roots when there are some; else the system's top-level
/// directories.
pub open spec fn build_roots_spec(
    path: Option<Seq<char>>,
    watch_roots: Option<Seq<Seq<char>>>,
    system_roots: Seq<Seq<char>>,
) -> Seq<Seq<char>> {
    match path {
        Some(p) => seq![p],
        None => match watch_roots {
            Some(w) => if w.len() == 0 {
                system_roots
            } else {
                w
            },
            None => system_roots,
        },
    }
}

pub open spec fn roots_view(roots: Option<Vec<String>>) -> Option<Seq<Seq<char>>> {
    match roots {
        Some(v) => Some(crate::strings::views(v@)),
        None => None,
    }
}

pub fn build_roots(path: Option<String>, filters: &BuildFilterSettings, system_roots: Vec<String>) -> (r:
    Vec<String>)
    ensures
        crate::strings::views(r@) == build_roots_spec(
            crate::engine::opt_view(path),
            roots_view(filters.watch_roots),
            crate::strings::views(system_roots@),
        ),
{
    match path {
        Some(p) => {
            let mut r: Vec<String> = Vec::new();
            r.push(p);
            assert(crate::strings::views(r@) =~= seq![p@]);
            r
        },
        None => match &filters.watch_roots {
            Some(w) => {
                if w.len() == 0 {
                    system_roots
                } else {
                    crate::strings::clone_strings(w)
                }
            },
            None => system_roots,
        },
    }
}

/// A walk goes into an entry unless it is a skipped system path or excluded.
pub fn descends_into(path: &str, is_dir: bool, rules: &crate::filters::ExcludeRules) -> (r: bool)
    ensures
        r == (!crate::utils::skip_path(path@) && !crate::filters::excluded(
            rules.exact(),
            rules.patterns(),
            path@,
            is_dir,
        )),
{
    !crate::utils::should_skip_path(path) && !crate::filters::is_excluded(path, is_dir, rules)
}

/// An entry is indexed when it is not excluded and is a file, or a directory
/// while directories are wanted.
pub open spec fn entry_kept(
    e: WalkEntry,
    include_dirs: bool,
    exact: Seq<Seq<char>>,
    patterns: Seq<Seq<char>>,
) -> bool {
    !crate::filters::excluded(exact, patterns, e.path@, e.is_dir) && (e.is_file || (include_dirs
        && e.is_dir))
}

pub fn keeps_entry(e: &WalkEntry, include_dirs: bool, rules: &crate::filters::ExcludeRules) -> (r: bool)
    ensures
        r == entry_kept(*e, include_dirs, rules.exact(), rules.patterns()),
{
    !crate::filters::is_excluded(e.path.as_str(), e.is_dir, rules) && (e.is_file || (include_dirs
        && e.is_dir))
}

/// The record an indexed entry becomes: its lower-cased name and its path
/// as stored.
pub open spec fn record_of(e: WalkEntry) -> (Seq<char>, Seq<char>) {
    (crate::text::lowercase(e.name@), crate::utils::index_path(e.path@))
}

pub open spec fn records_view(r: Seq<(String, String)>) -> Seq<(Seq<char>, Seq<char>)> {
    r.map_values(|x: (String, String)| (x.0@, x.1@))
}

/// The records the kept entries become, in walking order.
pub open spec fn index_records_spec(
    entries: Seq<WalkEntry>,
    include_dirs: bool,
    exact: Seq<Seq<char>>,
    patterns: Seq<Seq<char>>,
) -> Seq<(Seq<char>, Seq<char>)>
    decreases entries.len(),
{
    if entries.len() == 0 {
        Seq::empty()
    } else {
        let prev = index_records_spec(entries.drop_last(), include_dirs, exact, patterns);
        if entry_kept(entries.last(), include_dirs, exact, patterns) {
            prev.push(record_of(entries.last()))
        } else {
            prev
        }
    }
}

pub fn index_records(entries: &Vec<WalkEntry>, include_dirs: bool, rules: &crate::filters::ExcludeRules) -> (r:
    Vec<(String, String)>)
    ensures
        records_view(r@) == index_records_spec(entries@, include_dirs, rules.exact(), rules.patterns()),
{
    let mut r: Vec<(String, String)> = Vec::new();
    let mut i: usize = 0;
    while i < entries.len()
        invariant
            i <= entries.len(),
            records_view(r@) == index_records_spec(
                entries@.take(i as int),
                include_dirs,
                rules.exact(),
                rules.patterns(),
            ),
        decreases entries.len() - i,
    {
        assert(entries@.take(i + 1).drop_last() =~= entries@.take(i as int));
        assert(entries@.take(i + 1).last() == entries@[i as int]);
        let e = &entries[i];
        if keeps_entry(e, include_dirs, rules) {
            let name = crate::text::to_lowercase(e.name.as_str());
            let path = crate::utils::normalize_path_for_index(e.path.as_str());
            let ghost before = r@;
            r.push((name, path));
            assert(records_view(r@) =~= records_view(before).push(record_of(entries@[i as int])));
        }
        i = i + 1;
    }
    assert(entries@.take(entries.len() as int) =~= entries@);
    r
}

/// A batch is handed over once it holds `BATCH_SIZE` records.
pub fn batch_is_full(len: usize) -> (r: bool)
    ensures
        r == (len >= BATCH_SIZE),
{
    len >= BATCH_SIZE
}

/// Progress is reported when the running count has just passed a multiple of
/// `PROGRESS_EVERY` (within one batch).
pub fn progress_due(count: usize) -> (r: bool)
    ensures
        r == (count % PROGRESS_EVERY < BATCH_SIZE),
{
    count % PROGRESS_EVERY < BATCH_SIZE
}

} // verus!
