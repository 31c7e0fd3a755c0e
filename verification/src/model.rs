use vstd::prelude::*;

use crate::paths::file_name;
verus! {

/// A file entry returned from DB queries, carrying metadata to avoid fs::stat calls.
#[derive(Debug, Clone)]
pub struct FileEntry {
    pub dir_path: String,
    pub file_name: String,
    pub is_dir: bool,
    pub size_bytes: Option<u64>,
    pub modified_ms: Option<u64>,
}

#[derive(Debug, Clone, Copy, PartialEq, Eq, Structural)]
pub enum SearchMode {
    Substring,
    Pattern,
    Fuzzy,
}

#[derive(Debug, Clone, Copy, PartialEq, Eq, Structural)]
pub enum SortKey {
    Name,
    Path,
    Type,
    Size,
    Modified,
}

impl Default for SortKey {
    fn default() -> (r: Self)
        ensures
            r == SortKey::Name,
    {
        SortKey::Name
    }
}

#[derive(Debug, Clone)]
pub struct SearchOptions {
    pub query: String,
    pub mode: SearchMode,
    pub case_sensitive: bool,
    pub path_prefix: Option<String>,
    pub include_files: bool,
    pub include_dirs: bool,
    pub limit: Option<usize>,
    pub extensions: Option<Vec<String>>,
    pub size_min_bytes: Option<u64>,
    pub size_max_bytes: Option<u64>,
    pub time_min_ms: Option<u64>,
    pub time_max_ms: Option<u64>,
    pub sort_key: SortKey,
    pub sort_ascending: bool,
}

/// The kinds of entries a search returns: as asked, or both when neither is.
pub open spec fn searched_kinds(include_files: bool, include_dirs: bool) -> (bool, bool) {
    if !include_files && !include_dirs {
        (true, true)
    } else {
        (include_files, include_dirs)
    }
}

impl SearchOptions {
    pub fn normalize(self) -> (r: Self)
        ensures
            (r.include_files, r.include_dirs) == searched_kinds(self.include_files, self.include_dirs),
            r.query == self.query,
            r.mode == self.mode,
            r.case_sensitive == self.case_sensitive,
            r.path_prefix == self.path_prefix,
            r.limit == self.limit,
            r.extensions == self.extensions,
            r.size_min_bytes == self.size_min_bytes,
            r.size_max_bytes == self.size_max_bytes,
            r.time_min_ms == self.time_min_ms,
            r.time_max_ms == self.time_max_ms,
            r.sort_key == self.sort_key,
            r.sort_ascending == self.sort_ascending,
    {
        let mut s = self;
        if !s.include_files && !s.include_dirs {
            s.include_files = true;
            s.include_dirs = true;
        }
        s
    }
}

/// Normalized options ask for at least one kind of entry, and normalizing
/// them again changes nothing.
pub proof fn lemma_normalize_include(files: bool, dirs: bool)
    ensures
        ({
            let (f1, d1) = searched_kinds(files, dirs);
            (f1 || d1) && searched_kinds(f1, d1) == (f1, d1)
        }),
{
}

} // verus!
