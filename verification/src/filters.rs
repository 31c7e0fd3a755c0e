use vstd::prelude::*;

use crate::paths::{comps, file_name, file_name_str, path_starts_with, path_starts_with_exec};
use crate::regex_support::{CompiledRegex, regex_compiles, regex_error_text, regex_is_match, regex_matches, regex_new};
use crate::search::{anchored, anchored_regex, wildcard_body, wildcard_regex_body};
use crate::strings::{contains_string, dedup_nonempty, lemma_dedup_nonempty_fixed, lemma_dedup_nonempty_props, lemma_views_push, lemma_views_take, no_dups, views};
use crate::text::{append_str, chars_of, ends_with_seq, has_prefix, has_suffix, lemma_trim_idempotent, lowercase, owned, push_char, seq_eq, single, starts_with_seq, string_of, to_lowercase, trim, trim_chars, trim_end_char, trim_end_char_chars, trim_str};

verus! {

/// The exclusion rules as stored: each entry trimmed, empty entries dropped,
/// and only the first of equal entries kept.
pub open spec fn sanitized(values: Seq<Seq<char>>) -> Seq<Seq<char>> {
    dedup_nonempty(values.map_values(|v: Seq<char>| trim(v)))
}

/// Trims every entry, drops empty ones and repeats, keeping the order in
/// which entries first occur.
pub fn sanitize_rules(values: &[String]) -> (out: Vec<String>)
    ensures
        views(out@) == sanitized(views(values@)),
{
    let ghost trimmed = views(values@).map_values(|v: Seq<char>| trim(v));
    let mut out: Vec<String> = Vec::new();
    let mut i: usize = 0;
    while i < values.len()
        invariant
            i <= values.len(),
            trimmed == views(values@).map_values(|v: Seq<char>| trim(v)),
            views(out@) == dedup_nonempty(trimmed.take(i as int)),
        decreases values.len() - i,
    {
        let normalized = trim_str(values[i].as_str());
        proof {
            assert(trimmed.take(i + 1).drop_last() == trimmed.take(i as int));
            assert(trimmed.take(i + 1).last() == normalized@);
        }
        if normalized.as_str().is_empty() {
            i = i + 1;
            continue;
        }
        if contains_string(&out, &normalized) {
            i = i + 1;
            continue;
        }
        proof {
            lemma_views_push(out@, normalized);
        }
        out.push(normalized);
        i = i + 1;
    }
    assert(trimmed.take(values.len() as int) == trimmed);
    out
}

pub fn sanitize_owned_rules(values: Vec<String>) -> (out: Vec<String>)
    ensures
        views(out@) == sanitized(views(values@)),
{
    sanitize_rules(values.as_slice())
}

/// The stored rules are what sanitizing keeps: no repeats, no empty entry,
/// every entry trimmed, and every non-blank input rule is kept in its trimmed form.
pub proof fn lemma_sanitized_props(values: Seq<Seq<char>>)
    ensures
        no_dups(sanitized(values)),
        forall|k: int|
            0 <= k < sanitized(values).len() ==> #[trigger] sanitized(values)[k].len() > 0
                && trim(sanitized(values)[k]) == sanitized(values)[k],
        forall|k: int|
            0 <= k < values.len() && trim(#[trigger] values[k]).len() > 0 ==> sanitized(
                values,
            ).contains(trim(values[k])),
{
    let t = values.map_values(|v: Seq<char>| trim(v));
    lemma_dedup_nonempty_props(t);
    assert forall|k: int| 0 <= k < sanitized(values).len() implies #[trigger] sanitized(
        values,
    )[k].len() > 0 && trim(sanitized(values)[k]) == sanitized(values)[k] by {
        let x = sanitized(values)[k];
        assert(sanitized(values).contains(x));
        assert(t.contains(x));
        let j = choose|j: int| 0 <= j < t.len() && t[j] == x;
        lemma_trim_idempotent(values[j]);
    }
    assert forall|k: int| 0 <= k < values.len() && trim(#[trigger] values[k]).len() > 0 implies sanitized(
        values,
    ).contains(trim(values[k])) by {
        assert(t[k] == trim(values[k]));
        assert(t.contains(trim(values[k])));
    }
}

/// Sanitizing stored rules again changes nothing.
pub proof fn lemma_sanitize_rules_idempotent(values: Seq<Seq<char>>)
    ensures
        sanitized(sanitized(values)) == sanitized(values),
{
    let s = sanitized(values);
    lemma_sanitized_props(values);
    assert(s.map_values(|v: Seq<char>| trim(v)) =~= s);
    lemma_dedup_nonempty_fixed(s);
}

/// A watch root as stored: trimmed, and without trailing `/` unless it is `/` itself.
pub open spec fn normalize_root(v: Seq<char>) -> Seq<char> {
    let t = trim(v);
    if t == seq!['/'] {
        t
    } else {
        trim_end_char(t, '/')
    }
}

/// Normalizes every root, keeps the absolute ones (starting with `/`), and
/// keeps only the first of equal roots.
pub open spec fn sanitized_roots(items: Seq<Seq<char>>) -> Seq<Seq<char>>
    decreases items.len(),
{
    if items.len() == 0 {
        Seq::empty()
    } else {
        let prev = sanitized_roots(items.drop_last());
        let x = normalize_root(items.last());
        if !has_prefix(x, seq!['/']) || prev.contains(x) {
            prev
        } else {
            prev.push(x)
        }
    }
}

/// Normalizes the configured watch roots: trimmed, trailing `/` removed
/// (except for `/`), relative entries dropped, repeats dropped.
pub fn sanitize_roots(values: Vec<String>) -> (out: Vec<String>)
    ensures
        views(out@) == sanitized_roots(views(values@)),
{
    let ghost items = views(values@);
    let slash: Vec<char> = single('/');
    let mut out: Vec<String> = Vec::new();
    let mut i: usize = 0;
    while i < values.len()
        invariant
            i <= values.len(),
            items == views(values@),
            slash@ == seq!['/'],
            views(out@) == sanitized_roots(items.take(i as int)),
        decreases values.len() - i,
    {
        proof {
            lemma_views_take(values@, i as int);
        }
        let raw = chars_of(values[i].as_str());
        let trimmed = trim_chars(&raw);
        assert(items.take(i + 1).drop_last() =~= items.take(i as int));
        assert(items.take(i + 1).last() == raw@);
        if trimmed.len() == 0 {
            assert(trimmed@ =~= Seq::<char>::empty());
            assert(trim_end_char(trimmed@, '/') == trimmed@);
            assert(!has_prefix(normalize_root(raw@), seq!['/']));
            i = i + 1;
            continue;
        }
        let normalized: Vec<char> = if seq_eq(&trimmed, &slash) {
            trimmed
        } else {
            trim_end_char_chars(&trimmed, '/')
        };
        assert(normalized@ == normalize_root(items.take(i + 1).last()));
        if !starts_with_seq(&normalized, &slash) {
            i = i + 1;
            continue;
        }
        let text = string_of(&normalized);
        if contains_string(&out, &text) {
            i = i + 1;
            continue;
        }
        proof {
            lemma_views_push(out@, text);
        }
        out.push(text);
        i = i + 1;
    }
    assert(items.take(values.len() as int) == items);
    out
}

pub proof fn lemma_trim_end_char_last(s: Seq<char>, c: char)
    ensures
        trim_end_char(s, c).len() == 0 || trim_end_char(s, c).last() != c,
        has_prefix(s, trim_end_char(s, c)),
    decreases s.len(),
{
    if s.len() > 0 && s.last() == c {
        lemma_trim_end_char_last(s.drop_last(), c);
        let r = trim_end_char(s, c);
        assert(s.take(r.len() as int) == s.drop_last().take(r.len() as int));
    } else {
        assert(s.take(s.len() as int) == s);
    }
}

/// Every stored watch root is absolute, stored once, and carries no trailing
/// `/` unless it is the volume root `/`.
pub proof fn lemma_sanitized_roots_props(items: Seq<Seq<char>>)
    ensures
        no_dups(sanitized_roots(items)),
        forall|k: int|
            0 <= k < sanitized_roots(items).len() ==> has_prefix(
                #[trigger] sanitized_roots(items)[k],
                seq!['/'],
            ) && (sanitized_roots(items)[k] == seq!['/'] || sanitized_roots(items)[k].last()
                != '/'),
    decreases items.len(),
{
    if items.len() > 0 {
        lemma_sanitized_roots_props(items.drop_last());
        let t = trim(items.last());
        lemma_trim_end_char_last(t, '/');
        let prev = sanitized_roots(items.drop_last());
        let x = normalize_root(items.last());
        if has_prefix(x, seq!['/']) && !prev.contains(x) {
            assert forall|i: int, j: int|
                0 <= i < j < sanitized_roots(items).len() implies sanitized_roots(items)[i]
                != sanitized_roots(items)[j] by {
                if j == prev.len() {
                    assert(sanitized_roots(items)[i] == prev[i]);
                }
            }
        }
    }
}

// ─────────────────────────── patterns ───────────────────────────

/// The regex text a wildcard exclusion rule compiles to: case-insensitive and
/// anchored at both ends.
pub open spec fn wildcard_source(p: Seq<char>) -> Seq<char> {
    anchored(wildcard_body(p, false), true)
}

/// A rule is first tried as a raw case-insensitive regex.
pub open spec fn raw_source(p: Seq<char>) -> Seq<char> {
    seq!['(', '?', 'i', ')'] + p
}

/// Whether a rule can be used: as a raw regex, or else as a wildcard pattern.
pub open spec fn pattern_ok(p: Seq<char>) -> bool {
    regex_compiles(raw_source(p)) || regex_compiles(wildcard_source(p))
}

/// The regex text a usable rule is compiled from.
pub open spec fn pattern_source(p: Seq<char>) -> Seq<char> {
    if regex_compiles(raw_source(p)) {
        raw_source(p)
    } else {
        wildcard_source(p)
    }
}

/// Turns a wildcard pattern into an anchored, case-insensitive regex
/// (`**` any text, `*` a run without `/`, `?` one character other than `/`).
pub fn wildcard_to_regex(pattern: &str) -> (r: Result<CompiledRegex, regex::Error>)
    ensures
        r is Ok <==> regex_compiles(wildcard_source(pattern@)),
        r matches Ok(c) ==> c.source() == wildcard_source(pattern@),
{
    let p = chars_of(pattern);
    let body = wildcard_regex_body(&p, false);
    let full = anchored_regex(&body, true);
    regex_new(full.as_str())
}

/// Compiles a rule as a case-insensitive regex, falling back to reading it
/// as a wildcard pattern; the error is the wildcard attempt's.
pub fn compile_pattern(pattern: &str) -> (r: Result<CompiledRegex, String>)
    ensures
        r is Ok <==> pattern_ok(pattern@),
        r matches Ok(c) ==> c.source() == pattern_source(pattern@),
{
    let mut raw = String::new();
    push_char(&mut raw, '(');
    push_char(&mut raw, '?');
    push_char(&mut raw, 'i');
    push_char(&mut raw, ')');
    append_str(&mut raw, pattern);
    assert(raw@ == raw_source(pattern@));
    match regex_new(raw.as_str()) {
        Ok(re) => Ok(re),
        Err(_) => match wildcard_to_regex(pattern) {
            Ok(re) => Ok(re),
            Err(e) => Err(regex_error_text(&e)),
        },
    }
}

/// The error text for a rule that cannot be used.
pub open spec fn invalid_pattern_prefix(p: Seq<char>) -> Seq<char> {
    "Invalid pattern '"@ + p + "': "@
}

/// Checks every rule; on the first that cannot be used, fails with a message
/// that names it.
pub fn validate_pattern_rules(patterns: &[String]) -> (r: Result<(), String>)
    ensures
        r is Ok <==> forall|k: int| 0 <= k < patterns@.len() ==> pattern_ok(#[trigger] patterns@[k]@),
        r matches Err(msg) ==> exists|k: int|
            0 <= k < patterns@.len() && !pattern_ok(#[trigger] patterns@[k]@) && (forall|j: int|
                0 <= j < k ==> pattern_ok(patterns@[j]@)) && has_prefix(
                msg@,
                invalid_pattern_prefix(patterns@[k]@),
            ),
{
    let mut i: usize = 0;
    while i < patterns.len()
        invariant
            i <= patterns.len(),
            forall|j: int| 0 <= j < i ==> pattern_ok(#[trigger] patterns@[j]@),
        decreases patterns.len() - i,
    {
        match compile_pattern(patterns[i].as_str()) {
            Ok(_) => {},
            Err(err) => {
                let mut msg = owned("Invalid pattern '");
                append_str(&mut msg, patterns[i].as_str());
                append_str(&mut msg, "': ");
                let ghost head = msg@;
                append_str(&mut msg, err.as_str());
                assert(head == invalid_pattern_prefix(patterns@[i as int]@));
                assert(msg@.take(head.len() as int) == head);
                return Err(msg);
            },
        }
        i = i + 1;
    }
    Ok(())
}

/// The regex texts of the usable rules among `rules`, in order.
pub open spec fn compiled_sources(rules: Seq<Seq<char>>) -> Seq<Seq<char>>
    decreases rules.len(),
{
    if rules.len() == 0 {
        Seq::empty()
    } else {
        let prev = compiled_sources(rules.drop_last());
        if pattern_ok(rules.last()) {
            prev.push(pattern_source(rules.last()))
        } else {
            prev
        }
    }
}

/// Compiles the usable rules among `raw` (sanitized first), skipping the rest.
fn compile_rule_list(raw: &[String]) -> (out: Vec<CompiledRegex>)
    ensures
        out@.map_values(|c: CompiledRegex| c.source()) == compiled_sources(sanitized(views(raw@))),
{
    let rules = sanitize_rules(raw);
    let ghost rv = views(rules@);
    let mut out: Vec<CompiledRegex> = Vec::new();
    let mut i: usize = 0;
    while i < rules.len()
        invariant
            i <= rules.len(),
            rv == views(rules@),
            out@.map_values(|c: CompiledRegex| c.source()) == compiled_sources(rv.take(i as int)),
        decreases rules.len() - i,
    {
        proof {
            lemma_views_take(rules@, i as int);
        }
        assert(rv.take(i + 1).drop_last() =~= rv.take(i as int));
        assert(rv.take(i + 1).last() == rv[i as int]);
        assert(rv[i as int] == rules@[i as int]@);
        let ghost before = out@;
        match compile_pattern(rules[i].as_str()) {
            Ok(re) => {
                out.push(re);
                assert(out@.map_values(|c: CompiledRegex| c.source()) =~= before.map_values(
                    |c: CompiledRegex| c.source(),
                ).push(pattern_source(rv[i as int])));
            },
            Err(_) => {},
        }
        i = i + 1;
    }
    assert(rv.take(rules.len() as int) == rv);
    out
}

// ─────────────────────────── directory exclusion ───────────────────────────

/// Directories left out of the index: by path prefix, or by regex over the
/// path text.
#[derive(Clone, Debug)]
pub struct ExcludeRules {
    exact_dirs: Vec<String>,
    regex_dirs: Vec<CompiledRegex>,
}

impl ExcludeRules {
    /// The directories whose subtrees are excluded.
    pub closed spec fn exact(&self) -> Seq<Seq<char>> {
        views(self.exact_dirs@)
    }

    /// The regex texts a path is tested against.
    pub closed spec fn patterns(&self) -> Seq<Seq<char>> {
        self.regex_dirs@.map_values(|c: CompiledRegex| c.source())
    }

    /// Rules that exclude nothing.
    pub fn empty() -> (r: Self)
        ensures
            r.exact() == Seq::<Seq<char>>::empty(),
            r.patterns() == Seq::<Seq<char>>::empty(),
    {
        let r = Self { exact_dirs: Vec::new(), regex_dirs: Vec::new() };
        assert(r.exact() =~= Seq::<Seq<char>>::empty());
        assert(r.patterns() =~= Seq::<Seq<char>>::empty());
        r
    }
}

/// Builds the rules from the stored settings: the exact directories
/// sanitized, and the usable pattern rules compiled.
pub fn compile_exclude_rules(exact_dirs: &[String], regex_dirs: &[String]) -> (r: ExcludeRules)
    ensures
        r.exact() == sanitized(views(exact_dirs@)),
        r.patterns() == compiled_sources(sanitized(views(regex_dirs@))),
{
    let exact = sanitize_rules(exact_dirs);
    let compiled = compile_rule_list(regex_dirs);
    ExcludeRules { exact_dirs: exact, regex_dirs: compiled }
}

/// The text regexes are matched against: directories end with `/`.
pub open spec fn matchable_path(path: Seq<char>, is_dir: bool) -> Seq<char> {
    if is_dir && !has_suffix(path, seq!['/']) {
        path.push('/')
    } else {
        path
    }
}

pub fn to_matchable_path(path: &str, is_dir: bool) -> (r: String)
    ensures
        r@ == matchable_path(path@, is_dir),
{
    let mut s = owned(path);
    let slash: Vec<char> = single('/');
    if is_dir && !ends_with_seq(&chars_of(path), &slash) {
        push_char(&mut s, '/');
    }
    s
}

/// A path is excluded when it lies under one of the exact directories, or
/// its text matches one of the patterns.
pub open spec fn excluded(
    exact: Seq<Seq<char>>,
    patterns: Seq<Seq<char>>,
    path: Seq<char>,
    is_dir: bool,
) -> bool {
    (exists|k: int| 0 <= k < exact.len() && path_starts_with(path, #[trigger] exact[k])) || (
    exists|k: int|
        0 <= k < patterns.len() && regex_matches(
            #[trigger] patterns[k],
            matchable_path(path, is_dir),
        ))
}

/// What lies under a directory that an exact rule excludes is excluded too,
/// whatever the patterns, so a walk may skip the whole subtree.
pub proof fn lemma_exact_exclusion_covers_subtree(
    exact: Seq<Seq<char>>,
    patterns: Seq<Seq<char>>,
    dir: Seq<char>,
    path: Seq<char>,
    is_dir: bool,
)
    requires
        exists|k: int| 0 <= k < exact.len() && path_starts_with(dir, #[trigger] exact[k]),
        path_starts_with(path, dir),
    ensures
        excluded(exact, patterns, path, is_dir),
{
    let k = choose|k: int| 0 <= k < exact.len() && path_starts_with(dir, #[trigger] exact[k]);
    let cb = comps(exact[k]);
    let cd = comps(dir);
    let cp = comps(path);
    assert(cp.take(cb.len() as int) =~= cp.take(cd.len() as int).take(cb.len() as int));
    assert(path_starts_with(path, exact[k]));
}

pub fn is_excluded(path: &str, is_dir: bool, rules: &ExcludeRules) -> (r: bool)
    ensures
        r == excluded(rules.exact(), rules.patterns(), path@, is_dir),
{
    let mut i: usize = 0;
    while i < rules.exact_dirs.len()
        invariant
            i <= rules.exact_dirs.len(),
            forall|k: int| 0 <= k < i ==> !path_starts_with(path@, #[trigger] rules.exact()[k]),
        decreases rules.exact_dirs.len() - i,
    {
        if path_starts_with_exec(path, rules.exact_dirs[i].as_str()) {
            assert(rules.exact()[i as int] == rules.exact_dirs@[i as int]@);
            return true;
        }
        assert(rules.exact()[i as int] == rules.exact_dirs@[i as int]@);
        i = i + 1;
    }
    if rules.regex_dirs.len() == 0 {
        return false;
    }
    let text = to_matchable_path(path, is_dir);
    let mut j: usize = 0;
    while j < rules.regex_dirs.len()
        invariant
            j <= rules.regex_dirs.len(),
            text@ == matchable_path(path@, is_dir),
            forall|k: int| 0 <= k < rules.exact().len() ==> !path_starts_with(path@, #[trigger] rules.exact()[k]),
            forall|k: int| 0 <= k < j ==> !regex_matches(#[trigger] rules.patterns()[k], text@),
        decreases rules.regex_dirs.len() - j,
    {
        assert(rules.patterns()[j as int] == rules.regex_dirs@[j as int].source());
        if regex_is_match(&rules.regex_dirs[j], text.as_str()) {
            return true;
        }
        j = j + 1;
    }
    false
}

// ─────────────────────────── file exclusion ───────────────────────────

/// Files left out of the index by name: dot files, and names matching a pattern.
#[derive(Clone, Debug)]
pub struct FileExcludeRules {
    pub exclude_dot_files: bool,
    pub file_patterns: Vec<CompiledRegex>,
}

impl FileExcludeRules {
    pub open spec fn patterns(&self) -> Seq<Seq<char>> {
        self.file_patterns@.map_values(|c: CompiledRegex| c.source())
    }

    /// Rules that exclude no file.
    pub fn empty() -> (r: Self)
        ensures
            !r.exclude_dot_files,
            r.patterns() == Seq::<Seq<char>>::empty(),
    {
        let r = Self { exclude_dot_files: false, file_patterns: Vec::new() };
        assert(r.patterns() =~= Seq::<Seq<char>>::empty());
        r
    }
}

pub fn compile_file_exclude_rules(exclude_dot_files: bool, file_patterns: &[String]) -> (r:
    FileExcludeRules)
    ensures
        r.exclude_dot_files == exclude_dot_files,
        r.patterns() == compiled_sources(sanitized(views(file_patterns@))),
{
    let compiled = compile_rule_list(file_patterns);
    FileExcludeRules { exclude_dot_files, file_patterns: compiled }
}

/// File-level exclusion looks at the file name only and never at directories:
/// a dot file when those are excluded, or a lower-cased name matching a pattern.
pub open spec fn file_excluded(
    exclude_dot_files: bool,
    patterns: Seq<Seq<char>>,
    path: Seq<char>,
    is_dir: bool,
) -> bool {
    !is_dir && match file_name(path) {
        Some(name) => (exclude_dot_files && has_prefix(name, seq!['.'])) || (exists|k: int|
            0 <= k < patterns.len() && regex_matches(#[trigger] patterns[k], lowercase(name))),
        None => false,
    }
}

/// Check whether a file should be excluded by file-level rules.
/// Only checks file name (not full path). Returns false for directories
/// (directory exclusion is handled by `is_excluded`).
pub fn is_file_excluded(path: &str, is_dir: bool, rules: &FileExcludeRules) -> (r: bool)
    ensures
        r == file_excluded(rules.exclude_dot_files, rules.patterns(), path@, is_dir),
{
    if is_dir {
        return false;
    }
    let name = match file_name_str(path) {
        Some(n) => n,
        None => return false,
    };
    let dot = single('.');
    if rules.exclude_dot_files && starts_with_seq(&chars_of(name.as_str()), &dot) {
        return true;
    }
    if rules.file_patterns.len() > 0 {
        let name_lower = to_lowercase(name.as_str());
        let mut j: usize = 0;
        while j < rules.file_patterns.len()
            invariant
                j <= rules.file_patterns.len(),
                name_lower@ == lowercase(name@),
                file_name(path@) == Some(name@),
                !is_dir,
                forall|k: int| 0 <= k < j ==> !regex_matches(#[trigger] rules.patterns()[k], name_lower@),
            decreases rules.file_patterns.len() - j,
        {
            assert(rules.patterns()[j as int] == rules.file_patterns@[j as int].source());
            if regex_is_match(&rules.file_patterns[j], name_lower.as_str()) {
                assert(rules.patterns().len() == rules.file_patterns@.len());
                assert(regex_matches(rules.patterns()[j as int], lowercase(name@)));
                assert(file_name(path@) == Some(name@));
                return true;
            }
            j = j + 1;
        }
    }
    false
}

/// Whether a directory is a dot-directory (for filter_entry optimization).
pub fn is_dot_dir(path: &str, is_dir: bool) -> (r: bool)
    ensures
        r == (is_dir && match file_name(path@) {
            Some(name) => has_prefix(name, seq!['.']),
            None => false,
        }),
{
    if !is_dir {
        return false;
    }
    match file_name_str(path) {
        Some(n) => starts_with_seq(&chars_of(n.as_str()), &single('.')),
        None => false,
    }
}

} // verus!
