//! The search engine's decisions: turning index rows into result paths,
//! filtering and ordering them, and the watch-root and volume bookkeeping.
use vstd::prelude::*;

use crate::filters::{pattern_ok, sanitize_owned_rules, sanitize_roots, sanitized, sanitized_roots, validate_pattern_rules};
use crate::model::SortKey;
use crate::paths::{component_texts, comps, extension, extension_chars, file_name, file_name_chars, path_starts_with, path_starts_with_exec};
use crate::sorting::{TextKey, is_stable_order, stable_order};
use crate::strings::{lemma_views_push, views};
use crate::text::{append_str, chars_of, clone_string, has_infix, lowercase, occurs_at, owned, push_char, split_ws, str_contains, str_eq, string_of, to_lowercase, ws_tokens};

verus! {

// ─────────────────────────── result paths ───────────────────────────

/// The full path of an entry `name` in directory `dir`.
pub open spec fn joined(dir: Seq<char>, name: Seq<char>) -> Seq<char> {
    if dir == seq!['/'] {
        seq!['/'] + name
    } else {
        dir + seq!['/'] + name
    }
}

pub fn full_path(dir: &str, name: &str) -> (r: String)
    ensures
        r@ == joined(dir@, name@),
{
    let is_root = str_eq(dir, "/");
    proof {
        reveal_strlit("/");
        assert("/"@ =~= seq!['/']);
    }
    if is_root {
        let mut r = String::new();
        push_char(&mut r, '/');
        append_str(&mut r, name);
        assert(r@ =~= joined(dir@, name@));
        r
    } else {
        let mut r = owned(dir);
        push_char(&mut r, '/');
        append_str(&mut r, name);
        assert(r@ =~= joined(dir@, name@));
        r
    }
}

pub open spec fn prefix_ok(path: Seq<char>, prefix: Option<Seq<char>>) -> bool {
    match prefix {
        Some(p) => path_starts_with(path, p),
        None => true,
    }
}

pub open spec fn opt_view(o: Option<String>) -> Option<Seq<char>> {
    match o {
        Some(s) => Some(s@),
        None => None,
    }
}

/// Whether `path` lies under the requested search prefix.
pub fn prefix_allowed(path: &str, prefix: &Option<String>) -> (r: bool)
    ensures
        r == prefix_ok(path@, opt_view(*prefix)),
{
    match prefix {
        Some(p) => path_starts_with_exec(path, p.as_str()),
        None => true,
    }
}

/// Whether an entry of the given type is wanted: everything when both kinds
/// are asked for, else only the kind asked for.
pub fn include_allowed(include_files: bool, include_dirs: bool, is_file: bool, is_dir: bool) -> (r:
    bool)
    ensures
        r == if include_files && include_dirs {
            true
        } else if include_files {
            is_file
        } else if include_dirs {
            is_dir
        } else {
            false
        },
{
    if include_files && include_dirs {
        return true;
    }
    if include_files {
        return is_file;
    }
    if include_dirs {
        return is_dir;
    }
    false
}

/// The full paths of `rows` (directory, name) that lie under `prefix`, in order.
pub open spec fn candidates(rows: Seq<(Seq<char>, Seq<char>)>, prefix: Option<Seq<char>>) -> Seq<
    Seq<char>,
>
    decreases rows.len(),
{
    if rows.len() == 0 {
        Seq::empty()
    } else {
        let prev = candidates(rows.drop_last(), prefix);
        let p = joined(rows.last().0, rows.last().1);
        if prefix_ok(p, prefix) {
            prev.push(p)
        } else {
            prev
        }
    }
}

pub open spec fn row_views(rows: Seq<(String, String)>) -> Seq<(Seq<char>, Seq<char>)> {
    rows.map_values(|r: (String, String)| (r.0@, r.1@))
}

/// Turns index rows into full paths, keeping those under the search prefix.
pub fn candidate_paths(rows: &Vec<(String, String)>, prefix: &Option<String>) -> (out: Vec<String>)
    ensures
        views(out@) == candidates(row_views(rows@), opt_view(*prefix)),
{
    let ghost rv = row_views(rows@);
    let mut out: Vec<String> = Vec::new();
    let mut i: usize = 0;
    while i < rows.len()
        invariant
            i <= rows.len(),
            rv == row_views(rows@),
            views(out@) == candidates(rv.take(i as int), opt_view(*prefix)),
        decreases rows.len() - i,
    {
        assert(rv.take(i + 1).drop_last() =~= rv.take(i as int));
        assert(rv.take(i + 1).last() == (rows@[i as int].0@, rows@[i as int].1@));
        let p = full_path(rows[i].0.as_str(), rows[i].1.as_str());
        if prefix_allowed(p.as_str(), prefix) {
            proof {
                lemma_views_push(out@, p);
            }
            out.push(p);
        }
        i = i + 1;
    }
    assert(rv.take(rows.len() as int) =~= rv);
    out
}

/// The entries of `items` whose flag in `keep` is set, in order.
pub open spec fn kept(items: Seq<Seq<char>>, keep: Seq<bool>) -> Seq<Seq<char>>
    decreases items.len(),
{
    if items.len() == 0 || keep.len() != items.len() {
        Seq::empty()
    } else {
        let prev = kept(items.drop_last(), keep.drop_last());
        if keep.last() {
            prev.push(items.last())
        } else {
            prev
        }
    }
}

pub fn keep_flagged(items: Vec<String>, keep: &Vec<bool>) -> (out: Vec<String>)
    requires
        items.len() == keep.len(),
    ensures
        views(out@) == kept(views(items@), keep@),
{
    let ghost iv = views(items@);
    let mut out: Vec<String> = Vec::new();
    let mut i: usize = 0;
    while i < items.len()
        invariant
            i <= items.len(),
            items.len() == keep.len(),
            iv == views(items@),
            views(out@) == kept(iv.take(i as int), keep@.take(i as int)),
        decreases items.len() - i,
    {
        assert(iv.take(i + 1).drop_last() =~= iv.take(i as int));
        assert(keep@.take(i + 1).drop_last() =~= keep@.take(i as int));
        assert(iv.take(i + 1).last() == items@[i as int]@);
        if keep[i] {
            let s = clone_string(&items[i]);
            proof {
                lemma_views_push(out@, s);
            }
            out.push(s);
        }
        i = i + 1;
    }
    assert(iv.take(items.len() as int) =~= iv);
    assert(keep@.take(items.len() as int) =~= keep@);
    out
}

/// At most `limit` results, the first ones.
pub fn truncate_results(mut v: Vec<String>, limit: usize) -> (r: Vec<String>)
    ensures
        limit <= v.len() ==> r@ == v@.subrange(0, limit as int),
        limit > v.len() ==> r@ == v@,
{
    v.truncate(limit);
    v
}

// ─────────────────────────── limits ───────────────────────────

pub open spec fn needs_meta_sort(key: SortKey) -> bool {
    key == SortKey::Size || key == SortKey::Modified
}

/// How many rows to fetch for `limit` results: room for filtered-out rows,
/// and more when results are re-sorted by size or time.
pub fn fetch_limit(limit: usize, key: SortKey) -> (r: usize)
    requires
        limit * 3 <= usize::MAX,
    ensures
        r == if needs_meta_sort(key) {
            limit * 3
        } else {
            limit * 2
        },
{
    if key == SortKey::Size || key == SortKey::Modified {
        limit * 3
    } else {
        limit * 2
    }
}

/// The result limit when none is given.
pub fn effective_limit(limit: Option<usize>) -> (r: usize)
    ensures
        r == match limit {
            Some(l) => l,
            None => 500,
        },
{
    match limit {
        Some(l) => l,
        None => 500,
    }
}

// ─────────────────────────── pattern pre-filter ───────────────────────────

pub open spec fn is_wild(c: char) -> bool {
    c == '*' || c == '?' || c == '{' || c == '}' || c == ',' || c == '[' || c == ']' || c == '\\'
}

/// The UTF-8 length of a text, as `str::len` reports it.
pub open spec fn byte_len(s: Seq<char>) -> usize {
    vstd::utf8::encode_utf8(s).len() as usize
}

/// Scanning a pattern: `best` is the longest (in bytes, first of equals)
/// finished literal run, `cur` the run under way.
pub open spec fn literal_scan(p: Seq<char>, best: Seq<char>, cur: Seq<char>) -> Seq<char>
    decreases p.len(),
{
    if p.len() == 0 {
        if byte_len(cur) > byte_len(best) {
            cur
        } else {
            best
        }
    } else if is_wild(p[0]) {
        literal_scan(
            p.drop_first(),
            if byte_len(cur) > byte_len(best) {
                cur
            } else {
                best
            },
            Seq::empty(),
        )
    } else {
        literal_scan(p.drop_first(), best, cur.push(p[0]))
    }
}

/// The longest run of the pattern without wildcard characters (counted in
/// bytes; the first of equally long runs), used to narrow the index query.
pub open spec fn longest_literal(p: Seq<char>) -> Seq<char> {
    literal_scan(p, Seq::empty(), Seq::empty())
}

/// Whether a wildcard pattern holds `{`, `}` or `,`, the characters that
/// the regex translation turns into a group or an alternation.
pub open spec fn has_alternatives(p: Seq<char>) -> bool {
    exists|i: int| 0 <= i < p.len() && (p[i] == '{' || p[i] == '}' || p[i] == ',')
}

/// The names a wildcard pattern without alternatives accepts, by the
/// documented rules: `**` any text (on one line, as the regex `.*` it
/// becomes reads it), `*` any run without `/`, `?` one character other than
/// `/`, and every other character itself.
pub open spec fn wildcard_accepts(p: Seq<char>, t: Seq<char>) -> bool
    decreases p.len(),
{
    if p.len() == 0 {
        t.len() == 0
    } else if p[0] == '*' && p.len() >= 2 && p[1] == '*' {
        exists|k: int|
            0 <= k <= t.len() && (forall|j: int| 0 <= j < k ==> t[j] != '\n') && wildcard_accepts(
                p.skip(2),
                #[trigger] t.skip(k),
            )
    } else if p[0] == '*' {
        exists|k: int|
            0 <= k <= t.len() && (forall|j: int| 0 <= j < k ==> t[j] != '/') && wildcard_accepts(
                p.skip(1),
                #[trigger] t.skip(k),
            )
    } else if p[0] == '?' {
        t.len() >= 1 && t[0] != '/' && wildcard_accepts(p.skip(1), t.skip(1))
    } else {
        t.len() >= 1 && t[0] == p[0] && wildcard_accepts(p.skip(1), t.skip(1))
    }
}

pub proof fn lemma_no_alternatives_skip(p: Seq<char>, n: int)
    requires
        !has_alternatives(p),
        0 <= n <= p.len(),
    ensures
        !has_alternatives(p.skip(n)),
{
    if has_alternatives(p.skip(n)) {
        let i = choose|i: int|
            0 <= i < p.skip(n).len() && (p.skip(n)[i] == '{' || p.skip(n)[i] == '}' || p.skip(n)[i]
                == ',');
        assert(p[i + n] == p.skip(n)[i]);
    }
}

/// Scanning the rest of a pattern against the rest of a text: when `best`
/// occurs in the text and `cur` ends where the rest begins, the run the scan
/// picks occurs in the text.
proof fn lemma_literal_scan_occurs(
    p: Seq<char>,
    best: Seq<char>,
    cur: Seq<char>,
    text: Seq<char>,
    pos: int,
)
    requires
        !has_alternatives(p),
        0 <= pos <= text.len(),
        wildcard_accepts(p, text.skip(pos)),
        has_infix(text, best),
        cur.len() <= pos,
        text.subrange(pos - cur.len(), pos) == cur,
    ensures
        has_infix(text, literal_scan(p, best, cur)),
    decreases p.len(),
{
    assert(occurs_at(text, cur, pos - cur.len()));
    let rest = text.skip(pos);
    let picked = if byte_len(cur) > byte_len(best) {
        cur
    } else {
        best
    };
    assert(has_infix(text, picked));
    let empty = Seq::<char>::empty();
    assert(text.subrange(pos, pos) =~= empty);
    assert(text.subrange(0, 0) =~= empty);
    assert(occurs_at(text, empty, 0));
    if p.len() == 0 {
    } else if p[0] == '*' && p.len() >= 2 && p[1] == '*' {
        let k = choose|k: int| 0 <= k <= rest.len() && wildcard_accepts(p.skip(2), #[trigger] rest.skip(k));
        assert(rest.skip(k) =~= text.skip(pos + k));
        let q = p.drop_first();
        assert(q.drop_first() =~= p.skip(2));
        lemma_no_alternatives_skip(p, 2);
        let picked2 = if byte_len(empty) > byte_len(picked) {
            empty
        } else {
            picked
        };
        assert(has_infix(text, picked2));
        assert(text.subrange(pos + k, pos + k) =~= empty);
        lemma_literal_scan_occurs(q.drop_first(), picked2, empty, text, pos + k);
        assert(literal_scan(p, best, cur) == literal_scan(q, picked, empty));
        assert(literal_scan(q, picked, empty) == literal_scan(q.drop_first(), picked2, empty));
    } else if p[0] == '*' {
        let k = choose|k: int|
            0 <= k <= rest.len() && (forall|j: int| 0 <= j < k ==> rest[j] != '/') && wildcard_accepts(
                p.skip(1),
                #[trigger] rest.skip(k),
            );
        assert(rest.skip(k) =~= text.skip(pos + k));
        assert(p.skip(1) =~= p.drop_first());
        lemma_no_alternatives_skip(p, 1);
        assert(text.subrange(pos + k, pos + k) =~= empty);
        lemma_literal_scan_occurs(p.drop_first(), picked, empty, text, pos + k);
    } else if p[0] == '?' || is_wild(p[0]) {
        assert(p[0] != '{' && p[0] != '}' && p[0] != ',');
        assert(rest.skip(1) =~= text.skip(pos + 1));
        assert(p.skip(1) =~= p.drop_first());
        lemma_no_alternatives_skip(p, 1);
        assert(text.subrange(pos + 1, pos + 1) =~= empty);
        lemma_literal_scan_occurs(p.drop_first(), picked, empty, text, pos + 1);
    } else {
        assert(rest.skip(1) =~= text.skip(pos + 1));
        assert(p.skip(1) =~= p.drop_first());
        assert(rest[0] == text[pos]);
        lemma_no_alternatives_skip(p, 1);
        assert(text.subrange(pos + 1 - (cur.len() + 1), pos + 1) =~= cur.push(p[0]));
        lemma_literal_scan_occurs(p.drop_first(), best, cur.push(p[0]), text, pos + 1);
    }
}

/// The wildcard pre-filter drops no match: a name that a pattern without
/// alternatives accepts holds the pattern's longest literal run.
pub proof fn lemma_pattern_prefilter_keeps_matches(p: Seq<char>, name: Seq<char>)
    requires
        !has_alternatives(p),
        wildcard_accepts(p, name),
    ensures
        has_infix(name, longest_literal(p)),
{
    let empty = Seq::<char>::empty();
    assert(name.skip(0) =~= name);
    assert(name.subrange(0, 0) =~= empty);
    assert(occurs_at(name, empty, 0));
    lemma_literal_scan_occurs(p, empty, empty, name, 0);
}

/// Extract the longest literal (non-wildcard) fragment from a pattern for DB pre-filtering.
pub fn extract_literal(pattern: &str) -> (r: String)
    ensures
        r@ == longest_literal(pattern@),
{
    let p = chars_of(pattern);
    let mut best = String::new();
    let mut current = String::new();
    let mut i: usize = 0;
    assert(p@.skip(0) == p@);
    while i < p.len()
        invariant
            i <= p.len(),
            p@ == pattern@,
            literal_scan(p@.skip(i as int), best@, current@) == longest_literal(pattern@),
        decreases p.len() - i,
    {
        let ch = p[i];
        assert(p@.skip(i as int).drop_first() == p@.skip(i + 1));
        assert(p@.skip(i as int)[0] == ch);
        if ch == '*' || ch == '?' || ch == '{' || ch == '}' || ch == ',' || ch == '[' || ch == ']'
            || ch == '\\' {
            if current.as_str().len() > best.as_str().len() {
                best = clone_string(&current);
            }
            current = String::new();
        } else {
            push_char(&mut current, ch);
        }
        i = i + 1;
    }
    assert(p@.skip(p.len() as int) == Seq::<char>::empty());
    if current.as_str().len() > best.as_str().len() {
        best = current;
    }
    best
}

/// The LIKE pattern that narrows a wildcard search: `%` alone when the
/// pattern has alternatives (a name may match any one of them); else the
/// longest literal run (lower-cased unless case matters) between `%`s when it
/// has two bytes or more, else `%` alone.
pub open spec fn pattern_like(query: Seq<char>, case_sensitive: bool) -> Seq<char> {
    let frag = longest_literal(query);
    if has_alternatives(query) {
        seq!['%']
    } else if byte_len(frag) >= 2 {
        seq!['%'] + (if case_sensitive {
            frag
        } else {
            lowercase(frag)
        }) + seq!['%']
    } else {
        seq!['%']
    }
}

pub fn pattern_like_filter(query: &str, case_sensitive: bool) -> (r: String)
    ensures
        r@ == pattern_like(query@, case_sensitive),
{
    let p = chars_of(query);
    let mut alternatives = false;
    let mut i: usize = 0;
    while i < p.len()
        invariant
            i <= p.len(),
            p@ == query@,
            alternatives == exists|j: int|
                0 <= j < i && (p@[j] == '{' || p@[j] == '}' || p@[j] == ','),
        decreases p.len() - i,
    {
        let c = p[i];
        if c == '{' || c == '}' || c == ',' {
            alternatives = true;
        }
        i = i + 1;
    }
    if alternatives {
        let mut r = String::new();
        push_char(&mut r, '%');
        assert(r@ =~= pattern_like(query@, case_sensitive));
        return r;
    }
    let fragment = extract_literal(query);
    if fragment.as_str().len() >= 2 {
        let mut r = String::new();
        push_char(&mut r, '%');
        if case_sensitive {
            append_str(&mut r, fragment.as_str());
        } else {
            let l = to_lowercase(fragment.as_str());
            append_str(&mut r, l.as_str());
        }
        push_char(&mut r, '%');
        assert(r@ =~= pattern_like(query@, case_sensitive));
        r
    } else {
        let mut r = String::new();
        push_char(&mut r, '%');
        assert(r@ =~= pattern_like(query@, case_sensitive));
        r
    }
}

/// The text a wildcard regex is matched against: the name, lower-cased
/// unless case matters.
pub fn pattern_target(name: &str, case_sensitive: bool) -> (r: String)
    ensures
        r@ == if case_sensitive {
            name@
        } else {
            lowercase(name@)
        },
{
    if case_sensitive {
        owned(name)
    } else {
        to_lowercase(name)
    }
}

/// The rows whose name (lower-cased unless case matters) the compiled
/// pattern `source` matches, as full paths, keeping those under the prefix.
pub open spec fn pattern_hits(
    rows: Seq<(Seq<char>, Seq<char>)>,
    source: Seq<char>,
    case_sensitive: bool,
    prefix: Option<Seq<char>>,
) -> Seq<Seq<char>>
    decreases rows.len(),
{
    if rows.len() == 0 {
        Seq::empty()
    } else {
        let prev = pattern_hits(rows.drop_last(), source, case_sensitive, prefix);
        let row = rows.last();
        let target = if case_sensitive {
            row.1
        } else {
            lowercase(row.1)
        };
        let p = joined(row.0, row.1);
        if crate::regex_support::regex_matches(source, target) && prefix_ok(p, prefix) {
            prev.push(p)
        } else {
            prev
        }
    }
}

/// The wildcard search's filtering of the rows the index returned.
pub fn pattern_matches(
    rows: &Vec<(String, String)>,
    re: &crate::regex_support::CompiledRegex,
    case_sensitive: bool,
    prefix: &Option<String>,
) -> (out: Vec<String>)
    ensures
        views(out@) == pattern_hits(row_views(rows@), re.source(), case_sensitive, opt_view(*prefix)),
{
    let ghost rv = row_views(rows@);
    let mut out: Vec<String> = Vec::new();
    let mut i: usize = 0;
    while i < rows.len()
        invariant
            i <= rows.len(),
            rv == row_views(rows@),
            views(out@) == pattern_hits(rv.take(i as int), re.source(), case_sensitive, opt_view(*prefix)),
        decreases rows.len() - i,
    {
        assert(rv.take(i + 1).drop_last() =~= rv.take(i as int));
        assert(rv.take(i + 1).last() == (rows@[i as int].0@, rows@[i as int].1@));
        let target = pattern_target(rows[i].1.as_str(), case_sensitive);
        if crate::regex_support::regex_is_match(re, target.as_str()) {
            let p = full_path(rows[i].0.as_str(), rows[i].1.as_str());
            if prefix_allowed(p.as_str(), prefix) {
                proof {
                    lemma_views_push(out@, p);
                }
                out.push(p);
            }
        }
        i = i + 1;
    }
    assert(rv.take(rows.len() as int) =~= rv);
    out
}

/// The rows whose name (lower-cased unless case matters) holds every token,
/// as full paths, keeping those under the prefix.
pub open spec fn fuzzy_hits(
    rows: Seq<(Seq<char>, Seq<char>)>,
    tokens: Seq<Seq<char>>,
    case_sensitive: bool,
    prefix: Option<Seq<char>>,
) -> Seq<Seq<char>>
    decreases rows.len(),
{
    if rows.len() == 0 {
        Seq::empty()
    } else {
        let prev = fuzzy_hits(rows.drop_last(), tokens, case_sensitive, prefix);
        let row = rows.last();
        let target = if case_sensitive {
            row.1
        } else {
            lowercase(row.1)
        };
        let p = joined(row.0, row.1);
        if (forall|k: int| 0 <= k < tokens.len() ==> has_infix(target, #[trigger] tokens[k])) && prefix_ok(
            p,
            prefix,
        ) {
            prev.push(p)
        } else {
            prev
        }
    }
}

/// The fuzzy search's filtering of the candidate rows the index returned.
pub fn fuzzy_matches(
    rows: &Vec<(String, String)>,
    tokens: &Vec<String>,
    case_sensitive: bool,
    prefix: &Option<String>,
) -> (out: Vec<String>)
    ensures
        views(out@) == fuzzy_hits(row_views(rows@), views(tokens@), case_sensitive, opt_view(*prefix)),
{
    let ghost rv = row_views(rows@);
    let ghost tv = views(tokens@);
    let mut out: Vec<String> = Vec::new();
    let mut i: usize = 0;
    while i < rows.len()
        invariant
            i <= rows.len(),
            rv == row_views(rows@),
            tv == views(tokens@),
            views(out@) == fuzzy_hits(rv.take(i as int), tv, case_sensitive, opt_view(*prefix)),
        decreases rows.len() - i,
    {
        assert(rv.take(i + 1).drop_last() =~= rv.take(i as int));
        assert(rv.take(i + 1).last() == (rows@[i as int].0@, rows@[i as int].1@));
        let target = pattern_target(rows[i].1.as_str(), case_sensitive);
        let all = tokens_all_match(target.as_str(), tokens);
        assert(all == forall|k: int| 0 <= k < tv.len() ==> has_infix(target@, #[trigger] tv[k])) by {
            if all {
                assert forall|k: int| 0 <= k < tv.len() implies has_infix(target@, #[trigger] tv[k]) by {
                    assert(tv[k] == tokens@[k]@);
                }
            } else {
                let k = choose|k: int| 0 <= k < tokens@.len() && !has_infix(target@, #[trigger] tokens@[k]@);
                assert(tv[k] == tokens@[k]@);
            }
        }
        if all {
            let p = full_path(rows[i].0.as_str(), rows[i].1.as_str());
            if prefix_allowed(p.as_str(), prefix) {
                proof {
                    lemma_views_push(out@, p);
                }
                out.push(p);
            }
        }
        i = i + 1;
    }
    assert(rv.take(rows.len() as int) =~= rv);
    out
}

/// Every result a search lists lies under the requested path prefix, and is
/// the full path of one of the rows the index returned.
pub proof fn lemma_results_under_prefix(
    rows: Seq<(Seq<char>, Seq<char>)>,
    source: Seq<char>,
    tokens: Seq<Seq<char>>,
    case_sensitive: bool,
    prefix: Option<Seq<char>>,
)
    ensures
        forall|k: int|
            0 <= k < candidates(rows, prefix).len() ==> prefix_ok(#[trigger] candidates(rows, prefix)[k], prefix)
                && exists|j: int| 0 <= j < rows.len() && candidates(rows, prefix)[k] == joined(rows[j].0, rows[j].1),
        forall|k: int|
            0 <= k < pattern_hits(rows, source, case_sensitive, prefix).len() ==> prefix_ok(
                #[trigger] pattern_hits(rows, source, case_sensitive, prefix)[k],
                prefix,
            ) && exists|j: int|
                0 <= j < rows.len() && pattern_hits(rows, source, case_sensitive, prefix)[k] == joined(
                    rows[j].0,
                    rows[j].1,
                ),
        forall|k: int|
            0 <= k < fuzzy_hits(rows, tokens, case_sensitive, prefix).len() ==> prefix_ok(
                #[trigger] fuzzy_hits(rows, tokens, case_sensitive, prefix)[k],
                prefix,
            ) && exists|j: int|
                0 <= j < rows.len() && fuzzy_hits(rows, tokens, case_sensitive, prefix)[k] == joined(
                    rows[j].0,
                    rows[j].1,
                ),
    decreases rows.len(),
{
    if rows.len() > 0 {
        let prev = rows.drop_last();
        lemma_results_under_prefix(prev, source, tokens, case_sensitive, prefix);
        let n = rows.len() - 1;
        assert forall|j: int| 0 <= j < prev.len() implies prev[j] == rows[j] by {}
        let c = candidates(rows, prefix);
        assert forall|k: int| 0 <= k < c.len() implies prefix_ok(#[trigger] c[k], prefix) && exists|j: int|
            0 <= j < rows.len() && c[k] == joined(rows[j].0, rows[j].1) by {
            if k < candidates(prev, prefix).len() {
                let j = choose|j: int| 0 <= j < prev.len() && candidates(prev, prefix)[k] == joined(prev[j].0, prev[j].1);
                assert(rows[j] == prev[j]);
            } else {
                assert(c[k] == joined(rows[n].0, rows[n].1));
            }
        }
        let ph = pattern_hits(rows, source, case_sensitive, prefix);
        assert forall|k: int| 0 <= k < ph.len() implies prefix_ok(#[trigger] ph[k], prefix) && exists|j: int|
            0 <= j < rows.len() && ph[k] == joined(rows[j].0, rows[j].1) by {
            let pp = pattern_hits(prev, source, case_sensitive, prefix);
            if k < pp.len() {
                let j = choose|j: int| 0 <= j < prev.len() && pp[k] == joined(prev[j].0, prev[j].1);
                assert(rows[j] == prev[j]);
            } else {
                assert(ph[k] == joined(rows[n].0, rows[n].1));
            }
        }
        let fh = fuzzy_hits(rows, tokens, case_sensitive, prefix);
        assert forall|k: int| 0 <= k < fh.len() implies prefix_ok(#[trigger] fh[k], prefix) && exists|j: int|
            0 <= j < rows.len() && fh[k] == joined(rows[j].0, rows[j].1) by {
            let fp = fuzzy_hits(prev, tokens, case_sensitive, prefix);
            if k < fp.len() {
                let j = choose|j: int| 0 <= j < prev.len() && fp[k] == joined(prev[j].0, prev[j].1);
                assert(rows[j] == prev[j]);
            } else {
                assert(fh[k] == joined(rows[n].0, rows[n].1));
            }
        }
    }
}

// ─────────────────────────── fuzzy search tokens ───────────────────────────

/// The query a search works with: as typed when case matters, else lower-cased.
pub fn search_query(query: &str, case_sensitive: bool) -> (r: String)
    ensures
        r@ == if case_sensitive {
            query@
        } else {
            lowercase(query@)
        },
{
    if case_sensitive {
        owned(query)
    } else {
        to_lowercase(query)
    }
}

/// The tokens of a fuzzy query: its white-space separated words (of the
/// lower-cased query, each lower-cased again, unless case matters).
pub open spec fn fuzzy_token_list(query: Seq<char>, case_sensitive: bool) -> Seq<Seq<char>> {
    if case_sensitive {
        ws_tokens(query)
    } else {
        ws_tokens(lowercase(query)).map_values(|t: Seq<char>| lowercase(t))
    }
}

pub fn fuzzy_tokens(query: &str, case_sensitive: bool) -> (r: Vec<String>)
    ensures
        views(r@) == fuzzy_token_list(query@, case_sensitive),
{
    let q = search_query(query, case_sensitive);
    let words = split_ws(&chars_of(q.as_str()));
    let ghost wv = words@.map_values(|t: Vec<char>| t@);
    let mut out: Vec<String> = Vec::new();
    let mut i: usize = 0;
    while i < words.len()
        invariant
            i <= words.len(),
            wv == words@.map_values(|t: Vec<char>| t@),
            wv == ws_tokens(q@),
            q@ == if case_sensitive {
                query@
            } else {
                lowercase(query@)
            },
            views(out@) == if case_sensitive {
                wv.take(i as int)
            } else {
                wv.take(i as int).map_values(|t: Seq<char>| lowercase(t))
            },
        decreases words.len() - i,
    {
        let w = string_of(&words[i]);
        let t = if case_sensitive {
            w
        } else {
            to_lowercase(w.as_str())
        };
        proof {
            lemma_views_push(out@, t);
        }
        out.push(t);
        i = i + 1;
        assert(wv.take(i as int) =~= wv.take(i - 1).push(wv[i - 1]));
        assert(wv.take(i as int).map_values(|t: Seq<char>| lowercase(t)) =~= wv.take(i - 1).map_values(
            |t: Seq<char>| lowercase(t),
        ).push(lowercase(wv[i - 1])));
    }
    assert(wv.take(words.len() as int) =~= wv);
    out
}

/// Every token occurs in `name`.
pub fn tokens_all_match(name: &str, tokens: &Vec<String>) -> (r: bool)
    ensures
        r == forall|k: int| 0 <= k < tokens@.len() ==> has_infix(name@, #[trigger] tokens@[k]@),
{
    let mut i: usize = 0;
    while i < tokens.len()
        invariant
            i <= tokens.len(),
            forall|k: int| 0 <= k < i ==> has_infix(name@, #[trigger] tokens@[k]@),
        decreases tokens.len() - i,
    {
        if !str_contains(name, tokens[i].as_str()) {
            return false;
        }
        i = i + 1;
    }
    true
}

/// The token with the most characters (the last of equally long ones, as
/// `Iterator::max_by_key` picks).
pub open spec fn longest_token_index(tokens: Seq<Seq<char>>) -> int
    decreases tokens.len(),
{
    if tokens.len() <= 1 {
        0
    } else {
        let prev = longest_token_index(tokens.drop_last());
        if tokens.last().len() >= tokens[prev].len() {
            tokens.len() - 1
        } else {
            prev
        }
    }
}

pub proof fn lemma_longest_token_index_bound(tokens: Seq<Seq<char>>)
    ensures
        tokens.len() > 0 ==> 0 <= longest_token_index(tokens) < tokens.len(),
    decreases tokens.len(),
{
    if tokens.len() > 1 {
        lemma_longest_token_index_bound(tokens.drop_last());
    }
}

pub fn longest_token(tokens: &Vec<String>) -> (r: Option<String>)
    ensures
        tokens@.len() == 0 ==> r is None,
        tokens@.len() > 0 ==> (r matches Some(t) && t@ == tokens@[longest_token_index(views(tokens@))]@),
{
    if tokens.len() == 0 {
        return None;
    }
    let ghost tv = views(tokens@);
    let mut best: usize = 0;
    let mut best_len: usize = chars_of(tokens[0].as_str()).len();
    let mut i: usize = 1;
    while i < tokens.len()
        invariant
            1 <= i <= tokens.len(),
            tv == views(tokens@),
            best < i,
            best as int == longest_token_index(tv.take(i as int)),
            best_len == tokens@[best as int]@.len(),
        decreases tokens.len() - i,
    {
        proof {
            assert(tv.take(i + 1).drop_last() =~= tv.take(i as int));
            assert(tv.take(i + 1).last() == tokens@[i as int]@);
            assert(tv.take(i + 1)[best as int] == tokens@[best as int]@);
        }
        let l = chars_of(tokens[i].as_str()).len();
        if l >= best_len {
            best = i;
            best_len = l;
        }
        i = i + 1;
    }
    assert(tv.take(tokens.len() as int) =~= tv);
    Some(clone_string(&tokens[best]))
}

/// The first `n` characters of `s` (all of them when it is shorter).
pub fn char_prefix(s: &str, n: usize) -> (r: String)
    ensures
        r@ == if n <= s@.len() {
            s@.take(n as int)
        } else {
            s@
        },
{
    let v = chars_of(s);
    let end = if n <= v.len() {
        n
    } else {
        v.len()
    };
    let t = crate::text::slice_chars(&v, 0, end);
    assert(v@.subrange(0, end as int) == if n <= s@.len() {
        s@.take(n as int)
    } else {
        s@
    });
    string_of(&t)
}

// ─────────────────────────── ordering results ───────────────────────────

/// `items` rearranged by `order`.
pub fn reorder(items: &Vec<String>, order: &Vec<usize>) -> (r: Vec<String>)
    requires
        forall|k: int| 0 <= k < order@.len() ==> #[trigger] order@[k] < items@.len(),
    ensures
        r@.len() == order@.len(),
        forall|k: int| 0 <= k < order@.len() ==> (#[trigger] r@[k])@ == items@[order@[k] as int]@,
{
    let mut r: Vec<String> = Vec::new();
    let mut k: usize = 0;
    while k < order.len()
        invariant
            k <= order.len(),
            forall|j: int| 0 <= j < order@.len() ==> #[trigger] order@[j] < items@.len(),
            r@.len() == k,
            forall|j: int| 0 <= j < k ==> (#[trigger] r@[j])@ == items@[order@[j] as int]@,
        decreases order.len() - k,
    {
        let s = clone_string(&items[order[k]]);
        r.push(s);
        k = k + 1;
    }
    r
}

/// The paths stably sorted by their keys, ascending or descending.
pub fn order_paths<K: crate::sorting::OrderKey>(paths: &Vec<String>, keys: &Vec<K>, ascending: bool) -> (r: Vec<String>)
    requires
        paths.len() == keys.len(),
    ensures
        exists|order: Seq<usize>|
            is_stable_order(keys@, ascending, order) && r@.len() == order.len() && forall|k: int|
                0 <= k < order.len() ==> (#[trigger] r@[k])@ == paths@[order[k] as int]@,
{
    let order = stable_order(keys, ascending);
    let r = reorder(paths, &order);
    assert(is_stable_order(keys@, ascending, order@));
    r
}

/// Paths re-sorted by a metadata value each (size or modification time),
/// as read for them.
pub fn sort_by_metadata(paths: &Vec<String>, values: &Vec<u64>, ascending: bool) -> (r: Vec<String>)
    requires
        paths.len() == values.len(),
    ensures
        exists|order: Seq<usize>|
            is_stable_order(values@, ascending, order) && r@.len() == order.len() && forall|k: int|
                0 <= k < order.len() ==> (#[trigger] r@[k])@ == paths@[order[k] as int]@,
{
    order_paths(paths, values, ascending)
}

/// How a component sorts: the root first, then `.`, then `..`, then names
/// (as `std::path::Component` orders).
pub open spec fn comp_sort_text(c: Seq<char>) -> Seq<char> {
    if c == seq!['/'] {
        seq!['\u{1}']
    } else if c == seq!['.'] {
        seq!['\u{2}']
    } else if c == seq!['.', '.'] {
        seq!['\u{3}']
    } else {
        seq!['\u{4}'] + c
    }
}

fn comp_sort_chars(c: &Vec<char>) -> (r: Vec<char>)
    ensures
        r@ == comp_sort_text(c@),
{
    if crate::text::seq_eq(c, &crate::text::single('/')) {
        crate::text::single('\u{1}')
    } else if crate::text::seq_eq(c, &crate::text::single('.')) {
        crate::text::single('\u{2}')
    } else if crate::text::seq_eq(c, &crate::text::pair('.', '.')) {
        crate::text::single('\u{3}')
    } else {
        let mut r = crate::text::single('\u{4}');
        let mut i: usize = 0;
        while i < c.len()
            invariant
                i <= c.len(),
                r@ == seq!['\u{4}'] + c@.take(i as int),
            decreases c.len() - i,
        {
            r.push(c[i]);
            i = i + 1;
            assert(r@ =~= seq!['\u{4}'] + c@.take(i as int));
        }
        assert(c@.take(c.len() as int) =~= c@);
        r
    }
}

/// The key `PathBuf` ordering uses: its components, compared in turn.
pub fn path_sort_key(path: &str) -> (k: TextKey)
    ensures
        k.texts() == comps(path@).map_values(|c: Seq<char>| comp_sort_text(c)),
{
    let cs = component_texts(&chars_of(path));
    let ghost cv = cs@.map_values(|c: Vec<char>| c@);
    let mut parts: Vec<Vec<char>> = Vec::new();
    let mut i: usize = 0;
    while i < cs.len()
        invariant
            i <= cs.len(),
            cv == cs@.map_values(|c: Vec<char>| c@),
            cv == comps(path@),
            parts@.map_values(|p: Vec<char>| p@) == cv.take(i as int).map_values(
                |c: Seq<char>| comp_sort_text(c),
            ),
        decreases cs.len() - i,
    {
        let t = comp_sort_chars(&cs[i]);
        let ghost before = parts@;
        parts.push(t);
        i = i + 1;
        assert(parts@.map_values(|p: Vec<char>| p@) =~= before.map_values(|p: Vec<char>| p@).push(t@));
        assert(cv.take(i as int).map_values(|c: Seq<char>| comp_sort_text(c)) =~= cv.take(i - 1).map_values(
            |c: Seq<char>| comp_sort_text(c),
        ).push(comp_sort_text(cv[i - 1])));
    }
    assert(cv.take(cs.len() as int) =~= cv);
    TextKey { parts }
}

pub open spec fn or_empty(o: Option<Seq<char>>) -> Seq<char> {
    match o {
        Some(s) => s,
        None => Seq::empty(),
    }
}

fn single_part_key(v: Vec<char>) -> (k: TextKey)
    ensures
        k.texts() == seq![v@],
{
    let mut parts: Vec<Vec<char>> = Vec::new();
    let ghost vv = v@;
    parts.push(v);
    let k = TextKey { parts };
    assert(k.texts() =~= seq![vv]);
    k
}

/// The key name sorting uses: the file name (empty when there is none).
pub fn name_sort_key(path: &str) -> (k: TextKey)
    ensures
        k.texts() == seq![or_empty(file_name(path@))],
{
    let n = match file_name_chars(&chars_of(path)) {
        Some(v) => v,
        None => Vec::new(),
    };
    single_part_key(n)
}

/// The key type sorting uses: the extension (empty when there is none).
pub fn type_sort_key(path: &str) -> (k: TextKey)
    ensures
        k.texts() == seq![or_empty(extension(path@))],
{
    let n = match extension_chars(&chars_of(path)) {
        Some(v) => v,
        None => Vec::new(),
    };
    single_part_key(n)
}

/// The keys a list of paths is sorted by for a name, path or type sort.
pub open spec fn text_sort_key(key: SortKey, path: Seq<char>) -> Seq<Seq<char>> {
    match key {
        SortKey::Path => comps(path).map_values(|c: Seq<char>| comp_sort_text(c)),
        SortKey::Type => seq![or_empty(extension(path))],
        _ => seq![or_empty(file_name(path))],
    }
}

pub fn text_sort_keys(paths: &Vec<String>, key: SortKey) -> (keys: Vec<TextKey>)
    ensures
        keys@.len() == paths@.len(),
        forall|k: int| 0 <= k < paths@.len() ==> (#[trigger] keys@[k]).texts() == text_sort_key(key, paths@[k]@),
{
    let mut keys: Vec<TextKey> = Vec::new();
    let mut i: usize = 0;
    while i < paths.len()
        invariant
            i <= paths.len(),
            keys@.len() == i,
            forall|k: int| 0 <= k < i ==> (#[trigger] keys@[k]).texts() == text_sort_key(key, paths@[k]@),
        decreases paths.len() - i,
    {
        let k = match key {
            SortKey::Path => path_sort_key(paths[i].as_str()),
            SortKey::Type => type_sort_key(paths[i].as_str()),
            _ => name_sort_key(paths[i].as_str()),
        };
        keys.push(k);
        i = i + 1;
    }
    keys
}

proof fn lemma_last_dot_is_last(name: Seq<char>)
    ensures
        crate::paths::last_dot(name) matches Some(k) ==> forall|j: int| k < j < name.len() ==> name[j] != '.',
        crate::paths::last_dot(name) is None ==> forall|j: int| 0 <= j < name.len() ==> name[j] != '.',
    decreases name.len(),
{
    crate::paths::lemma_last_dot_bound(name);
    if name.len() > 0 && name.last() != '.' {
        let d = name.drop_last();
        lemma_last_dot_is_last(d);
        assert(crate::paths::last_dot(name) == crate::paths::last_dot(d));
        assert forall|j: int| 0 <= j < name.len() && (match crate::paths::last_dot(name) {
            Some(k) => k < j,
            None => true,
        }) implies name[j] != '.' by {
            if j < name.len() - 1 {
                assert(name[j] == d[j]);
            }
        }
    }
}

/// A type sort orders by extension alone: paths with the same extension get
/// the same key whatever their names, paths with different extensions get
/// different keys, a path without an extension gets the empty key, and the
/// key of a path with one is the text after the last `.` of its file name.
pub proof fn lemma_type_key_is_extension(a: Seq<char>, b: Seq<char>)
    ensures
        text_sort_key(SortKey::Type, a).len() == 1,
        extension(a) == extension(b) ==> text_sort_key(SortKey::Type, a) == text_sort_key(SortKey::Type, b),
        extension(a) is Some && extension(b) is Some && extension(a) != extension(b) ==> text_sort_key(
            SortKey::Type,
            a,
        ) != text_sort_key(SortKey::Type, b),
        extension(a) is None ==> text_sort_key(SortKey::Type, a)[0].len() == 0,
        extension(a) is Some ==> (file_name(a) matches Some(name) && crate::text::has_suffix(
            name,
            seq!['.'] + text_sort_key(SortKey::Type, a)[0],
        ) && !text_sort_key(SortKey::Type, a)[0].contains('.')),
{
    let ka = text_sort_key(SortKey::Type, a);
    let kb = text_sort_key(SortKey::Type, b);
    if extension(a) is Some && extension(b) is Some && extension(a) != extension(b) {
        assert(ka[0] != kb[0]);
    }
    if extension(a) is Some {
        let name = file_name(a)->0;
        let k = crate::paths::last_dot(name)->0;
        crate::paths::lemma_last_dot_bound(name);
        lemma_last_dot_is_last(name);
        let e = name.skip(k + 1);
        assert(ka[0] == e);
        assert(name.skip(name.len() - (e.len() + 1)) =~= seq!['.'] + e);
        assert forall|j: int| 0 <= j < e.len() implies e[j] != '.' by {
            assert(e[j] == name[k + 1 + j]);
        }
    }
}

// ─────────────────────────── watch roots ───────────────────────────

/// The roots watched when none are configured: the top-level directories,
/// or `/` when there are none.
pub fn default_watch_roots(root_dirs: Vec<String>) -> (r: Vec<String>)
    ensures
        root_dirs@.len() == 0 ==> views(r@) == seq![seq!['/']],
        root_dirs@.len() > 0 ==> r@ == root_dirs@,
{
    if root_dirs.len() == 0 {
        let mut r: Vec<String> = Vec::new();
        r.push(string_of(&crate::text::single('/')));
        assert(views(r@) =~= seq![seq!['/']]);
        r
    } else {
        root_dirs
    }
}

/// The configured roots, or the defaults when none are configured.
pub fn roots_or_default(roots: Vec<String>, defaults: Vec<String>) -> (r: Vec<String>)
    ensures
        roots@.len() == 0 ==> r@ == defaults@,
        roots@.len() > 0 ==> r@ == roots@,
{
    if roots.len() == 0 {
        defaults
    } else {
        roots
    }
}

/// The exclusion settings as they will be stored: both lists sanitized, and
/// refused when a pattern rule cannot be used.
pub fn prepare_exclude_dir_settings(exact_dirs: Vec<String>, pattern_dirs: Vec<String>) -> (r: Result<
    (Vec<String>, Vec<String>),
    String,
>)
    ensures
        r is Ok <==> forall|k: int|
            0 <= k < sanitized(views(pattern_dirs@)).len() ==> pattern_ok(
                #[trigger] sanitized(views(pattern_dirs@))[k],
            ),
        r matches Ok((e, p)) ==> views(e@) == sanitized(views(exact_dirs@)) && views(p@)
            == sanitized(views(pattern_dirs@)),
{
    let sanitized_exact = sanitize_owned_rules(exact_dirs);
    let sanitized_pattern = sanitize_owned_rules(pattern_dirs);
    match validate_pattern_rules(sanitized_pattern.as_slice()) {
        Ok(()) => {
            assert forall|k: int| 0 <= k < sanitized(views(pattern_dirs@)).len() implies pattern_ok(
                #[trigger] sanitized(views(pattern_dirs@))[k],
            ) by {
                assert(sanitized(views(pattern_dirs@))[k] == sanitized_pattern@[k]@);
            }
            Ok((sanitized_exact, sanitized_pattern))
        },
        Err(e) => {
            proof {
                let k = choose|k: int|
                    0 <= k < sanitized_pattern@.len() && !pattern_ok(#[trigger] sanitized_pattern@[k]@);
                assert(sanitized(views(pattern_dirs@))[k] == sanitized_pattern@[k]@);
            }
            Err(e)
        },
    }
}

/// Every rule of the list compiles.
pub open spec fn rules_usable(rules: Seq<Seq<char>>) -> bool {
    forall|k: int| 0 <= k < rules.len() ==> pattern_ok(#[trigger] rules[k])
}

/// The file exclusion settings as they will be stored: the dot-file switch
/// as given and the name patterns sanitized, refused when a pattern cannot be
/// used.
pub fn prepare_exclude_file_settings(exclude_dot_files: bool, file_patterns: Vec<String>) -> (r: Result<
    (bool, Vec<String>),
    String,
>)
    ensures
        r is Ok <==> rules_usable(sanitized(views(file_patterns@))),
        r matches Ok((d, p)) ==> d == exclude_dot_files && views(p@) == sanitized(views(file_patterns@)),
{
    let sanitized_patterns = sanitize_owned_rules(file_patterns);
    match validate_pattern_rules(sanitized_patterns.as_slice()) {
        Ok(()) => {
            assert forall|k: int| 0 <= k < sanitized(views(file_patterns@)).len() implies pattern_ok(
                #[trigger] sanitized(views(file_patterns@))[k],
            ) by {
                assert(sanitized(views(file_patterns@))[k] == sanitized_patterns@[k]@);
            }
            Ok((exclude_dot_files, sanitized_patterns))
        },
        Err(e) => {
            proof {
                let k = choose|k: int|
                    0 <= k < sanitized_patterns@.len() && !pattern_ok(#[trigger] sanitized_patterns@[k]@);
                assert(sanitized(views(file_patterns@))[k] == sanitized_patterns@[k]@);
            }
            Err(e)
        },
    }
}

/// The watch roots as stored: sanitized, keeping those that are existing
/// directories (`is_dir` answers that for each sanitized root, in order).
pub fn normalize_watch_roots(roots: Vec<String>, is_dir: &Vec<bool>) -> (r: Vec<String>)
    requires
        is_dir@.len() == sanitized_roots(views(roots@)).len(),
    ensures
        views(r@) == kept(sanitized_roots(views(roots@)), is_dir@),
{
    let s = sanitize_roots(roots);
    keep_flagged(s, is_dir)
}

// ─────────────────────────── mounted volumes ───────────────────────────

/// A volume the poller indexes: not the boot volume, not `System`, and not a
/// Time Machine snapshot.
pub open spec fn external_volume(path: Seq<char>) -> bool {
    let name = or_empty(file_name(path));
    name != "Macintosh HD"@ && name != "System"@ && !has_infix(path, "/.timemachine"@)
}

pub fn is_external_volume(path: &str) -> (r: bool)
    ensures
        r == external_volume(path@),
{
    let name = match file_name_chars(&chars_of(path)) {
        Some(v) => string_of(&v),
        None => String::new(),
    };
    !str_eq(name.as_str(), "Macintosh HD") && !str_eq(name.as_str(), "System") && !str_contains(
        path,
        "/.timemachine",
    )
}

/// The name shown for a volume: its file name, else the whole path.
pub fn volume_name(path: &str) -> (r: String)
    ensures
        r@ == match file_name(path@) {
            Some(n) => n,
            None => path@,
        },
{
    match file_name_chars(&chars_of(path)) {
        Some(v) => string_of(&v),
        None => owned(path),
    }
}

/// Entries of `a` that are external volumes and not in `b`, in `a`'s order.
pub open spec fn external_difference(a: Seq<Seq<char>>, b: Seq<Seq<char>>) -> Seq<Seq<char>> {
    a.filter(|x: Seq<char>| !b.contains(x) && external_volume(x))
}

/// The external volumes in `current` that were not in `known` (new mounts,
/// when called with the current and the known volumes; unmounts, the other
/// way round).
pub fn volume_difference(current: &Vec<String>, known: &Vec<String>) -> (r: Vec<String>)
    ensures
        views(r@) == external_difference(views(current@), views(known@)),
{
    let ghost cv = views(current@);
    let mut r: Vec<String> = Vec::new();
    let mut i: usize = 0;
    while i < current.len()
        invariant
            i <= current.len(),
            cv == views(current@),
            views(r@) == cv.take(i as int).filter(
                |x: Seq<char>| !views(known@).contains(x) && external_volume(x),
            ),
        decreases current.len() - i,
    {
        proof {
            assert(cv.take(i + 1).drop_last() =~= cv.take(i as int));
            assert(cv.take(i + 1).last() == current@[i as int]@);
            reveal_with_fuel(Seq::filter, 1);
        }
        if !crate::strings::contains_string(known, &current[i]) && is_external_volume(
            current[i].as_str(),
        ) {
            let s = clone_string(&current[i]);
            proof {
                lemma_views_push(r@, s);
            }
            r.push(s);
        }
        i = i + 1;
    }
    assert(cv.take(current.len() as int) =~= cv);
    r
}

/// What the volume poller reports to the user interface.
#[derive(Clone, Debug, PartialEq, Eq)]
pub enum VolumeEvent {
    MountDetected { path: String, name: String },
    IndexComplete { path: String, file_count: usize, total_indexed: usize },
    VolumeRemoved { path: String, name: String, total_indexed: usize },
}

} // verus!
