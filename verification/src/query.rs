//! The index queries: which SQL to run, with which parameters, for each
//! kind of search, and the keys rows are stored under.
use vstd::prelude::*;

use crate::text::{has_infix, occurs_at};
verus! {

/// A statement parameter.
#[derive(Clone, Debug)]
pub enum SqlParam {
    Text(String),
    Int(i64),
}

/// A statement and its parameters, in order.
#[derive(Clone, Debug)]
pub struct QueryPlan {
    pub sql: String,
    pub params: Vec<SqlParam>,
}

/// A parameter as plain values.
pub enum ParamView {
    Text(Seq<char>),
    Int(i64),
}

pub open spec fn param_view(p: SqlParam) -> ParamView {
    match p {
        SqlParam::Text(s) => ParamView::Text(s@),
        SqlParam::Int(i) => ParamView::Int(i),
    }
}

pub open spec fn params_view(ps: Seq<SqlParam>) -> Seq<ParamView> {
    ps.map_values(|p: SqlParam| param_view(p))
}

// ─────────────────────────── clauses ───────────────────────────

/// `s` with `%` and `_` escaped by a backslash, for a LIKE pattern.
pub open spec fn like_escape(s: Seq<char>) -> Seq<char>
    decreases s.len(),
{
    if s.len() == 0 {
        Seq::empty()
    } else {
        let prev = like_escape(s.drop_last());
        if s.last() == '%' || s.last() == '_' {
            prev.push('\\').push(s.last())
        } else {
            prev.push(s.last())
        }
    }
}

pub fn like_escape_exec(s: &str) -> (r: String)
    ensures
        r@ == like_escape(s@),
{
    let v = crate::text::chars_of(s);
    let mut r = String::new();
    let mut i: usize = 0;
    while i < v.len()
        invariant
            i <= v.len(),
            v@ == s@,
            r@ == like_escape(v@.take(i as int)),
        decreases v.len() - i,
    {
        assert(v@.take(i + 1).drop_last() =~= v@.take(i as int));
        if v[i] == '%' || v[i] == '_' {
            crate::text::push_char(&mut r, '\\');
        }
        crate::text::push_char(&mut r, v[i]);
        i = i + 1;
    }
    assert(v@.take(v.len() as int) =~= v@);
    r
}

pub open spec fn path_clause_sql() -> Seq<char> {
    " AND d.path LIKE ? ESCAPE '\\'"@
}

/// The path-prefix restriction: a clause and its LIKE parameter, or nothing.
pub open spec fn path_prefix_spec(prefix: Option<Seq<char>>) -> (Seq<char>, Option<Seq<char>>) {
    match prefix {
        Some(p) => if p.len() > 0 {
            (path_clause_sql(), Some(like_escape(p) + seq!['%']))
        } else {
            (Seq::empty(), None)
        },
        None => (Seq::empty(), None),
    }
}

pub open spec fn str_opt_view(o: Option<&str>) -> Option<Seq<char>> {
    match o {
        Some(s) => Some(s@),
        None => None,
    }
}


/// Returns (sql_clause, param_value) for path-prefix filtering, or empty if none.
pub fn path_prefix_clause(prefix: Option<&str>) -> (r: (String, Option<String>))
    ensures
        (r.0@, crate::engine::opt_view(r.1)) == path_prefix_spec(str_opt_view(prefix)),
{
    match prefix {
        Some(p) => {
            if !p.is_empty() {
                let mut param = like_escape_exec(p);
                crate::text::push_char(&mut param, '%');
                (crate::text::owned(" AND d.path LIKE ? ESCAPE '\\'"), Some(param))
            } else {
                (String::new(), None)
            }
        },
        None => (String::new(), None),
    }
}

/// `s` with each `'` doubled, for an SQL string literal.
pub open spec fn sql_quote(s: Seq<char>) -> Seq<char>
    decreases s.len(),
{
    if s.len() == 0 {
        Seq::empty()
    } else {
        let prev = sql_quote(s.drop_last());
        if s.last() == '\'' {
            prev.push('\'').push('\'')
        } else {
            prev.push(s.last())
        }
    }
}

pub fn sql_quote_exec(s: &str) -> (r: String)
    ensures
        r@ == sql_quote(s@),
{
    let v = crate::text::chars_of(s);
    let mut r = String::new();
    let mut i: usize = 0;
    while i < v.len()
        invariant
            i <= v.len(),
            v@ == s@,
            r@ == sql_quote(v@.take(i as int)),
        decreases v.len() - i,
    {
        assert(v@.take(i + 1).drop_last() =~= v@.take(i as int));
        if v[i] == '\'' {
            crate::text::push_char(&mut r, '\'');
        }
        crate::text::push_char(&mut r, v[i]);
        i = i + 1;
    }
    assert(v@.take(v.len() as int) =~= v@);
    r
}

/// One extension condition.
pub open spec fn ext_condition(ext: Seq<char>) -> Seq<char> {
    "f.name_lower LIKE '%."@ + sql_quote(ext) + "'"@
}

/// The extension conditions joined with ` OR `.
pub open spec fn ext_conditions(exts: Seq<Seq<char>>) -> Seq<char>
    decreases exts.len(),
{
    if exts.len() == 0 {
        Seq::empty()
    } else if exts.len() == 1 {
        ext_condition(exts[0])
    } else {
        ext_conditions(exts.drop_last()) + " OR "@ + ext_condition(exts.last())
    }
}

/// The extension filter: ` AND (cond OR cond ...)`, or nothing.
pub open spec fn extension_spec(exts: Option<Seq<Seq<char>>>) -> Seq<char> {
    match exts {
        Some(e) => if e.len() > 0 {
            " AND ("@ + ext_conditions(e) + ")"@
        } else {
            Seq::empty()
        },
        None => Seq::empty(),
    }
}

pub open spec fn exts_view(exts: Option<&[String]>) -> Option<Seq<Seq<char>>> {
    match exts {
        Some(e) => Some(crate::strings::views(e@)),
        None => None,
    }
}

/// Build an extension filter clause for SQL.
/// Returns SQL like ` AND (f.name_lower LIKE '%.pdf' OR f.name_lower LIKE '%.png')`.
pub fn extension_sql(extensions: Option<&[String]>) -> (r: String)
    ensures
        r@ == extension_spec(exts_view(extensions)),
{
    match extensions {
        Some(exts) => {
            if exts.len() == 0 {
                return String::new();
            }
            let ghost ev = crate::strings::views(exts@);
            let mut conds = String::new();
            let mut i: usize = 0;
            while i < exts.len()
                invariant
                    i <= exts.len(),
                    ev == crate::strings::views(exts@),
                    conds@ == ext_conditions(ev.take(i as int)),
                decreases exts.len() - i,
            {
                assert(ev.take(i + 1).drop_last() =~= ev.take(i as int));
                assert(ev.take(i + 1).last() == exts@[i as int]@);
                if i > 0 {
                    crate::text::append_str(&mut conds, " OR ");
                }
                let ghost before = conds@;
                crate::text::append_str(&mut conds, "f.name_lower LIKE '%.");
                let q = sql_quote_exec(exts[i].as_str());
                crate::text::append_str(&mut conds, q.as_str());
                crate::text::append_str(&mut conds, "'");
                if i == 0 {
                    assert(ev.take(1)[0] == exts@[0]@);
                    assert(conds@ =~= ext_condition(exts@[0]@));
                } else {
                    assert(conds@ =~= ext_conditions(ev.take(i as int)) + " OR "@ + ext_condition(
                        exts@[i as int]@,
                    ));
                }
                i = i + 1;
            }
            assert(ev.take(exts.len() as int) =~= ev);
            let mut r = crate::text::owned(" AND (");
            crate::text::append_str(&mut r, conds.as_str());
            crate::text::append_str(&mut r, ")");
            r
        },
        None => String::new(),
    }
}

/// The ORDER BY clause: by name then path, by path then name, or by the text
/// after the first `.` of the lower-cased name then name; size and time are
/// sorted after the fetch, so those fetch by name and path ascending.
pub open spec fn sort_spec(key: crate::model::SortKey, ascending: bool) -> Seq<char> {
    let dir = if ascending {
        "ASC"@
    } else {
        "DESC"@
    };
    match key {
        crate::model::SortKey::Name => "ORDER BY f.name_lower "@ + dir + ", d.path "@ + dir,
        crate::model::SortKey::Path => "ORDER BY d.path "@ + dir + ", f.name_lower "@ + dir,
        crate::model::SortKey::Type => "ORDER BY CASE WHEN INSTR(f.name_lower, '.') > 0 THEN SUBSTR(f.name_lower, INSTR(f.name_lower, '.') + 1) ELSE '' END "@
            + dir + ", f.name_lower "@ + dir,
        _ => "ORDER BY f.name_lower ASC, d.path ASC"@,
    }
}

/// Build an ORDER BY clause from sort key and direction.
pub fn sort_clause(key: crate::model::SortKey, ascending: bool) -> (r: String)
    ensures
        r@ == sort_spec(key, ascending),
{
    let dir: &str = if ascending {
        "ASC"
    } else {
        "DESC"
    };
    let (first, second): (&str, &str) = match key {
        crate::model::SortKey::Name => ("ORDER BY f.name_lower ", ", d.path "),
        crate::model::SortKey::Path => ("ORDER BY d.path ", ", f.name_lower "),
        crate::model::SortKey::Type => (
            "ORDER BY CASE WHEN INSTR(f.name_lower, '.') > 0 THEN SUBSTR(f.name_lower, INSTR(f.name_lower, '.') + 1) ELSE '' END ",
            ", f.name_lower ",
        ),
        _ => {
            return crate::text::owned("ORDER BY f.name_lower ASC, d.path ASC");
        },
    };
    let mut r = crate::text::owned(first);
    crate::text::append_str(&mut r, dir);
    crate::text::append_str(&mut r, second);
    crate::text::append_str(&mut r, dir);
    r
}

// ─────────────────────────── statements ───────────────────────────

pub open spec fn select_files() -> Seq<char> {
    "SELECT d.path, f.name FROM files f JOIN dirs d ON d.id = f.dir_id WHERE "@
}

pub open spec fn select_fts() -> Seq<char> {
    "SELECT d.path, f.name FROM files_fts JOIN files f ON f.id = files_fts.rowid JOIN dirs d ON d.id = f.dir_id WHERE "@
}

/// A statement: its head and condition, then the path and extension
/// clauses, the ORDER BY clause, and the LIMIT.
pub open spec fn statement(head: Seq<char>, cond: Seq<char>, path_clause: Seq<char>, ext_clause: Seq<char>, sort: Seq<char>) -> Seq<char> {
    head + cond + path_clause + ext_clause + " "@ + sort + " LIMIT ?"@
}

/// The parameters: the leading ones, the path parameter when present, then
/// the limit.
pub open spec fn with_tail(lead: Seq<ParamView>, path_param: Option<Seq<char>>, limit: i64) -> Seq<ParamView> {
    match path_param {
        Some(p) => lead.push(ParamView::Text(p)).push(ParamView::Int(limit)),
        None => lead.push(ParamView::Int(limit)),
    }
}

fn build_statement(head: &str, cond: &str, path_clause: &String, ext_clause: &String, sort: &String) -> (r: String)
    ensures
        r@ == statement(head@, cond@, path_clause@, ext_clause@, sort@),
{
    let mut r = crate::text::owned(head);
    crate::text::append_str(&mut r, cond);
    crate::text::append_str(&mut r, path_clause.as_str());
    crate::text::append_str(&mut r, ext_clause.as_str());
    crate::text::append_str(&mut r, " ");
    crate::text::append_str(&mut r, sort.as_str());
    crate::text::append_str(&mut r, " LIMIT ?");
    r
}

fn finish_params(mut lead: Vec<SqlParam>, path_param: Option<String>, limit: i64) -> (r: Vec<SqlParam>)
    ensures
        params_view(r@) == with_tail(params_view(lead@), crate::engine::opt_view(path_param), limit),
{
    let ghost before = lead@;
    match path_param {
        Some(p) => {
            lead.push(SqlParam::Text(p));
            lead.push(SqlParam::Int(limit));
        },
        None => {
            lead.push(SqlParam::Int(limit));
        },
    }
    assert(params_view(lead@) =~= with_tail(params_view(before), crate::engine::opt_view(path_param), limit));
    lead
}

/// A name query falls back from the trigram index to LIKE/GLOB when the
/// trimmed query has fewer than three characters, or holds anything but
/// ASCII letters and digits (the trigram tokenizer misses those).
pub open spec fn needs_fallback(q: Seq<char>) -> bool {
    q.len() < 3 || !(forall|i: int| 0 <= i < q.len() ==> crate::text::is_ascii_alnum(#[trigger] q[i]))
}

pub fn needs_fallback_exec(q: &Vec<char>) -> (r: bool)
    ensures
        r == needs_fallback(q@),
{
    if q.len() < 3 {
        return true;
    }
    let mut i: usize = 0;
    while i < q.len()
        invariant
            i <= q.len(),
            forall|k: int| 0 <= k < i ==> crate::text::is_ascii_alnum(#[trigger] q@[k]),
        decreases q.len() - i,
    {
        let c = q[i];
        if !(('0' <= c && c <= '9') || ('a' <= c && c <= 'z') || ('A' <= c && c <= 'Z')) {
            return true;
        }
        i = i + 1;
    }
    false
}

/// The plan for a name search (the substring search mode).
pub open spec fn fts_plan(
    query: Seq<char>,
    case_sensitive: bool,
    prefix: Option<Seq<char>>,
    exts: Option<Seq<Seq<char>>>,
    key: crate::model::SortKey,
    ascending: bool,
    limit: usize,
) -> Option<(Seq<char>, Seq<ParamView>)> {
    let q = crate::text::trim(query);
    let (path_clause, path_param) = path_prefix_spec(prefix);
    let ext_clause = extension_spec(exts);
    let sort = sort_spec(key, ascending);
    let lim = limit as i64;
    if q.len() == 0 || limit == 0 {
        None
    } else if needs_fallback(q) {
        let match_all = q == seq!['*'];
        if case_sensitive {
            let pattern = if match_all {
                seq!['*']
            } else {
                seq!['*'] + q + seq!['*']
            };
            Some((statement(select_files(), "f.name GLOB ?"@, path_clause, ext_clause, sort), with_tail(seq![ParamView::Text(pattern)], path_param, lim)))
        } else {
            let pattern = if match_all {
                seq!['%']
            } else {
                seq!['%'] + crate::text::lowercase(q) + seq!['%']
            };
            Some((statement(select_files(), "f.name_lower LIKE ?"@, path_clause, ext_clause, sort), with_tail(seq![ParamView::Text(pattern)], path_param, lim)))
        }
    } else if case_sensitive {
        Some((statement(select_fts(), "files_fts MATCH ? AND f.name GLOB ?"@, path_clause, ext_clause, sort), with_tail(seq![ParamView::Text(crate::text::lowercase(q)), ParamView::Text(seq!['*'] + q + seq!['*'])], path_param, lim)))
    } else {
        Some((statement(select_fts(), "files_fts MATCH ?"@, path_clause, ext_clause, sort), with_tail(seq![ParamView::Text(q)], path_param, lim)))
    }
}

pub open spec fn plan_view(p: Option<QueryPlan>) -> Option<(Seq<char>, Seq<ParamView>)> {
    match p {
        Some(plan) => Some((plan.sql@, params_view(plan.params@))),
        None => None,
    }
}

fn wrap(c: char, s: &Vec<char>) -> (r: String)
    ensures
        r@ == seq![c] + s@ + seq![c],
{
    let mut r = String::new();
    crate::text::push_char(&mut r, c);
    let t = crate::text::string_of(s);
    crate::text::append_str(&mut r, t.as_str());
    crate::text::push_char(&mut r, c);
    assert(r@ =~= seq![c] + s@ + seq![c]);
    r
}

/// Search via FTS5 trigram; the query yields (dir_path, file_name) pairs.
/// Falls back to LIKE/GLOB for short / non-alphanumeric queries.
pub fn search_fts_plan(
    query: &str,
    case_sensitive: bool,
    path_prefix: Option<&str>,
    extensions: Option<&[String]>,
    sort_key: crate::model::SortKey,
    sort_ascending: bool,
    limit: usize,
) -> (r: Option<QueryPlan>)
    ensures
        plan_view(r) == fts_plan(query@, case_sensitive, str_opt_view(path_prefix), exts_view(extensions), sort_key, sort_ascending, limit),
{
    let q = crate::text::trim_chars(&crate::text::chars_of(query));
    if q.len() == 0 || limit == 0 {
        return None;
    }
    let (path_clause, path_param) = path_prefix_clause(path_prefix);
    let ext_clause = extension_sql(extensions);
    let sort = sort_clause(sort_key, sort_ascending);
    let lim = limit as i64;
    let qs = crate::text::string_of(&q);
    if needs_fallback_exec(&q) {
        let match_all = crate::text::seq_eq(&q, &crate::text::single('*'));
        if case_sensitive {
            let pattern = if match_all {
                crate::text::string_of(&crate::text::single('*'))
            } else {
                wrap('*', &q)
            };
            let sql = build_statement("SELECT d.path, f.name FROM files f JOIN dirs d ON d.id = f.dir_id WHERE ", "f.name GLOB ?", &path_clause, &ext_clause, &sort);
            let mut lead: Vec<SqlParam> = Vec::new();
            lead.push(SqlParam::Text(pattern));
            let params = finish_params(lead, path_param, lim);
            Some(QueryPlan { sql, params })
        } else {
            let pattern = if match_all {
                crate::text::string_of(&crate::text::single('%'))
            } else {
                let lower = crate::text::to_lowercase(qs.as_str());
                wrap('%', &crate::text::chars_of(lower.as_str()))
            };
            let sql = build_statement("SELECT d.path, f.name FROM files f JOIN dirs d ON d.id = f.dir_id WHERE ", "f.name_lower LIKE ?", &path_clause, &ext_clause, &sort);
            let mut lead: Vec<SqlParam> = Vec::new();
            lead.push(SqlParam::Text(pattern));
            let params = finish_params(lead, path_param, lim);
            Some(QueryPlan { sql, params })
        }
    } else if case_sensitive {
        let sql = build_statement("SELECT d.path, f.name FROM files_fts JOIN files f ON f.id = files_fts.rowid JOIN dirs d ON d.id = f.dir_id WHERE ", "files_fts MATCH ? AND f.name GLOB ?", &path_clause, &ext_clause, &sort);
        let mut lead: Vec<SqlParam> = Vec::new();
        lead.push(SqlParam::Text(crate::text::to_lowercase(qs.as_str())));
        lead.push(SqlParam::Text(wrap('*', &q)));
        let params = finish_params(lead, path_param, lim);
        Some(QueryPlan { sql, params })
    } else {
        let sql = build_statement("SELECT d.path, f.name FROM files_fts JOIN files f ON f.id = files_fts.rowid JOIN dirs d ON d.id = f.dir_id WHERE ", "files_fts MATCH ?", &path_clause, &ext_clause, &sort);
        let mut lead: Vec<SqlParam> = Vec::new();
        lead.push(SqlParam::Text(qs));
        let params = finish_params(lead, path_param, lim);
        Some(QueryPlan { sql, params })
    }
}

/// A GLOB pattern from a LIKE pattern: `%` becomes `*`, `_` becomes `?`.
pub open spec fn like_to_glob(s: Seq<char>) -> Seq<char> {
    s.map_values(|c: char| if c == '%' { '*' } else if c == '_' { '?' } else { c })
}

pub fn like_to_glob_exec(s: &str) -> (r: String)
    ensures
        r@ == like_to_glob(s@),
{
    let v = crate::text::chars_of(s);
    let mut r = String::new();
    let mut i: usize = 0;
    while i < v.len()
        invariant
            i <= v.len(),
            v@ == s@,
            r@ == like_to_glob(v@).take(i as int),
        decreases v.len() - i,
    {
        let c = v[i];
        let d = if c == '%' {
            '*'
        } else if c == '_' {
            '?'
        } else {
            c
        };
        crate::text::push_char(&mut r, d);
        i = i + 1;
        assert(r@ =~= like_to_glob(v@).take(i as int));
    }
    assert(like_to_glob(v@).take(v.len() as int) =~= like_to_glob(v@));
    r
}

/// The plan for a LIKE search (the wildcard mode's candidates): GLOB on the
/// name when case matters (with `%`/`_` read as `*`/`?`), else LIKE on the
/// lower-cased name.
pub open spec fn like_plan(
    pattern: Seq<char>,
    case_sensitive: bool,
    prefix: Option<Seq<char>>,
    exts: Option<Seq<Seq<char>>>,
    key: crate::model::SortKey,
    ascending: bool,
    limit: usize,
) -> (Seq<char>, Seq<ParamView>) {
    let (path_clause, path_param) = path_prefix_spec(prefix);
    let ext_clause = extension_spec(exts);
    let sort = sort_spec(key, ascending);
    if case_sensitive {
        (statement(select_files(), "f.name GLOB ?"@, path_clause, ext_clause, sort), with_tail(seq![ParamView::Text(like_to_glob(pattern))], path_param, limit as i64))
    } else {
        (statement(select_files(), "f.name_lower LIKE ?"@, path_clause, ext_clause, sort), with_tail(seq![ParamView::Text(pattern)], path_param, limit as i64))
    }
}

/// LIKE/GLOB-based candidate search; the query yields (dir_path, file_name).
pub fn search_like_plan(
    pattern: &str,
    case_sensitive: bool,
    path_prefix: Option<&str>,
    extensions: Option<&[String]>,
    sort_key: crate::model::SortKey,
    sort_ascending: bool,
    limit: usize,
) -> (r: QueryPlan)
    ensures
        (r.sql@, params_view(r.params@)) == like_plan(pattern@, case_sensitive, str_opt_view(path_prefix), exts_view(extensions), sort_key, sort_ascending, limit),
{
    let (path_clause, path_param) = path_prefix_clause(path_prefix);
    let ext_clause = extension_sql(extensions);
    let sort = sort_clause(sort_key, sort_ascending);
    let lim = limit as i64;
    let mut lead: Vec<SqlParam> = Vec::new();
    if case_sensitive {
        let sql = build_statement("SELECT d.path, f.name FROM files f JOIN dirs d ON d.id = f.dir_id WHERE ", "f.name GLOB ?", &path_clause, &ext_clause, &sort);
        lead.push(SqlParam::Text(like_to_glob_exec(pattern)));
        let params = finish_params(lead, path_param, lim);
        QueryPlan { sql, params }
    } else {
        let sql = build_statement("SELECT d.path, f.name FROM files f JOIN dirs d ON d.id = f.dir_id WHERE ", "f.name_lower LIKE ?", &path_clause, &ext_clause, &sort);
        lead.push(SqlParam::Text(crate::text::owned(pattern)));
        let params = finish_params(lead, path_param, lim);
        QueryPlan { sql, params }
    }
}

/// The plan for fuzzy candidates: names holding the first two characters of
/// the longest token, under the prefix and extension filters, unordered.
/// The fragment the fuzzy pre-filter looks for: the first two characters of
/// the longest token (all of it when shorter).
pub open spec fn fuzzy_prefilter(tokens: Seq<Seq<char>>) -> Seq<char> {
    let longest = tokens[crate::engine::longest_token_index(tokens)];
    if 2 <= longest.len() {
        longest.take(2)
    } else {
        longest
    }
}

/// The fuzzy pre-filter drops no match: a name that holds every token holds
/// the fragment the pre-filter looks for.
pub proof fn lemma_fuzzy_prefilter_keeps_matches(tokens: Seq<Seq<char>>, name: Seq<char>)
    requires
        tokens.len() > 0,
        forall|k: int| 0 <= k < tokens.len() ==> has_infix(name, #[trigger] tokens[k]),
    ensures
        has_infix(name, fuzzy_prefilter(tokens)),
{
    crate::engine::lemma_longest_token_index_bound(tokens);
    let idx = crate::engine::longest_token_index(tokens);
    let longest = tokens[idx];
    assert(has_infix(name, longest));
    let i = choose|i: int| occurs_at(name, longest, i);
    let pre = fuzzy_prefilter(tokens);
    assert(name.subrange(i, i + pre.len()) =~= pre);
    assert(occurs_at(name, pre, i));
}

pub open spec fn fuzzy_plan(
    tokens: Seq<Seq<char>>,
    prefix: Option<Seq<char>>,
    exts: Option<Seq<Seq<char>>>,
    limit: usize,
) -> Option<(Seq<char>, Seq<ParamView>)> {
    if tokens.len() == 0 || limit == 0 {
        None
    } else {
        let pre = fuzzy_prefilter(tokens);
        let (path_clause, path_param) = path_prefix_spec(prefix);
        let ext_clause = extension_spec(exts);
        Some((select_files() + "f.name_lower LIKE ?"@ + path_clause + ext_clause + " LIMIT ?"@, with_tail(seq![ParamView::Text(seq!['%'] + pre + seq!['%'])], path_param, limit as i64)))
    }
}

/// Broad query for fuzzy search: every token must then be found in the name.
pub fn fuzzy_candidates_plan(
    tokens: &Vec<String>,
    path_prefix: Option<&str>,
    extensions: Option<&[String]>,
    limit: usize,
) -> (r: Option<QueryPlan>)
    ensures
        plan_view(r) == fuzzy_plan(crate::strings::views(tokens@), str_opt_view(path_prefix), exts_view(extensions), limit),
{
    if tokens.len() == 0 || limit == 0 {
        return None;
    }
    let longest = match crate::engine::longest_token(tokens) {
        Some(t) => t,
        None => return None,
    };
    proof {
        crate::engine::lemma_longest_token_index_bound(crate::strings::views(tokens@));
        let idx = crate::engine::longest_token_index(crate::strings::views(tokens@));
        assert(crate::strings::views(tokens@)[idx] == tokens@[idx]@);
    }
    let pre = crate::engine::char_prefix(longest.as_str(), 2);
    let (path_clause, path_param) = path_prefix_clause(path_prefix);
    let ext_clause = extension_sql(extensions);
    let mut sql = crate::text::owned("SELECT d.path, f.name FROM files f JOIN dirs d ON d.id = f.dir_id WHERE ");
    crate::text::append_str(&mut sql, "f.name_lower LIKE ?");
    crate::text::append_str(&mut sql, path_clause.as_str());
    crate::text::append_str(&mut sql, ext_clause.as_str());
    crate::text::append_str(&mut sql, " LIMIT ?");
    assert(sql@ =~= select_files() + "f.name_lower LIKE ?"@ + path_clause@ + ext_clause@ + " LIMIT ?"@);
    let mut lead: Vec<SqlParam> = Vec::new();
    lead.push(SqlParam::Text(wrap('%', &crate::text::chars_of(pre.as_str()))));
    let params = finish_params(lead, path_param, limit as i64);
    Some(QueryPlan { sql, params })
}

// ─────────────────────────── what the plans keep ───────────────────────────

/// A case-sensitive name search keeps the query's case: on the trigram path
/// the GLOB parameter is the trimmed query as typed between `*`s (next to
/// the lower-cased MATCH parameter), and on the fallback path it is the
/// trimmed query as typed between `*`s, unless that query is `*` alone.
pub proof fn lemma_case_sensitive_search_keeps_case(
    query: Seq<char>,
    prefix: Option<Seq<char>>,
    exts: Option<Seq<Seq<char>>>,
    key: crate::model::SortKey,
    ascending: bool,
    limit: usize,
)
    requires
        crate::text::trim(query).len() > 0,
        limit > 0,
    ensures
        fts_plan(query, true, prefix, exts, key, ascending, limit) matches Some((sql, params)) && {
            let q = crate::text::trim(query);
            &&& !needs_fallback(q) ==> params[0] == ParamView::Text(crate::text::lowercase(q))
                && params[1] == ParamView::Text(seq!['*'] + q + seq!['*'])
            &&& needs_fallback(q) && q != seq!['*'] ==> params[0] == ParamView::Text(
                seq!['*'] + q + seq!['*'],
            )
        },
{
}

/// How SQLite's GLOB reads a pattern against a whole name, case kept: `*`
/// any run, `?` any one character, every other character itself. Bracket
/// classes are not read here.
pub open spec fn glob_accepts(g: Seq<char>, t: Seq<char>) -> bool
    decreases g.len(),
{
    if g.len() == 0 {
        t.len() == 0
    } else if g[0] == '*' {
        exists|k: int| 0 <= k <= t.len() && glob_accepts(g.skip(1), #[trigger] t.skip(k))
    } else if g[0] == '?' {
        t.len() >= 1 && glob_accepts(g.skip(1), t.skip(1))
    } else if g[0] == '[' {
        false
    } else {
        t.len() >= 1 && t[0] == g[0] && glob_accepts(g.skip(1), t.skip(1))
    }
}

/// `q*` reads the names that start with `q`, for `q` of plain characters.
proof fn lemma_glob_prefix(q: Seq<char>, t: Seq<char>)
    requires
        forall|i: int| 0 <= i < q.len() ==> crate::text::is_ascii_alnum(#[trigger] q[i]),
    ensures
        glob_accepts(q + seq!['*'], t) <==> crate::text::has_prefix(t, q),
    decreases q.len(),
{
    let g = q + seq!['*'];
    if q.len() == 0 {
        assert(g =~= seq!['*']);
        assert(g.skip(1) =~= Seq::<char>::empty());
        assert(t.skip(t.len() as int) =~= Seq::<char>::empty());
        assert(glob_accepts(g.skip(1), t.skip(t.len() as int)));
        assert(t.take(0) =~= q);
    } else {
        let r = q.skip(1);
        assert(g.skip(1) =~= r + seq!['*']);
        assert(g[0] == q[0]);
        assert(crate::text::is_ascii_alnum(q[0]));
        assert(g[0] != '*' && g[0] != '?' && g[0] != '[');
        assert forall|i: int| 0 <= i < r.len() implies crate::text::is_ascii_alnum(#[trigger] r[i]) by {
            assert(r[i] == q[i + 1]);
        }
        if t.len() >= 1 {
            lemma_glob_prefix(r, t.skip(1));
            if crate::text::has_prefix(t, q) {
                assert(t[0] == t.take(q.len() as int)[0]);
                assert(t.skip(1).take(r.len() as int) =~= t.take(q.len() as int).skip(1));
            }
            if crate::text::has_prefix(t.skip(1), r) && t[0] == q[0] {
                assert(q =~= seq![q[0]] + r);
                assert(t.take(q.len() as int) =~= seq![t[0]] + t.skip(1).take(r.len() as int));
            }
        } else {
            assert(!crate::text::has_prefix(t, q));
        }
    }
}

/// `*q*` reads the names that hold `q`, for `q` of plain characters.
proof fn lemma_glob_infix(q: Seq<char>, t: Seq<char>)
    requires
        forall|i: int| 0 <= i < q.len() ==> crate::text::is_ascii_alnum(#[trigger] q[i]),
    ensures
        glob_accepts(seq!['*'] + q + seq!['*'], t) <==> has_infix(t, q),
{
    let g = seq!['*'] + q + seq!['*'];
    assert(g.skip(1) =~= q + seq!['*']);
    if glob_accepts(g, t) {
        let k = choose|k: int| 0 <= k <= t.len() && glob_accepts(g.skip(1), #[trigger] t.skip(k));
        lemma_glob_prefix(q, t.skip(k));
        assert(t.subrange(k, k + q.len()) =~= t.skip(k).take(q.len() as int));
        assert(occurs_at(t, q, k));
    }
    if has_infix(t, q) {
        let k = choose|k: int| occurs_at(t, q, k);
        lemma_glob_prefix(q, t.skip(k));
        assert(t.subrange(k, k + q.len()) =~= t.skip(k).take(q.len() as int));
        assert(glob_accepts(g.skip(1), t.skip(k)));
    }
}

/// A case-sensitive name search on the trigram path keeps exactly the names
/// that hold the trimmed query as typed: its GLOB parameter accepts a name
/// if and only if the name contains that query.
pub proof fn lemma_case_sensitive_glob_finds_query(
    query: Seq<char>,
    prefix: Option<Seq<char>>,
    exts: Option<Seq<Seq<char>>>,
    key: crate::model::SortKey,
    ascending: bool,
    limit: usize,
    name: Seq<char>,
)
    requires
        crate::text::trim(query).len() > 0,
        !needs_fallback(crate::text::trim(query)),
        limit > 0,
    ensures
        fts_plan(query, true, prefix, exts, key, ascending, limit) matches Some((sql, params))
            && params[1] matches ParamView::Text(g) && (glob_accepts(g, name) <==> has_infix(
            name,
            crate::text::trim(query),
        )),
{
    let q = crate::text::trim(query);
    lemma_case_sensitive_search_keeps_case(query, prefix, exts, key, ascending, limit);
    lemma_glob_infix(q, name);
}

proof fn lemma_infix_within(a: Seq<char>, x: Seq<char>, b: Seq<char>, y: Seq<char>)
    requires
        has_infix(x, y),
    ensures
        has_infix(a + x + b, y),
{
    let i = choose|i: int| occurs_at(x, y, i);
    let s = a + x + b;
    assert(s.subrange(a.len() + i, a.len() + i + y.len()) =~= x.subrange(i, i + y.len()));
    assert(occurs_at(s, y, a.len() + i));
}

proof fn lemma_infix_self(x: Seq<char>)
    ensures
        has_infix(x, x),
{
    assert(x.subrange(0, x.len() as int) =~= x);
    assert(occurs_at(x, x, 0));
}

/// The joined extension conditions hold the condition of each extension.
proof fn lemma_ext_conditions_hold(exts: Seq<Seq<char>>, i: int)
    requires
        0 <= i < exts.len(),
    ensures
        has_infix(ext_conditions(exts), "f.name_lower LIKE '%."@ + sql_quote(exts[i]) + "'"@),
    decreases exts.len(),
{
    let c = "f.name_lower LIKE '%."@ + sql_quote(exts[i]) + "'"@;
    lemma_infix_self(c);
    if exts.len() == 1 {
    } else if i == exts.len() - 1 {
        lemma_infix_within(ext_conditions(exts.drop_last()) + " OR "@, c, Seq::empty(), c);
        assert(ext_conditions(exts.drop_last()) + " OR "@ + c + Seq::<char>::empty() =~= ext_conditions(exts));
    } else {
        lemma_ext_conditions_hold(exts.drop_last(), i);
        assert(exts.drop_last()[i] == exts[i]);
        lemma_infix_within(Seq::empty(), ext_conditions(exts.drop_last()), " OR "@ + ext_condition(exts.last()), c);
        assert(Seq::<char>::empty() + ext_conditions(exts.drop_last()) + (" OR "@ + ext_condition(exts.last()))
            =~= ext_conditions(exts));
    }
}

/// The extension filter holds the condition of each requested extension.
proof fn lemma_extension_filter_holds(exts: Seq<Seq<char>>, i: int)
    requires
        0 <= i < exts.len(),
    ensures
        has_infix(extension_spec(Some(exts)), "f.name_lower LIKE '%."@ + sql_quote(exts[i]) + "'"@),
{
    lemma_ext_conditions_hold(exts, i);
    lemma_infix_within(" AND ("@, ext_conditions(exts), ")"@, "f.name_lower LIKE '%."@ + sql_quote(exts[i]) + "'"@);
}

/// Fuzzy candidates obey the same filters as a name search: for each
/// requested extension `e` the statement keeps only names ending in `.e`
/// (it holds `f.name_lower LIKE '%.e'`), and with a path prefix it limits
/// the directory to that prefix and passes the escaped prefix as a
/// parameter; the name search's statement holds the same conditions.
pub proof fn lemma_fuzzy_plan_filters(
    tokens: Seq<Seq<char>>,
    query: Seq<char>,
    case_sensitive: bool,
    prefix: Option<Seq<char>>,
    exts: Seq<Seq<char>>,
    key: crate::model::SortKey,
    ascending: bool,
    limit: usize,
)
    requires
        tokens.len() > 0,
        crate::text::trim(query).len() > 0,
        limit > 0,
    ensures
        fuzzy_plan(tokens, prefix, Some(exts), limit) matches Some((fsql, fparams)) && fts_plan(
            query,
            case_sensitive,
            prefix,
            Some(exts),
            key,
            ascending,
            limit,
        ) matches Some((ssql, sparams)) && {
            &&& forall|i: int|
                0 <= i < exts.len() ==> has_infix(fsql, "f.name_lower LIKE '%."@ + sql_quote(#[trigger] exts[i]) + "'"@)
                    && has_infix(ssql, "f.name_lower LIKE '%."@ + sql_quote(exts[i]) + "'"@)
            &&& prefix matches Some(p) ==> (p.len() > 0 ==> (has_infix(fsql, " AND d.path LIKE ? ESCAPE '\\'"@)
                && has_infix(ssql, " AND d.path LIKE ? ESCAPE '\\'"@)
                && fparams.contains(ParamView::Text(like_escape(p) + seq!['%']))
                && sparams.contains(ParamView::Text(like_escape(p) + seq!['%']))))
        },
{
    let (path_clause, path_param) = path_prefix_spec(prefix);
    let ext_clause = extension_spec(Some(exts));
    let (fsql, fparams) = fuzzy_plan(tokens, prefix, Some(exts), limit)->0;
    let (ssql, sparams) = fts_plan(query, case_sensitive, prefix, Some(exts), key, ascending, limit)->0;
    let q = crate::text::trim(query);
    let sort = sort_spec(key, ascending);
    let head = if needs_fallback(q) {
        select_files()
    } else {
        select_fts()
    };
    let cond = if needs_fallback(q) {
        if case_sensitive {
            "f.name GLOB ?"@
        } else {
            "f.name_lower LIKE ?"@
        }
    } else if case_sensitive {
        "files_fts MATCH ? AND f.name GLOB ?"@
    } else {
        "files_fts MATCH ?"@
    };
    assert(ssql == statement(head, cond, path_clause, ext_clause, sort));
    assert forall|i: int| 0 <= i < exts.len() implies has_infix(
        fsql,
        "f.name_lower LIKE '%."@ + sql_quote(#[trigger] exts[i]) + "'"@,
    ) && has_infix(ssql, "f.name_lower LIKE '%."@ + sql_quote(exts[i]) + "'"@) by {
        let c = "f.name_lower LIKE '%."@ + sql_quote(exts[i]) + "'"@;
        lemma_extension_filter_holds(exts, i);
        lemma_infix_within(select_files() + "f.name_lower LIKE ?"@ + path_clause, ext_clause, " LIMIT ?"@, c);
        lemma_infix_within(head + cond + path_clause, ext_clause, " "@ + sort + " LIMIT ?"@, c);
        assert(ssql =~= head + cond + path_clause + ext_clause + (" "@ + sort + " LIMIT ?"@));
    }
    if let Some(p) = prefix {
        if p.len() > 0 {
        let pc = " AND d.path LIKE ? ESCAPE '\\'"@;
        lemma_infix_self(pc);
        lemma_infix_within(select_files() + "f.name_lower LIKE ?"@, pc, ext_clause + " LIMIT ?"@, pc);
        assert(fsql =~= select_files() + "f.name_lower LIKE ?"@ + pc + (ext_clause + " LIMIT ?"@));
        lemma_infix_within(head + cond, pc, ext_clause + " "@ + sort + " LIMIT ?"@, pc);
        assert(ssql =~= head + cond + pc + (ext_clause + " "@ + sort + " LIMIT ?"@));
        let pp = ParamView::Text(like_escape(p) + seq!['%']);
        assert(fparams[fparams.len() - 2] == pp);
        assert(sparams[sparams.len() - 2] == pp);
        }
    }
}

/// Wildcard candidates obey the same filters: for each requested extension
/// `e` the statement holds `f.name_lower LIKE '%.e'`, and with a path prefix
/// it limits the directory to it and passes the escaped prefix.
pub proof fn lemma_like_plan_filters(
    pattern: Seq<char>,
    case_sensitive: bool,
    prefix: Option<Seq<char>>,
    exts: Seq<Seq<char>>,
    key: crate::model::SortKey,
    ascending: bool,
    limit: usize,
)
    ensures
        ({
            let (sql, params) = like_plan(pattern, case_sensitive, prefix, Some(exts), key, ascending, limit);
            &&& forall|i: int|
                0 <= i < exts.len() ==> has_infix(sql, "f.name_lower LIKE '%."@ + sql_quote(#[trigger] exts[i]) + "'"@)
            &&& prefix matches Some(p) ==> (p.len() > 0 ==> (has_infix(sql, " AND d.path LIKE ? ESCAPE '\\'"@)
                && params.contains(ParamView::Text(like_escape(p) + seq!['%']))))
        }),
{
    let (path_clause, path_param) = path_prefix_spec(prefix);
    let ext_clause = extension_spec(Some(exts));
    let (sql, params) = like_plan(pattern, case_sensitive, prefix, Some(exts), key, ascending, limit);
    let sort = sort_spec(key, ascending);
    let cond = if case_sensitive {
        "f.name GLOB ?"@
    } else {
        "f.name_lower LIKE ?"@
    };
    assert(sql == statement(select_files(), cond, path_clause, ext_clause, sort));
    assert forall|i: int| 0 <= i < exts.len() implies has_infix(
        sql,
        "f.name_lower LIKE '%."@ + sql_quote(#[trigger] exts[i]) + "'"@,
    ) by {
        let c = "f.name_lower LIKE '%."@ + sql_quote(exts[i]) + "'"@;
        lemma_extension_filter_holds(exts, i);
        lemma_infix_within(select_files() + cond + path_clause, ext_clause, " "@ + sort + " LIMIT ?"@, c);
        assert(sql =~= select_files() + cond + path_clause + ext_clause + (" "@ + sort + " LIMIT ?"@));
    }
    if let Some(p) = prefix {
        if p.len() > 0 {
            let pc = " AND d.path LIKE ? ESCAPE '\\'"@;
            lemma_infix_self(pc);
            lemma_infix_within(select_files() + cond, pc, ext_clause + " "@ + sort + " LIMIT ?"@, pc);
            assert(sql =~= select_files() + cond + pc + (ext_clause + " "@ + sort + " LIMIT ?"@));
            assert(params[params.len() - 2] == ParamView::Text(like_escape(p) + seq!['%']));
        }
    }
}

// ─────────────────────────── stored rows ───────────────────────────

/// A row of the index: the directory key, the name, and the lower-cased name.
#[derive(Clone, Debug)]
pub struct IndexRow {
    pub dir: String,
    pub name: String,
    pub name_lower: String,
}

pub open spec fn parent_text(path: Seq<char>) -> Seq<char> {
    match crate::paths::parent(path) {
        Some(p) => p,
        None => Seq::empty(),
    }
}

/// How `path` is stored: under its parent directory, with its file name
/// (or the given name when it has none) and the given lower-cased name (or
/// the lower-cased stored name when none is given); nothing when the name
/// is empty.
pub open spec fn index_row(fallback_name: Seq<char>, path: Seq<char>) -> Option<(Seq<char>, Seq<char>, Seq<char>)> {
    let name = match crate::paths::file_name(path) {
        Some(n) => n,
        None => fallback_name,
    };
    let lower = if fallback_name.len() == 0 {
        crate::text::lowercase(name)
    } else {
        fallback_name
    };
    if name.len() == 0 {
        None
    } else {
        Some((parent_text(path), name, lower))
    }
}

/// A path a directory walk yields is read back as itself: it is stored as a
/// row (its parent directory and its file name), and that row joins back to
/// the same path, as searches list it; it is also deleted by the same key.
pub proof fn lemma_stored_path_roundtrip(fallback_name: Seq<char>, path: Seq<char>)
    requires
        crate::paths::walk_path(path),
    ensures
        index_row(fallback_name, path) matches Some((dir, name, _)) && crate::engine::joined(dir, name)
            == path && crate::paths::file_name(path) == Some(name) && dir == parent_text(path),
{
    crate::paths::lemma_walk_path_parts(path);
}

pub fn index_row_for(fallback_name: &str, path: &str) -> (r: Option<IndexRow>)
    ensures
        match r {
            Some(row) => index_row(fallback_name@, path@) == Some((row.dir@, row.name@, row.name_lower@)),
            None => index_row(fallback_name@, path@) is None,
        },
{
    let dir = crate::paths::parent_key(path);
    let name = match crate::paths::file_name_str(path) {
        Some(n) => n,
        None => crate::text::owned(fallback_name),
    };
    let name_lower = if fallback_name.is_empty() {
        crate::text::to_lowercase(name.as_str())
    } else {
        crate::text::owned(fallback_name)
    };
    if name.as_str().is_empty() {
        return None;
    }
    Some(IndexRow { dir, name, name_lower })
}

/// The key a path is deleted by: its parent directory and file name; none
/// when it has no file name.
pub fn delete_key(path: &str) -> (r: Option<(String, String)>)
    ensures
        match r {
            Some((d, n)) => crate::paths::file_name(path@) == Some(n@) && d@ == parent_text(path@),
            None => crate::paths::file_name(path@) is None,
        },
{
    match crate::paths::file_name_str(path) {
        Some(n) => Some((crate::paths::parent_key(path), n)),
        None => None,
    }
}

/// What removing a subtree from the index removes.
#[derive(Clone, Debug)]
pub enum SubtreeDeletion {
    /// The root `/`: everything.
    Everything,
    /// A root with no text left once trailing `/` are removed: nothing.
    Nothing,
    /// Directories equal to `exact` or matching the LIKE pattern `like`.
    Under { exact: String, like: String },
}

pub open spec fn subtree_deletion(root: Seq<char>) -> Option<(Seq<char>, Seq<char>)> {
    let t = crate::text::trim_end_char(root, '/');
    if t.len() == 0 {
        None
    } else {
        Some((t, t + "/%"@))
    }
}

/// Which rows removing the subtree at `root` deletes.
pub fn subtree_deletion_for(root: &str) -> (r: SubtreeDeletion)
    ensures
        crate::paths::path_eq(root@, seq!['/']) ==> r is Everything,
        !crate::paths::path_eq(root@, seq!['/']) ==> match r {
            SubtreeDeletion::Under { exact, like } => subtree_deletion(root@) == Some((exact@, like@)),
            SubtreeDeletion::Nothing => subtree_deletion(root@) is None,
            SubtreeDeletion::Everything => false,
        },
{
    let slash = crate::text::string_of(&crate::text::single('/'));
    if crate::paths::path_eq_exec(root, slash.as_str()) {
        return SubtreeDeletion::Everything;
    }
    let t = crate::text::trim_end_char_chars(&crate::text::chars_of(root), '/');
    if t.len() == 0 {
        return SubtreeDeletion::Nothing;
    }
    let exact = crate::text::string_of(&t);
    let like = crate::text::concat_str(exact.as_str(), "/%");
    SubtreeDeletion::Under { exact, like }
}

// ─────────────────────────── stored settings ───────────────────────────

/// How the include-directories setting is stored.
pub fn include_dirs_value(include_dirs: bool) -> (r: String)
    ensures
        r@ == if include_dirs {
            "1"@
        } else {
            "0"@
        },
{
    if include_dirs {
        crate::text::owned("1")
    } else {
        crate::text::owned("0")
    }
}

/// Reading the stored include-directories setting: on exactly for `1`.
pub fn parse_include_dirs(value: &str) -> (r: bool)
    ensures
        r == (value@ == "1"@),
{
    crate::text::str_eq(value, "1")
}

/// Reading back what was written: the include-directories setting round-trips.
pub proof fn lemma_include_dirs_roundtrip(b: bool)
    ensures
        ((if b {
            "1"@
        } else {
            "0"@
        }) == "1"@) == b,
{
    reveal_strlit("0");
    reveal_strlit("1");
    assert("0"@[0] != "1"@[0]);
}

/// How the watcher's resume point is stored: its decimal text.
pub fn event_id_value(event_id: u64) -> (r: String)
    ensures
        r@ == crate::text::decimal(event_id as nat),
{
    crate::text::u64_to_decimal(event_id)
}

/// Reading the stored resume point back.
pub fn parse_event_id(value: &str) -> (r: Option<u64>)
    ensures
        r == crate::text::parse_u64(value@),
{
    crate::text::parse_decimal_u64(value)
}

/// Reading back what was written: a stored event ID loads as itself.
pub proof fn lemma_event_id_roundtrip(event_id: u64)
    ensures
        crate::text::parse_u64(crate::text::decimal(event_id as nat)) == Some(event_id),
{
    crate::text::lemma_parse_decimal_roundtrip(event_id);
}

#[verifier::external_type_specification]
#[verifier::external_body]
pub struct ExJsonError(serde_json::Error);

/// The JSON text `serde_json::to_string` gives for a list of strings.
pub uninterp spec fn json_of_strings(list: Seq<Seq<char>>) -> Seq<char>;

/// What `serde_json::from_str::<Vec<String>>` reads from a text, when it reads one.
pub uninterp spec fn strings_of_json(text: Seq<char>) -> Option<Seq<Seq<char>>>;

/// `serde_json::to_string` on a list of strings; its text is named
/// `json_of_strings`, and `serde_json::from_str` reads that text back as the
/// same list (strings are written as JSON strings, escaped, and read back
/// unescaped). It succeeds: the documented failures are a `Serialize` impl
/// that fails or a map with non-string keys, and a list of strings has
/// neither (each string is written by `serialize_str` into a `Vec<u8>`,
/// whose writes do not fail).
#[verifier::external_body]
fn json_encode_strings(list: &[String]) -> (r: Result<String, serde_json::Error>)
    ensures
        r is Ok,
        r matches Ok(s) ==> s@ == json_of_strings(crate::strings::views(list@)),
        r matches Ok(s) ==> strings_of_json(s@) == Some(crate::strings::views(list@)),
{
    serde_json::to_string(list)
}

/// `serde_json::from_str::<Vec<String>>`; what it reads is named `strings_of_json`.
#[verifier::external_body]
fn json_decode_strings(text: &str) -> (r: Result<Vec<String>, serde_json::Error>)
    ensures
        r is Ok <==> strings_of_json(text@) is Some,
        r matches Ok(v) ==> strings_of_json(text@) == Some(crate::strings::views(v@)),
{
    serde_json::from_str::<Vec<String>>(text)
}

/// How a list setting is stored: its JSON text, which reads back as the
/// same list.
pub fn encode_string_list(list: &[String]) -> (r: String)
    ensures
        r@ == json_of_strings(crate::strings::views(list@)),
        strings_of_json(r@) == Some(crate::strings::views(list@)),
{
    match json_encode_strings(list) {
        Ok(s) => s,
        Err(_) => crate::text::owned("[]"),
    }
}

/// Reading a stored list setting: what the JSON text holds, or nothing when
/// it is not a JSON list of strings.
pub fn decode_string_list(text: &str) -> (r: Vec<String>)
    ensures
        match strings_of_json(text@) {
            Some(list) => crate::strings::views(r@) == list,
            None => r@.len() == 0,
        },
{
    match json_decode_strings(text) {
        Ok(v) => v,
        Err(_) => Vec::new(),
    }
}

} // verus!
