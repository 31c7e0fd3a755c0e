//! Wildcard patterns (`*`, `**`, `?`, and optionally `{a,b}`) turned into
//! regular expressions.
use vstd::prelude::*;

use crate::regex_support::{CompiledRegex, escaped, is_meta_char, regex_compiles, regex_escape, regex_new};
use crate::text::{append_str, chars_of, pair, push_char};

verus! {

/// The regex text for a wildcard pattern: `**` matches anything, `*` any run
/// without `/`, `?` one character other than `/`; with `braces`, `{`, `}` and
/// `,` become `(`, `)` and `|`; every other character is escaped.
pub open spec fn wildcard_body(p: Seq<char>, braces: bool) -> Seq<char>
    decreases p.len(),
{
    if p.len() == 0 {
        Seq::empty()
    } else if p[0] == '*' {
        if p.len() >= 2 && p[1] == '*' {
            seq!['.', '*'] + wildcard_body(p.skip(2), braces)
        } else {
            seq!['[', '^', '/', ']', '*'] + wildcard_body(p.skip(1), braces)
        }
    } else if p[0] == '?' {
        seq!['[', '^', '/', ']'] + wildcard_body(p.skip(1), braces)
    } else if braces && p[0] == '{' {
        seq!['('] + wildcard_body(p.skip(1), braces)
    } else if braces && p[0] == '}' {
        seq![')'] + wildcard_body(p.skip(1), braces)
    } else if braces && p[0] == ',' {
        seq!['|'] + wildcard_body(p.skip(1), braces)
    } else {
        escaped(seq![p[0]]) + wildcard_body(p.skip(1), braces)
    }
}

pub open spec fn anchored(body: Seq<char>, case_insensitive: bool) -> Seq<char> {
    if case_insensitive {
        seq!['(', '?', 'i', ')', '^'] + body + seq!['$']
    } else {
        seq!['^'] + body + seq!['$']
    }
}

fn push_all(out: &mut String, cs: &Vec<char>)
    ensures
        final(out)@ == old(out)@ + cs@,
{
    let mut i: usize = 0;
    while i < cs.len()
        invariant
            i <= cs.len(),
            out@ == old(out)@ + cs@.take(i as int),
        decreases cs.len() - i,
    {
        push_char(out, cs[i]);
        i = i + 1;
        assert(out@ == old(out)@ + cs@.take(i as int));
    }
    assert(cs@.take(cs.len() as int) == cs@);
}

/// The regex text of the wildcard pattern `p`, unanchored.
pub fn wildcard_regex_body(p: &Vec<char>, braces: bool) -> (out: String)
    ensures
        out@ == wildcard_body(p@, braces),
{
    let mut out = String::new();
    let mut i: usize = 0;
    assert(p@.skip(0) == p@);
    while i < p.len()
        invariant
            i <= p.len(),
            out@ + wildcard_body(p@.skip(i as int), braces) == wildcard_body(p@, braces),
        decreases p.len() - i,
    {
        let ghost rest = p@.skip(i as int);
        let c = p[i];
        assert(rest[0] == c);
        if c == '*' {
            if i + 1 < p.len() && p[i + 1] == '*' {
                push_all(&mut out, &pair('.', '*'));
                assert(rest.skip(2) == p@.skip(i + 2));
                assert(out@ + wildcard_body(p@.skip(i + 2), braces) == wildcard_body(p@, braces));
                i = i + 2;
            } else {
                push_all(&mut out, &vec!['[', '^', '/', ']', '*']);
                assert(rest.skip(1) == p@.skip(i + 1));
                i = i + 1;
            }
        } else if c == '?' {
            push_all(&mut out, &vec!['[', '^', '/', ']']);
            assert(rest.skip(1) == p@.skip(i + 1));
            i = i + 1;
        } else if braces && c == '{' {
            push_char(&mut out, '(');
            assert(rest.skip(1) == p@.skip(i + 1));
            i = i + 1;
        } else if braces && c == '}' {
            push_char(&mut out, ')');
            assert(rest.skip(1) == p@.skip(i + 1));
            i = i + 1;
        } else if braces && c == ',' {
            push_char(&mut out, '|');
            assert(rest.skip(1) == p@.skip(i + 1));
            i = i + 1;
        } else {
            let mut one = String::new();
            push_char(&mut one, c);
            let esc = regex_escape(one.as_str());
            append_str(&mut out, esc.as_str());
            assert(rest.skip(1) == p@.skip(i + 1));
            i = i + 1;
        }
    }
    assert(p@.skip(p.len() as int) == Seq::<char>::empty());
    out
}

/// The full regex text: `^body$`, with `(?i)` in front when matching ignores case.
pub fn anchored_regex(body: &String, case_insensitive: bool) -> (out: String)
    ensures
        out@ == anchored(body@, case_insensitive),
{
    let mut out = String::new();
    if case_insensitive {
        push_all(&mut out, &vec!['(', '?', 'i', ')']);
    }
    push_char(&mut out, '^');
    append_str(&mut out, body.as_str());
    push_char(&mut out, '$');
    assert(out@ =~= anchored(body@, case_insensitive));
    out
}

/// Convert a wildcard pattern (with `{a,b}` alternatives) to a regex that
/// must match the whole text; it ignores case unless `case_sensitive`.
pub fn convert_wildcard_to_regex(pattern: &str, case_sensitive: bool) -> (r: Result<
    CompiledRegex,
    regex::Error,
>)
    ensures
        r is Ok <==> regex_compiles(anchored(wildcard_body(pattern@, true), !case_sensitive)),
        r matches Ok(c) ==> c.source() == anchored(wildcard_body(pattern@, true), !case_sensitive),
{
    let p = chars_of(pattern);
    let body = wildcard_regex_body(&p, true);
    let full = anchored_regex(&body, !case_sensitive);
    regex_new(full.as_str())
}

// ─────────────────────────── what the regex text means ───────────────────────────

/// How a regular expression made of the pieces a wildcard body uses reads a
/// whole text: `.*` any run without a line break, `[^/]*` any run without
/// `/`, `[^/]` one character other than `/`, `\c` the character `c` itself,
/// and a character that is not a meta character itself. Other syntax reads
/// nothing here.
pub open spec fn regex_body_accepts(r: Seq<char>, t: Seq<char>) -> bool
    decreases r.len(),
{
    if r.len() == 0 {
        t.len() == 0
    } else if r.len() >= 2 && r[0] == '.' && r[1] == '*' {
        exists|k: int|
            0 <= k <= t.len() && (forall|j: int| 0 <= j < k ==> t[j] != '\n') && regex_body_accepts(
                r.skip(2),
                #[trigger] t.skip(k),
            )
    } else if r.len() >= 5 && r.take(5) == seq!['[', '^', '/', ']', '*'] {
        exists|k: int|
            0 <= k <= t.len() && (forall|j: int| 0 <= j < k ==> t[j] != '/') && regex_body_accepts(
                r.skip(5),
                #[trigger] t.skip(k),
            )
    } else if r.len() >= 4 && r.take(4) == seq!['[', '^', '/', ']'] {
        t.len() >= 1 && t[0] != '/' && regex_body_accepts(r.skip(4), t.skip(1))
    } else if r.len() >= 2 && r[0] == '\\' {
        t.len() >= 1 && t[0] == r[1] && regex_body_accepts(r.skip(2), t.skip(1))
    } else if !is_meta_char(r[0]) {
        t.len() >= 1 && t[0] == r[0] && regex_body_accepts(r.skip(1), t.skip(1))
    } else {
        false
    }
}

proof fn lemma_escaped_one(c: char)
    ensures
        escaped(seq![c]) == if is_meta_char(c) {
            seq!['\\', c]
        } else {
            seq![c]
        },
{
    reveal_with_fuel(escaped, 2);
    assert(seq![c].drop_last() =~= Seq::<char>::empty());
    assert(seq![c].last() == c);
    assert(escaped(Seq::<char>::empty()) == Seq::<char>::empty());
    if is_meta_char(c) {
        assert(Seq::<char>::empty().push('\\').push(c) =~= seq!['\\', c]);
    } else {
        assert(Seq::<char>::empty().push(c) =~= seq![c]);
    }
}

/// A wildcard body never starts with a bare `*`.
proof fn lemma_body_first_not_star(p: Seq<char>, braces: bool)
    ensures
        wildcard_body(p, braces).len() > 0 ==> wildcard_body(p, braces)[0] != '*',
{
    if p.len() > 0 && !(p[0] == '*' || p[0] == '?' || (braces && (p[0] == '{' || p[0] == '}' || p[0]
        == ','))) {
        lemma_escaped_one(p[0]);
    }
}

/// What the regex text of a wildcard pattern means: read as a regular
/// expression, the body of a pattern without alternatives accepts exactly
/// the names the wildcard rules accept (`?` one character other than `/`,
/// `*` a run without `/`, `**` any run, others themselves).
pub proof fn lemma_wildcard_body_reads_as_pattern(p: Seq<char>, braces: bool, t: Seq<char>)
    requires
        !(braces && crate::engine::has_alternatives(p)),
    ensures
        regex_body_accepts(wildcard_body(p, braces), t) <==> crate::engine::wildcard_accepts(p, t),
    decreases p.len(),
{
    let r = wildcard_body(p, braces);
    if p.len() == 0 {
    } else {
        if braces {
            assert(!(p[0] == '{' || p[0] == '}' || p[0] == ','));
        }
        if p[0] == '*' && p.len() >= 2 && p[1] == '*' {
            let b = wildcard_body(p.skip(2), braces);
            assert(r == seq!['.', '*'] + b);
            assert(r.skip(2) =~= b);
            if braces {
                crate::engine::lemma_no_alternatives_skip(p, 2);
            }
            if regex_body_accepts(r, t) {
                let k = choose|k: int|
                    0 <= k <= t.len() && (forall|j: int| 0 <= j < k ==> t[j] != '\n')
                        && regex_body_accepts(r.skip(2), #[trigger] t.skip(k));
                lemma_wildcard_body_reads_as_pattern(p.skip(2), braces, t.skip(k));
            }
            if crate::engine::wildcard_accepts(p, t) {
                let k = choose|k: int|
                    0 <= k <= t.len() && (forall|j: int| 0 <= j < k ==> t[j] != '\n')
                        && crate::engine::wildcard_accepts(p.skip(2), #[trigger] t.skip(k));
                lemma_wildcard_body_reads_as_pattern(p.skip(2), braces, t.skip(k));
            }
        } else if p[0] == '*' {
            let b = wildcard_body(p.skip(1), braces);
            let star = seq!['[', '^', '/', ']', '*'];
            assert(r == star + b);
            assert(r.take(5) =~= star);
            assert(r.skip(5) =~= b);
            if braces {
                crate::engine::lemma_no_alternatives_skip(p, 1);
            }
            if regex_body_accepts(r, t) {
                let k = choose|k: int|
                    0 <= k <= t.len() && (forall|j: int| 0 <= j < k ==> t[j] != '/')
                        && regex_body_accepts(r.skip(5), #[trigger] t.skip(k));
                lemma_wildcard_body_reads_as_pattern(p.skip(1), braces, t.skip(k));
            }
            if crate::engine::wildcard_accepts(p, t) {
                let k = choose|k: int|
                    0 <= k <= t.len() && (forall|j: int| 0 <= j < k ==> t[j] != '/')
                        && crate::engine::wildcard_accepts(p.skip(1), #[trigger] t.skip(k));
                lemma_wildcard_body_reads_as_pattern(p.skip(1), braces, t.skip(k));
            }
        } else if p[0] == '?' {
            let b = wildcard_body(p.skip(1), braces);
            let one = seq!['[', '^', '/', ']'];
            assert(r == one + b);
            lemma_body_first_not_star(p.skip(1), braces);
            if r.len() >= 5 {
                assert(r[4] == b[0]);
                assert(r.take(5)[4] == r[4]);
            }
            assert(r.take(4) =~= one);
            assert(r.skip(4) =~= b);
            if braces {
                crate::engine::lemma_no_alternatives_skip(p, 1);
            }
            lemma_wildcard_body_reads_as_pattern(p.skip(1), braces, t.skip(1));
        } else {
            let c = p[0];
            let b = wildcard_body(p.skip(1), braces);
            lemma_escaped_one(c);
            assert(r == escaped(seq![c]) + b);
            if braces {
                crate::engine::lemma_no_alternatives_skip(p, 1);
            }
            lemma_wildcard_body_reads_as_pattern(p.skip(1), braces, t.skip(1));
            if is_meta_char(c) {
                assert(r[0] == '\\');
                assert(r[1] == c);
                assert(r.skip(2) =~= b);
                if r.len() >= 4 {
                    assert(r.take(4)[0] == '\\');
                }
                if r.len() >= 5 {
                    assert(r.take(5)[0] == '\\');
                }
            } else {
                assert(r[0] == c);
                assert(r.skip(1) =~= b);
                if r.len() >= 4 {
                    assert(r.take(4)[0] == c);
                }
                if r.len() >= 5 {
                    assert(r.take(5)[0] == c);
                }
            }
        }
    }
}

} // verus!
