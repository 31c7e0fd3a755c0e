//! Unix paths held as strings, read component by component the way
//! `std::path::Path` reads them.
//!
//! A component is kept as its text: the root is `/`, a leading current-dir
//! marker is `.`, a parent-dir marker is `..`, and any other component is its
//! name (which never holds `/`). Each component also records the position just
//! past its last character, which is where a parent path ends.
use vstd::prelude::*;

use crate::text::{chars_of, pair, seq_eq, single, slice_chars, string_of};

verus! {

/// One component found between `a` and `b`, or none: empty segments are
/// skipped, and so is `.` unless it opens a relative path.
pub open spec fn emit(s: Seq<char>, a: int, b: int, first: bool) -> Seq<(Seq<char>, int)> {
    let seg = s.subrange(a, b);
    if seg.len() == 0 || (seg == seq!['.'] && !first) {
        Seq::empty()
    } else {
        seq![(seg, b)]
    }
}

/// Components of `s` from position `i` on, the current segment having
/// started at `start`.
pub open spec fn scan(s: Seq<char>, i: int, start: int, first: bool) -> Seq<(Seq<char>, int)>
    decreases s.len() - i,
{
    if i >= s.len() {
        emit(s, start, s.len() as int, first)
    } else if s[i] == '/' {
        emit(s, start, i, first) + scan(s, i + 1, i + 1, false)
    } else {
        scan(s, i + 1, start, first)
    }
}

/// The components of a path, each with the position where it ends.
pub open spec fn path_comps(s: Seq<char>) -> Seq<(Seq<char>, int)> {
    if s.len() > 0 && s[0] == '/' {
        seq![(seq!['/'], 1int)] + scan(s, 1, 1, false)
    } else {
        scan(s, 0, 0, true)
    }
}

/// The component texts of a path.
pub open spec fn comps(s: Seq<char>) -> Seq<Seq<char>> {
    path_comps(s).map_values(|c: (Seq<char>, int)| c.0)
}

/// `Path::starts_with`: the components of `base` open those of `p`.
pub open spec fn path_starts_with(p: Seq<char>, base: Seq<char>) -> bool {
    comps(base).len() <= comps(p).len() && comps(p).take(comps(base).len() as int) == comps(base)
}

/// `Path == Path`: the same components.
pub open spec fn path_eq(a: Seq<char>, b: Seq<char>) -> bool {
    comps(a) == comps(b)
}

/// A component text names an entry (not the root, `.` or `..`).
pub open spec fn is_normal_comp(c: Seq<char>) -> bool {
    c != seq!['/'] && c != seq!['.'] && c != seq!['.', '.']
}

/// `Path::file_name`: the last component, when it names an entry.
pub open spec fn file_name(s: Seq<char>) -> Option<Seq<char>> {
    let c = comps(s);
    if c.len() > 0 && is_normal_comp(c.last()) {
        Some(c.last())
    } else {
        None
    }
}

/// `Path::parent`: the path up to the end of the second-last component
/// (empty when there is none); no parent for the root or the empty path.
pub open spec fn parent(s: Seq<char>) -> Option<Seq<char>> {
    let c = path_comps(s);
    if c.len() == 0 || c.last().0 == seq!['/'] {
        None
    } else if c.len() == 1 {
        Some(Seq::empty())
    } else {
        Some(s.take(c[c.len() - 2].1))
    }
}

/// Position of the last `.` in `name`, if any.
pub open spec fn last_dot(name: Seq<char>) -> Option<int>
    decreases name.len(),
{
    if name.len() == 0 {
        None
    } else if name.last() == '.' {
        Some(name.len() - 1)
    } else {
        last_dot(name.drop_last())
    }
}

/// `Path::extension`: what follows the last `.` of the file name, when that
/// `.` is not its first character.
pub open spec fn extension(s: Seq<char>) -> Option<Seq<char>> {
    match file_name(s) {
        Some(name) => match last_dot(name) {
            Some(k) => if k > 0 {
                Some(name.skip(k + 1))
            } else {
                None
            },
            None => None,
        },
        None => None,
    }
}

/// `Path::file_stem`: the file name up to its last `.` (when that `.` is not
/// its first character), else the whole file name.
pub open spec fn file_stem(s: Seq<char>) -> Option<Seq<char>> {
    match file_name(s) {
        Some(name) => match last_dot(name) {
            Some(k) => if k > 0 {
                Some(name.take(k))
            } else {
                Some(name)
            },
            None => Some(name),
        },
        None => None,
    }
}

// ─────────────────────────── executable ───────────────────────────

proof fn lemma_scan_step(s: Seq<char>, i: int, start: int, first: bool)
    requires
        0 <= start <= i < s.len(),
    ensures
        s[i] == '/' ==> scan(s, i, start, first) == emit(s, start, i, first) + scan(
            s,
            i + 1,
            i + 1,
            false,
        ),
        s[i] != '/' ==> scan(s, i, start, first) == scan(s, i + 1, start, first),
{
}

/// The components of the path `s`, each with its end position.
pub fn path_components(s: &Vec<char>) -> (r: Vec<(Vec<char>, usize)>)
    ensures
        r@.len() == path_comps(s@).len(),
        forall|k: int|
            0 <= k < r@.len() ==> (#[trigger] r@[k]).0@ == path_comps(s@)[k].0 && r@[k].1
                == path_comps(s@)[k].1,
{
    let mut out: Vec<(Vec<char>, usize)> = Vec::new();
    let ghost mut acc: Seq<(Seq<char>, int)> = Seq::empty();
    let mut start: usize;
    let mut i: usize;
    let mut first: bool;
    if s.len() > 0 && s[0] == '/' {
        out.push((single('/'), 1));
        proof {
            acc = seq![(seq!['/'], 1int)];
        }
        start = 1;
        i = 1;
        first = false;
    } else {
        start = 0;
        i = 0;
        first = true;
    }
    while i < s.len()
        invariant
            start <= i <= s.len(),
            acc + scan(s@, i as int, start as int, first) == path_comps(s@),
            out@.len() == acc.len(),
            forall|k: int|
                0 <= k < out@.len() ==> (#[trigger] out@[k]).0@ == acc[k].0 && out@[k].1
                    == acc[k].1,
        decreases s.len() - i,
    {
        proof {
            lemma_scan_step(s@, i as int, start as int, first);
        }
        if s[i] == '/' {
            let seg = slice_chars(s, start, i);
            let dot: Vec<char> = single('.');
            let ghost e = emit(s@, start as int, i as int, first);
            let ghost rest = scan(s@, i + 1, i + 1, false);
            let ghost acc0 = acc;
            if seg.len() == 0 || (seq_eq(&seg, &dot) && !first) {
                assert(e == Seq::<(Seq<char>, int)>::empty());
                assert(acc0 + e == acc0);
            } else {
                let ghost piece = (seg@, i as int);
                out.push((seg, i));
                proof {
                    acc = acc.push(piece);
                }
                assert(e == seq![piece]);
                assert(acc == acc0 + e);
            }
            assert(acc0 + (e + rest) == (acc0 + e) + rest);
            start = i + 1;
            first = false;
        }
        i = i + 1;
    }
    let seg = slice_chars(s, start, s.len());
    let dot: Vec<char> = single('.');
    assert(scan(s@, s.len() as int, start as int, first) == emit(s@, start as int, s.len() as int, first));
    if seg.len() == 0 || (seq_eq(&seg, &dot) && !first) {
        assert(acc + Seq::<(Seq<char>, int)>::empty() == acc);
        assert(acc == path_comps(s@));
    } else {
        let ghost piece = (seg@, s.len() as int);
        out.push((seg, s.len()));
        proof {
            acc = acc.push(piece);
        }
        assert(acc == path_comps(s@));
    }
    out
}

/// The component texts of `s`.
pub fn component_texts(s: &Vec<char>) -> (r: Vec<Vec<char>>)
    ensures
        r@.map_values(|c: Vec<char>| c@) == comps(s@),
{
    let pcs = path_components(s);
    let mut r: Vec<Vec<char>> = Vec::new();
    let mut k: usize = 0;
    while k < pcs.len()
        invariant
            k <= pcs.len(),
            pcs@.len() == path_comps(s@).len(),
            forall|j: int|
                0 <= j < pcs@.len() ==> (#[trigger] pcs@[j]).0@ == path_comps(s@)[j].0,
            r@.map_values(|c: Vec<char>| c@) == comps(s@).take(k as int),
        decreases pcs.len() - k,
    {
        let t = slice_chars(&pcs[k].0, 0, pcs[k].0.len());
        assert(t@ == pcs@[k as int].0@);
        assert(comps(s@)[k as int] == path_comps(s@)[k as int].0);
        let ghost prev = r@;
        r.push(t);
        assert(r@.map_values(|c: Vec<char>| c@) =~= prev.map_values(|c: Vec<char>| c@).push(t@));
        assert(comps(s@).take(k + 1) =~= comps(s@).take(k as int).push(comps(s@)[k as int]));
        k = k + 1;
    }
    assert(comps(s@).take(pcs.len() as int) =~= comps(s@));
    r
}

/// Whether two lists of component texts are equal.
pub fn comps_eq(a: &Vec<Vec<char>>, b: &Vec<Vec<char>>, n: usize) -> (r: bool)
    requires
        n <= a.len(),
        n <= b.len(),
    ensures
        r == (a@.map_values(|c: Vec<char>| c@).take(n as int) == b@.map_values(
            |c: Vec<char>| c@,
        ).take(n as int)),
{
    let ghost av = a@.map_values(|c: Vec<char>| c@);
    let ghost bv = b@.map_values(|c: Vec<char>| c@);
    let mut k: usize = 0;
    while k < n
        invariant
            k <= n <= a.len(),
            n <= b.len(),
            av == a@.map_values(|c: Vec<char>| c@),
            bv == b@.map_values(|c: Vec<char>| c@),
            forall|j: int| 0 <= j < k ==> av[j] == bv[j],
        decreases n - k,
    {
        if !seq_eq(&a[k], &b[k]) {
            assert(av.take(n as int)[k as int] != bv.take(n as int)[k as int]);
            return false;
        }
        k = k + 1;
    }
    assert(av.take(n as int) =~= bv.take(n as int));
    true
}

/// `Path::starts_with` on strings.
pub fn path_starts_with_exec(p: &str, base: &str) -> (r: bool)
    ensures
        r == path_starts_with(p@, base@),
{
    let pc = component_texts(&chars_of(p));
    let bc = component_texts(&chars_of(base));
    if bc.len() > pc.len() {
        return false;
    }
    let r = comps_eq(&pc, &bc, bc.len());
    assert(bc@.map_values(|c: Vec<char>| c@).take(bc.len() as int) == comps(base@));
    r
}

/// `Path == Path` on strings.
pub fn path_eq_exec(a: &str, b: &str) -> (r: bool)
    ensures
        r == path_eq(a@, b@),
{
    let ac = component_texts(&chars_of(a));
    let bc = component_texts(&chars_of(b));
    if ac.len() != bc.len() {
        return false;
    }
    let r = comps_eq(&ac, &bc, ac.len());
    assert(ac@.map_values(|c: Vec<char>| c@).take(ac.len() as int) == comps(a@));
    assert(bc@.map_values(|c: Vec<char>| c@).take(bc.len() as int) == comps(b@));
    r
}

pub fn is_normal_comp_exec(c: &Vec<char>) -> (r: bool)
    ensures
        r == is_normal_comp(c@),
{
    let root: Vec<char> = single('/');
    let cur: Vec<char> = single('.');
    let up: Vec<char> = pair('.', '.');
    !seq_eq(c, &root) && !seq_eq(c, &cur) && !seq_eq(c, &up)
}

/// `Path::file_name` on strings.
pub fn file_name_chars(s: &Vec<char>) -> (r: Option<Vec<char>>)
    ensures
        match r {
            Some(v) => file_name(s@) == Some(v@),
            None => file_name(s@) is None,
        },
{
    let cs = component_texts(s);
    if cs.len() == 0 {
        return None;
    }
    let last = slice_chars(&cs[cs.len() - 1], 0, cs[cs.len() - 1].len());
    assert(last@ == comps(s@).last());
    if is_normal_comp_exec(&last) {
        Some(last)
    } else {
        None
    }
}

pub fn file_name_str(s: &str) -> (r: Option<String>)
    ensures
        match r {
            Some(v) => file_name(s@) == Some(v@),
            None => file_name(s@) is None,
        },
{
    match file_name_chars(&chars_of(s)) {
        Some(v) => Some(string_of(&v)),
        None => None,
    }
}

/// `Path::parent` on strings.
pub fn parent_chars(s: &Vec<char>) -> (r: Option<Vec<char>>)
    ensures
        match r {
            Some(v) => parent(s@) == Some(v@),
            None => parent(s@) is None,
        },
{
    let pcs = path_components(s);
    if pcs.len() == 0 {
        return None;
    }
    let root: Vec<char> = single('/');
    assert(pcs@[pcs.len() - 1].0@ == path_comps(s@).last().0);
    if seq_eq(&pcs[pcs.len() - 1].0, &root) {
        return None;
    }
    if pcs.len() == 1 {
        return Some(Vec::new());
    }
    let end = pcs[pcs.len() - 2].1;
    assert(end == path_comps(s@)[path_comps(s@).len() - 2].1);
    proof {
        lemma_comp_end_bound(s@, pcs.len() - 2);
    }
    Some(slice_chars(s, 0, end))
}

/// Component end positions lie within the path.
pub proof fn lemma_comp_end_bound(s: Seq<char>, k: int)
    requires
        0 <= k < path_comps(s).len(),
    ensures
        0 <= path_comps(s)[k].1 <= s.len(),
{
    if s.len() > 0 && s[0] == '/' {
        if k > 0 {
            lemma_scan_ends(s, 1, 1, false, k - 1);
        }
    } else {
        lemma_scan_ends(s, 0, 0, true, k);
    }
}

proof fn lemma_scan_ends(s: Seq<char>, i: int, start: int, first: bool, k: int)
    requires
        0 <= start <= i <= s.len(),
        0 <= k < scan(s, i, start, first).len(),
    ensures
        start <= scan(s, i, start, first)[k].1 <= s.len(),
    decreases s.len() - i,
{
    if i >= s.len() {
    } else if s[i] == '/' {
        let e = emit(s, start, i, first);
        if k >= e.len() {
            lemma_scan_ends(s, i + 1, i + 1, false, k - e.len());
        }
    } else {
        lemma_scan_ends(s, i + 1, start, first, k);
    }
}

/// `Path::parent` mapped to text, and the empty string when there is none.
pub fn parent_key(s: &str) -> (r: String)
    ensures
        r@ == match parent(s@) {
            Some(p) => p,
            None => Seq::empty(),
        },
{
    match parent_chars(&chars_of(s)) {
        Some(v) => string_of(&v),
        None => String::new(),
    }
}

/// Position of the last `.` in `name`.
pub fn last_dot_exec(name: &Vec<char>) -> (r: Option<usize>)
    ensures
        match r {
            Some(k) => last_dot(name@) == Some(k as int),
            None => last_dot(name@) is None,
        },
{
    let mut n: usize = name.len();
    assert(name@.take(name.len() as int) == name@);
    while n > 0
        invariant
            n <= name.len(),
            last_dot(name@) == last_dot(name@.take(n as int)),
        decreases n,
    {
        if name[n - 1] == '.' {
            return Some(n - 1);
        }
        assert(name@.take(n as int).drop_last() == name@.take(n - 1));
        n = n - 1;
    }
    None
}

pub proof fn lemma_last_dot_bound(name: Seq<char>)
    ensures
        last_dot(name) matches Some(k) ==> 0 <= k < name.len() && name[k] == '.',
    decreases name.len(),
{
    if name.len() > 0 && name.last() != '.' {
        lemma_last_dot_bound(name.drop_last());
    }
}

/// `Path::extension` on strings.
pub fn extension_chars(s: &Vec<char>) -> (r: Option<Vec<char>>)
    ensures
        match r {
            Some(v) => extension(s@) == Some(v@),
            None => extension(s@) is None,
        },
{
    match file_name_chars(s) {
        Some(name) => match last_dot_exec(&name) {
            Some(k) => {
                proof {
                    lemma_last_dot_bound(name@);
                }
                if k > 0 {
                    Some(slice_chars(&name, k + 1, name.len()))
                } else {
                    None
                }
            },
            None => None,
        },
        None => None,
    }
}

/// `Path::file_stem` on strings.
pub fn file_stem_chars(s: &Vec<char>) -> (r: Option<Vec<char>>)
    ensures
        match r {
            Some(v) => file_stem(s@) == Some(v@),
            None => file_stem(s@) is None,
        },
{
    match file_name_chars(s) {
        Some(name) => match last_dot_exec(&name) {
            Some(k) => {
                proof {
                    lemma_last_dot_bound(name@);
                }
                if k > 0 {
                    Some(slice_chars(&name, 0, k))
                } else {
                    Some(name)
                }
            },
            None => Some(name),
        },
        None => None,
    }
}


// ─────────────────────────── paths as a walk yields them ───────────────────────────

/// A path in the form a directory walk yields: absolute, components separated
/// by single `/`, no trailing `/`, no `.` component, and not ending in `..`.
pub open spec fn walk_path(p: Seq<char>) -> bool {
    &&& p.len() >= 2
    &&& p[0] == '/'
    &&& p.last() != '/'
    &&& forall|i: int| 0 <= i < p.len() - 1 && p[i] == '/' ==> #[trigger] p[i + 1] != '/'
    &&& forall|i: int|
        0 <= i < p.len() - 1 && p[i] == '/' && #[trigger] p[i + 1] == '.' ==> i + 2 < p.len() && p[i + 2]
            != '/'
    &&& !(p.len() >= 3 && p[p.len() - 1] == '.' && p[p.len() - 2] == '.' && p[p.len() - 3] == '/')
}

/// The last `/` among the first `n` characters.
proof fn lemma_last_slash(s: Seq<char>, n: int) -> (k: int)
    requires
        0 < n <= s.len(),
        s[0] == '/',
    ensures
        0 <= k < n,
        s[k] == '/',
        forall|j: int| k < j < n ==> s[j] != '/',
    decreases n,
{
    if s[n - 1] == '/' {
        n - 1
    } else {
        lemma_last_slash(s, n - 1)
    }
}

/// A segment between two `/` (or a `/` and the end) of a walk path is one
/// component, ending where the segment ends.
proof fn lemma_segment_emit(s: Seq<char>, a: int, b: int)
    requires
        walk_path(s),
        1 <= a <= b <= s.len(),
        s[a - 1] == '/',
        b == s.len() || s[b] == '/',
        forall|j: int| a <= j < b ==> s[j] != '/',
    ensures
        emit(s, a, b, false) == seq![(s.subrange(a, b), b)],
{
    if a == b {
        if b == s.len() {
            assert(s.last() == s[a - 1]);
        } else {
            assert(s[(a - 1) + 1] != '/');
        }
    }
    if s.subrange(a, b) == seq!['.'] {
        assert(s.subrange(a, b).len() == 1);
        assert(b == a + 1);
        assert(s[a] == s.subrange(a, b)[0]);
        assert(s[(a - 1) + 1] == '.');
        assert((a - 1) + 2 < s.len() && s[(a - 1) + 2] != '/');
        assert(false);
    }
    assert(s.subrange(a, b).len() > 0);
}

/// With no `/` from `start` on, the rest of a walk path is its last component.
proof fn lemma_scan_tail(s: Seq<char>, i: int, start: int)
    requires
        walk_path(s),
        1 <= start <= i <= s.len(),
        s[start - 1] == '/',
        forall|j: int| start <= j < s.len() ==> s[j] != '/',
    ensures
        scan(s, i, start, false) == seq![(s.subrange(start, s.len() as int), s.len() as int)],
    decreases s.len() - i,
{
    if i >= s.len() {
        lemma_segment_emit(s, start, s.len() as int);
    } else {
        lemma_scan_tail(s, i + 1, start);
    }
}

/// The last two components of a walk path: the one ending at its last `/`,
/// then the one after it.
proof fn lemma_scan_last_two(s: Seq<char>, i: int, start: int, k: int)
    requires
        walk_path(s),
        1 <= start <= i <= k < s.len(),
        s[start - 1] == '/',
        s[k] == '/',
        forall|j: int| start <= j < i ==> s[j] != '/',
        forall|j: int| k < j < s.len() ==> s[j] != '/',
    ensures
        scan(s, i, start, false).len() >= 2,
        scan(s, i, start, false).last() == (s.subrange(k + 1, s.len() as int), s.len() as int),
        scan(s, i, start, false)[scan(s, i, start, false).len() - 2].1 == k,
    decreases k - i,
{
    if s[i] != '/' {
        lemma_scan_last_two(s, i + 1, start, k);
    } else if i == k {
        lemma_segment_emit(s, start, k);
        lemma_scan_tail(s, k + 1, k + 1);
    } else {
        lemma_scan_last_two(s, i + 1, i + 1, k);
        let rest = scan(s, i + 1, i + 1, false);
        let e = emit(s, start, i, false);
        assert((e + rest).last() == rest.last());
        assert((e + rest)[(e + rest).len() - 2] == rest[rest.len() - 2]);
    }
}

/// A walk path is its parent joined with its file name.
pub proof fn lemma_walk_path_parts(p: Seq<char>)
    requires
        walk_path(p),
    ensures
        parent(p) is Some,
        file_name(p) is Some,
        crate::engine::joined(parent(p)->0, file_name(p)->0) == p,
{
    let k = lemma_last_slash(p, p.len() as int);
    let w = p.subrange(k + 1, p.len() as int);
    if k == 0 {
        lemma_scan_tail(p, 1, 1);
        assert(path_comps(p) == seq![(seq!['/'], 1int)] + seq![(w, p.len() as int)]);
    } else {
        lemma_scan_last_two(p, 1, 1, k);
        let r = scan(p, 1, 1, false);
        let c = path_comps(p);
        assert(c == seq![(seq!['/'], 1int)] + r);
        assert(c.last() == r.last());
        assert(c[c.len() - 2] == r[r.len() - 2]);
        assert(p[(k - 1) + 1] == '/');
        assert(k >= 2);
    }
    let c = path_comps(p);
    assert(comps(p).last() == c.last().0);
    assert(w.len() > 0);
    assert(w != seq!['/']) by {
        if w == seq!['/'] {
            assert(p[k + 1] == w[0]);
        }
    }
    assert(w != seq!['.']) by {
        if w == seq!['.'] {
            assert(p[k + 1] == w[0]);
        }
    }
    assert(w != seq!['.', '.']) by {
        if w == seq!['.', '.'] {
            assert(p.len() == k + 3);
            assert(p[k + 1] == w[0] && p[k + 2] == w[1]);
        }
    }
    if k == 0 {
        assert(p.take(1) =~= seq!['/']);
        assert(seq!['/'] + w =~= p);
    } else {
        assert(p.take(k) != seq!['/']) by {
            if p.take(k) == seq!['/'] {
                assert(p.take(k).len() == 1);
            }
        }
        assert(p.take(k) + seq!['/'] + w =~= p);
    }
}

} // verus!
