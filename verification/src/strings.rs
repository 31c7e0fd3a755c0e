//! Lists of strings: views, membership, and first-occurrence de-duplication.
use vstd::prelude::*;

use crate::text::str_eq;

verus! {

/// The character sequences of a list of strings.
pub open spec fn views(v: Seq<String>) -> Seq<Seq<char>> {
    v.map_values(|s: String| s@)
}

/// No two entries are equal.
pub open spec fn no_dups(s: Seq<Seq<char>>) -> bool {
    forall|i: int, j: int| 0 <= i < j < s.len() ==> s[i] != s[j]
}

/// Keeps the first occurrence of every non-empty entry, in order.
pub open spec fn dedup_nonempty(items: Seq<Seq<char>>) -> Seq<Seq<char>>
    decreases items.len(),
{
    if items.len() == 0 {
        Seq::empty()
    } else {
        let prev = dedup_nonempty(items.drop_last());
        let x = items.last();
        if x.len() == 0 || prev.contains(x) {
            prev
        } else {
            prev.push(x)
        }
    }
}

pub fn contains_string(list: &Vec<String>, x: &String) -> (r: bool)
    ensures
        r == views(list@).contains(x@),
{
    let xs = x.as_str();
    let mut i: usize = 0;
    while i < list.len()
        invariant
            i <= list.len(),
            xs@ == x@,
            forall|k: int| 0 <= k < i ==> list@[k]@ != x@,
        decreases list.len() - i,
    {
        if str_eq(list[i].as_str(), xs) {
            assert(views(list@)[i as int] == x@);
            return true;
        }
        i = i + 1;
    }
    assert(!views(list@).contains(x@)) by {
        if views(list@).contains(x@) {
            let k = choose|k: int| 0 <= k < views(list@).len() && views(list@)[k] == x@;
            assert(list@[k]@ == x@);
        }
    }
    false
}

pub proof fn lemma_views_push(v: Seq<String>, s: String)
    ensures
        views(v.push(s)) == views(v).push(s@),
{
    assert(views(v.push(s)) =~= views(v).push(s@));
}

pub proof fn lemma_views_take(v: Seq<String>, i: int)
    requires
        0 <= i < v.len(),
    ensures
        views(v.take(i + 1)) == views(v.take(i)).push(v[i]@),
        views(v.take(i + 1)).drop_last() == views(v.take(i)),
        views(v.take(i + 1)).last() == v[i]@,
{
    assert(views(v.take(i + 1)) =~= views(v.take(i)).push(v[i]@));
}

/// What `dedup_nonempty` keeps: no duplicates, nothing empty, only entries
/// of the input, and every non-empty entry of the input.
pub proof fn lemma_dedup_nonempty_props(items: Seq<Seq<char>>)
    ensures
        no_dups(dedup_nonempty(items)),
        forall|k: int|
            0 <= k < dedup_nonempty(items).len() ==> #[trigger] dedup_nonempty(items)[k].len()
                > 0,
        forall|x: Seq<char>| dedup_nonempty(items).contains(x) ==> items.contains(x),
        forall|x: Seq<char>| items.contains(x) && x.len() > 0 ==> dedup_nonempty(items).contains(x),
    decreases items.len(),
{
    if items.len() > 0 {
        let prev = dedup_nonempty(items.drop_last());
        lemma_dedup_nonempty_props(items.drop_last());
        assert forall|x: Seq<char>| dedup_nonempty(items).contains(x) implies items.contains(x) by {
            if prev.contains(x) {
                assert(items.drop_last().contains(x));
                let k = choose|k: int| 0 <= k < items.drop_last().len() && items.drop_last()[k] == x;
                assert(items[k] == x);
            } else {
                assert(x == items.last());
                assert(items[items.len() - 1] == x);
            }
        }
        assert forall|x: Seq<char>| items.contains(x) && x.len() > 0 implies dedup_nonempty(
            items,
        ).contains(x) by {
            let k = choose|k: int| 0 <= k < items.len() && items[k] == x;
            if k < items.len() - 1 {
                assert(items.drop_last()[k] == x);
                assert(items.drop_last().contains(x));
                assert(prev.contains(x));
                let j = choose|j: int| 0 <= j < prev.len() && prev[j] == x;
                assert(dedup_nonempty(items)[j] == x);
            } else {
                if !prev.contains(x) {
                    assert(dedup_nonempty(items)[prev.len() as int] == x);
                }
            }
        }
    }
}

/// A list without duplicates or empty entries is left as it is.
pub proof fn lemma_dedup_nonempty_fixed(items: Seq<Seq<char>>)
    requires
        no_dups(items),
        forall|k: int| 0 <= k < items.len() ==> #[trigger] items[k].len() > 0,
    ensures
        dedup_nonempty(items) == items,
    decreases items.len(),
{
    if items.len() > 0 {
        let init = items.drop_last();
        lemma_dedup_nonempty_fixed(init);
        assert(!init.contains(items.last())) by {
            if init.contains(items.last()) {
                let k = choose|k: int| 0 <= k < init.len() && init[k] == items.last();
                assert(items[k] == items[items.len() - 1]);
            }
        }
        assert(items.last().len() > 0) by {
            assert(items[items.len() - 1].len() > 0);
        }
        assert(init.push(items.last()) == items);
    }
}

/// The entries of `items` without repeats, each at its first occurrence.
pub open spec fn distinct(items: Seq<Seq<char>>) -> Seq<Seq<char>>
    decreases items.len(),
{
    if items.len() == 0 {
        Seq::empty()
    } else {
        let prev = distinct(items.drop_last());
        if prev.contains(items.last()) {
            prev
        } else {
            prev.push(items.last())
        }
    }
}

pub proof fn lemma_distinct_props(items: Seq<Seq<char>>)
    ensures
        no_dups(distinct(items)),
        forall|x: Seq<char>| distinct(items).contains(x) <==> items.contains(x),
    decreases items.len(),
{
    if items.len() > 0 {
        let prev = distinct(items.drop_last());
        lemma_distinct_props(items.drop_last());
        assert forall|x: Seq<char>| distinct(items).contains(x) <==> items.contains(x) by {
            if distinct(items).contains(x) {
                if prev.contains(x) {
                    assert(items.drop_last().contains(x));
                    let k = choose|k: int| 0 <= k < items.drop_last().len() && items.drop_last()[k] == x;
                    assert(items[k] == x);
                } else {
                    assert(items[items.len() - 1] == x);
                }
            }
            if items.contains(x) {
                let k = choose|k: int| 0 <= k < items.len() && items[k] == x;
                if k < items.len() - 1 {
                    assert(items.drop_last()[k] == x);
                    assert(items.drop_last().contains(x));
                    assert(prev.contains(x));
                    let j = choose|j: int| 0 <= j < prev.len() && prev[j] == x;
                    assert(distinct(items)[j] == x);
                } else if !prev.contains(x) {
                    assert(distinct(items)[prev.len() as int] == x);
                }
            }
        }
    }
}

/// Keeps the first occurrence of each entry.
pub fn distinct_strings(items: &Vec<String>) -> (r: Vec<String>)
    ensures
        views(r@) == distinct(views(items@)),
{
    let ghost iv = views(items@);
    let mut r: Vec<String> = Vec::new();
    let mut i: usize = 0;
    while i < items.len()
        invariant
            i <= items.len(),
            iv == views(items@),
            views(r@) == distinct(iv.take(i as int)),
        decreases items.len() - i,
    {
        proof {
            lemma_views_take(items@, i as int);
        }
        assert(iv.take(i + 1).drop_last() =~= iv.take(i as int));
        assert(iv.take(i + 1).last() == items@[i as int]@);
        if !contains_string(&r, &items[i]) {
            let s = items[i].clone();
            proof {
                lemma_views_push(r@, s);
            }
            r.push(s);
        }
        i = i + 1;
    }
    assert(iv.take(items.len() as int) =~= iv);
    r
}

/// A copy of a list of strings.
pub fn clone_strings(items: &Vec<String>) -> (r: Vec<String>)
    ensures
        views(r@) == views(items@),
{
    let mut r: Vec<String> = Vec::new();
    let mut i: usize = 0;
    while i < items.len()
        invariant
            i <= items.len(),
            views(r@) == views(items@).take(i as int),
        decreases items.len() - i,
    {
        let s = items[i].clone();
        proof {
            lemma_views_push(r@, s);
        }
        r.push(s);
        i = i + 1;
        assert(views(items@).take(i as int) =~= views(items@).take(i - 1).push(items@[i - 1]@));
    }
    assert(views(items@).take(items.len() as int) =~= views(items@));
    r
}

} // verus!
