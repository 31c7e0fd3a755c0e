//! Stable sorting by a key, ascending or descending, as `slice::sort_by`
//! with `cmp` (or `cmp.reverse()`) orders: equal keys keep their order.
use vstd::prelude::*;

verus! {

/// A key with a total preorder.
pub trait OrderKey: Sized {
    spec fn le(&self, other: &Self) -> bool;

    proof fn lemma_total(a: &Self, b: &Self)
        ensures
            a.le(b) || b.le(a),
    ;

    proof fn lemma_trans(a: &Self, b: &Self, c: &Self)
        requires
            a.le(b),
            b.le(c),
        ensures
            a.le(c),
    ;

    fn key_le(&self, other: &Self) -> (r: bool)
        ensures
            r == self.le(other),
    ;
}

impl OrderKey for u64 {
    open spec fn le(&self, other: &Self) -> bool {
        *self <= *other
    }

    proof fn lemma_total(a: &Self, b: &Self) {
    }

    proof fn lemma_trans(a: &Self, b: &Self, c: &Self) {
    }

    fn key_le(&self, other: &Self) -> (r: bool) {
        *self <= *other
    }
}

// ─────────────────────────── text keys ───────────────────────────

/// Lexicographic order of character sequences by code point, which is the
/// byte order of their UTF-8 encodings (`str::cmp`).
pub open spec fn text_le(a: Seq<char>, b: Seq<char>) -> bool
    decreases a.len(),
{
    if a.len() == 0 {
        true
    } else if b.len() == 0 {
        false
    } else if a[0] < b[0] {
        true
    } else if a[0] > b[0] {
        false
    } else {
        text_le(a.drop_first(), b.drop_first())
    }
}

/// Lexicographic order of lists of texts.
pub open spec fn texts_le(a: Seq<Seq<char>>, b: Seq<Seq<char>>) -> bool
    decreases a.len(),
{
    if a.len() == 0 {
        true
    } else if b.len() == 0 {
        false
    } else if a[0] != b[0] {
        text_le(a[0], b[0])
    } else {
        texts_le(a.drop_first(), b.drop_first())
    }
}

pub proof fn lemma_text_total(a: Seq<char>, b: Seq<char>)
    ensures
        text_le(a, b) || text_le(b, a),
    decreases a.len(),
{
    if a.len() > 0 && b.len() > 0 && a[0] == b[0] {
        lemma_text_total(a.drop_first(), b.drop_first());
    }
}

pub proof fn lemma_text_antisym(a: Seq<char>, b: Seq<char>)
    requires
        text_le(a, b),
        text_le(b, a),
    ensures
        a == b,
    decreases a.len(),
{
    if a.len() > 0 && b.len() > 0 {
        lemma_text_antisym(a.drop_first(), b.drop_first());
        assert(a == seq![a[0]] + a.drop_first());
        assert(b == seq![b[0]] + b.drop_first());
    }
}

pub proof fn lemma_text_trans(a: Seq<char>, b: Seq<char>, c: Seq<char>)
    requires
        text_le(a, b),
        text_le(b, c),
    ensures
        text_le(a, c),
    decreases a.len(),
{
    if a.len() > 0 && b.len() > 0 && c.len() > 0 {
        if a[0] == b[0] && b[0] == c[0] {
            lemma_text_trans(a.drop_first(), b.drop_first(), c.drop_first());
        }
    }
}

pub proof fn lemma_texts_total(a: Seq<Seq<char>>, b: Seq<Seq<char>>)
    ensures
        texts_le(a, b) || texts_le(b, a),
    decreases a.len(),
{
    if a.len() > 0 && b.len() > 0 {
        if a[0] == b[0] {
            lemma_texts_total(a.drop_first(), b.drop_first());
        } else {
            lemma_text_total(a[0], b[0]);
        }
    }
}

pub proof fn lemma_texts_trans(a: Seq<Seq<char>>, b: Seq<Seq<char>>, c: Seq<Seq<char>>)
    requires
        texts_le(a, b),
        texts_le(b, c),
    ensures
        texts_le(a, c),
    decreases a.len(),
{
    if a.len() > 0 && b.len() > 0 && c.len() > 0 {
        if a[0] == b[0] && b[0] == c[0] {
            lemma_texts_trans(a.drop_first(), b.drop_first(), c.drop_first());
        } else if a[0] == b[0] {
        } else if b[0] == c[0] {
        } else {
            lemma_text_trans(a[0], b[0], c[0]);
            if a[0] == c[0] {
                lemma_text_antisym(a[0], b[0]);
            }
        }
    }
}

pub fn text_le_exec(a: &Vec<char>, b: &Vec<char>) -> (r: bool)
    ensures
        r == text_le(a@, b@),
{
    let mut i: usize = 0;
    assert(a@.skip(0) == a@);
    assert(b@.skip(0) == b@);
    while i < a.len()
        invariant
            i <= a.len(),
            i <= b.len(),
            text_le(a@, b@) == text_le(a@.skip(i as int), b@.skip(i as int)),
        decreases a.len() - i,
    {
        if i >= b.len() {
            return false;
        }
        let x = a[i];
        let y = b[i];
        if x < y {
            return true;
        }
        if x > y {
            return false;
        }
        assert(a@.skip(i as int).drop_first() == a@.skip(i + 1));
        assert(b@.skip(i as int).drop_first() == b@.skip(i + 1));
        i = i + 1;
    }
    true
}

/// A sort key made of a list of texts, compared lexicographically.
#[derive(Clone, Debug)]
pub struct TextKey {
    pub parts: Vec<Vec<char>>,
}

impl TextKey {
    pub open spec fn texts(&self) -> Seq<Seq<char>> {
        self.parts@.map_values(|p: Vec<char>| p@)
    }
}

impl OrderKey for TextKey {
    open spec fn le(&self, other: &Self) -> bool {
        texts_le(self.texts(), other.texts())
    }

    proof fn lemma_total(a: &Self, b: &Self) {
        lemma_texts_total(a.texts(), b.texts());
    }

    proof fn lemma_trans(a: &Self, b: &Self, c: &Self) {
        lemma_texts_trans(a.texts(), b.texts(), c.texts());
    }

    fn key_le(&self, other: &Self) -> (r: bool) {
        let ghost at = self.texts();
        let ghost bt = other.texts();
        let mut i: usize = 0;
        assert(at.skip(0) == at);
        assert(bt.skip(0) == bt);
        while i < self.parts.len()
            invariant
                i <= self.parts.len(),
                i <= other.parts.len(),
                at == self.texts(),
                bt == other.texts(),
                texts_le(at, bt) == texts_le(at.skip(i as int), bt.skip(i as int)),
            decreases self.parts.len() - i,
        {
            if i >= other.parts.len() {
                return false;
            }
            assert(at.skip(i as int)[0] == self.parts@[i as int]@);
            assert(bt.skip(i as int)[0] == other.parts@[i as int]@);
            if !crate::text::seq_eq(&self.parts[i], &other.parts[i]) {
                return text_le_exec(&self.parts[i], &other.parts[i]);
            }
            assert(at.skip(i as int).drop_first() == at.skip(i + 1));
            assert(bt.skip(i as int).drop_first() == bt.skip(i + 1));
            i = i + 1;
        }
        true
    }
}

// ─────────────────────────── stable sort ───────────────────────────

/// Strictly less in the key preorder.
pub open spec fn key_lt<K: OrderKey>(a: K, b: K) -> bool {
    a.le(&b) && !b.le(&a)
}

/// Item `a` comes before item `b` in the sorted order: its key is strictly
/// smaller (larger, when descending), or the keys are equivalent and `a`
/// came first.
pub open spec fn goes_before<K: OrderKey>(keys: Seq<K>, ascending: bool, a: int, b: int) -> bool {
    if ascending {
        key_lt(keys[a], keys[b]) || (keys[a].le(&keys[b]) && keys[b].le(&keys[a]) && a < b)
    } else {
        key_lt(keys[b], keys[a]) || (keys[a].le(&keys[b]) && keys[b].le(&keys[a]) && a < b)
    }
}

/// `order` lists every index below `n` once, sorted by `goes_before`.
pub open spec fn is_stable_order<K: OrderKey>(keys: Seq<K>, ascending: bool, order: Seq<usize>) -> bool {
    &&& order.len() == keys.len()
    &&& forall|k: int| 0 <= k < order.len() ==> #[trigger] order[k] < keys.len()
    &&& forall|i: int, j: int| 0 <= i < j < order.len() ==> order[i] != order[j]
    &&& forall|i: int, j: int|
        0 <= i < j < order.len() ==> goes_before(keys, ascending, order[i] as int, order[j] as int)
}

/// Two different items never both go before each other.
proof fn lemma_goes_before_asym<K: OrderKey>(keys: Seq<K>, ascending: bool, a: int, b: int)
    requires
        a != b,
        goes_before(keys, ascending, a, b),
    ensures
        !goes_before(keys, ascending, b, a),
{
}

/// A list of `n` distinct indices below `n` holds every index below `n`.
pub proof fn lemma_distinct_indices_cover(order: Seq<usize>, n: int, i: int)
    requires
        order.len() == n,
        forall|k: int| 0 <= k < order.len() ==> #[trigger] order[k] < n,
        forall|a: int, b: int| 0 <= a < b < order.len() ==> order[a] != order[b],
        0 <= i < n,
    ensures
        exists|j: int| 0 <= j < order.len() && order[j] == i,
{
    let s = order.map_values(|x: usize| x as int);
    assert forall|a: int, b: int| 0 <= a < s.len() && 0 <= b < s.len() && a != b implies s[a] != s[b] by {
        if a < b {
            assert(order[a] != order[b]);
        } else {
            assert(order[b] != order[a]);
        }
    }
    assert(s.no_duplicates());
    s.unique_seq_to_set();
    let range = vstd::set_lib::set_int_range(0, n);
    vstd::set_lib::lemma_int_range(0, n);
    assert forall|x: int| s.to_set().contains(x) implies range.contains(x) by {
        let j = choose|j: int| 0 <= j < s.len() && s[j] == x;
        assert(order[j] < n);
    }
    assert(s.to_set().subset_of(range));
    vstd::set_lib::lemma_subset_equality(s.to_set(), range);
    assert(range.contains(i));
    assert(s.to_set().contains(i));
    let j = choose|j: int| 0 <= j < s.len() && s[j] == i;
    assert(order[j] == i);
}

/// A stable order lists every index below the number of keys.
proof fn lemma_stable_order_covers<K: OrderKey>(keys: Seq<K>, ascending: bool, order: Seq<usize>, i: int)
    requires
        is_stable_order(keys, ascending, order),
        0 <= i < keys.len(),
    ensures
        exists|j: int| 0 <= j < order.len() && order[j] == i,
{
    lemma_distinct_indices_cover(order, keys.len() as int, i);
}

/// The two orders agree on their first `k` positions.
proof fn lemma_stable_orders_agree<K: OrderKey>(
    keys: Seq<K>,
    ascending: bool,
    o1: Seq<usize>,
    o2: Seq<usize>,
    k: int,
)
    requires
        is_stable_order(keys, ascending, o1),
        is_stable_order(keys, ascending, o2),
        0 <= k <= o1.len(),
    ensures
        forall|i: int| 0 <= i < k ==> o1[i] == o2[i],
    decreases k,
{
    if k > 0 {
        lemma_stable_orders_agree(keys, ascending, o1, o2, k - 1);
        let p = k - 1;
        let a = o1[p];
        let b = o2[p];
        if a != b {
            lemma_stable_order_covers(keys, ascending, o2, a as int);
            let j = choose|j: int| 0 <= j < o2.len() && o2[j] == a;
            lemma_stable_order_covers(keys, ascending, o1, b as int);
            let i = choose|i: int| 0 <= i < o1.len() && o1[i] == b;
            if j < p {
                assert(o1[j] == o2[j]);
                assert(o1[j] != o1[p]);
            }
            if i < p {
                assert(o1[i] == o2[i]);
                assert(o2[i] != o2[p]);
            }
            assert(j != p && i != p);
            assert(goes_before(keys, ascending, o2[p] as int, o2[j] as int));
            assert(goes_before(keys, ascending, o1[p] as int, o1[i] as int));
            lemma_goes_before_asym(keys, ascending, a as int, b as int);
        }
    }
}

/// A stable sort's order is unique: two orders that both sort the same keys
/// stably in the same direction are the same order.
pub proof fn lemma_stable_order_unique<K: OrderKey>(
    keys: Seq<K>,
    ascending: bool,
    o1: Seq<usize>,
    o2: Seq<usize>,
)
    requires
        is_stable_order(keys, ascending, o1),
        is_stable_order(keys, ascending, o2),
    ensures
        o1 == o2,
{
    lemma_stable_orders_agree(keys, ascending, o1, o2, o1.len() as int);
    assert(o1 =~= o2);
}

/// The order in which a stable sort by `keys` (ascending, or descending as
/// with a reversed comparison) puts the items.
pub fn stable_order<K: OrderKey>(keys: &Vec<K>, ascending: bool) -> (order: Vec<usize>)
    ensures
        is_stable_order(keys@, ascending, order@),
{
    let mut order: Vec<usize> = Vec::new();
    let mut i: usize = 0;
    while i < keys.len()
        invariant
            i <= keys.len(),
            order.len() == i,
            forall|k: int| 0 <= k < order.len() ==> #[trigger] order@[k] < i,
            forall|a: int, b: int| 0 <= a < b < order.len() ==> order@[a] != order@[b],
            forall|a: int, b: int|
                0 <= a < b < order.len() ==> goes_before(
                    keys@,
                    ascending,
                    order@[a] as int,
                    order@[b] as int,
                ),
        decreases keys.len() - i,
    {
        // find the first position whose key the new item must precede
        let mut pos: usize = 0;
        while pos < order.len()
            invariant
                pos <= order.len(),
                order.len() == i,
                i < keys.len(),
                forall|k: int| 0 <= k < order.len() ==> #[trigger] order@[k] < i,
                forall|q: int|
                    0 <= q < pos ==> #[trigger] goes_before(keys@, ascending, order@[q] as int, i as int),
            ensures
                pos <= order.len(),
                forall|q: int|
                    0 <= q < pos ==> #[trigger] goes_before(keys@, ascending, order@[q] as int, i as int),
                pos < order.len() ==> (if ascending {
                    !keys@[order@[pos as int] as int].le(&keys@[i as int])
                } else {
                    !keys@[i as int].le(&keys@[order@[pos as int] as int])
                }),
            decreases order.len() - pos,
        {
            let o = order[pos];
            let stop = if ascending {
                !keys[o].key_le(&keys[i])
            } else {
                !keys[i].key_le(&keys[o])
            };
            if stop {
                break;
            }
            proof {
                K::lemma_total(&keys@[o as int], &keys@[i as int]);
            }
            pos = pos + 1;
        }
        let ghost old_order = order@;
        proof {
            assert forall|q: int| pos <= q < old_order.len() implies #[trigger] goes_before(
                keys@,
                ascending,
                i as int,
                old_order[q] as int,
            ) by {
                let p0 = old_order[pos as int] as int;
                let oq = old_order[q] as int;
                K::lemma_total(&keys@[p0], &keys@[i as int]);
                if q > pos {
                    assert(goes_before(keys@, ascending, p0, oq));
                    if ascending {
                        K::lemma_trans(&keys@[i as int], &keys@[p0], &keys@[oq]);
                        if keys@[oq].le(&keys@[i as int]) {
                            K::lemma_trans(&keys@[p0], &keys@[oq], &keys@[i as int]);
                        }
                    } else {
                        K::lemma_trans(&keys@[oq], &keys@[p0], &keys@[i as int]);
                        if keys@[i as int].le(&keys@[oq]) {
                            K::lemma_trans(&keys@[i as int], &keys@[oq], &keys@[p0]);
                        }
                    }
                }
            }
        }
        order.insert(pos, i);
        proof {
            assert forall|a: int, b: int| 0 <= a < b < order.len() implies goes_before(
                keys@,
                ascending,
                order@[a] as int,
                order@[b] as int,
            ) by {
                if b < pos {
                    assert(order@[a] == old_order[a]);
                    assert(order@[b] == old_order[b]);
                } else if b == pos {
                    assert(order@[a] == old_order[a]);
                } else if a < pos {
                    assert(order@[a] == old_order[a]);
                    assert(order@[b] == old_order[b - 1]);
                    let oa = old_order[a] as int;
                    let ob = old_order[b - 1] as int;
                    assert(goes_before(keys@, ascending, oa, ob));
                } else if a == pos {
                    assert(order@[b] == old_order[b - 1]);
                } else {
                    assert(order@[a] == old_order[a - 1]);
                    assert(order@[b] == old_order[b - 1]);
                }
            }
            assert forall|k: int| 0 <= k < order.len() implies #[trigger] order@[k] < i + 1 by {
                if k < pos {
                    assert(order@[k] == old_order[k]);
                } else if k > pos {
                    assert(order@[k] == old_order[k - 1]);
                }
            }
            assert forall|a: int, b: int| 0 <= a < b < order.len() implies order@[a] != order@[b] by {
                if b < pos {
                    assert(order@[a] == old_order[a]);
                    assert(order@[b] == old_order[b]);
                } else if b == pos {
                    assert(order@[a] == old_order[a]);
                } else if a < pos {
                    assert(order@[a] == old_order[a]);
                    assert(order@[b] == old_order[b - 1]);
                } else if a == pos {
                    assert(order@[b] == old_order[b - 1]);
                } else {
                    assert(order@[a] == old_order[a - 1]);
                    assert(order@[b] == old_order[b - 1]);
                }
            }
        }
        i = i + 1;
    }
    order
}

} // verus!
