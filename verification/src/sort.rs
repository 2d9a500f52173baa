//! Stable ordering of records by a key.
//!
//! A sort is described by the permutation that it applies: the sequence of
//! source positions in the order in which their records come out. Because ties
//! are broken by the position itself, that permutation is unique.
use vstd::prelude::*;

verus! {

/// A total preorder on keys.
pub trait Order: Sized {
    /// `self` may stand before `other`.
    spec fn le(self, other: Self) -> bool;

    /// Any two keys can be put in an order.
    proof fn total(a: Self, b: Self)
        ensures
            a.le(b) || b.le(a),
    ;

    /// The order is transitive.
    proof fn transitive(a: Self, b: Self, c: Self)
        requires
            a.le(b),
            b.le(c),
        ensures
            a.le(c),
    ;
}

/// Keys that can be compared at run time.
pub trait Rank: Order {
    /// `self` may stand before `other`.
    fn may_precede(&self, other: &Self) -> (r: bool)
        ensures
            r == self.le(*other),
    ;
}

/// The record at position `x` comes out before the one at position `y`: its key
/// ranks lower, or the keys tie and it stood first.
pub open spec fn goes_before<K: Order>(keys: Seq<K>, x: int, y: int) -> bool {
    keys[x].le(keys[y]) && (keys[y].le(keys[x]) ==> x < y)
}

/// `order` lists positions of `keys` between `lo` and `hi` in the order in which
/// a stable sort hands out their records.
pub open spec fn ordered_within<K: Order>(keys: Seq<K>, order: Seq<usize>, lo: int, hi: int) -> bool {
    &&& forall|i: int| 0 <= i < order.len() ==> lo <= #[trigger] order[i] < hi
    &&& forall|i: int, j: int|
        0 <= i < j < order.len() ==> #[trigger] goes_before(
            keys,
            order[i] as int,
            order[j] as int,
        )
}

/// `order` is the permutation that a stable sort by `keys` applies.
pub open spec fn is_stable_order<K: Order>(keys: Seq<K>, order: Seq<usize>) -> bool {
    &&& order.len() == keys.len()
    &&& ordered_within(keys, order, 0, keys.len() as int)
}

/// Merges two runs, of which the second holds later positions only.
fn merge<K: Rank>(
    keys: &Vec<K>,
    left: &Vec<usize>,
    right: &Vec<usize>,
    lo: usize,
    mid: usize,
    hi: usize,
) -> (out: Vec<usize>)
    requires
        lo <= mid <= hi <= keys@.len(),
        left@.len() == mid - lo,
        right@.len() == hi - mid,
        ordered_within(keys@, left@, lo as int, mid as int),
        ordered_within(keys@, right@, mid as int, hi as int),
    ensures
        out@.len() == hi - lo,
        ordered_within(keys@, out@, lo as int, hi as int),
{
    let ghost ks = keys@;
    let mut out: Vec<usize> = Vec::new();
    let mut i: usize = 0;
    let mut j: usize = 0;
    while i < left.len() || j < right.len()
        invariant
            ks == keys@,
            lo <= mid <= hi <= keys@.len(),
            left@.len() == mid - lo,
            right@.len() == hi - mid,
            ordered_within(keys@, left@, lo as int, mid as int),
            ordered_within(keys@, right@, mid as int, hi as int),
            i <= left@.len(),
            j <= right@.len(),
            out@.len() == i + j,
            ordered_within(keys@, out@, lo as int, hi as int),
            forall|a: int, p: int|
                0 <= a < out@.len() && i <= p < left@.len() ==> #[trigger] goes_before(
                    ks,
                    out@[a] as int,
                    left@[p] as int,
                ),
            forall|a: int, q: int|
                0 <= a < out@.len() && j <= q < right@.len() ==> #[trigger] goes_before(
                    ks,
                    out@[a] as int,
                    right@[q] as int,
                ),
        decreases left@.len() - i + right@.len() - j,
    {
        let from_left = if i < left.len() && j < right.len() {
            keys[left[i]].may_precede(&keys[right[j]])
        } else {
            i < left.len()
        };
        if from_left {
            let x: usize = left[i];
            proof {
                assert forall|q: int| j <= q < right@.len() implies #[trigger] goes_before(
                    ks,
                    x as int,
                    right@[q] as int,
                ) by {
                    if q > j {
                        assert(goes_before(ks, right@[j as int] as int, right@[q] as int));
                        K::transitive(
                            ks[x as int],
                            ks[right@[j as int] as int],
                            ks[right@[q] as int],
                        );
                    }
                }
                assert forall|p: int| i + 1 <= p < left@.len() implies #[trigger] goes_before(
                    ks,
                    x as int,
                    left@[p] as int,
                ) by {
                    assert(goes_before(ks, left@[i as int] as int, left@[p] as int));
                }
            }
            out.push(x);
            i = i + 1;
        } else {
            let y: usize = right[j];
            proof {
                assert forall|p: int| i <= p < left@.len() implies #[trigger] goes_before(
                    ks,
                    y as int,
                    left@[p] as int,
                ) by {
                    let l0 = left@[i as int] as int;
                    let lp = left@[p] as int;
                    K::total(ks[l0], ks[y as int]);
                    if p > i {
                        assert(goes_before(ks, l0, lp));
                        K::transitive(ks[y as int], ks[l0], ks[lp]);
                        if ks[lp].le(ks[y as int]) {
                            K::transitive(ks[l0], ks[lp], ks[y as int]);
                        }
                    }
                }
                assert forall|q: int| j + 1 <= q < right@.len() implies #[trigger] goes_before(
                    ks,
                    y as int,
                    right@[q] as int,
                ) by {
                    assert(goes_before(ks, right@[j as int] as int, right@[q] as int));
                }
            }
            out.push(y);
            j = j + 1;
        }
    }
    out
}

/// The stable order of the records at positions `lo..hi`.
fn stable_order_within<K: Rank>(keys: &Vec<K>, lo: usize, hi: usize) -> (order: Vec<usize>)
    requires
        lo <= hi <= keys@.len(),
    ensures
        order@.len() == hi - lo,
        ordered_within(keys@, order@, lo as int, hi as int),
    decreases hi - lo,
{
    if hi - lo == 0 {
        Vec::new()
    } else if hi - lo == 1 {
        let mut order: Vec<usize> = Vec::new();
        order.push(lo);
        order
    } else {
        let mid: usize = lo + (hi - lo) / 2;
        let left = stable_order_within(keys, lo, mid);
        let right = stable_order_within(keys, mid, hi);
        merge(keys, &left, &right, lo, mid, hi)
    }
}

/// The order in which a stable sort by `keys` hands out its records.
pub fn stable_order<K: Rank>(keys: &Vec<K>) -> (order: Vec<usize>)
    ensures
        is_stable_order(keys@, order@),
{
    stable_order_within(keys, 0, keys.len())
}

/// Puts `items` in the order that `order` lists.
pub fn reorder<T>(items: Vec<T>, order: &Vec<usize>) -> (out: Vec<T>)
    requires
        order@.len() <= items@.len(),
        forall|i: int| 0 <= i < order@.len() ==> #[trigger] order@[i] < items@.len(),
        forall|i: int, j: int| 0 <= i < j < order@.len() ==> order@[i] != order@[j],
    ensures
        out@.len() == order@.len(),
        forall|i: int| 0 <= i < out@.len() ==> #[trigger] out@[i] == items@[order@[i] as int],
{
    let ghost src = items@;
    let mut items = items;
    let mut slots: Vec<Option<T>> = Vec::new();
    let n: usize = items.len();
    let mut rest: Vec<Option<T>> = Vec::new();
    let mut k: usize = 0;
    while k < n
        invariant
            k <= n,
            n == src.len(),
            items@ == src.subrange(0, n - k),
            rest@.len() == k,
            forall|a: int| 0 <= a < k ==> #[trigger] rest@[a] == Some(src[n - 1 - a]),
        decreases n - k,
    {
        match items.pop() {
            Some(x) => {
                rest.push(Some(x));
            },
            None => {},
        }
        k = k + 1;
    }
    let mut m: usize = 0;
    while m < n
        invariant
            m <= n,
            n == src.len(),
            rest@.len() == n - m,
            forall|a: int| 0 <= a < n - m ==> #[trigger] rest@[a] == Some(src[n - 1 - a]),
            slots@.len() == m,
            forall|a: int| 0 <= a < m ==> #[trigger] slots@[a] == Some(src[a]),
        decreases n - m,
    {
        match rest.pop() {
            Some(x) => {
                slots.push(x);
            },
            None => {},
        }
        m = m + 1;
    }
    let mut out: Vec<T> = Vec::new();
    let mut i: usize = 0;
    while i < order.len()
        invariant
            i <= order@.len(),
            order@.len() <= src.len(),
            forall|a: int| 0 <= a < order@.len() ==> #[trigger] order@[a] < src.len(),
            forall|a: int, b: int| 0 <= a < b < order@.len() ==> order@[a] != order@[b],
            slots@.len() == src.len(),
            forall|a: int| i <= a < order@.len() ==> slots@[#[trigger] order@[a] as int] == Some(src[order@[a] as int]),
            out@.len() == i,
            forall|a: int| 0 <= a < i ==> #[trigger] out@[a] == src[order@[a] as int],
        decreases order@.len() - i,
    {
        let at: usize = order[i];
        let mut slot: Option<T> = None;
        std::mem::swap(&mut slot, &mut slots[at]);
        match slot {
            Some(x) => {
                out.push(x);
            },
            None => {},
        }
        i = i + 1;
    }
    out
}

/// `out` holds the records of `src` in the order of a stable sort by `keys`.
pub open spec fn sorted_by<K: Order, T>(keys: Seq<K>, src: Seq<T>, out: Seq<T>) -> bool {
    exists|order: Seq<usize>| #[trigger]
        is_stable_order(keys, order) && is_reordering(src, order, out)
}

/// `out` holds the records of `src` at the positions that `order` lists.
pub open spec fn is_reordering<T>(src: Seq<T>, order: Seq<usize>, out: Seq<T>) -> bool {
    &&& out.len() == order.len()
    &&& forall|i: int| 0 <= i < out.len() ==> #[trigger] out[i] == src[order[i] as int]
}

/// The records of `src` in the order of a stable sort by `keys`.
pub open spec fn stable_sorted<K: Order, T>(keys: Seq<K>, src: Seq<T>) -> Seq<T> {
    choose|out: Seq<T>| sorted_by(keys, src, out)
}

/// A stable sort has one result.
pub proof fn stable_sort_is_unique<K: Order, T>(keys: Seq<K>, src: Seq<T>, out: Seq<T>)
    requires
        sorted_by(keys, src, out),
    ensures
        out == stable_sorted(keys, src),
{
    let other = stable_sorted(keys, src);
    assert(sorted_by(keys, src, other));
    let a = choose|order: Seq<usize>| #[trigger]
        is_stable_order(keys, order) && is_reordering(src, order, out);
    let b = choose|order: Seq<usize>| #[trigger]
        is_stable_order(keys, order) && is_reordering(src, order, other);
    stable_order_is_unique(keys, a, b);
    assert(out =~= other);
}

/// The stable order lists where each record of the sort comes from.
pub proof fn stable_order_gives_sorted<K: Order, T>(keys: Seq<K>, src: Seq<T>, order: Seq<usize>)
    requires
        is_stable_order(keys, order),
    ensures
        stable_sorted(keys, src).len() == keys.len(),
        forall|i: int|
            0 <= i < keys.len() ==> #[trigger] stable_sorted(keys, src)[i] == src[order[i] as int],
{
    let out = Seq::new(order.len(), |i: int| src[order[i] as int]);
    assert(is_reordering(src, order, out));
    stable_sort_is_unique(keys, src, out);
}

/// It is all one whether records are sorted and then turned into others, or the other way
/// round.
pub proof fn sorting_commutes_with_mapping<K: Order, T, U>(
    keys: Seq<K>,
    src: Seq<T>,
    out: Seq<T>,
    f: spec_fn(T) -> U,
)
    requires
        sorted_by(keys, src, out),
        keys.len() == src.len(),
    ensures
        out.map_values(f) == stable_sorted(keys, src.map_values(f)),
{
    let order = choose|order: Seq<usize>| #[trigger]
        is_stable_order(keys, order) && is_reordering(src, order, out);
    assert forall|i: int| 0 <= i < out.len() implies #[trigger] out.map_values(f)[i]
        == src.map_values(f)[order[i] as int] by {
        assert(out[i] == src[order[i] as int]);
        assert(order[i] < keys.len());
    }
    assert(is_reordering(src.map_values(f), order, out.map_values(f)));
    stable_sort_is_unique(keys, src.map_values(f), out.map_values(f));
}

/// Sorts `items` by `keys`, which stand at the same positions. The sort is stable.
pub fn sort_by_keys<K: Rank, T>(items: Vec<T>, keys: &Vec<K>) -> (out: Vec<T>)
    requires
        keys@.len() == items@.len(),
    ensures
        sorted_by(keys@, items@, out@),
        out@ == stable_sorted(keys@, items@),
        out@.len() == items@.len(),
{
    let order = stable_order(keys);
    proof {
        assert forall|i: int, j: int| 0 <= i < j < order@.len() implies order@[i] != order@[j] by {
            assert(goes_before(keys@, order@[i] as int, order@[j] as int));
        }
    }
    let out = reorder(items, &order);
    proof {
        assert(is_reordering(items@, order@, out@));
        stable_sort_is_unique(keys@, items@, out@);
    }
    out
}

/// A key of four numbers, the first of which counts most.
#[derive(Clone, Copy, Debug, PartialEq, Eq, Structural)]
pub struct NumKey {
    pub first: u64,
    pub second: u64,
    pub third: u64,
    pub fourth: u64,
}

impl Order for NumKey {
    open spec fn le(self, other: Self) -> bool {
        if self.first != other.first {
            self.first < other.first
        } else if self.second != other.second {
            self.second < other.second
        } else if self.third != other.third {
            self.third < other.third
        } else {
            self.fourth <= other.fourth
        }
    }

    proof fn total(a: Self, b: Self) {
    }

    proof fn transitive(a: Self, b: Self, c: Self) {
    }
}

impl Rank for NumKey {
    fn may_precede(&self, other: &Self) -> (r: bool) {
        if self.first != other.first {
            self.first < other.first
        } else if self.second != other.second {
            self.second < other.second
        } else if self.third != other.third {
            self.third < other.third
        } else {
            self.fourth <= other.fourth
        }
    }
}

/// The key of one number: the smaller comes first.
pub open spec fn ascending(x: u64) -> NumKey {
    NumKey { first: x, second: 0, third: 0, fourth: 0 }
}

/// The key of one number: the larger comes first.
pub open spec fn descending(x: u64) -> NumKey {
    NumKey { first: (u64::MAX - x) as u64, second: 0, third: 0, fourth: 0 }
}

/// The key of one number: the smaller comes first.
pub fn ascending_key(x: u64) -> (k: NumKey)
    ensures
        k == ascending(x),
{
    NumKey { first: x, second: 0, third: 0, fourth: 0 }
}

/// The key of one number: the larger comes first.
pub fn descending_key(x: u64) -> (k: NumKey)
    ensures
        k == descending(x),
{
    NumKey { first: u64::MAX - x, second: 0, third: 0, fourth: 0 }
}

/// The permutation of a stable sort is unique: two orders that both list the
/// records as the keys and the positions ask are the same order.
pub proof fn stable_order_is_unique<K: Order>(keys: Seq<K>, a: Seq<usize>, b: Seq<usize>)
    requires
        is_stable_order(keys, a),
        is_stable_order(keys, b),
    ensures
        a == b,
{
    let n = keys.len() as int;
    assert forall|k: int| 0 <= k < n implies a[k] == b[k] by {
        order_position_is_unique(keys, a, b, k);
    }
    assert(a =~= b);
}

/// An order without repetition over `n` positions lists every position.
pub proof fn order_lists_every_position<K: Order>(keys: Seq<K>, order: Seq<usize>, x: int)
    requires
        is_stable_order(keys, order),
        0 <= x < keys.len(),
    ensures
        exists|i: int| 0 <= i < order.len() && order[i] == x,
{
    let ints = order.map_values(|p: usize| p as int);
    assert(ints.no_duplicates()) by {
        assert forall|i: int, j: int| 0 <= i < ints.len() && 0 <= j < ints.len() && i != j implies ints[i] != ints[j] by {
            if i < j {
                assert(goes_before(keys, order[i] as int, order[j] as int));
            } else {
                assert(goes_before(keys, order[j] as int, order[i] as int));
            }
        }
    }
    let all = vstd::set_lib::set_int_range(0, keys.len() as int);
    vstd::set_lib::lemma_int_range(0, keys.len() as int);
    ints.unique_seq_to_set();
    assert(ints.to_set().subset_of(all)) by {
        assert forall|v: int| ints.to_set().contains(v) implies all.contains(v) by {
            let i = choose|i: int| 0 <= i < ints.len() && ints[i] == v;
            assert(order[i] < keys.len());
        }
    }
    vstd::set_lib::lemma_subset_equality(ints.to_set(), all);
    assert(all.contains(x));
    let i = choose|i: int| 0 <= i < ints.len() && ints[i] == x;
    assert(order[i] == x);
}

/// Two stable orders agree at every position.
proof fn order_position_is_unique<K: Order>(keys: Seq<K>, a: Seq<usize>, b: Seq<usize>, k: int)
    requires
        is_stable_order(keys, a),
        is_stable_order(keys, b),
        0 <= k < keys.len(),
    ensures
        a[k] == b[k],
    decreases k,
{
    assert forall|m: int| 0 <= m < k implies a[m] == b[m] by {
        order_position_is_unique(keys, a, b, m);
    }
    if a[k] != b[k] {
        let x = a[k] as int;
        let y = b[k] as int;
        order_lists_every_position(keys, b, x);
        order_lists_every_position(keys, a, y);
        let p = choose|p: int| 0 <= p < b.len() && b[p] == x;
        let q = choose|q: int| 0 <= q < a.len() && a[q] == y;
        if p < k {
            assert(goes_before(keys, a[p] as int, a[k] as int));
        }
        if q < k {
            assert(goes_before(keys, b[q] as int, b[k] as int));
        }
        assert(p > k && q > k);
        assert(goes_before(keys, b[k] as int, b[p] as int));
        assert(goes_before(keys, a[k] as int, a[q] as int));
    }
}

/// A stable order of any keys.
pub proof fn existing_order<K: Order>(keys: Seq<K>) -> (order: Seq<usize>)
    requires
        keys.len() <= usize::MAX,
    ensures
        is_stable_order(keys, order),
    decreases keys.len(),
{
    if keys.len() == 0 {
        Seq::empty()
    } else {
        let x = keys.len() - 1;
        let rest = existing_order(keys.drop_last());
        assert(ordered_within(keys, rest, 0, x)) by {
            assert forall|i: int, j: int| 0 <= i < j < rest.len() implies #[trigger] goes_before(
                keys,
                rest[i] as int,
                rest[j] as int,
            ) by {
                assert(goes_before(keys.drop_last(), rest[i] as int, rest[j] as int));
            }
        }
        let at = insertion_point(keys, rest, x, rest.len() as int);
        let order = rest.take(at).push(x as usize) + rest.skip(at);
        assert forall|i: int, j: int| 0 <= i < j < order.len() implies #[trigger] goes_before(
            keys,
            order[i] as int,
            order[j] as int,
        ) by {
            let a = if i < at {
                i
            } else {
                i - 1
            };
            let b = if j < at {
                j
            } else {
                j - 1
            };
            if i == at {
                assert(goes_before(keys, x, rest[b] as int));
            } else if j == at {
                assert(goes_before(keys, rest[a] as int, x));
            } else {
                assert(goes_before(keys, rest[a] as int, rest[b] as int));
            }
        }
        order
    }
}

/// Where the last position belongs in the order of those before it.
proof fn insertion_point<K: Order>(keys: Seq<K>, rest: Seq<usize>, x: int, k: int) -> (at: int)
    requires
        ordered_within(keys, rest, 0, x),
        0 <= k <= rest.len(),
        0 <= x < keys.len(),
        forall|j: int| k <= j < rest.len() ==> goes_before(keys, x, #[trigger] rest[j] as int),
    ensures
        0 <= at <= rest.len(),
        forall|j: int| at <= j < rest.len() ==> goes_before(keys, x, #[trigger] rest[j] as int),
        forall|j: int| 0 <= j < at ==> goes_before(keys, #[trigger] rest[j] as int, x),
    decreases k,
{
    if k == 0 {
        0
    } else {
        let y = rest[k - 1] as int;
        K::total(keys[x], keys[y]);
        if keys[y].le(keys[x]) {
            assert forall|j: int| 0 <= j < k implies goes_before(keys, #[trigger] rest[j] as int, x) by {
                if j < k - 1 {
                    assert(goes_before(keys, rest[j] as int, y));
                    K::transitive(keys[rest[j] as int], keys[y], keys[x]);
                }
            }
            k
        } else {
            insertion_point(keys, rest, x, k - 1)
        }
    }
}

} // verus!
