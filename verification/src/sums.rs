//! Plain sums of numbers, and what keeps them.
use vstd::prelude::*;

use crate::sort::{
    existing_order, goes_before, is_stable_order, stable_order_gives_sorted, stable_sorted, Order,
};

verus! {

/// The sum of some numbers.
pub open spec fn sum_of(s: Seq<int>) -> int
    decreases s.len(),
{
    if s.len() == 0 {
        0
    } else {
        sum_of(s.drop_last()) + s.last()
    }
}

/// None of the numbers is negative.
pub open spec fn none_negative(s: Seq<int>) -> bool {
    forall|i: int| 0 <= i < s.len() ==> #[trigger] s[i] >= 0
}

/// A number, or the largest that fits.
pub open spec fn as_fits(n: int) -> u64 {
    if n > u64::MAX {
        u64::MAX
    } else {
        n as u64
    }
}

/// A sum with one more number.
pub proof fn sum_of_one_more(s: Seq<int>, x: int)
    ensures
        sum_of(s.push(x)) == sum_of(s) + x,
{
    assert(s.push(x).drop_last() =~= s);
}

/// A sum in two parts.
pub proof fn sum_of_both(a: Seq<int>, b: Seq<int>)
    ensures
        sum_of(a + b) == sum_of(a) + sum_of(b),
    decreases b.len(),
{
    if b.len() == 0 {
        assert(a + b =~= a);
    } else {
        sum_of_both(a, b.drop_last());
        assert((a + b).drop_last() =~= a + b.drop_last());
    }
}

/// A sum with another number in one place.
pub proof fn sum_of_update(s: Seq<int>, i: int, x: int)
    requires
        0 <= i < s.len(),
    ensures
        sum_of(s.update(i, x)) == sum_of(s) - s[i] + x,
    decreases s.len(),
{
    let t = s.update(i, x);
    if i == s.len() - 1 {
        assert(t.drop_last() =~= s.drop_last());
    } else {
        sum_of_update(s.drop_last(), i, x);
        assert(t.drop_last() =~= s.drop_last().update(i, x));
    }
}

/// A sum without one number.
pub proof fn sum_of_removed(s: Seq<int>, i: int)
    requires
        0 <= i < s.len(),
    ensures
        sum_of(s.remove(i)) == sum_of(s) - s[i],
    decreases s.len(),
{
    if i == s.len() - 1 {
        assert(s.remove(i) =~= s.drop_last());
    } else {
        sum_of_removed(s.drop_last(), i);
        assert(s.remove(i).drop_last() =~= s.drop_last().remove(i));
        assert(s.remove(i).last() == s.last());
    }
}

/// No number is above the sum of numbers that are not negative.
pub proof fn sum_of_bounds(s: Seq<int>)
    requires
        none_negative(s),
    ensures
        sum_of(s) >= 0,
        forall|i: int| 0 <= i < s.len() ==> #[trigger] s[i] <= sum_of(s),
    decreases s.len(),
{
    if s.len() > 0 {
        let init = s.drop_last();
        assert forall|i: int| 0 <= i < init.len() implies #[trigger] init[i] >= 0 by {
            assert(s[i] >= 0);
        }
        assert(s[s.len() - 1] >= 0);
        sum_of_bounds(init);
        assert forall|i: int| 0 <= i < s.len() implies #[trigger] s[i] <= sum_of(s) by {
            if i < init.len() {
                assert(init[i] == s[i]);
            }
        }
    }
}

/// The positions are all different.
spec fn distinct(order: Seq<usize>) -> bool {
    forall|i: int, j: int| 0 <= i < j < order.len() ==> #[trigger] order[i] != #[trigger] order[j]
}

/// A sum of numbers that were put in another order.
proof fn lemma_reordered(s: Seq<int>, order: Seq<usize>)
    requires
        order.len() == s.len(),
        distinct(order),
        forall|i: int| 0 <= i < order.len() ==> #[trigger] order[i] < s.len(),
    ensures
        sum_of(Seq::new(s.len(), |i: int| s[order[i] as int])) == sum_of(s),
    decreases s.len(),
{
    let t = Seq::new(s.len(), |i: int| s[order[i] as int]);
    if s.len() > 0 {
        let n = s.len() - 1;
        let k = lemma_lists_last(order, n);
        let less = order.remove(k);
        assert forall|i: int| 0 <= i < less.len() implies #[trigger] less[i] < n by {
            let from = if i < k {
                i
            } else {
                i + 1
            };
            assert(less[i] == order[from]);
            if from < k {
                assert(order[from] != order[k]);
            } else {
                assert(order[k] != order[from]);
            }
        }
        assert forall|i: int, j: int| 0 <= i < j < less.len() implies #[trigger] less[i]
            != #[trigger] less[j] by {
            let a = if i < k {
                i
            } else {
                i + 1
            };
            let b = if j < k {
                j
            } else {
                j + 1
            };
            assert(less[i] == order[a] && less[j] == order[b]);
            assert(order[a] != order[b]);
        }
        lemma_reordered(s.drop_last(), less);
        assert(t.remove(k) =~= Seq::new(
            s.drop_last().len(),
            |i: int| s.drop_last()[less[i] as int],
        ));
        sum_of_removed(t, k);
    } else {
        assert(t =~= s);
    }
}

/// Different positions below `n + 1`, as many of them, hold `n`.
proof fn lemma_lists_last(order: Seq<usize>, n: int) -> (k: int)
    requires
        n >= 0,
        order.len() == n + 1,
        distinct(order),
        forall|i: int| 0 <= i < order.len() ==> #[trigger] order[i] <= n,
    ensures
        0 <= k < order.len(),
        order[k] == n,
{
    let ints = order.map_values(|p: usize| p as int);
    assert(ints.no_duplicates()) by {
        assert forall|i: int, j: int|
            0 <= i < ints.len() && 0 <= j < ints.len() && i != j implies ints[i] != ints[j] by {
            if i < j {
                assert(order[i] != order[j]);
            } else {
                assert(order[j] != order[i]);
            }
        }
    }
    let all = vstd::set_lib::set_int_range(0, n + 1);
    vstd::set_lib::lemma_int_range(0, n + 1);
    ints.unique_seq_to_set();
    assert(ints.to_set().subset_of(all)) by {
        assert forall|v: int| ints.to_set().contains(v) implies all.contains(v) by {
            let i = choose|i: int| 0 <= i < ints.len() && ints[i] == v;
            assert(order[i] <= n);
        }
    }
    vstd::set_lib::lemma_subset_equality(ints.to_set(), all);
    assert(all.contains(n));
    choose|i: int| 0 <= i < ints.len() && ints[i] == n
}

/// The law of sorting: it keeps sums.
pub proof fn sorting_keeps_sums<K: Order, T>(keys: Seq<K>, src: Seq<T>, f: spec_fn(T) -> int)
    requires
        keys.len() == src.len() <= usize::MAX,
    ensures
        sum_of(stable_sorted(keys, src).map_values(f)) == sum_of(src.map_values(f)),
{
    let order = existing_order(keys);
    stable_order_gives_sorted(keys, src, order);
    let s = src.map_values(f);
    assert forall|i: int, j: int| 0 <= i < j < order.len() implies #[trigger] order[i]
        != #[trigger] order[j] by {
        assert(goes_before(keys, order[i] as int, order[j] as int));
    }
    lemma_reordered(s, order);
    assert(stable_sorted(keys, src).map_values(f) =~= Seq::new(
        s.len(),
        |i: int| s[order[i] as int],
    ));
}

} // verus!
