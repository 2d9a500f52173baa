//! Pairing of probes with the samples that they were taken for.
use vstd::prelude::*;

use crate::probe_match::{
    abs_tick_delta_ns, tick_distance_grows, tick_distance_ns, Timebase, PROBE_PAIR_WINDOW_NS,
};

verus! {

/// The instants are in order.
pub open spec fn in_order(s: Seq<u64>) -> bool {
    forall|i: int, j: int| 0 <= i < j < s.len() ==> s[i] <= s[j]
}

/// Sample `i`, at or behind `from`, lies in the window around `ts`, no such sample
/// lies nearer, and none before it lies as near.
pub open spec fn is_nearest(tb: Timebase, pets: Seq<u64>, from: int, ts: u64, i: int) -> bool {
    &&& from <= i < pets.len()
    &&& tick_distance_ns(tb, pets[i], ts) <= PROBE_PAIR_WINDOW_NS
    &&& forall|j: int|
        from <= j < pets.len() ==> tick_distance_ns(tb, pets[i], ts) <= tick_distance_ns(
            tb,
            #[trigger] pets[j],
            ts,
        )
    &&& forall|j: int|
        from <= j < i ==> tick_distance_ns(tb, pets[i], ts) < tick_distance_ns(
            tb,
            #[trigger] pets[j],
            ts,
        )
}

/// The first nearest sample in the window around `ts`, at or behind `from`.
pub open spec fn nearest(tb: Timebase, pets: Seq<u64>, from: int, ts: u64) -> Option<int> {
    if exists|i: int| is_nearest(tb, pets, from, ts, i) {
        Some(choose|i: int| is_nearest(tb, pets, from, ts, i))
    } else {
        None
    }
}

/// There is one first nearest sample.
proof fn nearest_is_unique(tb: Timebase, pets: Seq<u64>, from: int, ts: u64, i: int)
    requires
        is_nearest(tb, pets, from, ts, i),
    ensures
        nearest(tb, pets, from, ts) == Some(i),
{
    let k = choose|k: int| is_nearest(tb, pets, from, ts, k);
    assert(is_nearest(tb, pets, from, ts, k));
    if k < i {
        assert(tick_distance_ns(tb, pets[i], ts) < tick_distance_ns(tb, pets[k], ts));
    } else if i < k {
        assert(tick_distance_ns(tb, pets[k], ts) < tick_distance_ns(tb, pets[i], ts));
    }
}

/// One probe and the sample that it was paired with.
#[derive(Clone, Copy, Debug, PartialEq, Eq, Structural)]
pub struct Pair {
    pub probe: usize,
    pub pet: usize,
}

/// The pairs so far, and the first sample that is still free.
pub struct Pairing {
    pub pairs: Seq<Pair>,
    pub next: int,
}

/// The pairing of the first `k` probes, in order: each takes the nearest sample in
/// its window behind those already taken, or none.
pub open spec fn pairing(tb: Timebase, pets: Seq<u64>, probes: Seq<u64>, k: nat) -> Pairing
    decreases k,
{
    if k == 0 {
        Pairing { pairs: seq![], next: 0 }
    } else {
        let before = pairing(tb, pets, probes, (k - 1) as nat);
        match nearest(tb, pets, before.next, probes[k - 1]) {
            Some(i) => Pairing {
                pairs: before.pairs.push(Pair { probe: (k - 1) as usize, pet: i as usize }),
                next: i + 1,
            },
            None => before,
        }
    }
}

/// The pairs of all probes.
pub open spec fn pairs_of(tb: Timebase, pets: Seq<u64>, probes: Seq<u64>) -> Seq<Pair> {
    pairing(tb, pets, probes, probes.len()).pairs
}

/// No sample is in two pairs, no probe is either, both follow their order, and a
/// pair lies within the window.
pub proof fn pairs_are_disjoint_and_close(tb: Timebase, pets: Seq<u64>, probes: Seq<u64>, k: nat)
    requires
        k <= probes.len() <= usize::MAX,
        pets.len() <= usize::MAX,
    ensures
        ({
            let p = pairing(tb, pets, probes, k);
            &&& 0 <= p.next <= pets.len()
            &&& p.pairs.len() <= k
            &&& p.pairs.len() <= p.next
            &&& forall|a: int|
                0 <= a < p.pairs.len() ==> (#[trigger] p.pairs[a]).probe < k && p.pairs[a].pet
                    < p.next && tick_distance_ns(
                    tb,
                    pets[p.pairs[a].pet as int],
                    probes[p.pairs[a].probe as int],
                ) <= PROBE_PAIR_WINDOW_NS
            &&& forall|a: int, b: int|
                0 <= a < b < p.pairs.len() ==> (#[trigger] p.pairs[a]).probe < (
                #[trigger] p.pairs[b]).probe && p.pairs[a].pet < p.pairs[b].pet
        }),
    decreases k,
{
    if k > 0 {
        pairs_are_disjoint_and_close(tb, pets, probes, (k - 1) as nat);
        let before = pairing(tb, pets, probes, (k - 1) as nat);
        match nearest(tb, pets, before.next, probes[k - 1]) {
            Some(i) => {
                assert(is_nearest(tb, pets, before.next, probes[k - 1], i));
            },
            None => {},
        }
    }
}

/// Samples that lie too far before a probe lie too far before every later one.
proof fn stale_stays_stale(tb: Timebase, pet: u64, ts: u64, later: u64)
    requires
        pet < ts <= later,
        tick_distance_ns(tb, pet, ts) > PROBE_PAIR_WINDOW_NS,
    ensures
        tick_distance_ns(tb, pet, later) > PROBE_PAIR_WINDOW_NS,
{
    tick_distance_grows(tb, pet, ts, later);
}

/// Pairs the probes with the samples. Both are in order.
pub fn pair_samples(tb: Timebase, pets: &Vec<u64>, probes: &Vec<u64>) -> (pairs: Vec<Pair>)
    requires
        in_order(pets@),
        in_order(probes@),
    ensures
        pairs@ == pairs_of(tb, pets@, probes@),
{
    let mut pairs: Vec<Pair> = Vec::new();
    let mut pet_idx: usize = 0;
    let mut k: usize = 0;
    let ghost mut next: int = 0;
    while k < probes.len()
        invariant
            in_order(pets@),
            in_order(probes@),
            k <= probes@.len(),
            next == pairing(tb, pets@, probes@, k as nat).next,
            pairs@ == pairing(tb, pets@, probes@, k as nat).pairs,
            0 <= next <= pet_idx <= pets@.len(),
            forall|j: int, q: int|
                next <= j < pet_idx && k <= q < probes@.len() ==> #[trigger] tick_distance_ns(
                    tb,
                    pets@[j],
                    probes@[q],
                ) > PROBE_PAIR_WINDOW_NS,
        decreases probes@.len() - k,
    {
        let ts: u64 = probes[k];
        let ghost entered = pet_idx;
        while pet_idx < pets.len() && pets[pet_idx] < ts && abs_tick_delta_ns(
            tb,
            pets[pet_idx],
            ts,
        ) > PROBE_PAIR_WINDOW_NS
            invariant
                in_order(pets@),
                in_order(probes@),
                k < probes@.len(),
                ts == probes@[k as int],
                0 <= next <= pet_idx <= pets@.len(),
                forall|j: int, q: int|
                    next <= j < pet_idx && k <= q < probes@.len() ==> #[trigger] tick_distance_ns(
                        tb,
                        pets@[j],
                        probes@[q],
                    ) > PROBE_PAIR_WINDOW_NS,
            decreases pets@.len() - pet_idx,
        {
            proof {
                assert forall|q: int| k <= q < probes@.len() implies #[trigger] tick_distance_ns(
                    tb,
                    pets@[pet_idx as int],
                    probes@[q],
                ) > PROBE_PAIR_WINDOW_NS by {
                    assert(ts <= probes@[q]);
                    stale_stays_stale(tb, pets@[pet_idx as int], ts, probes@[q]);
                }
            }
            pet_idx = pet_idx + 1;
        }
        let mut best: Option<usize> = None;
        let mut best_delta: u64 = u64::MAX;
        let mut scan: usize = pet_idx;
        let mut beyond = false;
        while scan < pets.len() && !beyond
            invariant
                in_order(pets@),
                k < probes@.len(),
                ts == probes@[k as int],
                pet_idx <= scan <= pets@.len(),
                beyond ==> scan < pets@.len() && pets@[scan as int] > ts && tick_distance_ns(
                    tb,
                    pets@[scan as int],
                    ts,
                ) > PROBE_PAIR_WINDOW_NS,
                match best {
                    Some(b) => {
                        &&& pet_idx <= b < scan
                        &&& best_delta == tick_distance_ns(tb, pets@[b as int], ts)
                        &&& best_delta <= PROBE_PAIR_WINDOW_NS
                        &&& forall|j: int|
                            pet_idx <= j < scan ==> best_delta <= tick_distance_ns(
                                tb,
                                #[trigger] pets@[j],
                                ts,
                            )
                        &&& forall|j: int|
                            pet_idx <= j < b ==> best_delta < tick_distance_ns(
                                tb,
                                #[trigger] pets@[j],
                                ts,
                            )
                    },
                    None => {
                        &&& best_delta == u64::MAX
                        &&& forall|j: int|
                            pet_idx <= j < scan ==> tick_distance_ns(
                                tb,
                                #[trigger] pets@[j],
                                ts,
                            ) > PROBE_PAIR_WINDOW_NS
                    },
                },
            decreases pets@.len() - scan + (if beyond { 0int } else { 1int }),
        {
            let delta: u64 = abs_tick_delta_ns(tb, pets[scan], ts);
            if pets[scan] > ts && delta > PROBE_PAIR_WINDOW_NS {
                beyond = true;
            } else {
                if delta <= PROBE_PAIR_WINDOW_NS && delta < best_delta {
                    best = Some(scan);
                    best_delta = delta;
                }
                scan = scan + 1;
            }
        }
        proof {
            assert forall|j: int| scan <= j < pets@.len() implies tick_distance_ns(
                tb,
                #[trigger] pets@[j],
                ts,
            ) > PROBE_PAIR_WINDOW_NS by {
                if j > scan {
                    assert(pets@[scan as int] <= pets@[j]);
                    tick_distance_grows(tb, ts, pets@[scan as int], pets@[j]);
                }
            }
            assert forall|j: int| next <= j < pet_idx implies tick_distance_ns(
                tb,
                #[trigger] pets@[j],
                ts,
            ) > PROBE_PAIR_WINDOW_NS by {
                assert(tick_distance_ns(tb, pets@[j], probes@[k as int]) > PROBE_PAIR_WINDOW_NS);
            }
        }
        match best {
            Some(b) => {
                proof {
                    assert(is_nearest(tb, pets@, next, ts, b as int));
                    nearest_is_unique(tb, pets@, next, ts, b as int);
                    next = b + 1;
                }
                pairs.push(Pair { probe: k, pet: b });
                pet_idx = b + 1;
            },
            None => {
                proof {
                    assert forall|i: int| !is_nearest(tb, pets@, next, ts, i) by {
                        if next <= i < pets@.len() {
                            assert(tick_distance_ns(tb, pets@[i], ts) > PROBE_PAIR_WINDOW_NS);
                        }
                    }
                }
            },
        }
        k = k + 1;
    }
    pairs
}

/// The law of pairs: the sample of a pair is one of those in the window around its probe that no
/// probe before has gone beyond, and none of these lies nearer; of several that are as near it is
/// the first. A probe without a pair has no such sample.
pub proof fn probes_take_the_nearest_sample(
    tb: Timebase,
    pets: Seq<u64>,
    probes: Seq<u64>,
    k: nat,
    j: int,
)
    requires
        k < probes.len() <= usize::MAX,
        pets.len() <= usize::MAX,
        pairing(tb, pets, probes, k).next <= j < pets.len(),
    ensures
        ({
            let before = pairing(tb, pets, probes, k);
            let after = pairing(tb, pets, probes, k + 1);
            &&& after.pairs.len() == before.pairs.len() ==> after.next == before.next
                && tick_distance_ns(tb, pets[j], probes[k as int]) > 600_000
            &&& after.pairs.len() != before.pairs.len() ==> {
                let p = after.pairs.last();
                &&& after.pairs == before.pairs.push(p)
                &&& p.probe == k
                &&& before.next <= p.pet < pets.len()
                &&& after.next == p.pet + 1
                &&& tick_distance_ns(tb, pets[p.pet as int], probes[k as int]) <= 600_000
                &&& tick_distance_ns(tb, pets[p.pet as int], probes[k as int]) <= tick_distance_ns(
                    tb,
                    pets[j],
                    probes[k as int],
                )
                &&& j < p.pet ==> tick_distance_ns(tb, pets[p.pet as int], probes[k as int])
                    < tick_distance_ns(tb, pets[j], probes[k as int])
            }
        }),
{
    let before = pairing(tb, pets, probes, k);
    let after = pairing(tb, pets, probes, k + 1);
    let ts = probes[k as int];
    pairs_are_disjoint_and_close(tb, pets, probes, k);
    match nearest(tb, pets, before.next, ts) {
        Some(i) => {
            assert(is_nearest(tb, pets, before.next, ts, i));
        },
        None => {
            if tick_distance_ns(tb, pets[j], ts) <= 600_000 {
                let i = lemma_some_nearest(tb, pets, before.next, ts, pets.len() as int, j);
                assert(is_nearest(tb, pets, before.next, ts, i));
            }
        },
    }
}

/// Among the samples from `from` to `to`, one is the first nearest.
proof fn lemma_some_nearest(tb: Timebase, pets: Seq<u64>, from: int, ts: u64, to: int, j: int) -> (i: int)
    requires
        0 <= from <= j < to <= pets.len(),
    ensures
        from <= i < to,
        tick_distance_ns(tb, pets[i], ts) <= tick_distance_ns(tb, pets[j], ts),
        forall|x: int|
            from <= x < to ==> tick_distance_ns(tb, pets[i], ts) <= tick_distance_ns(
                tb,
                #[trigger] pets[x],
                ts,
            ),
        forall|x: int|
            from <= x < i ==> tick_distance_ns(tb, pets[i], ts) < tick_distance_ns(
                tb,
                #[trigger] pets[x],
                ts,
            ),
    decreases to,
{
    if to == from + 1 {
        from
    } else {
        let last = to - 1;
        let i = lemma_some_nearest(
            tb,
            pets,
            from,
            ts,
            last,
            if j < last {
                j
            } else {
                from
            },
        );
        if tick_distance_ns(tb, pets[last], ts) < tick_distance_ns(tb, pets[i], ts) {
            last
        } else {
            i
        }
    }
}

} // verus!
