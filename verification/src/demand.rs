//! Which thread is probed next.
//!
//! Samples raise the demand for their thread, time lets it fade. A timer picks the
//! thread with the highest demand and asks for a probe of it; requests that have not been
//! served yet are replaced by newer ones.
use vstd::prelude::*;

use crate::aggregator::ProbeTiming;
use crate::client::KperfProbeTriggerTiming;
use crate::parser::sat_add32;
use crate::probe_timing::sat_add;

verus! {

/// How often demand is halved, in nanoseconds.
pub const THREAD_DEMAND_DECAY_INTERVAL: u64 = 250_000_000;

/// How long a thread without demand is remembered.
pub const THREAD_DEMAND_RETENTION: u64 = 5_000_000_000;

/// How probes are timed.
#[derive(Clone, Copy, Debug, PartialEq, Eq, Structural)]
pub enum RaceProbeMode {
    /// At most so many probes a second, each of the thread with the highest demand.
    Correlated { frequency_hz: u32 },
}

/// The demand for a thread.
#[derive(Clone, Copy, Debug, PartialEq, Eq, Structural)]
pub struct ThreadDemand {
    pub tid: u32,
    pub demand: u32,
    pub observed: u64,
    pub probed: u64,
    pub last_seen: u64,
    pub last_probed: Option<u64>,
}

/// The time since `then`, or none where that is still to come.
pub open spec fn age(now: u64, then: u64) -> u64 {
    if now <= then {
        0
    } else {
        (now - then) as u64
    }
}

/// The demand for a thread, halved.
pub open spec fn halved(t: ThreadDemand) -> ThreadDemand {
    ThreadDemand { demand: t.demand / 2, ..t }
}

/// All demand halved, without the threads that are not in demand any more and have
/// not been seen for long.
pub open spec fn faded(s: Seq<ThreadDemand>, now: u64) -> Seq<ThreadDemand>
    decreases s.len(),
{
    if s.len() == 0 {
        s
    } else {
        let before = faded(s.drop_last(), now);
        let t = halved(s.last());
        if t.demand > 0 || age(now, t.last_seen) < THREAD_DEMAND_RETENTION {
            before.push(t)
        } else {
            before
        }
    }
}

/// The thread is among those in demand.
pub open spec fn has_thread(s: Seq<ThreadDemand>, tid: u32) -> bool {
    exists|i: int| 0 <= i < s.len() && (#[trigger] s[i]).tid == tid
}

/// No thread stands there twice.
pub open spec fn threads_differ(s: Seq<ThreadDemand>) -> bool {
    forall|i: int, j: int| 0 <= i < j < s.len() ==> (#[trigger] s[i]).tid != (#[trigger] s[j]).tid
}

/// What is left without a thread.
pub open spec fn without_thread(s: Seq<ThreadDemand>, tid: u32) -> Seq<ThreadDemand>
    decreases s.len(),
{
    if s.len() == 0 {
        s
    } else if s.last().tid == tid {
        without_thread(s.drop_last(), tid)
    } else {
        without_thread(s.drop_last(), tid).push(s.last())
    }
}

/// A thread that was seen once more.
pub open spec fn seen_again(t: ThreadDemand, now: u64) -> ThreadDemand {
    ThreadDemand {
        demand: sat_add32(t.demand, 1),
        observed: sat_add(t.observed, 1),
        last_seen: now,
        ..t
    }
}

/// A thread that was not known.
pub open spec fn unknown_thread(tid: u32, now: u64) -> ThreadDemand {
    ThreadDemand { tid, demand: 0, observed: 0, probed: 0, last_seen: now, last_probed: None }
}

/// The demand after a sample of a thread.
pub open spec fn demand_after(s: Seq<ThreadDemand>, tid: u32, now: u64) -> Seq<ThreadDemand> {
    if has_thread(s, tid) {
        s.map_values(
            |t: ThreadDemand|
                if t.tid == tid {
                    seen_again(t, now)
                } else {
                    t
                },
        )
    } else {
        s.push(seen_again(unknown_thread(tid, now), now))
    }
}

/// The samples of a thread that no probe has answered.
pub open spec fn deficit(t: ThreadDemand) -> u64 {
    if t.probed >= t.observed {
        0
    } else {
        (t.observed - t.probed) as u64
    }
}

/// A thread is probed before another: it is more in demand; or as much and further
/// behind; or the like in both and numbered lower.
pub open spec fn before_in_demand(a: ThreadDemand, b: ThreadDemand) -> bool {
    if a.demand != b.demand {
        a.demand > b.demand
    } else if deficit(a) != deficit(b) {
        deficit(a) > deficit(b)
    } else {
        a.tid < b.tid
    }
}

/// The thread may be probed.
pub open spec fn eligible(t: ThreadDemand, suppressed: Seq<u32>) -> bool {
    t.demand > 0 && !suppressed.contains(t.tid)
}

/// The thread at `i` is probed next: no other that may be comes before it.
pub open spec fn is_pick(s: Seq<ThreadDemand>, suppressed: Seq<u32>, i: int) -> bool {
    0 <= i < s.len() && eligible(s[i], suppressed) && forall|j: int|
        0 <= j < s.len() && eligible(#[trigger] s[j], suppressed) ==> !before_in_demand(
            s[j],
            s[i],
        )
}

/// The demand after a probe of a thread.
pub open spec fn demand_probed(s: Seq<ThreadDemand>, tid: u32, now: u64) -> Seq<ThreadDemand> {
    s.map_values(
        |t: ThreadDemand|
            if t.tid == tid {
                ThreadDemand { probed: sat_add(t.probed, 1), last_probed: Some(now), ..t }
            } else {
                t
            },
    )
}

/// The thread that is probed next.
#[derive(Clone, Copy, Debug, PartialEq, Eq, Structural)]
pub struct ThreadDemandChoice {
    pub tid: u32,
    pub known_tids: usize,
    pub demand: u32,
    pub deficit: u64,
}

/// The demand for all threads.
pub struct ThreadDemandTracker {
    threads: Vec<ThreadDemand>,
    suppressed: Vec<u32>,
    last_decay: u64,
}

/// Whether a thread is probed before another.
fn is_better_than(a: &ThreadDemand, b: &ThreadDemand) -> (r: bool)
    ensures
        r == before_in_demand(*a, *b),
{
    if a.demand != b.demand {
        return a.demand > b.demand;
    }
    let da: u64 = a.observed.saturating_sub(a.probed);
    let db: u64 = b.observed.saturating_sub(b.probed);
    if da != db {
        return da > db;
    }
    a.tid < b.tid
}

/// Whether a number is in a list.
fn holds(s: &Vec<u32>, x: u32) -> (r: bool)
    ensures
        r == s@.contains(x),
{
    let mut i: usize = 0;
    while i < s.len()
        invariant
            i <= s@.len(),
            forall|j: int| 0 <= j < i ==> s@[j] != x,
        decreases s@.len() - i,
    {
        if s[i] == x {
            assert(s@[i as int] == x);
            return true;
        }
        i = i + 1;
    }
    false
}

/// What is left without a thread holds no thread twice, and not that one.
proof fn lemma_without_thread(s: Seq<ThreadDemand>, tid: u32)
    requires
        threads_differ(s),
    ensures
        threads_differ(without_thread(s, tid)),
        !has_thread(without_thread(s, tid), tid),
        forall|x: ThreadDemand| without_thread(s, tid).contains(x) ==> s.contains(x),
    decreases s.len(),
{
    if s.len() > 0 {
        let init = s.drop_last();
        assert(threads_differ(init)) by {
            assert forall|i: int, j: int| 0 <= i < j < init.len() implies (#[trigger] init[i]).tid
                != (#[trigger] init[j]).tid by {
                assert(init[i] == s[i] && init[j] == s[j]);
            }
        }
        lemma_without_thread(init, tid);
        let w = without_thread(init, tid);
        assert forall|x: ThreadDemand| w.contains(x) implies s.contains(x) by {
            assert(init.contains(x));
            let k = choose|k: int| 0 <= k < init.len() && init[k] == x;
            assert(s[k] == x);
        }
        if s.last().tid != tid {
            let p = w.push(s.last());
            assert forall|i: int, j: int| 0 <= i < j < p.len() implies (#[trigger] p[i]).tid != (
            #[trigger] p[j]).tid by {
                if j == w.len() {
                    assert(w.contains(w[i]));
                    assert(init.contains(w[i]));
                    let k = choose|k: int| 0 <= k < init.len() && init[k] == w[i];
                    assert(s[k].tid != s[s.len() - 1].tid);
                } else {
                    assert(p[i] == w[i] && p[j] == w[j]);
                }
            }
            assert forall|x: ThreadDemand| p.contains(x) implies s.contains(x) by {
                let k = choose|k: int| 0 <= k < p.len() && p[k] == x;
                if k == w.len() {
                    assert(s[s.len() - 1] == x);
                } else {
                    assert(w[k] == x);
                    assert(w.contains(x));
                }
            }
            assert(!has_thread(p, tid)) by {
                if has_thread(p, tid) {
                    let k = choose|k: int| 0 <= k < p.len() && (#[trigger] p[k]).tid == tid;
                    assert(k < w.len());
                    assert(w[k].tid == tid);
                }
            }
        }
    }
}

/// Fading keeps threads apart.
proof fn lemma_faded(s: Seq<ThreadDemand>, now: u64)
    requires
        threads_differ(s),
    ensures
        threads_differ(faded(s, now)),
        forall|i: int|
            0 <= i < faded(s, now).len() ==> has_thread(s, (#[trigger] faded(s, now)[i]).tid),
    decreases s.len(),
{
    if s.len() > 0 {
        let init = s.drop_last();
        assert(threads_differ(init)) by {
            assert forall|i: int, j: int| 0 <= i < j < init.len() implies (#[trigger] init[i]).tid
                != (#[trigger] init[j]).tid by {
                assert(init[i] == s[i] && init[j] == s[j]);
            }
        }
        lemma_faded(init, now);
        let w = faded(init, now);
        let f = faded(s, now);
        assert forall|i: int| 0 <= i < w.len() implies has_thread(s, (#[trigger] w[i]).tid) && w[i].tid
            != s.last().tid by {
            assert(has_thread(init, w[i].tid));
            let k = choose|k: int| 0 <= k < init.len() && (#[trigger] init[k]).tid == w[i].tid;
            assert(s[k].tid == w[i].tid);
            assert(s[k].tid != s[s.len() - 1].tid);
        }
        assert forall|i: int, j: int| 0 <= i < j < f.len() implies (#[trigger] f[i]).tid != (
        #[trigger] f[j]).tid by {
            if j < w.len() {
                assert(f[i] == w[i] && f[j] == w[j]);
            } else {
                assert(f[i] == w[i]);
            }
        }
        assert forall|i: int| 0 <= i < f.len() implies has_thread(s, (#[trigger] f[i]).tid) by {
            if i < w.len() {
                assert(f[i] == w[i]);
            } else {
                assert(f[i].tid == s[s.len() - 1].tid);
            }
        }
    }
}

/// The thread that is probed next was picked, where one is in demand, and the probe
/// noted.
pub open spec fn is_choice(
    before: ThreadDemandTracker,
    now: u64,
    c: Option<ThreadDemandChoice>,
    after: ThreadDemandTracker,
) -> bool {
    let threads = before.threads_at(now);
    &&& match c {
        Some(c) => exists|i: int|
            #[trigger] is_pick(threads, before.suppressed(), i) && c == (ThreadDemandChoice {
                tid: threads[i].tid,
                known_tids: threads.len() as usize,
                demand: threads[i].demand,
                deficit: deficit(threads[i]),
            }),
        None => forall|i: int|
            0 <= i < threads.len() ==> !eligible(#[trigger] threads[i], before.suppressed()),
    }
    &&& after.threads() == (match c {
        Some(c) => demand_probed(threads, c.tid, now),
        None => threads,
    })
    &&& after.last_decay() == before.decayed_at(now)
    &&& after.suppressed() == before.suppressed()
}

impl ThreadDemandTracker {
    /// The threads in demand, as they were first seen.
    pub closed spec fn threads(self) -> Seq<ThreadDemand> {
        self.threads@
    }

    /// The threads that are not probed.
    pub closed spec fn suppressed(self) -> Seq<u32> {
        self.suppressed@
    }

    /// When demand was last halved.
    pub closed spec fn last_decay(self) -> u64 {
        self.last_decay
    }

    /// No thread stands there twice.
    pub open spec fn wf(self) -> bool {
        threads_differ(self.threads())
    }

    /// The threads in demand at `now`.
    pub open spec fn threads_at(self, now: u64) -> Seq<ThreadDemand> {
        if age(now, self.last_decay()) < THREAD_DEMAND_DECAY_INTERVAL {
            self.threads()
        } else {
            faded(self.threads(), now)
        }
    }

    /// When demand was last halved, as of `now`.
    pub open spec fn decayed_at(self, now: u64) -> u64 {
        if age(now, self.last_decay()) < THREAD_DEMAND_DECAY_INTERVAL {
            self.last_decay()
        } else {
            now
        }
    }

    /// No thread in demand.
    pub fn new(now: u64) -> (t: Self)
        ensures
            t.wf(),
            t.threads().len() == 0,
            t.suppressed().len() == 0,
            t.last_decay() == now,
    {
        ThreadDemandTracker { threads: Vec::new(), suppressed: Vec::new(), last_decay: now }
    }

    /// Lets demand fade.
    fn decay(&mut self, now: u64)
        requires
            old(self).wf(),
        ensures
            final(self).wf(),
            final(self).threads() == old(self).threads_at(now),
            final(self).last_decay() == old(self).decayed_at(now),
            final(self).suppressed() == old(self).suppressed(),
    {
        if now.saturating_sub(self.last_decay) < THREAD_DEMAND_DECAY_INTERVAL {
            return;
        }
        self.last_decay = now;
        let mut out: Vec<ThreadDemand> = Vec::new();
        let mut i: usize = 0;
        let ghost given = self.threads@;
        assert(given.take(0) =~= seq![]);
        while i < self.threads.len()
            invariant
                i <= given.len(),
                given == self.threads@,
                out@ == faded(given.take(i as int), now),
                self.last_decay == now,
                self.suppressed@ == old(self).suppressed@,
            decreases given.len() - i,
        {
            assert(given.take(i + 1).drop_last() =~= given.take(i as int));
            assert(given.take(i + 1).last() == given[i as int]);
            let mut t = self.threads[i];
            t.demand = t.demand / 2;
            if t.demand > 0 || now.saturating_sub(t.last_seen) < THREAD_DEMAND_RETENTION {
                out.push(t);
            }
            i = i + 1;
        }
        proof {
            assert(given.take(i as int) =~= given);
            lemma_faded(given, now);
        }
        self.threads = out;
    }

    /// Forgets a thread.
    fn remove(&mut self, tid: u32)
        requires
            old(self).wf(),
        ensures
            final(self).wf(),
            final(self).threads() == without_thread(old(self).threads(), tid),
            final(self).last_decay() == old(self).last_decay(),
            final(self).suppressed() == old(self).suppressed(),
    {
        let mut out: Vec<ThreadDemand> = Vec::new();
        let mut i: usize = 0;
        let ghost given = self.threads@;
        assert(given.take(0) =~= seq![]);
        while i < self.threads.len()
            invariant
                i <= given.len(),
                given == self.threads@,
                out@ == without_thread(given.take(i as int), tid),
            decreases given.len() - i,
        {
            assert(given.take(i + 1).drop_last() =~= given.take(i as int));
            assert(given.take(i + 1).last() == given[i as int]);
            if self.threads[i].tid != tid {
                out.push(self.threads[i]);
            }
            i = i + 1;
        }
        proof {
            assert(given.take(i as int) =~= given);
            lemma_without_thread(given, tid);
        }
        self.threads = out;
    }

    /// The position of a thread.
    fn find(&self, tid: u32) -> (p: Option<usize>)
        ensures
            match p {
                Some(p) => p < self.threads@.len() && self.threads@[p as int].tid == tid,
                None => !has_thread(self.threads@, tid),
            },
    {
        let mut i: usize = 0;
        while i < self.threads.len()
            invariant
                i <= self.threads@.len(),
                forall|j: int| 0 <= j < i ==> (#[trigger] self.threads@[j]).tid != tid,
            decreases self.threads@.len() - i,
        {
            if self.threads[i].tid == tid {
                return Some(i);
            }
            i = i + 1;
        }
        None
    }

    /// Takes in a sample of a thread; whether it raises demand. One for a thread that
    /// is not probed does not.
    pub fn observe(&mut self, tid: u32, now: u64) -> (r: bool)
        requires
            old(self).wf(),
        ensures
            final(self).wf(),
            r == !old(self).suppressed().contains(tid),
            final(self).threads() == (if r {
                demand_after(old(self).threads_at(now), tid, now)
            } else {
                without_thread(old(self).threads_at(now), tid)
            }),
            final(self).last_decay() == old(self).decayed_at(now),
            final(self).suppressed() == old(self).suppressed(),
    {
        self.decay(now);
        if holds(&self.suppressed, tid) {
            self.remove(tid);
            return false;
        }
        let ghost s = self.threads@;
        match self.find(tid) {
            Some(p) => {
                let mut t = self.threads[p];
                t.demand = t.demand.saturating_add(1);
                t.observed = t.observed.saturating_add(1);
                t.last_seen = now;
                self.threads.set(p, t);
                proof {
                    assert(has_thread(s, tid)) by {
                        assert(s[p as int].tid == tid);
                    }
                    assert forall|i: int| 0 <= i < s.len() && i != p implies (#[trigger] s[i]).tid
                        != tid by {
                        if i < p {
                            assert(s[i].tid != s[p as int].tid);
                        } else {
                            assert(s[p as int].tid != s[i].tid);
                        }
                    }
                    assert(self.threads@ =~= demand_after(s, tid, now));
                }
            },
            None => {
                self.threads.push(
                    ThreadDemand {
                        tid,
                        demand: 1,
                        observed: 1,
                        probed: 0,
                        last_seen: now,
                        last_probed: None,
                    },
                );
                assert(self.threads@ =~= demand_after(s, tid, now));
            },
        }
        true
    }

    /// Has a thread not probed from now on.
    pub fn suppress(&mut self, tid: u32)
        requires
            old(self).wf(),
        ensures
            final(self).wf(),
            final(self).suppressed() == (if old(self).suppressed().contains(tid) {
                old(self).suppressed()
            } else {
                old(self).suppressed().push(tid)
            }),
            final(self).threads() == without_thread(old(self).threads(), tid),
            final(self).last_decay() == old(self).last_decay(),
    {
        if !holds(&self.suppressed, tid) {
            self.suppressed.push(tid);
        }
        self.remove(tid);
    }

    /// Picks the thread that is probed next, the one with the highest demand, and takes
    /// note of the probe.
    pub fn pick(&mut self, now: u64) -> (c: Option<ThreadDemandChoice>)
        requires
            old(self).wf(),
        ensures
            final(self).wf(),
            is_choice(*old(self), now, c, *final(self)),
    {
        self.decay(now);
        let ghost s = self.threads@;
        let ghost none = self.suppressed@;
        let mut best: Option<usize> = None;
        let mut i: usize = 0;
        while i < self.threads.len()
            invariant
                i <= s.len(),
                s == self.threads@,
                none == self.suppressed@,
                match best {
                    Some(b) => b < i && eligible(s[b as int], none) && forall|j: int|
                        0 <= j < i && eligible(#[trigger] s[j], none) ==> !before_in_demand(
                            s[j],
                            s[b as int],
                        ),
                    None => forall|j: int| 0 <= j < i ==> !eligible(#[trigger] s[j], none),
                },
            decreases s.len() - i,
        {
            let t = self.threads[i];
            if t.demand > 0 && !holds(&self.suppressed, t.tid) {
                match best {
                    Some(b) => {
                        if is_better_than(&t, &self.threads[b]) {
                            best = Some(i);
                        }
                    },
                    None => {
                        best = Some(i);
                    },
                }
            }
            i = i + 1;
        }
        match best {
            Some(b) => {
                let known: usize = self.threads.len();
                let mut t = self.threads[b];
                let c = ThreadDemandChoice {
                    tid: t.tid,
                    known_tids: known,
                    demand: t.demand,
                    deficit: t.observed.saturating_sub(t.probed),
                };
                t.probed = t.probed.saturating_add(1);
                t.last_probed = Some(now);
                self.threads.set(b, t);
                proof {
                    assert(is_pick(s, none, b as int));
                    assert forall|i: int| 0 <= i < s.len() && i != b implies (#[trigger] s[i]).tid
                        != t.tid by {
                        if i < b {
                            assert(s[i].tid != s[b as int].tid);
                        } else {
                            assert(s[b as int].tid != s[i].tid);
                        }
                    }
                    assert(self.threads@ =~= demand_probed(s, c.tid, now));
                }
                Some(c)
            },
            None => None,
        }
    }
}

/// The law of the choice: of two threads that differ, exactly one comes before the
/// other, so the choice does not depend on the order in which threads are looked at.
pub proof fn choice_is_unique(s: Seq<ThreadDemand>, suppressed: Seq<u32>, i: int, j: int)
    requires
        threads_differ(s),
        is_pick(s, suppressed, i),
        is_pick(s, suppressed, j),
    ensures
        i == j,
{
    if i < j {
        assert(s[i].tid != s[j].tid);
        assert(before_in_demand(s[i], s[j]) || before_in_demand(s[j], s[i]));
    } else if j < i {
        assert(s[j].tid != s[i].tid);
        assert(before_in_demand(s[i], s[j]) || before_in_demand(s[j], s[i]));
    }
}

/// The law of demand: no thread that may be probed is more in demand than the one that is.
pub proof fn picked_is_most_in_demand(
    s: Seq<ThreadDemand>,
    suppressed: Seq<u32>,
    i: int,
    j: int,
)
    requires
        is_pick(s, suppressed, i),
        0 <= j < s.len(),
        eligible(s[j], suppressed),
    ensures
        s[j].demand <= s[i].demand,
{
}

/// The law of suppression: a thread that is not to be probed is never picked.
pub proof fn suppressed_is_not_picked(
    s: Seq<ThreadDemand>,
    suppressed: Seq<u32>,
    i: int,
    tid: u32,
)
    requires
        suppressed.contains(tid),
        is_pick(s, suppressed, i),
    ensures
        s[i].tid != tid,
{
}

/// A request for a probe.
#[derive(Clone, Copy, Debug, PartialEq, Eq, Structural)]
pub struct ProbeRequest {
    pub tid: u32,
    pub timing: ProbeTiming,
    /// How many older requests it replaces.
    pub coalesced_requests: u64,
}

/// The timing of a request made at `ticks`: the rest has not happened yet.
pub open spec fn timing_at(ticks: u64) -> ProbeTiming {
    ProbeTiming {
        kperf_ts: ticks,
        staxd_read_started: 0,
        staxd_drained: 0,
        staxd_queued_for_send: 0,
        staxd_send_started: 0,
        client_received: ticks,
        enqueued: ticks,
        worker_started: 0,
        thread_lookup_done: 0,
        state_done: 0,
        resume_done: 0,
        walk_done: 0,
    }
}

/// The timing of a request made at `request_ticks`.
pub fn correlated_probe_timing(request_ticks: u64) -> (t: ProbeTiming)
    ensures
        t == timing_at(request_ticks),
{
    ProbeTiming {
        kperf_ts: request_ticks,
        staxd_read_started: 0,
        staxd_drained: 0,
        staxd_queued_for_send: 0,
        staxd_send_started: 0,
        client_received: request_ticks,
        enqueued: request_ticks,
        worker_started: 0,
        thread_lookup_done: 0,
        state_done: 0,
        resume_done: 0,
        walk_done: 0,
    }
}

/// The requests of different threads.
pub open spec fn requests_differ(s: Seq<ProbeRequest>) -> bool {
    forall|i: int, j: int| 0 <= i < j < s.len() ==> (#[trigger] s[i]).tid != (#[trigger] s[j]).tid
}

/// The request for a thread that waits.
pub open spec fn is_waiting(s: Seq<ProbeRequest>, i: int, tid: u32) -> bool {
    0 <= i < s.len() && s[i].tid == tid
}

/// A request for a thread waits.
pub open spec fn waits(s: Seq<ProbeRequest>, tid: u32) -> bool {
    exists|i: int| is_waiting(s, i, tid)
}

/// A request was added: it takes the place of one for the same thread, and counts it.
pub open spec fn is_pushed(s: Seq<ProbeRequest>, r: ProbeRequest, after: Seq<ProbeRequest>) -> bool {
    if exists|i: int| is_waiting(s, i, r.tid) {
        exists|i: int|
            #[trigger] is_waiting(s, i, r.tid) && after == s.remove(i).push(
                ProbeRequest { coalesced_requests: sat_add(s[i].coalesced_requests, 1), ..r },
            )
    } else {
        after == s.push(r)
    }
}

/// What a worker gets when it asks for requests.
pub enum TakenRequests {
    /// There are none yet.
    Wait,
    /// There will be none any more.
    Closed,
    /// All there were.
    Batch(Vec<ProbeRequest>),
}

/// The latest request for each thread.
pub struct LatestProbeRequests {
    pending: Vec<ProbeRequest>,
    closed: bool,
}

/// A request was made; whether it took the place of another. Once closed, requests are
/// dropped.
pub open spec fn is_push(
    before: LatestProbeRequests,
    request: ProbeRequest,
    replaced: bool,
    after: LatestProbeRequests,
) -> bool {
    &&& after.closed() == before.closed()
    &&& replaced == (!before.closed() && exists|i: int|
        is_waiting(before.pending(), i, request.tid))
    &&& if before.closed() {
        after.pending() == before.pending()
    } else {
        is_pushed(before.pending(), request, after.pending())
    }
}

/// All requests that waited were taken.
pub open spec fn is_take(
    before: LatestProbeRequests,
    t: TakenRequests,
    after: LatestProbeRequests,
) -> bool {
    &&& after.closed() == before.closed()
    &&& match t {
        TakenRequests::Wait => before.pending().len() == 0 && !before.closed() && after.pending()
            == before.pending(),
        TakenRequests::Closed => before.pending().len() == 0 && before.closed() && after.pending()
            == before.pending(),
        TakenRequests::Batch(b) => before.pending().len() > 0 && b@ == before.pending()
            && after.pending().len() == 0,
    }
}

/// No more requests are taken.
pub open spec fn is_close(before: LatestProbeRequests, after: LatestProbeRequests) -> bool {
    after.closed() && after.pending() == before.pending()
}

impl LatestProbeRequests {
    /// The requests that wait.
    pub closed spec fn pending(self) -> Seq<ProbeRequest> {
        self.pending@
    }

    /// Whether no more are taken.
    pub closed spec fn closed(self) -> bool {
        self.closed
    }

    /// At most one request waits for a thread.
    pub open spec fn wf(self) -> bool {
        requests_differ(self.pending())
    }

    /// No requests.
    pub fn new() -> (r: Self)
        ensures
            r.wf(),
            r.pending().len() == 0,
            !r.closed(),
    {
        LatestProbeRequests { pending: Vec::new(), closed: false }
    }

    /// Adds a request; whether it takes the place of another. Once closed, requests
    /// are dropped.
    pub fn push(&mut self, request: ProbeRequest) -> (replaced: bool)
        requires
            old(self).wf(),
        ensures
            final(self).wf(),
            is_push(*old(self), request, replaced, *final(self)),
    {
        if self.closed {
            return false;
        }
        let ghost s = self.pending@;
        let mut i: usize = 0;
        while i < self.pending.len()
            invariant
                i <= s.len(),
                s == self.pending@,
                forall|j: int| 0 <= j < i ==> (#[trigger] s[j]).tid != request.tid,
                !self.closed,
                s == old(self).pending@,
                requests_differ(s),
                old(self).closed == self.closed,
            decreases s.len() - i,
        {
            if self.pending[i].tid == request.tid {
                let previous = self.pending.remove(i);
                let newer = ProbeRequest {
                    tid: request.tid,
                    timing: request.timing,
                    coalesced_requests: previous.coalesced_requests.saturating_add(1),
                };
                self.pending.push(newer);
                proof {
                    assert(is_waiting(old(self).pending(), i as int, request.tid));
                    let after = s.remove(i as int).push(newer);
                    assert(self.pending@ =~= after);
                    assert(is_pushed(s, request, after));
                    assert forall|a: int, b: int| 0 <= a < b < after.len() implies (
                    #[trigger] after[a]).tid != (#[trigger] after[b]).tid by {
                        let a2 = if a < i {
                            a
                        } else {
                            a + 1
                        };
                        assert(after[a] == s[a2]);
                        if b == after.len() - 1 {
                            if a2 < i {
                                assert(s[a2].tid != s[i as int].tid);
                            } else {
                                assert(s[i as int].tid != s[a2].tid);
                            }
                        } else {
                            let b2 = if b < i {
                                b
                            } else {
                                b + 1
                            };
                            assert(after[b] == s[b2]);
                            assert(s[a2].tid != s[b2].tid);
                        }
                    }
                }
                return true;
            }
            i = i + 1;
        }
        self.pending.push(request);
        proof {
            let after = s.push(request);
            assert(self.pending@ =~= after);
            assert(forall|k: int| !is_waiting(s, k, request.tid));
            assert forall|a: int, b: int| 0 <= a < b < after.len() implies (#[trigger] after[a]).tid
                != (#[trigger] after[b]).tid by {
                if b < s.len() {
                    assert(s[a].tid != s[b].tid);
                } else {
                    assert(after[a] == s[a]);
                }
            }
        }
        false
    }

    /// Takes all requests that wait.
    pub fn take_all(&mut self) -> (t: TakenRequests)
        requires
            old(self).wf(),
        ensures
            final(self).wf(),
            is_take(*old(self), t, *final(self)),
    {
        if self.pending.len() == 0 {
            if self.closed {
                return TakenRequests::Closed;
            }
            return TakenRequests::Wait;
        }
        let mut batch: Vec<ProbeRequest> = Vec::new();
        std::mem::swap(&mut batch, &mut self.pending);
        TakenRequests::Batch(batch)
    }

    /// Takes no more requests.
    pub fn close(&mut self)
        ensures
            is_close(*old(self), *final(self)),
    {
        self.closed = true;
    }

    /// Whether no more requests are taken.
    pub fn is_closed(&self) -> (r: bool)
        ensures
            r == self.closed(),
    {
        self.closed
    }
}

/// The requests that were made, counting those that were replaced.
pub open spec fn requests_made(s: Seq<ProbeRequest>) -> nat
    decreases s.len(),
{
    if s.len() == 0 {
        0
    } else {
        requests_made(s.drop_last()) + s.last().coalesced_requests as nat + 1
    }
}

/// Taking a request out takes it out of the count.
proof fn lemma_made_without(s: Seq<ProbeRequest>, i: int)
    requires
        0 <= i < s.len(),
    ensures
        requests_made(s) == requests_made(s.remove(i)) + s[i].coalesced_requests as nat + 1,
    decreases s.len(),
{
    if i == s.len() - 1 {
        assert(s.remove(i) =~= s.drop_last());
    } else {
        lemma_made_without(s.drop_last(), i);
        assert(s.remove(i).drop_last() =~= s.drop_last().remove(i));
        assert(s.remove(i).last() == s.last());
    }
}

/// The law of replaced requests: each request counts once, whether it is replaced or
/// not.
pub proof fn no_request_is_forgotten(
    s: Seq<ProbeRequest>,
    r: ProbeRequest,
    after: Seq<ProbeRequest>,
)
    requires
        is_pushed(s, r, after),
        r.coalesced_requests == 0,
        forall|i: int| 0 <= i < s.len() ==> (#[trigger] s[i]).coalesced_requests < u64::MAX,
    ensures
        requests_made(after) == requests_made(s) + 1,
{
    if exists|i: int| is_waiting(s, i, r.tid) {
        let i = choose|i: int|
            #[trigger] is_waiting(s, i, r.tid) && after == s.remove(i).push(
                ProbeRequest { coalesced_requests: sat_add(s[i].coalesced_requests, 1), ..r },
            );
        lemma_made_without(s, i);
        assert(after.drop_last() =~= s.remove(i));
        assert(s[i].coalesced_requests < u64::MAX);
    } else {
        assert(after.drop_last() =~= s);
    }
}

/// Requests were made one by one, with what was told of each.
pub open spec fn is_series(
    states: Seq<LatestProbeRequests>,
    rs: Seq<ProbeRequest>,
    told: Seq<bool>,
) -> bool {
    &&& states.len() == rs.len() + 1
    &&& told.len() == rs.len()
    &&& forall|k: int|
        0 <= k < rs.len() ==> is_push(states[k], #[trigger] rs[k], told[k], states[k + 1])
}

/// How many of the requests are for a thread.
pub open spec fn asked(rs: Seq<ProbeRequest>, tid: u32) -> nat
    decreases rs.len(),
{
    if rs.len() == 0 {
        0
    } else {
        asked(rs.drop_last(), tid) + if rs.last().tid == tid {
            1nat
        } else {
            0nat
        }
    }
}

/// The request is for the same thread as the one at `k`.
pub open spec fn asks_for(rs: Seq<ProbeRequest>, k: int, tid: u32) -> bool {
    0 <= k < rs.len() && rs[k].tid == tid
}

/// `q` is the last of the requests for its thread, and counts those before it, as far as
/// that fits.
pub open spec fn is_latest(rs: Seq<ProbeRequest>, q: ProbeRequest) -> bool {
    &&& exists|k: int| #[trigger]
        asks_for(rs, k, q.tid) && q.timing == rs[k].timing && forall|j: int|
            k < j < rs.len() ==> !#[trigger] asks_for(rs, j, q.tid)
    &&& q.coalesced_requests == if asked(rs, q.tid) - 1 > u64::MAX {
        u64::MAX as int
    } else {
        asked(rs, q.tid) - 1
    }
}

/// One request waits for each thread that one was made for: the last of them.
pub open spec fn holds_latest(rs: Seq<ProbeRequest>, pending: Seq<ProbeRequest>) -> bool {
    &&& requests_differ(pending)
    &&& forall|i: int| 0 <= i < pending.len() ==> is_latest(rs, #[trigger] pending[i])
    &&& forall|k: int| 0 <= k < rs.len() ==> waits(pending, (#[trigger] rs[k]).tid)
}

/// A thread that a request is for was asked for.
proof fn lemma_asked(rs: Seq<ProbeRequest>, k: int)
    requires
        0 <= k < rs.len(),
    ensures
        asked(rs, rs[k].tid) >= 1,
    decreases rs.len(),
{
    if k < rs.len() - 1 {
        lemma_asked(rs.drop_last(), k);
    }
}

/// A request for another thread leaves the last one for this thread as it is.
proof fn lemma_latest_stays(rs: Seq<ProbeRequest>, r: ProbeRequest, q: ProbeRequest)
    requires
        is_latest(rs, q),
        q.tid != r.tid,
    ensures
        is_latest(rs.push(r), q),
{
    let next = rs.push(r);
    assert(next.drop_last() =~= rs);
    let k = choose|k: int| #[trigger]
        asks_for(rs, k, q.tid) && q.timing == rs[k].timing && forall|j: int|
            k < j < rs.len() ==> !#[trigger] asks_for(rs, j, q.tid);
    assert(asks_for(next, k, q.tid));
    assert forall|j: int| k < j < next.len() implies !#[trigger] asks_for(next, j, q.tid) by {
        if j < rs.len() {
            assert(!asks_for(rs, j, q.tid));
        }
    }
}

/// One more request keeps the last of each thread.
proof fn lemma_push_keeps_latest(
    rs: Seq<ProbeRequest>,
    s: Seq<ProbeRequest>,
    r: ProbeRequest,
    after: Seq<ProbeRequest>,
)
    requires
        holds_latest(rs, s),
        is_pushed(s, r, after),
        r.coalesced_requests == 0,
    ensures
        holds_latest(rs.push(r), after),
{
    let next = rs.push(r);
    assert(next.drop_last() =~= rs);
    assert(next.last() == r);
    assert(asks_for(next, rs.len() as int, r.tid));
    let n = after.len() - 1;
    if exists|i: int| is_waiting(s, i, r.tid) {
        let i = choose|i: int|
            #[trigger] is_waiting(s, i, r.tid) && after == s.remove(i).push(
                ProbeRequest { coalesced_requests: sat_add(s[i].coalesced_requests, 1), ..r },
            );
        assert(is_latest(rs, s[i]));
        let at = choose|k: int| #[trigger] asks_for(rs, k, s[i].tid);
        lemma_asked(rs, at);
        assert(after[n].tid == r.tid && after[n].timing == r.timing);
        assert(asks_for(next, rs.len() as int, after[n].tid));
        assert(asked(next, r.tid) == asked(rs, r.tid) + 1);
        assert(is_latest(next, after[n]));
        assert forall|a: int| 0 <= a < n implies (#[trigger] after[a]).tid != r.tid && is_latest(
            next,
            after[a],
        ) by {
            let b = if a < i {
                a
            } else {
                a + 1
            };
            assert(after[a] == s[b]);
            if b < i {
                assert(s[b].tid != s[i].tid);
            } else {
                assert(s[i].tid != s[b].tid);
            }
            lemma_latest_stays(rs, r, s[b]);
        }
        assert forall|a: int, b: int| 0 <= a < b < after.len() implies (#[trigger] after[a]).tid
            != (#[trigger] after[b]).tid by {
            if b < n {
                let a2 = if a < i {
                    a
                } else {
                    a + 1
                };
                let b2 = if b < i {
                    b
                } else {
                    b + 1
                };
                assert(after[a] == s[a2] && after[b] == s[b2]);
                assert(s[a2].tid != s[b2].tid);
            }
        }
        assert forall|k: int| 0 <= k < next.len() implies waits(
            after,
            (#[trigger] next[k]).tid,
        ) by {
            if next[k].tid == r.tid {
                assert(is_waiting(after, n, next[k].tid));
            } else {
                assert(next[k] == rs[k]);
                assert(waits(s, rs[k].tid));
                let j = choose|j: int| is_waiting(s, j, rs[k].tid);
                let j2 = if j < i {
                    j
                } else {
                    j - 1
                };
                assert(after[j2] == s[j]);
                assert(is_waiting(after, j2, next[k].tid));
            }
        }
    } else {
        assert(asked(rs, r.tid) == 0) by {
            lemma_not_asked(rs, r.tid, s);
        }
        assert(is_latest(next, after[n]));
        assert forall|a: int| 0 <= a < n implies (#[trigger] after[a]).tid != r.tid && is_latest(
            next,
            after[a],
        ) by {
            assert(after[a] == s[a]);
            assert(!is_waiting(s, a, r.tid));
            lemma_latest_stays(rs, r, s[a]);
        }
        assert forall|a: int, b: int| 0 <= a < b < after.len() implies (#[trigger] after[a]).tid
            != (#[trigger] after[b]).tid by {
            if b < n {
                assert(s[a].tid != s[b].tid);
            }
        }
        assert forall|k: int| 0 <= k < next.len() implies waits(
            after,
            (#[trigger] next[k]).tid,
        ) by {
            if k == rs.len() {
                assert(is_waiting(after, n, next[k].tid));
            } else {
                assert(next[k] == rs[k]);
                assert(waits(s, rs[k].tid));
                let j = choose|j: int| is_waiting(s, j, rs[k].tid);
                assert(is_waiting(after, j, next[k].tid));
            }
        }
    }
}

/// Where nothing waits for a thread, none was made for it.
proof fn lemma_not_asked(rs: Seq<ProbeRequest>, tid: u32, s: Seq<ProbeRequest>)
    requires
        forall|k: int| 0 <= k < rs.len() ==> waits(s, (#[trigger] rs[k]).tid),
        !waits(s, tid),
    ensures
        asked(rs, tid) == 0,
    decreases rs.len(),
{
    if rs.len() > 0 {
        let init = rs.drop_last();
        assert forall|k: int| 0 <= k < init.len() implies waits(s, (#[trigger] init[k]).tid) by {
            assert(init[k] == rs[k]);
        }
        lemma_not_asked(init, tid, s);
        assert(waits(s, rs[rs.len() - 1].tid));
    }
}

/// A series of requests, none of which counts others, keeps the last for each thread.
proof fn lemma_series(
    states: Seq<LatestProbeRequests>,
    rs: Seq<ProbeRequest>,
    told: Seq<bool>,
    n: int,
)
    requires
        is_series(states, rs, told),
        0 <= n <= rs.len(),
        states[0].pending().len() == 0,
        !states[0].closed(),
        forall|k: int| 0 <= k < rs.len() ==> (#[trigger] rs[k]).coalesced_requests == 0,
    ensures
        !states[n].closed(),
        holds_latest(rs.take(n), states[n].pending()),
    decreases n,
{
    if n > 0 {
        lemma_series(states, rs, told, n - 1);
        let r = rs[n - 1];
        assert(is_push(states[n - 1], rs[n - 1], told[n - 1], states[n - 1 + 1]));
        lemma_push_keeps_latest(
            rs.take(n - 1),
            states[n - 1].pending(),
            r,
            states[n].pending(),
        );
        assert(rs.take(n - 1).push(r) =~= rs.take(n));
    }
}

/// Once closed, a series of requests changes nothing.
proof fn lemma_closed_series(
    states: Seq<LatestProbeRequests>,
    rs: Seq<ProbeRequest>,
    told: Seq<bool>,
    n: int,
)
    requires
        is_series(states, rs, told),
        0 <= n <= rs.len(),
        states[0].closed(),
    ensures
        states[n].closed(),
        states[n].pending() == states[0].pending(),
        forall|k: int| 0 <= k < n ==> !#[trigger] told[k],
    decreases n,
{
    if n > 0 {
        lemma_closed_series(states, rs, told, n - 1);
        assert(is_push(states[n - 1], rs[n - 1], told[n - 1], states[n - 1 + 1]));
    }
}

/// The law of requests: of those made before closing, one for each thread is taken, the last,
/// with the count of those that it replaced; each was told whether it replaced one. Those made
/// afterwards are dropped, and nothing is left to be taken.
pub proof fn latest_requests_are_taken(
    states: Seq<LatestProbeRequests>,
    rs: Seq<ProbeRequest>,
    told: Seq<bool>,
    late_states: Seq<LatestProbeRequests>,
    late: Seq<ProbeRequest>,
    late_told: Seq<bool>,
    taken: TakenRequests,
    after: LatestProbeRequests,
)
    requires
        is_series(states, rs, told),
        states[0].pending().len() == 0,
        !states[0].closed(),
        rs.len() > 0,
        forall|k: int| 0 <= k < rs.len() ==> (#[trigger] rs[k]).coalesced_requests == 0,
        is_series(late_states, late, late_told),
        is_close(states.last(), late_states[0]),
        is_take(late_states.last(), taken, after),
    ensures
        forall|k: int|
            0 <= k < rs.len() ==> #[trigger] told[k] == exists|j: int|
                j < k && asks_for(rs, j, rs[k].tid),
        forall|k: int| 0 <= k < late.len() ==> !#[trigger] late_told[k],
        taken matches TakenRequests::Batch(v) && holds_latest(rs, v@),
        forall|t: TakenRequests, last: LatestProbeRequests|
            #[trigger] is_take(after, t, last) ==> t is Closed,
{
    let n = rs.len() as int;
    lemma_series(states, rs, told, n);
    lemma_closed_series(late_states, late, late_told, late.len() as int);
    assert(rs.take(n) =~= rs);
    assert(late_states.last() == late_states[late.len() as int]);
    assert(states.last() == states[n]);
    assert(waits(states[n].pending(), rs[0].tid));
    assert forall|k: int| 0 <= k < rs.len() implies #[trigger] told[k] == exists|j: int|
        j < k && asks_for(rs, j, rs[k].tid) by {
        let r = rs[k];
        let s = states[k].pending();
        lemma_series(states, rs, told, k);
        assert(is_push(states[k], rs[k], told[k], states[k + 1]));
        if told[k] {
            let i = choose|i: int| is_waiting(s, i, r.tid);
            assert(is_latest(rs.take(k), s[i]));
            let j = choose|j: int| #[trigger] asks_for(rs.take(k), j, s[i].tid);
            assert(asks_for(rs, j, rs[k].tid));
        }
        if exists|j: int| j < k && asks_for(rs, j, rs[k].tid) {
            let j = choose|j: int| j < k && asks_for(rs, j, rs[k].tid);
            assert(rs.take(k)[j] == rs[j]);
            assert(waits(s, rs.take(k)[j].tid));
        }
    }
}

/// Raises the demand for threads, and hands out probes of them.
pub struct RaceProbeTrigger {
    pub requests: LatestProbeRequests,
    pub thread_demands: ThreadDemandTracker,
}

impl RaceProbeTrigger {
    /// Takes in that a sample of a thread was noticed. It raises demand; whether and
    /// when the thread is probed is the timer's choice, so nothing is put in line yet.
    pub fn enqueue(&mut self, tid: u32, _trigger: KperfProbeTriggerTiming, now: u64) -> (r: bool)
        requires
            old(self).thread_demands.wf(),
        ensures
            !r,
            final(self).thread_demands.wf(),
            final(self).thread_demands.threads() == (if old(
                self,
            ).thread_demands.suppressed().contains(tid) {
                without_thread(old(self).thread_demands.threads_at(now), tid)
            } else {
                demand_after(old(self).thread_demands.threads_at(now), tid, now)
            }),
            final(self).thread_demands.suppressed() == old(self).thread_demands.suppressed(),
            final(self).thread_demands.last_decay() == old(self).thread_demands.decayed_at(now),
            final(self).requests == old(self).requests,
    {
        let _ = self.thread_demands.observe(tid, now);
        false
    }

    /// Puts a request in line for the thread that is most in demand, at a tick of the
    /// timer; the choice, and whether the request took the place of another.
    pub fn tick(&mut self, now: u64, request_ticks: u64) -> (c: Option<(ThreadDemandChoice, bool)>)
        requires
            old(self).thread_demands.wf(),
            old(self).requests.wf(),
        ensures
            final(self).thread_demands.wf(),
            final(self).requests.wf(),
            is_choice(
                old(self).thread_demands,
                now,
                match c {
                    Some((c, _)) => Some(c),
                    None => None,
                },
                final(self).thread_demands,
            ),
            final(self).requests.closed() == old(self).requests.closed(),
            match c {
                Some((c, replaced)) => replaced == (!old(self).requests.closed() && exists|i: int|
                    is_waiting(old(self).requests.pending(), i, c.tid)) && if old(
                    self,
                ).requests.closed() {
                    final(self).requests.pending() == old(self).requests.pending()
                } else {
                    is_pushed(
                        old(self).requests.pending(),
                        ProbeRequest {
                            tid: c.tid,
                            timing: timing_at(request_ticks),
                            coalesced_requests: 0,
                        },
                        final(self).requests.pending(),
                    )
                },
                None => final(self).requests.pending() == old(self).requests.pending(),
            },
    {
        match self.thread_demands.pick(now) {
            Some(choice) => {
                let r = ProbeRequest {
                    tid: choice.tid,
                    timing: correlated_probe_timing(request_ticks),
                    coalesced_requests: 0,
                };
                let ghost before = self.requests;
                let replaced = self.requests.push(r);
                proof {
                    let asked = ProbeRequest {
                        tid: choice.tid,
                        timing: timing_at(request_ticks),
                        coalesced_requests: 0,
                    };
                    assert(r == asked);
                    assert(before.closed() ==> self.requests.pending() == before.pending());
                    assert(!before.closed() ==> is_pushed(
                        before.pending(),
                        asked,
                        self.requests.pending(),
                    ));
                    assert(before.pending() == old(self).requests.pending());
                    if replaced {
                        let i = choose|i: int| is_waiting(before.pending(), i, r.tid);
                        assert(is_waiting(before.pending(), i, choice.tid));
                    }
                    if exists|i: int| is_waiting(before.pending(), i, choice.tid) {
                        let i = choose|i: int| is_waiting(before.pending(), i, choice.tid);
                        assert(is_waiting(before.pending(), i, r.tid));
                    }
                }
                Some((choice, replaced))
            },
            None => None,
        }
    }
}

/// The time between two ticks of the timer, in nanoseconds: a second over the
/// frequency, and at least one.
pub fn sampling_interval_ns(frequency_hz: u32) -> (ns: u64)
    ensures
        ns == (if frequency_hz == 0 {
            1_000_000_000int
        } else if frequency_hz > 1_000_000_000 {
            1int
        } else {
            1_000_000_000int / (frequency_hz as int)
        }),
{
    let f: u64 = if frequency_hz == 0 {
        1
    } else {
        frequency_hz as u64
    };
    let ns: u64 = 1_000_000_000 / f;
    proof {
        if f <= 1_000_000_000 {
            assert(1_000_000_000int / (f as int) >= 1) by (nonlinear_arith)
                requires
                    0 < f <= 1_000_000_000,
            ;
        } else {
            assert(1_000_000_000int / (f as int) == 0) by (nonlinear_arith)
                requires
                    f > 1_000_000_000,
            ;
        }
    }
    if ns == 0 {
        1
    } else {
        ns
    }
}

/// How long before a date sleeping ends, in nanoseconds.
pub const TIMER_SLEEP_MARGIN: u64 = 1_000_000;

/// How long before it waiting turns into spinning.
pub const TIMER_YIELD_WINDOW: u64 = 200_000;

/// How to wait.
#[derive(Clone, Copy, Debug, PartialEq, Eq, Structural)]
pub enum WaitStep {
    Done,
    Sleep { ns: u64 },
    Yield,
    Spin,
}

/// How to wait for a date: asleep while it is far, then giving way, then spinning.
pub fn wait_step(now: u64, deadline: u64) -> (s: WaitStep)
    ensures
        s == (if now >= deadline {
            WaitStep::Done
        } else if deadline - now > TIMER_SLEEP_MARGIN + TIMER_YIELD_WINDOW {
            WaitStep::Sleep { ns: (deadline - now - TIMER_SLEEP_MARGIN) as u64 }
        } else if deadline - now > TIMER_YIELD_WINDOW {
            WaitStep::Yield
        } else {
            WaitStep::Spin
        }),
{
    if now >= deadline {
        return WaitStep::Done;
    }
    let remaining: u64 = deadline - now;
    if remaining > TIMER_SLEEP_MARGIN + TIMER_YIELD_WINDOW {
        WaitStep::Sleep { ns: remaining - TIMER_SLEEP_MARGIN }
    } else if remaining > TIMER_YIELD_WINDOW {
        WaitStep::Yield
    } else {
        WaitStep::Spin
    }
}

/// The law of waiting: sleep never lasts past the date, and leaves a margin before it.
pub proof fn sleep_ends_early(now: u64, deadline: u64, ns: u64)
    requires
        now < deadline,
        deadline - now > TIMER_SLEEP_MARGIN + TIMER_YIELD_WINDOW,
        ns == deadline - now - TIMER_SLEEP_MARGIN,
    ensures
        now + ns + TIMER_SLEEP_MARGIN == deadline,
{
}

/// The law of fading: every thread's demand is halved, and a thread that is wanted no more and was not
/// seen for five seconds is forgotten.
pub proof fn fading_halves_demand(s: Seq<ThreadDemand>, now: u64)
    ensures
        faded(s, now) == s.map_values(
            |t: ThreadDemand|
                ThreadDemand {
                    tid: t.tid,
                    demand: t.demand / 2,
                    observed: t.observed,
                    probed: t.probed,
                    last_seen: t.last_seen,
                    last_probed: t.last_probed,
                },
        ).filter(|t: ThreadDemand| t.demand > 0 || now < t.last_seen + 5_000_000_000),
    decreases s.len(),
{
    reveal(Seq::filter);
    let less = |t: ThreadDemand|
        ThreadDemand {
            tid: t.tid,
            demand: t.demand / 2,
            observed: t.observed,
            probed: t.probed,
            last_seen: t.last_seen,
            last_probed: t.last_probed,
        };
    let stays = |t: ThreadDemand| t.demand > 0 || now < t.last_seen + 5_000_000_000;
    let all = s.map_values(less);
    if s.len() > 0 {
        fading_halves_demand(s.drop_last(), now);
        assert(all.drop_last() =~= s.drop_last().map_values(less));
        assert(all.last() == less(s.last()));
        assert(halved(s.last()) == less(s.last()));
    } else {
        assert(all =~= seq![]);
    }
}

/// The law of times: demand fades four times a second at most, and stays as it is in between.
pub proof fn demand_fades_now_and_again(t: ThreadDemandTracker, now: u64)
    ensures
        now < t.last_decay() + 250_000_000 ==> t.threads_at(now) == t.threads() && t.decayed_at(now)
            == t.last_decay(),
        now >= t.last_decay() + 250_000_000 ==> t.threads_at(now) == faded(t.threads(), now)
            && t.decayed_at(now) == now,
{
}

/// The law of suppression: the thread goes, and every other one stays.
pub proof fn only_the_thread_goes(s: Seq<ThreadDemand>, tid: u32)
    ensures
        without_thread(s, tid) == s.filter(|t: ThreadDemand| t.tid != tid),
    decreases s.len(),
{
    reveal(Seq::filter);
    if s.len() > 0 {
        only_the_thread_goes(s.drop_last(), tid);
    }
}

/// The law of observation: a thread that is seen is wanted once more, and no other one changes; one
/// that was not known is wanted once.
pub proof fn seeing_a_thread_adds_demand(s: Seq<ThreadDemand>, tid: u32, now: u64, i: int)
    requires
        0 <= i < demand_after(s, tid, now).len(),
    ensures
        ({
            let t = demand_after(s, tid, now)[i];
            &&& i < s.len() && s[i].tid != tid ==> t == s[i]
            &&& i < s.len() && s[i].tid == tid ==> {
                &&& t.tid == tid
                &&& s[i].demand < u32::MAX ==> t.demand == s[i].demand + 1
                &&& s[i].demand == u32::MAX ==> t.demand == u32::MAX
                &&& s[i].observed < u64::MAX ==> t.observed == s[i].observed + 1
                &&& s[i].observed == u64::MAX ==> t.observed == u64::MAX
                &&& t.last_seen == now
                &&& t.probed == s[i].probed
                &&& t.last_probed == s[i].last_probed
            }
            &&& i >= s.len() ==> i == s.len() && t == (ThreadDemand {
                tid,
                demand: 1,
                observed: 1,
                probed: 0,
                last_seen: now,
                last_probed: None,
            }) && forall|k: int| 0 <= k < s.len() ==> (#[trigger] s[k]).tid != tid
            &&& s.len() <= demand_after(s, tid, now).len()
            &&& demand_after(s, tid, now).len() == s.len() ==> exists|k: int|
                0 <= k < s.len() && (#[trigger] s[k]).tid == tid
        }),
{
}

/// The law of the choice: no other thread that may be probed is wanted more than the one chosen; of
/// those that are wanted as much none has more observations that were not probed, and of those with as
/// many none has a lower number. It counts as probed, and nothing else changes.
pub proof fn choice_is_wanted_most(
    before: ThreadDemandTracker,
    now: u64,
    c: ThreadDemandChoice,
    after: ThreadDemandTracker,
    j: int,
)
    requires
        is_choice(before, now, Some(c), after),
        0 <= j < before.threads_at(now).len(),
    ensures
        ({
            let t = before.threads_at(now)[j];
            let open = if t.observed > t.probed {
                t.observed - t.probed
            } else {
                0
            };
            &&& t.demand > 0 && !before.suppressed().contains(t.tid) ==> {
                &&& c.demand >= t.demand
                &&& c.demand == t.demand ==> c.deficit >= open
                &&& c.demand == t.demand && c.deficit == open ==> c.tid <= t.tid
            }
            &&& t.tid != c.tid ==> after.threads()[j] == t
            &&& t.tid == c.tid ==> after.threads()[j].last_probed == Some(now) && (t.probed
                < u64::MAX ==> after.threads()[j].probed == t.probed + 1) && after.threads()[j].demand
                == t.demand && after.threads()[j].observed == t.observed
            &&& after.threads().len() == before.threads_at(now).len()
            &&& c.known_tids as int == before.threads_at(now).len() || before.threads_at(now).len()
                > usize::MAX
            &&& !before.suppressed().contains(c.tid)
            &&& c.demand > 0
        }),
{
    let threads = before.threads_at(now);
    let i = choose|i: int|
        #[trigger] is_pick(threads, before.suppressed(), i) && c == (ThreadDemandChoice {
            tid: threads[i].tid,
            known_tids: threads.len() as usize,
            demand: threads[i].demand,
            deficit: deficit(threads[i]),
        });
    let t = threads[j];
    if eligible(t, before.suppressed()) {
        assert(!before_in_demand(threads[j], threads[i]));
    }
}

} // verus!
