//! What a recording has collected, thread by thread.
use vstd::prelude::*;

use crate::sample_sink::ProbeQueueStats;
use crate::text::opt_text;

verus! {

/// Hardware counters of one sample.
#[derive(Clone, Copy, Debug, PartialEq, Eq, Structural)]
pub struct PmuSample {
    pub cycles: u64,
    pub instructions: u64,
    pub l1d_misses: u64,
    pub branch_mispreds: u64,
}

impl Default for PmuSample {
    fn default() -> (r: Self)
        ensures
            r == (PmuSample { cycles: 0, instructions: 0, l1d_misses: 0, branch_mispreds: 0 }),
    {
        PmuSample { cycles: 0, instructions: 0, l1d_misses: 0, branch_mispreds: 0 }
    }
}

/// One stack sample of a thread on the CPU, callee first.
pub struct PetSample {
    pub timestamp_ns: u64,
    pub stack: Vec<u64>,
    pub kernel_stack: Vec<u64>,
    pub pmc: PmuSample,
}

/// The model of a [`PetSample`].
pub struct PetView {
    pub timestamp_ns: u64,
    pub stack: Seq<u64>,
    pub kernel_stack: Seq<u64>,
    pub pmc: PmuSample,
}

impl View for PetSample {
    type V = PetView;

    open spec fn view(&self) -> PetView {
        PetView {
            timestamp_ns: self.timestamp_ns,
            stack: self.stack@,
            kernel_stack: self.kernel_stack@,
            pmc: self.pmc,
        }
    }
}

/// The instants of one probe, in clock ticks. Zero stands for "not taken".
#[derive(Clone, Copy, Debug, PartialEq, Eq, Structural)]
pub struct ProbeTiming {
    pub kperf_ts: u64,
    pub staxd_read_started: u64,
    pub staxd_drained: u64,
    pub staxd_queued_for_send: u64,
    pub staxd_send_started: u64,
    pub client_received: u64,
    pub enqueued: u64,
    pub worker_started: u64,
    pub thread_lookup_done: u64,
    pub state_done: u64,
    pub resume_done: u64,
    pub walk_done: u64,
}

impl Default for ProbeTiming {
    fn default() -> (r: Self)
        ensures
            r == (ProbeTiming {
                kperf_ts: 0,
                staxd_read_started: 0,
                staxd_drained: 0,
                staxd_queued_for_send: 0,
                staxd_send_started: 0,
                client_received: 0,
                enqueued: 0,
                worker_started: 0,
                thread_lookup_done: 0,
                state_done: 0,
                resume_done: 0,
                walk_done: 0,
            }),
    {
        ProbeTiming {
            kperf_ts: 0,
            staxd_read_started: 0,
            staxd_drained: 0,
            staxd_queued_for_send: 0,
            staxd_send_started: 0,
            client_received: 0,
            enqueued: 0,
            worker_started: 0,
            thread_lookup_done: 0,
            state_done: 0,
            resume_done: 0,
            walk_done: 0,
        }
    }
}

/// What one probe of a thread saw: registers, and the stack as four unwinders
/// walked it, each without the interrupted instruction itself.
pub struct ProbeResultRecord {
    pub tid: u32,
    pub timing: ProbeTiming,
    pub queue: ProbeQueueStats,
    pub mach_pc: u64,
    pub mach_lr: u64,
    pub mach_fp: u64,
    pub mach_sp: u64,
    pub mach_walked: Vec<u64>,
    pub compact_walked: Vec<u64>,
    pub compact_dwarf_walked: Vec<u64>,
    pub dwarf_walked: Vec<u64>,
    pub used_framehop: bool,
}

/// The model of a [`ProbeResultRecord`].
pub struct ProbeView {
    pub tid: u32,
    pub timing: ProbeTiming,
    pub queue: ProbeQueueStats,
    pub mach_pc: u64,
    pub mach_lr: u64,
    pub mach_fp: u64,
    pub mach_sp: u64,
    pub mach_walked: Seq<u64>,
    pub compact_walked: Seq<u64>,
    pub compact_dwarf_walked: Seq<u64>,
    pub dwarf_walked: Seq<u64>,
    pub used_framehop: bool,
}

impl View for ProbeResultRecord {
    type V = ProbeView;

    open spec fn view(&self) -> ProbeView {
        ProbeView {
            tid: self.tid,
            timing: self.timing,
            queue: self.queue,
            mach_pc: self.mach_pc,
            mach_lr: self.mach_lr,
            mach_fp: self.mach_fp,
            mach_sp: self.mach_sp,
            mach_walked: self.mach_walked@,
            compact_walked: self.compact_walked@,
            compact_dwarf_walked: self.compact_dwarf_walked@,
            dwarf_walked: self.dwarf_walked@,
            used_framehop: self.used_framehop,
        }
    }
}

/// Why an interval was not spent on the CPU, as far as it is known.
pub enum IntervalKind {
    OnCpu,
    OffCpu { stack: Vec<u64>, waker_tid: Option<u32>, waker_user_stack: Option<Vec<u64>> },
}

/// The model of an [`IntervalKind`].
pub enum KindView {
    OnCpu,
    OffCpu { stack: Seq<u64>, waker_tid: Option<u32>, waker_user_stack: Option<Seq<u64>> },
}

impl View for IntervalKind {
    type V = KindView;

    open spec fn view(&self) -> KindView {
        match self {
            IntervalKind::OnCpu => KindView::OnCpu,
            IntervalKind::OffCpu { stack, waker_tid, waker_user_stack } => KindView::OffCpu {
                stack: stack@,
                waker_tid: *waker_tid,
                waker_user_stack: match waker_user_stack {
                    Some(s) => Some(s@),
                    None => None,
                },
            },
        }
    }
}

/// One stretch of time that a thread spent on or off the CPU. An end of zero
/// stands for an interval that is still open.
pub struct IntervalRecord {
    pub start_ns: u64,
    pub end_ns: u64,
    pub kind: IntervalKind,
}

/// The model of an [`IntervalRecord`].
pub struct IntervalView {
    pub start_ns: u64,
    pub end_ns: u64,
    pub kind: KindView,
}

impl View for IntervalRecord {
    type V = IntervalView;

    open spec fn view(&self) -> IntervalView {
        IntervalView { start_ns: self.start_ns, end_ns: self.end_ns, kind: self.kind@ }
    }
}

/// What has been collected of one thread.
pub struct ThreadStats {
    pub tid: u32,
    pub name: Option<String>,
    pub pet_samples: Vec<PetSample>,
    pub probe_results: Vec<ProbeResultRecord>,
    pub intervals: Vec<IntervalRecord>,
}

/// The models of samples.
pub open spec fn pet_views(s: Seq<PetSample>) -> Seq<PetView> {
    s.map_values(|p: PetSample| p@)
}

/// The models of probes.
pub open spec fn probe_views(s: Seq<ProbeResultRecord>) -> Seq<ProbeView> {
    s.map_values(|p: ProbeResultRecord| p@)
}

/// The models of intervals.
pub open spec fn interval_views(s: Seq<IntervalRecord>) -> Seq<IntervalView> {
    s.map_values(|p: IntervalRecord| p@)
}

/// The model of [`ThreadStats`].
pub struct ThreadView {
    pub tid: u32,
    pub name: Option<Seq<char>>,
    pub pets: Seq<PetView>,
    pub probes: Seq<ProbeView>,
    pub intervals: Seq<IntervalView>,
}

impl View for ThreadStats {
    type V = ThreadView;

    open spec fn view(&self) -> ThreadView {
        ThreadView {
            tid: self.tid,
            name: opt_text(self.name),
            pets: pet_views(self.pet_samples@),
            probes: probe_views(self.probe_results@),
            intervals: interval_views(self.intervals@),
        }
    }
}

/// The models of threads.
pub open spec fn thread_views(s: Seq<ThreadStats>) -> Seq<ThreadView> {
    s.map_values(|t: ThreadStats| t@)
}

/// A thread of which nothing has been collected.
pub open spec fn fresh_thread(tid: u32) -> ThreadView {
    ThreadView { tid, name: None, pets: seq![], probes: seq![], intervals: seq![] }
}

/// No two threads share an id.
pub open spec fn tids_distinct(t: Seq<ThreadView>) -> bool {
    forall|i: int, j: int| 0 <= i < j < t.len() ==> (#[trigger] t[i]).tid != (#[trigger] t[j]).tid
}

/// `i` is the thread `tid`.
pub open spec fn is_thread(t: Seq<ThreadView>, tid: u32, i: int) -> bool {
    0 <= i < t.len() && t[i].tid == tid
}

/// `after` is `before` with the thread `tid` put through `f`; a thread that was
/// not known starts fresh, behind the others.
pub open spec fn thread_updated(
    before: Seq<ThreadView>,
    after: Seq<ThreadView>,
    tid: u32,
    f: spec_fn(ThreadView) -> ThreadView,
) -> bool {
    ||| exists|i: int| #[trigger] is_thread(before, tid, i) && after == before.update(i, f(before[i]))
    ||| (forall|i: int| !is_thread(before, tid, i)) && after == before.push(f(fresh_thread(tid)))
}

/// The earlier of a known instant and a new one.
pub open spec fn earliest(known: Option<u64>, t: u64) -> Option<u64> {
    match known {
        Some(k) => if k <= t {
            Some(k)
        } else {
            Some(t)
        },
        None => Some(t),
    }
}

/// The later of a known instant and a new one.
pub open spec fn latest(known: Option<u64>, t: u64) -> Option<u64> {
    match known {
        Some(k) => if k >= t {
            Some(k)
        } else {
            Some(t)
        },
        None => Some(t),
    }
}

/// What a recording has collected.
pub struct Aggregator {
    threads: Vec<ThreadStats>,
    session_start: Option<u64>,
    last_event: Option<u64>,
}

impl Default for Aggregator {
    fn default() -> (r: Self)
        ensures
            r.wf(),
            r.threads() == Seq::<ThreadView>::empty(),
            r.start() is None,
            r.last() is None,
    {
        let r = Aggregator { threads: Vec::new(), session_start: None, last_event: None };
        assert(r.threads() =~= Seq::<ThreadView>::empty());
        r
    }
}

impl Aggregator {
    /// The threads, in the order in which they were first seen.
    pub closed spec fn threads(self) -> Seq<ThreadView> {
        thread_views(self.threads@)
    }

    /// The earliest instant that was recorded.
    pub closed spec fn start(self) -> Option<u64> {
        self.session_start
    }

    /// The latest instant that was recorded.
    pub closed spec fn last(self) -> Option<u64> {
        self.last_event
    }

    /// No two threads share an id.
    pub closed spec fn wf(self) -> bool {
        tids_distinct(self.threads())
    }

    /// The ids are distinct.
    pub proof fn lemma_wf(self)
        requires
            self.wf(),
        ensures
            tids_distinct(self.threads()),
    {
    }

    /// The earliest instant that was recorded.
    pub fn session_start_ns(&self) -> (r: Option<u64>)
        ensures
            r == self.start(),
    {
        self.session_start
    }

    /// The latest instant that was recorded.
    pub fn last_event_ns(&self) -> (r: Option<u64>)
        ensures
            r == self.last(),
    {
        self.last_event
    }

    /// What has been collected, thread by thread.
    pub fn thread_list(&self) -> (r: &Vec<ThreadStats>)
        ensures
            thread_views(r@) == self.threads(),
    {
        &self.threads
    }

    /// The position of the thread `tid`, which is added where it is new.
    fn thread_slot(&mut self, tid: u32) -> (i: usize)
        requires
            old(self).wf(),
        ensures
            final(self).wf(),
            is_thread(final(self).threads(), tid, i as int),
            i < final(self).threads@.len(),
            final(self).session_start == old(self).session_start,
            final(self).last_event == old(self).last_event,
            ({
                ||| is_thread(old(self).threads(), tid, i as int) && final(self).threads@ == old(
                    self,
                ).threads@
                ||| (forall|k: int| !is_thread(old(self).threads(), tid, k))
                    && final(self).threads() == old(self).threads().push(fresh_thread(tid)) && i
                    == old(self).threads().len()
            }),
    {
        let mut i: usize = 0;
        while i < self.threads.len()
            invariant
                self.wf(),
                i <= self.threads@.len(),
                *self == *old(self),
                forall|k: int| 0 <= k < i ==> (#[trigger] self.threads@[k]).tid != tid,
            decreases self.threads@.len() - i,
        {
            if self.threads[i].tid == tid {
                assert(self.threads()[i as int] == self.threads@[i as int]@);
                return i;
            }
            i = i + 1;
        }
        proof {
            assert forall|k: int| !is_thread(self.threads(), tid, k) by {
                if 0 <= k < self.threads@.len() {
                    assert(self.threads()[k] == self.threads@[k]@);
                }
            }
        }
        let fresh = ThreadStats {
            tid,
            name: None,
            pet_samples: Vec::new(),
            probe_results: Vec::new(),
            intervals: Vec::new(),
        };
        proof {
            assert(pet_views(fresh.pet_samples@) =~= seq![]);
            assert(probe_views(fresh.probe_results@) =~= seq![]);
            assert(interval_views(fresh.intervals@) =~= seq![]);
            assert(fresh@ == fresh_thread(tid));
        }
        self.threads.push(fresh);
        proof {
            let before = old(self).threads();
            let after = self.threads();
            assert(after =~= before.push(fresh_thread(tid)));
            assert forall|a: int, b: int| 0 <= a < b < after.len() implies (#[trigger] after[a]).tid
                != (#[trigger] after[b]).tid by {
                assert(!is_thread(before, tid, a));
                if b < before.len() {
                    assert(before[a].tid != before[b].tid);
                }
            }
        }
        i
    }

    /// Notes an instant.
    fn note_instant(&mut self, t: u64)
        ensures
            final(self).threads@ == old(self).threads@,
            final(self).session_start == earliest(old(self).session_start, t),
            final(self).last_event == latest(old(self).last_event, t),
    {
        match self.session_start {
            Some(k) => {
                if t < k {
                    self.session_start = Some(t);
                }
            },
            None => {
                self.session_start = Some(t);
            },
        }
        match self.last_event {
            Some(k) => {
                if t > k {
                    self.last_event = Some(t);
                }
            },
            None => {
                self.last_event = Some(t);
            },
        }
    }

    /// Replacing a thread by one with the same id keeps the ids distinct.
    proof fn lemma_update(before: Seq<ThreadView>, mid: Seq<ThreadView>, tid: u32, i: int, f: spec_fn(ThreadView) -> ThreadView)
        requires
            tids_distinct(before),
            is_thread(mid, tid, i),
            ({
                ||| is_thread(before, tid, i) && mid == before
                ||| (forall|k: int| !is_thread(before, tid, k)) && mid == before.push(
                    fresh_thread(tid),
                ) && i == before.len()
            }),
            tids_distinct(mid),
            f(mid[i]).tid == tid,
        ensures
            thread_updated(before, mid.update(i, f(mid[i])), tid, f),
            tids_distinct(mid.update(i, f(mid[i]))),
    {
        let after = mid.update(i, f(mid[i]));
        if is_thread(before, tid, i) && mid == before {
            assert(after == before.update(i, f(before[i])));
        } else {
            assert(after =~= before.push(f(fresh_thread(tid))));
        }
        assert forall|a: int, b: int| 0 <= a < b < after.len() implies (#[trigger] after[a]).tid
            != (#[trigger] after[b]).tid by {
            assert(mid[a].tid != mid[b].tid);
        }
    }

    /// Records one stack sample of the thread `tid`.
    pub fn record_pet_sample(
        &mut self,
        tid: u32,
        timestamp_ns: u64,
        stack: &[u64],
        kernel_stack: &[u64],
        pmc: PmuSample,
    )
        requires
            old(self).wf(),
        ensures
            final(self).wf(),
            thread_updated(
                old(self).threads(),
                final(self).threads(),
                tid,
                |t: ThreadView|
                    ThreadView {
                        pets: t.pets.push(
                            PetView { timestamp_ns, stack: stack@, kernel_stack: kernel_stack@, pmc },
                        ),
                        ..t
                    },
            ),
            final(self).start() == earliest(old(self).start(), timestamp_ns),
            final(self).last() == latest(old(self).last(), timestamp_ns),
    {
        let ghost f = |t: ThreadView|
            ThreadView {
                pets: t.pets.push(
                    PetView { timestamp_ns, stack: stack@, kernel_stack: kernel_stack@, pmc },
                ),
                ..t
            };
        let i: usize = self.thread_slot(tid);
        self.note_instant(timestamp_ns);
        let ghost mid = self.threads();
        let ghost held = self.threads@;
        let sample = PetSample {
            timestamp_ns,
            stack: vstd::slice::slice_to_vec(stack),
            kernel_stack: vstd::slice::slice_to_vec(kernel_stack),
            pmc,
        };
        assert(sample.stack@ =~= stack@);
        assert(sample.kernel_stack@ =~= kernel_stack@);
        let thread = &mut self.threads[i];
        thread.pet_samples.push(sample);
        proof {
            let now = self.threads@[i as int];
            assert(pet_views(now.pet_samples@) =~= mid[i as int].pets.push(sample@));
            assert(self.threads() =~= mid.update(i as int, f(mid[i as int])));
            Self::lemma_update(old(self).threads(), mid, tid, i as int, f);
        }
    }

    /// Records the result of one probe, under the thread that it names.
    pub fn record_probe_result(&mut self, record: ProbeResultRecord)
        requires
            old(self).wf(),
        ensures
            final(self).wf(),
            thread_updated(
                old(self).threads(),
                final(self).threads(),
                record.tid,
                |t: ThreadView| ThreadView { probes: t.probes.push(record@), ..t },
            ),
            final(self).start() == old(self).start(),
            final(self).last() == old(self).last(),
    {
        let ghost f = |t: ThreadView| ThreadView { probes: t.probes.push(record@), ..t };
        let tid: u32 = record.tid;
        let i: usize = self.thread_slot(tid);
        let ghost mid = self.threads();
        let thread = &mut self.threads[i];
        thread.probe_results.push(record);
        proof {
            let now = self.threads@[i as int];
            assert(probe_views(now.probe_results@) =~= mid[i as int].probes.push(record@));
            assert(self.threads() =~= mid.update(i as int, f(mid[i as int])));
            Self::lemma_update(old(self).threads(), mid, tid, i as int, f);
        }
    }

    /// Records one stretch of time that the thread `tid` spent on or off the CPU.
    pub fn record_interval(&mut self, tid: u32, start_ns: u64, end_ns: u64, kind: IntervalKind)
        requires
            old(self).wf(),
        ensures
            final(self).wf(),
            thread_updated(
                old(self).threads(),
                final(self).threads(),
                tid,
                |t: ThreadView|
                    ThreadView {
                        intervals: t.intervals.push(IntervalView { start_ns, end_ns, kind: kind@ }),
                        ..t
                    },
            ),
            final(self).start() == earliest(old(self).start(), start_ns),
            final(self).last() == latest(
                latest(old(self).last(), start_ns),
                end_ns,
            ),
    {
        let ghost f = |t: ThreadView|
            ThreadView {
                intervals: t.intervals.push(IntervalView { start_ns, end_ns, kind: kind@ }),
                ..t
            };
        let i: usize = self.thread_slot(tid);
        self.note_instant(start_ns);
        if end_ns > start_ns {
            self.note_instant(end_ns);
        }
        let ghost mid = self.threads();
        let record = IntervalRecord { start_ns, end_ns, kind };
        let thread = &mut self.threads[i];
        thread.intervals.push(record);
        proof {
            let now = self.threads@[i as int];
            assert(interval_views(now.intervals@) =~= mid[i as int].intervals.push(record@));
            assert(self.threads() =~= mid.update(i as int, f(mid[i as int])));
            Self::lemma_update(old(self).threads(), mid, tid, i as int, f);
        }
    }

    /// Names the thread `tid`.
    pub fn set_thread_name(&mut self, tid: u32, name: String)
        requires
            old(self).wf(),
        ensures
            final(self).wf(),
            thread_updated(
                old(self).threads(),
                final(self).threads(),
                tid,
                |t: ThreadView| ThreadView { name: Some(name@), ..t },
            ),
            final(self).start() == old(self).start(),
            final(self).last() == old(self).last(),
    {
        let ghost f = |t: ThreadView| ThreadView { name: Some(name@), ..t };
        let i: usize = self.thread_slot(tid);
        let ghost mid = self.threads();
        let thread = &mut self.threads[i];
        thread.name = Some(name);
        proof {
            assert(self.threads() =~= mid.update(i as int, f(mid[i as int])));
            Self::lemma_update(old(self).threads(), mid, tid, i as int, f);
        }
    }
}

/// The law of threads: what is recorded of one thread changes that thread alone. Every other one
/// stays as it was and where it was, and none is lost; a thread that is new comes last.
pub proof fn only_the_thread_changes(
    before: Seq<ThreadView>,
    after: Seq<ThreadView>,
    tid: u32,
    f: spec_fn(ThreadView) -> ThreadView,
    i: int,
)
    requires
        tids_distinct(before),
        thread_updated(before, after, tid, f),
        0 <= i < before.len(),
    ensures
        before[i].tid != tid ==> 0 <= i < after.len() && after[i] == before[i],
        before[i].tid == tid ==> after.len() == before.len() && after[i] == f(before[i]),
        before.len() <= after.len() <= before.len() + 1,
        after.len() == before.len() + 1 ==> after.last() == f(fresh_thread(tid)),
        after.len() == before.len() ==> exists|k: int|
            0 <= k < before.len() && (#[trigger] before[k]).tid == tid,
{
    if exists|k: int| #[trigger] is_thread(before, tid, k) && after == before.update(
        k,
        f(before[k]),
    ) {
        let k = choose|k: int| #[trigger]
            is_thread(before, tid, k) && after == before.update(k, f(before[k]));
        assert(before[k].tid == tid);
        if i < k {
            assert(before[i].tid != before[k].tid);
        } else if k < i {
            assert(before[k].tid != before[i].tid);
        }
    } else {
        assert(!is_thread(before, tid, i));
    }
}

/// The law of new threads: a thread that nothing was known of holds what is recorded and nothing else.
pub proof fn new_threads_start_fresh(
    before: Seq<ThreadView>,
    after: Seq<ThreadView>,
    tid: u32,
    f: spec_fn(ThreadView) -> ThreadView,
)
    requires
        thread_updated(before, after, tid, f),
        forall|k: int| 0 <= k < before.len() ==> (#[trigger] before[k]).tid != tid,
    ensures
        after.len() == before.len() + 1,
        after.drop_last() == before,
        after.last() == f(
            ThreadView { tid, name: None, pets: seq![], probes: seq![], intervals: seq![] },
        ),
{
    assert forall|k: int| !is_thread(before, tid, k) by {
        if 0 <= k < before.len() {
            assert(before[k].tid != tid);
        }
    }
    assert(after.drop_last() =~= before);
}

/// The law of the session's ends: its start is the least and its end the greatest of the instants
/// that were noted, in whatever order they came.
pub proof fn ends_hold_every_instant(known: Option<u64>, a: u64, b: u64)
    ensures
        earliest(known, a) is Some && earliest(known, a)->0 <= a,
        latest(known, a) is Some && latest(known, a)->0 >= a,
        known matches Some(k) ==> {
            &&& earliest(known, a)->0 <= k
            &&& latest(known, a)->0 >= k
            &&& earliest(known, a)->0 == k || earliest(known, a)->0 == a
            &&& latest(known, a)->0 == k || latest(known, a)->0 == a
        },
        known is None ==> earliest(known, a) == Some(a) && latest(known, a) == Some(a),
        earliest(earliest(known, a), b) == earliest(earliest(known, b), a),
        latest(latest(known, a), b) == latest(latest(known, b), a),
{
}

} // verus!
