//! Where the time of a probe went, for one probe and over many.
use vstd::prelude::*;

use crate::aggregator::ProbeTiming;
use crate::probe_match::{
    elapsed_ns, elapsed_ns_if_set, elapsed_ticks_to_ns, elapsed_ticks_to_ns_if_set,
    plain_ticks_are_nanoseconds, Timebase,
};
use crate::sample_sink::ProbeQueueStats;
use crate::sums::{as_fits, sum_of};

verus! {

/// The instants of one probe in ticks, and the time that each phase took.
#[derive(Clone, Copy, Debug, PartialEq, Eq, Structural)]
pub struct ProbeTimingBreakdown {
    pub kperf_ts_ticks: u64,
    pub staxd_read_started_ticks: u64,
    pub staxd_drained_ticks: u64,
    pub staxd_queued_for_send_ticks: u64,
    pub staxd_send_started_ticks: u64,
    pub client_received_ticks: u64,
    pub enqueued_ticks: u64,
    pub worker_started_ticks: u64,
    pub thread_lookup_done_ticks: u64,
    pub state_done_ticks: u64,
    pub resume_done_ticks: u64,
    pub walk_done_ticks: u64,
    pub kperf_to_enqueue_ns: u64,
    pub kperf_to_staxd_read_ns: u64,
    pub kperf_to_staxd_drain_ns: u64,
    pub staxd_read_ns: u64,
    pub staxd_drain_to_send_ns: u64,
    pub staxd_drain_to_queue_ns: u64,
    pub staxd_queue_wait_ns: u64,
    pub staxd_send_to_client_recv_ns: u64,
    pub client_recv_to_enqueue_ns: u64,
    pub queue_wait_ns: u64,
    pub lookup_ns: u64,
    pub suspend_state_ns: u64,
    pub resume_ns: u64,
    pub walk_ns: u64,
    pub probe_total_ns: u64,
}

/// The breakdown of a probe that belongs to the sample at `kperf_ts`. Phases that
/// start or end at an instant which need not have been taken last no time then.
pub open spec fn timing_breakdown(tb: Timebase, t: ProbeTiming, kperf_ts: u64) -> ProbeTimingBreakdown {
    ProbeTimingBreakdown {
        kperf_ts_ticks: kperf_ts,
        staxd_read_started_ticks: t.staxd_read_started,
        staxd_drained_ticks: t.staxd_drained,
        staxd_queued_for_send_ticks: t.staxd_queued_for_send,
        staxd_send_started_ticks: t.staxd_send_started,
        client_received_ticks: t.client_received,
        enqueued_ticks: t.enqueued,
        worker_started_ticks: t.worker_started,
        thread_lookup_done_ticks: t.thread_lookup_done,
        state_done_ticks: t.state_done,
        resume_done_ticks: t.resume_done,
        walk_done_ticks: t.walk_done,
        kperf_to_enqueue_ns: elapsed_ns(tb, t.enqueued, kperf_ts),
        kperf_to_staxd_read_ns: elapsed_ns_if_set(tb, t.staxd_read_started, kperf_ts),
        kperf_to_staxd_drain_ns: elapsed_ns_if_set(tb, t.staxd_drained, kperf_ts),
        staxd_read_ns: elapsed_ns_if_set(tb, t.staxd_drained, t.staxd_read_started),
        staxd_drain_to_send_ns: elapsed_ns_if_set(tb, t.staxd_send_started, t.staxd_drained),
        staxd_drain_to_queue_ns: elapsed_ns_if_set(tb, t.staxd_queued_for_send, t.staxd_drained),
        staxd_queue_wait_ns: elapsed_ns_if_set(tb, t.staxd_send_started, t.staxd_queued_for_send),
        staxd_send_to_client_recv_ns: elapsed_ns_if_set(tb, t.client_received, t.staxd_send_started),
        client_recv_to_enqueue_ns: elapsed_ns_if_set(tb, t.enqueued, t.client_received),
        queue_wait_ns: elapsed_ns(tb, t.worker_started, t.enqueued),
        lookup_ns: elapsed_ns(tb, t.thread_lookup_done, t.worker_started),
        suspend_state_ns: elapsed_ns(tb, t.state_done, t.thread_lookup_done),
        resume_ns: elapsed_ns(tb, t.resume_done, t.state_done),
        walk_ns: elapsed_ns(tb, t.walk_done, t.resume_done),
        probe_total_ns: elapsed_ns(tb, t.walk_done, t.worker_started),
    }
}

/// The breakdown of a probe that belongs to the sample at `kperf_ts`.
pub fn probe_timing_breakdown(tb: Timebase, t: &ProbeTiming, kperf_ts: u64) -> (b: ProbeTimingBreakdown)
    ensures
        b == timing_breakdown(tb, *t, kperf_ts),
{
    ProbeTimingBreakdown {
        kperf_ts_ticks: kperf_ts,
        staxd_read_started_ticks: t.staxd_read_started,
        staxd_drained_ticks: t.staxd_drained,
        staxd_queued_for_send_ticks: t.staxd_queued_for_send,
        staxd_send_started_ticks: t.staxd_send_started,
        client_received_ticks: t.client_received,
        enqueued_ticks: t.enqueued,
        worker_started_ticks: t.worker_started,
        thread_lookup_done_ticks: t.thread_lookup_done,
        state_done_ticks: t.state_done,
        resume_done_ticks: t.resume_done,
        walk_done_ticks: t.walk_done,
        kperf_to_enqueue_ns: elapsed_ticks_to_ns(tb, t.enqueued, kperf_ts),
        kperf_to_staxd_read_ns: elapsed_ticks_to_ns_if_set(tb, t.staxd_read_started, kperf_ts),
        kperf_to_staxd_drain_ns: elapsed_ticks_to_ns_if_set(tb, t.staxd_drained, kperf_ts),
        staxd_read_ns: elapsed_ticks_to_ns_if_set(tb, t.staxd_drained, t.staxd_read_started),
        staxd_drain_to_send_ns: elapsed_ticks_to_ns_if_set(tb, t.staxd_send_started, t.staxd_drained),
        staxd_drain_to_queue_ns: elapsed_ticks_to_ns_if_set(tb, t.staxd_queued_for_send, t.staxd_drained),
        staxd_queue_wait_ns: elapsed_ticks_to_ns_if_set(tb, t.staxd_send_started, t.staxd_queued_for_send),
        staxd_send_to_client_recv_ns: elapsed_ticks_to_ns_if_set(tb, t.client_received, t.staxd_send_started),
        client_recv_to_enqueue_ns: elapsed_ticks_to_ns_if_set(tb, t.enqueued, t.client_received),
        queue_wait_ns: elapsed_ticks_to_ns(tb, t.worker_started, t.enqueued),
        lookup_ns: elapsed_ticks_to_ns(tb, t.thread_lookup_done, t.worker_started),
        suspend_state_ns: elapsed_ticks_to_ns(tb, t.state_done, t.thread_lookup_done),
        resume_ns: elapsed_ticks_to_ns(tb, t.resume_done, t.state_done),
        walk_ns: elapsed_ticks_to_ns(tb, t.walk_done, t.resume_done),
        probe_total_ns: elapsed_ticks_to_ns(tb, t.walk_done, t.worker_started),
    }
}

/// Sum and maximum of one phase over many probes.
#[derive(Clone, Copy, Debug, PartialEq, Eq, Structural)]
pub struct PhaseAccum {
    pub sum: u128,
    pub max: u64,
}

impl PhaseAccum {
    /// The accumulator with one more duration.
    pub open spec fn plus(self, ns: u64) -> PhaseAccum {
        PhaseAccum {
            sum: if self.sum + ns > u128::MAX {
                u128::MAX
            } else {
                (self.sum + ns) as u128
            },
            max: if ns > self.max {
                ns
            } else {
                self.max
            },
        }
    }

    /// Adds one duration.
    fn add_ns(&self, ns: u64) -> (r: PhaseAccum)
        ensures
            r == self.plus(ns),
    {
        PhaseAccum {
            sum: self.sum.saturating_add(ns as u128),
            max: if ns > self.max {
                ns
            } else {
                self.max
            },
        }
    }

    /// The average over `samples` durations, rounded down and at most what fits;
    /// zero over none.
    pub open spec fn average(self, samples: u64) -> u64 {
        if samples == 0 {
            0
        } else if self.sum / samples as u128 > u64::MAX {
            u64::MAX
        } else {
            (self.sum / samples as u128) as u64
        }
    }

    /// The average over `samples` durations.
    fn average_ns(&self, samples: u64) -> (r: u64)
        ensures
            r == self.average(samples),
    {
        if samples == 0 {
            0
        } else {
            let q: u128 = self.sum / samples as u128;
            if q > u64::MAX as u128 {
                u64::MAX
            } else {
                q as u64
            }
        }
    }
}

/// Sums and maxima of every phase over many probes.
#[derive(Clone, Copy, Debug, PartialEq, Eq, Structural)]
pub struct ProbeTimingAccum {
    pub samples: u64,
    pub kperf_to_enqueue: PhaseAccum,
    pub kperf_to_staxd_read: PhaseAccum,
    pub kperf_to_staxd_drain: PhaseAccum,
    pub staxd_read: PhaseAccum,
    pub staxd_drain_to_send: PhaseAccum,
    pub staxd_drain_to_queue: PhaseAccum,
    pub staxd_queue_wait: PhaseAccum,
    pub staxd_send_to_client_recv: PhaseAccum,
    pub client_recv_to_enqueue: PhaseAccum,
    pub queue_wait: PhaseAccum,
    pub lookup: PhaseAccum,
    pub suspend_state: PhaseAccum,
    pub resume: PhaseAccum,
    pub walk: PhaseAccum,
    pub probe_total: PhaseAccum,
    pub coalesced_requests: u64,
    pub max_worker_batch_len: u32,
}

/// `a + b`, at most what fits.
pub open spec fn sat_add(a: u64, b: u64) -> u64 {
    if a + b > u64::MAX {
        u64::MAX
    } else {
        (a + b) as u64
    }
}

impl Default for ProbeTimingAccum {
    fn default() -> (r: Self)
        ensures
            r == ProbeTimingAccum::none(),
    {
        let zero = PhaseAccum { sum: 0, max: 0 };
        ProbeTimingAccum {
            samples: 0,
            kperf_to_enqueue: zero,
            kperf_to_staxd_read: zero,
            kperf_to_staxd_drain: zero,
            staxd_read: zero,
            staxd_drain_to_send: zero,
            staxd_drain_to_queue: zero,
            staxd_queue_wait: zero,
            staxd_send_to_client_recv: zero,
            client_recv_to_enqueue: zero,
            queue_wait: zero,
            lookup: zero,
            suspend_state: zero,
            resume: zero,
            walk: zero,
            probe_total: zero,
            coalesced_requests: 0,
            max_worker_batch_len: 0,
        }
    }
}

impl ProbeTimingAccum {
    /// The accumulator of no probe.
    pub open spec fn none() -> ProbeTimingAccum {
        let zero = PhaseAccum { sum: 0, max: 0 };
        ProbeTimingAccum {
            samples: 0,
            kperf_to_enqueue: zero,
            kperf_to_staxd_read: zero,
            kperf_to_staxd_drain: zero,
            staxd_read: zero,
            staxd_drain_to_send: zero,
            staxd_drain_to_queue: zero,
            staxd_queue_wait: zero,
            staxd_send_to_client_recv: zero,
            client_recv_to_enqueue: zero,
            queue_wait: zero,
            lookup: zero,
            suspend_state: zero,
            resume: zero,
            walk: zero,
            probe_total: zero,
            coalesced_requests: 0,
            max_worker_batch_len: 0,
        }
    }

    /// The accumulator with one more probe.
    pub open spec fn plus(self, t: ProbeTimingBreakdown, q: ProbeQueueStats) -> ProbeTimingAccum {
        ProbeTimingAccum {
            samples: sat_add(self.samples, 1),
            kperf_to_enqueue: self.kperf_to_enqueue.plus(t.kperf_to_enqueue_ns),
            kperf_to_staxd_read: self.kperf_to_staxd_read.plus(t.kperf_to_staxd_read_ns),
            kperf_to_staxd_drain: self.kperf_to_staxd_drain.plus(t.kperf_to_staxd_drain_ns),
            staxd_read: self.staxd_read.plus(t.staxd_read_ns),
            staxd_drain_to_send: self.staxd_drain_to_send.plus(t.staxd_drain_to_send_ns),
            staxd_drain_to_queue: self.staxd_drain_to_queue.plus(t.staxd_drain_to_queue_ns),
            staxd_queue_wait: self.staxd_queue_wait.plus(t.staxd_queue_wait_ns),
            staxd_send_to_client_recv: self.staxd_send_to_client_recv.plus(t.staxd_send_to_client_recv_ns),
            client_recv_to_enqueue: self.client_recv_to_enqueue.plus(t.client_recv_to_enqueue_ns),
            queue_wait: self.queue_wait.plus(t.queue_wait_ns),
            lookup: self.lookup.plus(t.lookup_ns),
            suspend_state: self.suspend_state.plus(t.suspend_state_ns),
            resume: self.resume.plus(t.resume_ns),
            walk: self.walk.plus(t.walk_ns),
            probe_total: self.probe_total.plus(t.probe_total_ns),
            coalesced_requests: sat_add(self.coalesced_requests, q.coalesced_requests),
            max_worker_batch_len: if q.worker_batch_len > self.max_worker_batch_len {
                q.worker_batch_len
            } else {
                self.max_worker_batch_len
            },
        }
    }

    /// Adds one probe.
    pub fn add(&mut self, t: ProbeTimingBreakdown, q: ProbeQueueStats)
        ensures
            *final(self) == old(self).plus(t, q),
    {
        self.samples = self.samples.saturating_add(1);
        self.kperf_to_enqueue = self.kperf_to_enqueue.add_ns(t.kperf_to_enqueue_ns);
        self.kperf_to_staxd_read = self.kperf_to_staxd_read.add_ns(t.kperf_to_staxd_read_ns);
        self.kperf_to_staxd_drain = self.kperf_to_staxd_drain.add_ns(t.kperf_to_staxd_drain_ns);
        self.staxd_read = self.staxd_read.add_ns(t.staxd_read_ns);
        self.staxd_drain_to_send = self.staxd_drain_to_send.add_ns(t.staxd_drain_to_send_ns);
        self.staxd_drain_to_queue = self.staxd_drain_to_queue.add_ns(t.staxd_drain_to_queue_ns);
        self.staxd_queue_wait = self.staxd_queue_wait.add_ns(t.staxd_queue_wait_ns);
        self.staxd_send_to_client_recv = self.staxd_send_to_client_recv.add_ns(t.staxd_send_to_client_recv_ns);
        self.client_recv_to_enqueue = self.client_recv_to_enqueue.add_ns(t.client_recv_to_enqueue_ns);
        self.queue_wait = self.queue_wait.add_ns(t.queue_wait_ns);
        self.lookup = self.lookup.add_ns(t.lookup_ns);
        self.suspend_state = self.suspend_state.add_ns(t.suspend_state_ns);
        self.resume = self.resume.add_ns(t.resume_ns);
        self.walk = self.walk.add_ns(t.walk_ns);
        self.probe_total = self.probe_total.add_ns(t.probe_total_ns);
        self.coalesced_requests = self.coalesced_requests.saturating_add(q.coalesced_requests);
        if q.worker_batch_len > self.max_worker_batch_len {
            self.max_worker_batch_len = q.worker_batch_len;
        }
    }

    /// Averages and maxima of every phase.
    pub open spec fn summary(self) -> ProbeTimingSummary {
        ProbeTimingSummary {
            samples: self.samples,
            avg_kperf_to_enqueue_ns: self.kperf_to_enqueue.average(self.samples),
            max_kperf_to_enqueue_ns: self.kperf_to_enqueue.max,
            avg_kperf_to_staxd_read_ns: self.kperf_to_staxd_read.average(self.samples),
            max_kperf_to_staxd_read_ns: self.kperf_to_staxd_read.max,
            avg_kperf_to_staxd_drain_ns: self.kperf_to_staxd_drain.average(self.samples),
            max_kperf_to_staxd_drain_ns: self.kperf_to_staxd_drain.max,
            avg_staxd_read_ns: self.staxd_read.average(self.samples),
            max_staxd_read_ns: self.staxd_read.max,
            avg_staxd_drain_to_send_ns: self.staxd_drain_to_send.average(self.samples),
            max_staxd_drain_to_send_ns: self.staxd_drain_to_send.max,
            avg_staxd_drain_to_queue_ns: self.staxd_drain_to_queue.average(self.samples),
            max_staxd_drain_to_queue_ns: self.staxd_drain_to_queue.max,
            avg_staxd_queue_wait_ns: self.staxd_queue_wait.average(self.samples),
            max_staxd_queue_wait_ns: self.staxd_queue_wait.max,
            avg_staxd_send_to_client_recv_ns: self.staxd_send_to_client_recv.average(self.samples),
            max_staxd_send_to_client_recv_ns: self.staxd_send_to_client_recv.max,
            avg_client_recv_to_enqueue_ns: self.client_recv_to_enqueue.average(self.samples),
            max_client_recv_to_enqueue_ns: self.client_recv_to_enqueue.max,
            avg_queue_wait_ns: self.queue_wait.average(self.samples),
            max_queue_wait_ns: self.queue_wait.max,
            avg_lookup_ns: self.lookup.average(self.samples),
            max_lookup_ns: self.lookup.max,
            avg_suspend_state_ns: self.suspend_state.average(self.samples),
            max_suspend_state_ns: self.suspend_state.max,
            avg_resume_ns: self.resume.average(self.samples),
            max_resume_ns: self.resume.max,
            avg_walk_ns: self.walk.average(self.samples),
            max_walk_ns: self.walk.max,
            avg_probe_total_ns: self.probe_total.average(self.samples),
            max_probe_total_ns: self.probe_total.max,
            coalesced_requests: self.coalesced_requests,
            max_worker_batch_len: self.max_worker_batch_len,
        }
    }

    /// Averages and maxima of every phase.
    pub fn finish(self) -> (s: ProbeTimingSummary)
        ensures
            s == self.summary(),
    {
        ProbeTimingSummary {
            samples: self.samples,
            avg_kperf_to_enqueue_ns: self.kperf_to_enqueue.average_ns(self.samples),
            max_kperf_to_enqueue_ns: self.kperf_to_enqueue.max,
            avg_kperf_to_staxd_read_ns: self.kperf_to_staxd_read.average_ns(self.samples),
            max_kperf_to_staxd_read_ns: self.kperf_to_staxd_read.max,
            avg_kperf_to_staxd_drain_ns: self.kperf_to_staxd_drain.average_ns(self.samples),
            max_kperf_to_staxd_drain_ns: self.kperf_to_staxd_drain.max,
            avg_staxd_read_ns: self.staxd_read.average_ns(self.samples),
            max_staxd_read_ns: self.staxd_read.max,
            avg_staxd_drain_to_send_ns: self.staxd_drain_to_send.average_ns(self.samples),
            max_staxd_drain_to_send_ns: self.staxd_drain_to_send.max,
            avg_staxd_drain_to_queue_ns: self.staxd_drain_to_queue.average_ns(self.samples),
            max_staxd_drain_to_queue_ns: self.staxd_drain_to_queue.max,
            avg_staxd_queue_wait_ns: self.staxd_queue_wait.average_ns(self.samples),
            max_staxd_queue_wait_ns: self.staxd_queue_wait.max,
            avg_staxd_send_to_client_recv_ns: self.staxd_send_to_client_recv.average_ns(self.samples),
            max_staxd_send_to_client_recv_ns: self.staxd_send_to_client_recv.max,
            avg_client_recv_to_enqueue_ns: self.client_recv_to_enqueue.average_ns(self.samples),
            max_client_recv_to_enqueue_ns: self.client_recv_to_enqueue.max,
            avg_queue_wait_ns: self.queue_wait.average_ns(self.samples),
            max_queue_wait_ns: self.queue_wait.max,
            avg_lookup_ns: self.lookup.average_ns(self.samples),
            max_lookup_ns: self.lookup.max,
            avg_suspend_state_ns: self.suspend_state.average_ns(self.samples),
            max_suspend_state_ns: self.suspend_state.max,
            avg_resume_ns: self.resume.average_ns(self.samples),
            max_resume_ns: self.resume.max,
            avg_walk_ns: self.walk.average_ns(self.samples),
            max_walk_ns: self.walk.max,
            avg_probe_total_ns: self.probe_total.average_ns(self.samples),
            max_probe_total_ns: self.probe_total.max,
            coalesced_requests: self.coalesced_requests,
            max_worker_batch_len: self.max_worker_batch_len,
        }
    }
}

/// Averages and maxima of every phase over many probes.
#[derive(Clone, Copy, Debug, PartialEq, Eq, Structural)]
pub struct ProbeTimingSummary {
    pub samples: u64,
    pub avg_kperf_to_enqueue_ns: u64,
    pub max_kperf_to_enqueue_ns: u64,
    pub avg_kperf_to_staxd_read_ns: u64,
    pub max_kperf_to_staxd_read_ns: u64,
    pub avg_kperf_to_staxd_drain_ns: u64,
    pub max_kperf_to_staxd_drain_ns: u64,
    pub avg_staxd_read_ns: u64,
    pub max_staxd_read_ns: u64,
    pub avg_staxd_drain_to_send_ns: u64,
    pub max_staxd_drain_to_send_ns: u64,
    pub avg_staxd_drain_to_queue_ns: u64,
    pub max_staxd_drain_to_queue_ns: u64,
    pub avg_staxd_queue_wait_ns: u64,
    pub max_staxd_queue_wait_ns: u64,
    pub avg_staxd_send_to_client_recv_ns: u64,
    pub max_staxd_send_to_client_recv_ns: u64,
    pub avg_client_recv_to_enqueue_ns: u64,
    pub max_client_recv_to_enqueue_ns: u64,
    pub avg_queue_wait_ns: u64,
    pub max_queue_wait_ns: u64,
    pub avg_lookup_ns: u64,
    pub max_lookup_ns: u64,
    pub avg_suspend_state_ns: u64,
    pub max_suspend_state_ns: u64,
    pub avg_resume_ns: u64,
    pub max_resume_ns: u64,
    pub avg_walk_ns: u64,
    pub max_walk_ns: u64,
    pub avg_probe_total_ns: u64,
    pub max_probe_total_ns: u64,
    pub coalesced_requests: u64,
    pub max_worker_batch_len: u32,
}

impl PhaseAccum {
    /// No more than the longest duration, so many times over.
    pub open spec fn bounded_over(self, samples: nat) -> bool {
        self.sum <= samples * self.max
    }
}

/// One more duration keeps the bound.
proof fn lemma_phase_bound(p: PhaseAccum, ns: u64, samples: nat)
    requires
        p.bounded_over(samples),
        samples < u64::MAX,
    ensures
        p.plus(ns).bounded_over(samples + 1),
{
    let m = p.plus(ns).max as int;
    let n = samples as int;
    assert(n * p.max <= n * m) by (nonlinear_arith)
        requires
            p.max <= m,
            n >= 0,
    ;
    assert((n + 1) * m == n * m + m) by (nonlinear_arith);
    assert(n * m + m <= u128::MAX) by (nonlinear_arith)
        requires
            0 <= n < u64::MAX,
            0 <= m <= u64::MAX,
    ;
}

/// An average over durations does not exceed the longest of them.
proof fn lemma_average_bound(p: PhaseAccum, samples: u64)
    requires
        p.bounded_over(samples as nat),
    ensures
        p.average(samples) <= p.max,
{
    if samples > 0 {
        let n = samples as int;
        assert(p.sum as int / n <= p.max) by (nonlinear_arith)
            requires
                p.sum <= n * p.max,
                n > 0,
        ;
    }
}

/// The sums over some probes.
pub open spec fn timing_sums(
    ps: Seq<(ProbeTimingBreakdown, ProbeQueueStats)>,
) -> ProbeTimingAccum
    decreases ps.len(),
{
    if ps.len() == 0 {
        ProbeTimingAccum::none()
    } else {
        timing_sums(ps.drop_last()).plus(ps.last().0, ps.last().1)
    }
}

/// The sums over probes are bounded by the longest durations.
proof fn lemma_timing_bounds(ps: Seq<(ProbeTimingBreakdown, ProbeQueueStats)>)
    requires
        ps.len() <= u64::MAX,
    ensures
        timing_sums(ps).samples == ps.len(),
        timing_sums(ps).kperf_to_enqueue.bounded_over(ps.len()),
        timing_sums(ps).kperf_to_staxd_read.bounded_over(ps.len()),
        timing_sums(ps).kperf_to_staxd_drain.bounded_over(ps.len()),
        timing_sums(ps).staxd_read.bounded_over(ps.len()),
        timing_sums(ps).staxd_drain_to_send.bounded_over(ps.len()),
        timing_sums(ps).staxd_drain_to_queue.bounded_over(ps.len()),
        timing_sums(ps).staxd_queue_wait.bounded_over(ps.len()),
        timing_sums(ps).staxd_send_to_client_recv.bounded_over(ps.len()),
        timing_sums(ps).client_recv_to_enqueue.bounded_over(ps.len()),
        timing_sums(ps).queue_wait.bounded_over(ps.len()),
        timing_sums(ps).lookup.bounded_over(ps.len()),
        timing_sums(ps).suspend_state.bounded_over(ps.len()),
        timing_sums(ps).resume.bounded_over(ps.len()),
        timing_sums(ps).walk.bounded_over(ps.len()),
        timing_sums(ps).probe_total.bounded_over(ps.len()),
    decreases ps.len(),
{
    if ps.len() > 0 {
        lemma_timing_bounds(ps.drop_last());
        let a = timing_sums(ps.drop_last());
        let t = ps.last().0;
        let n = ps.drop_last().len();
        lemma_phase_bound(a.kperf_to_enqueue, t.kperf_to_enqueue_ns, n);
        lemma_phase_bound(a.kperf_to_staxd_read, t.kperf_to_staxd_read_ns, n);
        lemma_phase_bound(a.kperf_to_staxd_drain, t.kperf_to_staxd_drain_ns, n);
        lemma_phase_bound(a.staxd_read, t.staxd_read_ns, n);
        lemma_phase_bound(a.staxd_drain_to_send, t.staxd_drain_to_send_ns, n);
        lemma_phase_bound(a.staxd_drain_to_queue, t.staxd_drain_to_queue_ns, n);
        lemma_phase_bound(a.staxd_queue_wait, t.staxd_queue_wait_ns, n);
        lemma_phase_bound(a.staxd_send_to_client_recv, t.staxd_send_to_client_recv_ns, n);
        lemma_phase_bound(a.client_recv_to_enqueue, t.client_recv_to_enqueue_ns, n);
        lemma_phase_bound(a.queue_wait, t.queue_wait_ns, n);
        lemma_phase_bound(a.lookup, t.lookup_ns, n);
        lemma_phase_bound(a.suspend_state, t.suspend_state_ns, n);
        lemma_phase_bound(a.resume, t.resume_ns, n);
        lemma_phase_bound(a.walk, t.walk_ns, n);
        lemma_phase_bound(a.probe_total, t.probe_total_ns, n);
    }
}

/// The law of averages: over as many probes as can be counted, none exceeds its
/// maximum.
pub proof fn averages_stay_below_maxima(ps: Seq<(ProbeTimingBreakdown, ProbeQueueStats)>)
    requires
        ps.len() <= u64::MAX,
    ensures
        ({
            let s = timing_sums(ps).summary();
            &&& s.samples == ps.len()
            &&& s.avg_kperf_to_enqueue_ns <= s.max_kperf_to_enqueue_ns
            &&& s.avg_kperf_to_staxd_read_ns <= s.max_kperf_to_staxd_read_ns
            &&& s.avg_kperf_to_staxd_drain_ns <= s.max_kperf_to_staxd_drain_ns
            &&& s.avg_staxd_read_ns <= s.max_staxd_read_ns
            &&& s.avg_staxd_drain_to_send_ns <= s.max_staxd_drain_to_send_ns
            &&& s.avg_staxd_drain_to_queue_ns <= s.max_staxd_drain_to_queue_ns
            &&& s.avg_staxd_queue_wait_ns <= s.max_staxd_queue_wait_ns
            &&& s.avg_staxd_send_to_client_recv_ns <= s.max_staxd_send_to_client_recv_ns
            &&& s.avg_client_recv_to_enqueue_ns <= s.max_client_recv_to_enqueue_ns
            &&& s.avg_queue_wait_ns <= s.max_queue_wait_ns
            &&& s.avg_lookup_ns <= s.max_lookup_ns
            &&& s.avg_suspend_state_ns <= s.max_suspend_state_ns
            &&& s.avg_resume_ns <= s.max_resume_ns
            &&& s.avg_walk_ns <= s.max_walk_ns
            &&& s.avg_probe_total_ns <= s.max_probe_total_ns
        }),
{
    lemma_timing_bounds(ps);
    let a = timing_sums(ps);
    let n = a.samples;
    lemma_average_bound(a.kperf_to_enqueue, n);
    lemma_average_bound(a.kperf_to_staxd_read, n);
    lemma_average_bound(a.kperf_to_staxd_drain, n);
    lemma_average_bound(a.staxd_read, n);
    lemma_average_bound(a.staxd_drain_to_send, n);
    lemma_average_bound(a.staxd_drain_to_queue, n);
    lemma_average_bound(a.staxd_queue_wait, n);
    lemma_average_bound(a.staxd_send_to_client_recv, n);
    lemma_average_bound(a.client_recv_to_enqueue, n);
    lemma_average_bound(a.queue_wait, n);
    lemma_average_bound(a.lookup, n);
    lemma_average_bound(a.suspend_state, n);
    lemma_average_bound(a.resume, n);
    lemma_average_bound(a.walk, n);
    lemma_average_bound(a.probe_total, n);
}

/// The instants of a probe were all taken, one behind the other.
pub open spec fn in_sequence(t: ProbeTiming, kperf_ts: u64) -> bool {
    &&& 0 < kperf_ts <= t.staxd_read_started <= t.staxd_drained <= t.staxd_queued_for_send
    &&& t.staxd_queued_for_send <= t.staxd_send_started <= t.client_received <= t.enqueued
    &&& t.enqueued <= t.worker_started <= t.thread_lookup_done <= t.state_done
    &&& t.state_done <= t.resume_done <= t.walk_done
}

/// The law of phases: with a clock that ticks in nanoseconds the phases of a probe add up. The way of
/// the sample to the queue, the wait there and the work on the probe are all of the time from the
/// sample to the end of the walk; and each of these is the sum of its parts.
pub proof fn phases_add_up(tb: Timebase, t: ProbeTiming, kperf_ts: u64)
    requires
        tb.numer == 1,
        tb.denom == 1,
        in_sequence(t, kperf_ts),
    ensures
        ({
            let b = timing_breakdown(tb, t, kperf_ts);
            &&& b.kperf_to_enqueue_ns + b.queue_wait_ns + b.probe_total_ns == t.walk_done - kperf_ts
            &&& b.lookup_ns + b.suspend_state_ns + b.resume_ns + b.walk_ns == b.probe_total_ns
            &&& b.kperf_to_staxd_drain_ns + b.staxd_drain_to_send_ns
                + b.staxd_send_to_client_recv_ns + b.client_recv_to_enqueue_ns
                == b.kperf_to_enqueue_ns
            &&& b.kperf_to_staxd_read_ns + b.staxd_read_ns == b.kperf_to_staxd_drain_ns
            &&& b.staxd_drain_to_queue_ns + b.staxd_queue_wait_ns == b.staxd_drain_to_send_ns
            &&& b.lookup_ns == t.thread_lookup_done - t.worker_started
            &&& b.suspend_state_ns == t.state_done - t.thread_lookup_done
            &&& b.resume_ns == t.resume_done - t.state_done
            &&& b.staxd_read_ns == t.staxd_drained - t.staxd_read_started
            &&& b.staxd_queue_wait_ns == t.staxd_send_started - t.staxd_queued_for_send
            &&& b.client_recv_to_enqueue_ns == t.enqueued - t.client_received
            &&& b.queue_wait_ns == t.worker_started - t.enqueued
        }),
{
    plain_ticks_are_nanoseconds(tb, t.enqueued, kperf_ts);
    plain_ticks_are_nanoseconds(tb, t.staxd_read_started, kperf_ts);
    plain_ticks_are_nanoseconds(tb, t.staxd_drained, kperf_ts);
    plain_ticks_are_nanoseconds(tb, t.staxd_drained, t.staxd_read_started);
    plain_ticks_are_nanoseconds(tb, t.staxd_send_started, t.staxd_drained);
    plain_ticks_are_nanoseconds(tb, t.staxd_queued_for_send, t.staxd_drained);
    plain_ticks_are_nanoseconds(tb, t.staxd_send_started, t.staxd_queued_for_send);
    plain_ticks_are_nanoseconds(tb, t.client_received, t.staxd_send_started);
    plain_ticks_are_nanoseconds(tb, t.enqueued, t.client_received);
    plain_ticks_are_nanoseconds(tb, t.worker_started, t.enqueued);
    plain_ticks_are_nanoseconds(tb, t.thread_lookup_done, t.worker_started);
    plain_ticks_are_nanoseconds(tb, t.state_done, t.thread_lookup_done);
    plain_ticks_are_nanoseconds(tb, t.resume_done, t.state_done);
    plain_ticks_are_nanoseconds(tb, t.walk_done, t.resume_done);
    plain_ticks_are_nanoseconds(tb, t.walk_done, t.worker_started);
}

/// The durations of one phase over some probes.
pub open spec fn over_all(ns: Seq<u64>) -> PhaseAccum
    decreases ns.len(),
{
    if ns.len() == 0 {
        PhaseAccum { sum: 0, max: 0 }
    } else {
        over_all(ns.drop_last()).plus(ns.last())
    }
}

/// The law of one phase: its sum is that of all durations, its maximum is the longest of them, and its
/// average lies between the shortest and the longest.
pub proof fn phases_are_summed_up(ns: Seq<u64>)
    requires
        ns.len() <= u64::MAX,
    ensures
        over_all(ns).sum == sum_of(ns.map_values(|n: u64| n as int)),
        sum_of(ns.map_values(|n: u64| n as int)) <= ns.len() * u64::MAX,
        forall|i: int| 0 <= i < ns.len() ==> #[trigger] ns[i] <= over_all(ns).max,
        ns.len() > 0 ==> ns.contains(over_all(ns).max),
    decreases ns.len(),
{
    if ns.len() > 0 {
        let init = ns.drop_last();
        phases_are_summed_up(init);
        assert(ns.map_values(|n: u64| n as int).drop_last() =~= init.map_values(|n: u64| n as int));
        assert((ns.len() - 1) * u64::MAX + u64::MAX == ns.len() * u64::MAX) by (nonlinear_arith);
        assert(ns.len() * u64::MAX <= u64::MAX * u64::MAX) by (nonlinear_arith)
            requires
                ns.len() <= u64::MAX,
        ;
        assert forall|i: int| 0 <= i < ns.len() implies #[trigger] ns[i] <= over_all(ns).max by {
            if i < init.len() {
                assert(init[i] == ns[i]);
            }
        }
        if over_all(ns).max == ns.last() {
            assert(ns[ns.len() - 1] == over_all(ns).max);
        } else if init.len() > 0 {
            let k = choose|k: int| 0 <= k < init.len() && init[k] == over_all(init).max;
            assert(ns[k] == over_all(ns).max);
        }
    }
}

/// The law of summaries: every phase is summed up over its own durations, and so are the requests that
/// were merged.
pub proof fn every_phase_is_summed_up(ps: Seq<(ProbeTimingBreakdown, ProbeQueueStats)>)
    requires
        ps.len() <= u64::MAX,
    ensures
        timing_sums(ps).samples == ps.len(),
        timing_sums(ps).kperf_to_enqueue == over_all(ps.map_values(|p: (ProbeTimingBreakdown, ProbeQueueStats)| p.0.kperf_to_enqueue_ns)),
        timing_sums(ps).kperf_to_staxd_read == over_all(ps.map_values(|p: (ProbeTimingBreakdown, ProbeQueueStats)| p.0.kperf_to_staxd_read_ns)),
        timing_sums(ps).kperf_to_staxd_drain == over_all(ps.map_values(|p: (ProbeTimingBreakdown, ProbeQueueStats)| p.0.kperf_to_staxd_drain_ns)),
        timing_sums(ps).staxd_read == over_all(ps.map_values(|p: (ProbeTimingBreakdown, ProbeQueueStats)| p.0.staxd_read_ns)),
        timing_sums(ps).staxd_drain_to_send == over_all(ps.map_values(|p: (ProbeTimingBreakdown, ProbeQueueStats)| p.0.staxd_drain_to_send_ns)),
        timing_sums(ps).staxd_drain_to_queue == over_all(ps.map_values(|p: (ProbeTimingBreakdown, ProbeQueueStats)| p.0.staxd_drain_to_queue_ns)),
        timing_sums(ps).staxd_queue_wait == over_all(ps.map_values(|p: (ProbeTimingBreakdown, ProbeQueueStats)| p.0.staxd_queue_wait_ns)),
        timing_sums(ps).staxd_send_to_client_recv == over_all(ps.map_values(|p: (ProbeTimingBreakdown, ProbeQueueStats)| p.0.staxd_send_to_client_recv_ns)),
        timing_sums(ps).client_recv_to_enqueue == over_all(ps.map_values(|p: (ProbeTimingBreakdown, ProbeQueueStats)| p.0.client_recv_to_enqueue_ns)),
        timing_sums(ps).queue_wait == over_all(ps.map_values(|p: (ProbeTimingBreakdown, ProbeQueueStats)| p.0.queue_wait_ns)),
        timing_sums(ps).lookup == over_all(ps.map_values(|p: (ProbeTimingBreakdown, ProbeQueueStats)| p.0.lookup_ns)),
        timing_sums(ps).suspend_state == over_all(ps.map_values(|p: (ProbeTimingBreakdown, ProbeQueueStats)| p.0.suspend_state_ns)),
        timing_sums(ps).resume == over_all(ps.map_values(|p: (ProbeTimingBreakdown, ProbeQueueStats)| p.0.resume_ns)),
        timing_sums(ps).walk == over_all(ps.map_values(|p: (ProbeTimingBreakdown, ProbeQueueStats)| p.0.walk_ns)),
        timing_sums(ps).probe_total == over_all(ps.map_values(|p: (ProbeTimingBreakdown, ProbeQueueStats)| p.0.probe_total_ns)),
        timing_sums(ps).coalesced_requests == as_fits(
            sum_of(ps.map_values(|p: (ProbeTimingBreakdown, ProbeQueueStats)| p.1.coalesced_requests as int)),
        ),
        sum_of(ps.map_values(|p: (ProbeTimingBreakdown, ProbeQueueStats)| p.1.coalesced_requests as int)) >= 0,
    decreases ps.len(),
{
    if ps.len() > 0 {
        let init = ps.drop_last();
        every_phase_is_summed_up(init);
        assert(ps.map_values(|p: (ProbeTimingBreakdown, ProbeQueueStats)| p.0.kperf_to_enqueue_ns).drop_last() =~= init.map_values(|p: (ProbeTimingBreakdown, ProbeQueueStats)| p.0.kperf_to_enqueue_ns));
        assert(ps.map_values(|p: (ProbeTimingBreakdown, ProbeQueueStats)| p.0.kperf_to_staxd_read_ns).drop_last() =~= init.map_values(|p: (ProbeTimingBreakdown, ProbeQueueStats)| p.0.kperf_to_staxd_read_ns));
        assert(ps.map_values(|p: (ProbeTimingBreakdown, ProbeQueueStats)| p.0.kperf_to_staxd_drain_ns).drop_last() =~= init.map_values(|p: (ProbeTimingBreakdown, ProbeQueueStats)| p.0.kperf_to_staxd_drain_ns));
        assert(ps.map_values(|p: (ProbeTimingBreakdown, ProbeQueueStats)| p.0.staxd_read_ns).drop_last() =~= init.map_values(|p: (ProbeTimingBreakdown, ProbeQueueStats)| p.0.staxd_read_ns));
        assert(ps.map_values(|p: (ProbeTimingBreakdown, ProbeQueueStats)| p.0.staxd_drain_to_send_ns).drop_last() =~= init.map_values(|p: (ProbeTimingBreakdown, ProbeQueueStats)| p.0.staxd_drain_to_send_ns));
        assert(ps.map_values(|p: (ProbeTimingBreakdown, ProbeQueueStats)| p.0.staxd_drain_to_queue_ns).drop_last() =~= init.map_values(|p: (ProbeTimingBreakdown, ProbeQueueStats)| p.0.staxd_drain_to_queue_ns));
        assert(ps.map_values(|p: (ProbeTimingBreakdown, ProbeQueueStats)| p.0.staxd_queue_wait_ns).drop_last() =~= init.map_values(|p: (ProbeTimingBreakdown, ProbeQueueStats)| p.0.staxd_queue_wait_ns));
        assert(ps.map_values(|p: (ProbeTimingBreakdown, ProbeQueueStats)| p.0.staxd_send_to_client_recv_ns).drop_last() =~= init.map_values(|p: (ProbeTimingBreakdown, ProbeQueueStats)| p.0.staxd_send_to_client_recv_ns));
        assert(ps.map_values(|p: (ProbeTimingBreakdown, ProbeQueueStats)| p.0.client_recv_to_enqueue_ns).drop_last() =~= init.map_values(|p: (ProbeTimingBreakdown, ProbeQueueStats)| p.0.client_recv_to_enqueue_ns));
        assert(ps.map_values(|p: (ProbeTimingBreakdown, ProbeQueueStats)| p.0.queue_wait_ns).drop_last() =~= init.map_values(|p: (ProbeTimingBreakdown, ProbeQueueStats)| p.0.queue_wait_ns));
        assert(ps.map_values(|p: (ProbeTimingBreakdown, ProbeQueueStats)| p.0.lookup_ns).drop_last() =~= init.map_values(|p: (ProbeTimingBreakdown, ProbeQueueStats)| p.0.lookup_ns));
        assert(ps.map_values(|p: (ProbeTimingBreakdown, ProbeQueueStats)| p.0.suspend_state_ns).drop_last() =~= init.map_values(|p: (ProbeTimingBreakdown, ProbeQueueStats)| p.0.suspend_state_ns));
        assert(ps.map_values(|p: (ProbeTimingBreakdown, ProbeQueueStats)| p.0.resume_ns).drop_last() =~= init.map_values(|p: (ProbeTimingBreakdown, ProbeQueueStats)| p.0.resume_ns));
        assert(ps.map_values(|p: (ProbeTimingBreakdown, ProbeQueueStats)| p.0.walk_ns).drop_last() =~= init.map_values(|p: (ProbeTimingBreakdown, ProbeQueueStats)| p.0.walk_ns));
        assert(ps.map_values(|p: (ProbeTimingBreakdown, ProbeQueueStats)| p.0.probe_total_ns).drop_last() =~= init.map_values(|p: (ProbeTimingBreakdown, ProbeQueueStats)| p.0.probe_total_ns));
        assert(ps.map_values(|p: (ProbeTimingBreakdown, ProbeQueueStats)| p.1.coalesced_requests as int).drop_last() =~= init.map_values(|p: (ProbeTimingBreakdown, ProbeQueueStats)| p.1.coalesced_requests as int));
    }
}

/// The law of averages: one is the sum divided by how many there are, rounded down.
pub proof fn averages_are_quotients(p: PhaseAccum, n: u64)
    requires
        n > 0,
        p.sum <= n * u64::MAX,
    ensures
        p.average(n) * n <= p.sum < (p.average(n) + 1) * n,
{
    let a = p.sum as int;
    let b = n as int;
    vstd::arithmetic::div_mod::lemma_fundamental_div_mod(a, b);
    assert((a / b) * b <= a < (a / b + 1) * b) by (nonlinear_arith)
        requires
            b > 0,
            a == b * (a / b) + a % b,
            0 <= a % b < b,
    ;
    assert(a / b <= u64::MAX) by (nonlinear_arith)
        requires
            b > 0,
            (a / b) * b <= a,
            a <= b * u64::MAX,
    ;
}

/// The law of shown phases: the average and the maximum that are shown of a phase are its own.
pub proof fn summaries_show_every_phase(ps: Seq<(ProbeTimingBreakdown, ProbeQueueStats)>)
    requires
        0 < ps.len() <= u64::MAX,
    ensures
        ({
            let s = timing_sums(ps).summary();
            let n = ps.len() as u64;
            &&& s.samples == n
            &&& s.max_kperf_to_enqueue_ns == over_all(ps.map_values(|p: (ProbeTimingBreakdown, ProbeQueueStats)| p.0.kperf_to_enqueue_ns)).max
            &&& s.avg_kperf_to_enqueue_ns == over_all(ps.map_values(|p: (ProbeTimingBreakdown, ProbeQueueStats)| p.0.kperf_to_enqueue_ns)).average(n)
            &&& s.max_kperf_to_staxd_read_ns == over_all(ps.map_values(|p: (ProbeTimingBreakdown, ProbeQueueStats)| p.0.kperf_to_staxd_read_ns)).max
            &&& s.avg_kperf_to_staxd_read_ns == over_all(ps.map_values(|p: (ProbeTimingBreakdown, ProbeQueueStats)| p.0.kperf_to_staxd_read_ns)).average(n)
            &&& s.max_kperf_to_staxd_drain_ns == over_all(ps.map_values(|p: (ProbeTimingBreakdown, ProbeQueueStats)| p.0.kperf_to_staxd_drain_ns)).max
            &&& s.avg_kperf_to_staxd_drain_ns == over_all(ps.map_values(|p: (ProbeTimingBreakdown, ProbeQueueStats)| p.0.kperf_to_staxd_drain_ns)).average(n)
            &&& s.max_staxd_read_ns == over_all(ps.map_values(|p: (ProbeTimingBreakdown, ProbeQueueStats)| p.0.staxd_read_ns)).max
            &&& s.avg_staxd_read_ns == over_all(ps.map_values(|p: (ProbeTimingBreakdown, ProbeQueueStats)| p.0.staxd_read_ns)).average(n)
            &&& s.max_staxd_drain_to_send_ns == over_all(ps.map_values(|p: (ProbeTimingBreakdown, ProbeQueueStats)| p.0.staxd_drain_to_send_ns)).max
            &&& s.avg_staxd_drain_to_send_ns == over_all(ps.map_values(|p: (ProbeTimingBreakdown, ProbeQueueStats)| p.0.staxd_drain_to_send_ns)).average(n)
            &&& s.max_staxd_drain_to_queue_ns == over_all(ps.map_values(|p: (ProbeTimingBreakdown, ProbeQueueStats)| p.0.staxd_drain_to_queue_ns)).max
            &&& s.avg_staxd_drain_to_queue_ns == over_all(ps.map_values(|p: (ProbeTimingBreakdown, ProbeQueueStats)| p.0.staxd_drain_to_queue_ns)).average(n)
            &&& s.max_staxd_queue_wait_ns == over_all(ps.map_values(|p: (ProbeTimingBreakdown, ProbeQueueStats)| p.0.staxd_queue_wait_ns)).max
            &&& s.avg_staxd_queue_wait_ns == over_all(ps.map_values(|p: (ProbeTimingBreakdown, ProbeQueueStats)| p.0.staxd_queue_wait_ns)).average(n)
            &&& s.max_staxd_send_to_client_recv_ns == over_all(ps.map_values(|p: (ProbeTimingBreakdown, ProbeQueueStats)| p.0.staxd_send_to_client_recv_ns)).max
            &&& s.avg_staxd_send_to_client_recv_ns == over_all(ps.map_values(|p: (ProbeTimingBreakdown, ProbeQueueStats)| p.0.staxd_send_to_client_recv_ns)).average(n)
            &&& s.max_client_recv_to_enqueue_ns == over_all(ps.map_values(|p: (ProbeTimingBreakdown, ProbeQueueStats)| p.0.client_recv_to_enqueue_ns)).max
            &&& s.avg_client_recv_to_enqueue_ns == over_all(ps.map_values(|p: (ProbeTimingBreakdown, ProbeQueueStats)| p.0.client_recv_to_enqueue_ns)).average(n)
            &&& s.max_queue_wait_ns == over_all(ps.map_values(|p: (ProbeTimingBreakdown, ProbeQueueStats)| p.0.queue_wait_ns)).max
            &&& s.avg_queue_wait_ns == over_all(ps.map_values(|p: (ProbeTimingBreakdown, ProbeQueueStats)| p.0.queue_wait_ns)).average(n)
            &&& s.max_lookup_ns == over_all(ps.map_values(|p: (ProbeTimingBreakdown, ProbeQueueStats)| p.0.lookup_ns)).max
            &&& s.avg_lookup_ns == over_all(ps.map_values(|p: (ProbeTimingBreakdown, ProbeQueueStats)| p.0.lookup_ns)).average(n)
            &&& s.max_suspend_state_ns == over_all(ps.map_values(|p: (ProbeTimingBreakdown, ProbeQueueStats)| p.0.suspend_state_ns)).max
            &&& s.avg_suspend_state_ns == over_all(ps.map_values(|p: (ProbeTimingBreakdown, ProbeQueueStats)| p.0.suspend_state_ns)).average(n)
            &&& s.max_resume_ns == over_all(ps.map_values(|p: (ProbeTimingBreakdown, ProbeQueueStats)| p.0.resume_ns)).max
            &&& s.avg_resume_ns == over_all(ps.map_values(|p: (ProbeTimingBreakdown, ProbeQueueStats)| p.0.resume_ns)).average(n)
            &&& s.max_walk_ns == over_all(ps.map_values(|p: (ProbeTimingBreakdown, ProbeQueueStats)| p.0.walk_ns)).max
            &&& s.avg_walk_ns == over_all(ps.map_values(|p: (ProbeTimingBreakdown, ProbeQueueStats)| p.0.walk_ns)).average(n)
            &&& s.max_probe_total_ns == over_all(ps.map_values(|p: (ProbeTimingBreakdown, ProbeQueueStats)| p.0.probe_total_ns)).max
            &&& s.avg_probe_total_ns == over_all(ps.map_values(|p: (ProbeTimingBreakdown, ProbeQueueStats)| p.0.probe_total_ns)).average(n)
        }),
{
    every_phase_is_summed_up(ps);
}

} // verus!
