//! Time on and off the CPU over the length of a recording.
use vstd::prelude::*;

use crate::aggregator::{
    interval_views, thread_views, Aggregator, IntervalKind, IntervalRecord, IntervalView, KindView,
    ThreadStats, ThreadView,
};
use crate::probe_timing::sat_add;
use crate::sums::{as_fits, sum_of};

verus! {

/// How many buckets a long recording is cut into.
pub const TARGET_BUCKETS: u64 = 200;

/// The least length of a bucket.
pub const MIN_BUCKET_NS: u64 = 50_000_000;

/// One bucket of the timeline.
#[derive(Clone, Copy, Debug, PartialEq, Eq, Structural)]
pub struct TimelineBucket {
    pub start_ns: u64,
    pub on_cpu_ns: u64,
    pub off_cpu_ns: u64,
}

/// Time on and off the CPU over the length of a recording.
pub struct TimelineUpdate {
    pub bucket_size_ns: u64,
    pub recording_duration_ns: u64,
    pub total_on_cpu_ns: u64,
    pub total_off_cpu_ns: u64,
    pub buckets: Vec<TimelineBucket>,
}

/// An interval and the thread that it belongs to.
pub struct OwnedInterval {
    pub tid: u32,
    pub interval: IntervalView,
}

/// The intervals of a thread.
pub open spec fn owned_intervals(t: ThreadView) -> Seq<OwnedInterval> {
    t.intervals.map_values(|i: IntervalView| OwnedInterval { tid: t.tid, interval: i })
}

/// The intervals of the thread `tid`, or of all threads, thread by thread.
pub open spec fn intervals_of(ts: Seq<ThreadView>, tid: Option<u32>) -> Seq<OwnedInterval>
    decreases ts.len(),
{
    if ts.len() == 0 {
        seq![]
    } else {
        let before = intervals_of(ts.drop_last(), tid);
        if tid is None || tid == Some(ts.last().tid) {
            before + owned_intervals(ts.last())
        } else {
            before
        }
    }
}

/// The length of a bucket in a recording of length `duration`.
pub open spec fn bucket_size(duration: u64) -> u64 {
    if duration / TARGET_BUCKETS > MIN_BUCKET_NS {
        duration / TARGET_BUCKETS
    } else {
        MIN_BUCKET_NS
    }
}

/// The buckets of a recording of length `duration`: every one that it reaches.
pub open spec fn bucket_count(duration: u64) -> int {
    duration / bucket_size(duration) + 1
}

/// A recording is cut into few buckets.
pub proof fn buckets_are_few(duration: u64)
    ensures
        1 <= bucket_count(duration) <= TARGET_BUCKETS + 1,
        (bucket_count(duration) - 1) * bucket_size(duration) <= duration,
        duration < bucket_count(duration) * bucket_size(duration),
{
    let size = bucket_size(duration) as int;
    let d = duration as int;
    assert(size >= MIN_BUCKET_NS);
    assert(d < (size + 1) * TARGET_BUCKETS);
    let q = d / size;
    assert(q * size <= d < (q + 1) * size) by (nonlinear_arith)
        requires
            q == d / size,
            size > 0,
            d >= 0,
    ;
    assert(q <= TARGET_BUCKETS) by (nonlinear_arith)
        requires
            q * size <= d,
            d < (size + 1) * 200,
            size >= 50_000_000,
            TARGET_BUCKETS == 200,
    ;
    assert(q >= 0) by (nonlinear_arith)
        requires
            q == d / size,
            size > 0,
            d >= 0,
    ;
}

/// `t` counted from the start of the recording.
pub open spec fn since(start: u64, t: u64) -> u64 {
    if t < start {
        0
    } else {
        (t - start) as u64
    }
}

/// The end of an interval; one that is still open ends with the recording.
pub open spec fn end_of(i: IntervalView, last: u64) -> u64 {
    if i.end_ns == 0 {
        last
    } else {
        i.end_ns
    }
}

/// How much of `from..to` lies in `lo..hi`.
pub open spec fn overlap(from: int, to: int, lo: int, hi: int) -> int {
    let a = if from > lo {
        from
    } else {
        lo
    };
    let b = if to < hi {
        to
    } else {
        hi
    };
    if a < b {
        b - a
    } else {
        0
    }
}

/// How much of an interval lies in `lo..hi`, counted from the start.
pub open spec fn share(i: IntervalView, start: u64, last: u64, lo: int, hi: int) -> int {
    if end_of(i, last) <= i.start_ns {
        0
    } else {
        overlap(
            since(start, i.start_ns) as int,
            since(start, end_of(i, last)) as int,
            lo,
            hi,
        )
    }
}

/// How much of some intervals lies in `lo..hi`, of those on the CPU or of those off
/// it; at most what fits.
pub open spec fn time_in(
    is: Seq<OwnedInterval>,
    on_cpu: bool,
    start: u64,
    last: u64,
    lo: int,
    hi: int,
) -> u64
    decreases is.len(),
{
    if is.len() == 0 {
        0
    } else {
        let before = time_in(is.drop_last(), on_cpu, start, last, lo, hi);
        let i = is.last().interval;
        if (i.kind is OnCpu) == on_cpu {
            sat_add(before, share(i, start, last, lo, hi) as u64)
        } else {
            before
        }
    }
}

/// `u` is the timeline of some intervals of a recording from `start` to `last`.
pub open spec fn is_timeline(
    is: Seq<OwnedInterval>,
    start: u64,
    last: u64,
    u: TimelineUpdate,
) -> bool {
    let duration = since(start, last);
    let size = bucket_size(duration) as int;
    let n = bucket_count(duration);
    &&& u.recording_duration_ns == duration
    &&& u.bucket_size_ns == size
    &&& u.total_on_cpu_ns == time_in(is, true, start, last, 0, n * size)
    &&& u.total_off_cpu_ns == time_in(is, false, start, last, 0, n * size)
    &&& u.buckets@.len() == n
    &&& forall|b: int|
        0 <= b < n ==> #[trigger] u.buckets@[b] == (TimelineBucket {
            start_ns: (b * size) as u64,
            on_cpu_ns: time_in(is, true, start, last, b * size, (b + 1) * size),
            off_cpu_ns: time_in(is, false, start, last, b * size, (b + 1) * size),
        })
}

/// How much of some intervals lies in `lo..hi`, without regard to what fits.
pub open spec fn time_sum(
    is: Seq<OwnedInterval>,
    on_cpu: bool,
    start: u64,
    last: u64,
    lo: int,
    hi: int,
) -> int
    decreases is.len(),
{
    if is.len() == 0 {
        0
    } else {
        let before = time_sum(is.drop_last(), on_cpu, start, last, lo, hi);
        let i = is.last().interval;
        if (i.kind is OnCpu) == on_cpu {
            before + share(i, start, last, lo, hi)
        } else {
            before
        }
    }
}

/// The time on or off the CPU in some buckets.
pub open spec fn bucket_sum(bs: Seq<TimelineBucket>, on_cpu: bool) -> int
    decreases bs.len(),
{
    if bs.len() == 0 {
        0
    } else {
        bucket_sum(bs.drop_last(), on_cpu) + (if on_cpu {
            bs.last().on_cpu_ns
        } else {
            bs.last().off_cpu_ns
        })
    }
}

/// What fits is counted exactly.
proof fn lemma_time_fits(
    is: Seq<OwnedInterval>,
    on_cpu: bool,
    start: u64,
    last: u64,
    lo: int,
    hi: int,
)
    ensures
        time_sum(is, on_cpu, start, last, lo, hi) >= 0,
        time_sum(is, on_cpu, start, last, lo, hi) <= u64::MAX ==> time_in(
            is,
            on_cpu,
            start,
            last,
            lo,
            hi,
        ) == time_sum(is, on_cpu, start, last, lo, hi),
    decreases is.len(),
{
    if is.len() > 0 {
        lemma_time_fits(is.drop_last(), on_cpu, start, last, lo, hi);
        assert(0 <= share(is.last().interval, start, last, lo, hi) <= u64::MAX);
    }
}

/// Time in two stretches that meet is time in both together.
proof fn lemma_time_meets(
    is: Seq<OwnedInterval>,
    on_cpu: bool,
    start: u64,
    last: u64,
    lo: int,
    mid: int,
    hi: int,
)
    requires
        lo <= mid <= hi,
    ensures
        time_sum(is, on_cpu, start, last, lo, mid) + time_sum(is, on_cpu, start, last, mid, hi)
            == time_sum(is, on_cpu, start, last, lo, hi),
    decreases is.len(),
{
    if is.len() > 0 {
        lemma_time_meets(is.drop_last(), on_cpu, start, last, lo, mid, hi);
    }
}

/// The first `n` buckets hold the time up to the end of the last of them.
proof fn lemma_buckets_add_up(
    is: Seq<OwnedInterval>,
    on_cpu: bool,
    start: u64,
    last: u64,
    u: TimelineUpdate,
    n: int,
)
    requires
        is_timeline(is, start, last, u),
        0 <= n <= u.buckets@.len(),
        time_sum(is, on_cpu, start, last, 0, n * u.bucket_size_ns) <= u64::MAX,
    ensures
        bucket_sum(u.buckets@.take(n), on_cpu) == time_sum(
            is,
            on_cpu,
            start,
            last,
            0,
            n * u.bucket_size_ns,
        ),
    decreases n,
{
    let size = u.bucket_size_ns as int;
    if n == 0 {
        assert(0 * size == 0);
        lemma_time_meets(is, on_cpu, start, last, 0, 0, 0);
    } else {
        assert(n * size == (n - 1) * size + size && (n - 1) * size >= 0) by (nonlinear_arith)
            requires
                n >= 1,
                size >= 0,
        ;
        lemma_time_meets(is, on_cpu, start, last, 0, (n - 1) * size, n * size);
        lemma_time_fits(is, on_cpu, start, last, 0, (n - 1) * size);
        lemma_time_fits(is, on_cpu, start, last, (n - 1) * size, n * size);
        lemma_buckets_add_up(is, on_cpu, start, last, u, n - 1);
        assert(u.buckets@.take(n).drop_last() =~= u.buckets@.take(n - 1));
        assert(u.buckets@.take(n).last() == u.buckets@[n - 1]);
        assert(((n - 1) + 1) * size == n * size);
    }
}

/// The law of the timeline: the buckets add up to the totals, as long as these fit.
pub proof fn buckets_add_up(is: Seq<OwnedInterval>, start: u64, last: u64, u: TimelineUpdate)
    requires
        is_timeline(is, start, last, u),
    ensures
        time_sum(is, true, start, last, 0, u.buckets@.len() * u.bucket_size_ns) <= u64::MAX
            ==> bucket_sum(u.buckets@, true) == u.total_on_cpu_ns,
        time_sum(is, false, start, last, 0, u.buckets@.len() * u.bucket_size_ns) <= u64::MAX
            ==> bucket_sum(u.buckets@, false) == u.total_off_cpu_ns,
{
    let n = u.buckets@.len() as int;
    let size = u.bucket_size_ns as int;
    assert(u.buckets@.take(n) =~= u.buckets@);
    lemma_time_fits(is, true, start, last, 0, n * size);
    lemma_time_fits(is, false, start, last, 0, n * size);
    if time_sum(is, true, start, last, 0, n * size) <= u64::MAX {
        lemma_buckets_add_up(is, true, start, last, u, n);
    }
    if time_sum(is, false, start, last, 0, n * size) <= u64::MAX {
        lemma_buckets_add_up(is, false, start, last, u, n);
    }
}

/// The law of intervals: one that lies within the recording is counted whole.
pub proof fn intervals_are_counted_whole(i: IntervalView, start: u64, last: u64)
    requires
        start <= i.start_ns < end_of(i, last) <= last,
    ensures
        ({
            let duration = since(start, last);
            share(i, start, last, 0, bucket_count(duration) * bucket_size(duration)) == end_of(
                i,
                last,
            ) - i.start_ns
        }),
{
    buckets_are_few(since(start, last));
}

/// Adding two parts one by one adds their sum.
proof fn lemma_sat_add_twice(t: u64, x: int, y: int)
    requires
        0 <= x,
        0 <= y,
        x + y <= u64::MAX,
    ensures
        sat_add(sat_add(t, x as u64), y as u64) == sat_add(t, (x + y) as u64),
{
}

/// Adds an interval to the buckets that it reaches, and to the total.
fn spread(
    cells: &mut Vec<u64>,
    total: &mut u64,
    size: u64,
    from: u64,
    to: u64,
    Ghost(duration): Ghost<u64>,
)
    requires
        size == bucket_size(duration),
        old(cells)@.len() == bucket_count(duration),
    ensures
        final(cells)@.len() == old(cells)@.len(),
        forall|b: int|
            0 <= b < old(cells)@.len() ==> #[trigger] final(cells)@[b] == sat_add(
                old(cells)@[b],
                overlap(from as int, to as int, b * size, (b + 1) * size) as u64,
            ),
        *final(total) == sat_add(
            *old(total),
            overlap(from as int, to as int, 0, bucket_count(duration) * size) as u64,
        ),
{
    let n: usize = cells.len();
    let ghost before = cells@;
    let ghost total0 = *total;
    proof {
        buckets_are_few(duration);
    }
    let mut b: usize = 0;
    let mut lo: u64 = 0;
    assert(0 * size == 0);
    while b < n
        invariant
            b <= n,
            n == before.len(),
            n == bucket_count(duration),
            size == bucket_size(duration),
            lo == b * size || (b == n && n * size > u64::MAX),
            (n - 1) * size <= u64::MAX,
            cells@.len() == n,
            forall|k: int|
                0 <= k < b ==> #[trigger] cells@[k] == sat_add(
                    before[k],
                    overlap(from as int, to as int, k * size, (k + 1) * size) as u64,
                ),
            forall|k: int| b <= k < n ==> #[trigger] cells@[k] == before[k],
            *total == sat_add(total0, overlap(from as int, to as int, 0, b * size) as u64),
        decreases n - b,
    {
        proof {
            assert(b * size <= (n - 1) * size) by (nonlinear_arith)
                requires
                    b <= n - 1,
                    size >= 0,
            ;
            assert((b + 1) * size == b * size + size) by (nonlinear_arith);
        }
        let hi: u64 = lo.saturating_add(size);
        let upper: u64 = if hi < to {
            hi
        } else {
            to
        };
        let lower: u64 = if lo > from {
            lo
        } else {
            from
        };
        let part: u64 = upper.saturating_sub(lower);
        proof {
            assert(part == overlap(from as int, to as int, b * size, (b + 1) * size));
            let done = overlap(from as int, to as int, 0, b * size);
            assert(done + part == overlap(from as int, to as int, 0, (b + 1) * size));
            lemma_sat_add_twice(total0, done, part as int);
        }
        if part > 0 {
            let held: u64 = cells[b];
            cells.set(b, held.saturating_add(part));
            *total = total.saturating_add(part);
        }
        lo = hi;
        b = b + 1;
        proof {
            if b < n {
                assert(b * size <= (n - 1) * size) by (nonlinear_arith)
                    requires
                        b <= n - 1,
                        size >= 0,
                ;
            }
        }
    }
}

/// `n` empty cells.
fn zero_cells(n: usize) -> (v: Vec<u64>)
    ensures
        v@.len() == n,
        forall|i: int| 0 <= i < n ==> #[trigger] v@[i] == 0,
{
    let mut v: Vec<u64> = Vec::new();
    let mut i: usize = 0;
    while i < n
        invariant
            i <= n,
            v@.len() == i,
            forall|k: int| 0 <= k < i ==> #[trigger] v@[k] == 0,
        decreases n - i,
    {
        v.push(0);
        i = i + 1;
    }
    v
}

/// The cells of a timeline under construction.
struct Cells {
    on_cpu: Vec<u64>,
    off_cpu: Vec<u64>,
    total_on: u64,
    total_off: u64,
}

impl Cells {
    /// The cells hold the time of some intervals.
    spec fn hold(self, is: Seq<OwnedInterval>, start: u64, last: u64) -> bool {
        let duration = since(start, last);
        let size = bucket_size(duration) as int;
        let n = bucket_count(duration);
        &&& self.on_cpu@.len() == n
        &&& self.off_cpu@.len() == n
        &&& self.total_on == time_in(is, true, start, last, 0, n * size)
        &&& self.total_off == time_in(is, false, start, last, 0, n * size)
        &&& forall|b: int|
            0 <= b < n ==> #[trigger] self.on_cpu@[b] == time_in(
                is,
                true,
                start,
                last,
                b * size,
                (b + 1) * size,
            )
        &&& forall|b: int|
            0 <= b < n ==> #[trigger] self.off_cpu@[b] == time_in(
                is,
                false,
                start,
                last,
                b * size,
                (b + 1) * size,
            )
    }

    /// Adds one interval.
    fn add_interval(
        &mut self,
        tid: u32,
        i: &IntervalRecord,
        start: u64,
        last: u64,
        size: u64,
        Ghost(is): Ghost<Seq<OwnedInterval>>,
    )
        requires
            old(self).hold(is, start, last),
            size == bucket_size(since(start, last)),
        ensures
            final(self).hold(is.push(OwnedInterval { tid, interval: i@ }), start, last),
    {
        let ghost next = is.push(OwnedInterval { tid, interval: i@ });
        let ghost duration = since(start, last);
        proof {
            assert(next.drop_last() =~= is);
            assert(next.last().interval == i@);
        }
        let end: u64 = if i.end_ns == 0 {
            last
        } else {
            i.end_ns
        };
        let on_cpu = match &i.kind {
            IntervalKind::OnCpu => true,
            _ => false,
        };
        assert(on_cpu == (i@.kind is OnCpu));
        if end > i.start_ns {
            let from: u64 = i.start_ns.saturating_sub(start);
            let to: u64 = end.saturating_sub(start);
            if on_cpu {
                spread(&mut self.on_cpu, &mut self.total_on, size, from, to, Ghost(duration));
            } else {
                spread(&mut self.off_cpu, &mut self.total_off, size, from, to, Ghost(duration));
            }
        }
    }
}

/// Cuts the intervals of the thread `tid`, or of all threads, into the buckets of
/// a timeline.
pub fn build_timeline_update(agg: &Aggregator, tid: Option<u32>) -> (u: TimelineUpdate)
    ensures
        ({
            let start = match agg.start() {
                Some(s) => s,
                None => 0,
            };
            let last = match agg.last() {
                Some(l) => l,
                None => start,
            };
            is_timeline(intervals_of(agg.threads(), tid), start, last, u)
        }),
{
    let start: u64 = match agg.session_start_ns() {
        Some(s) => s,
        None => 0,
    };
    let last: u64 = match agg.last_event_ns() {
        Some(l) => l,
        None => start,
    };
    let duration: u64 = last.saturating_sub(start);
    let share_of: u64 = duration / TARGET_BUCKETS;
    let size: u64 = if share_of > MIN_BUCKET_NS {
        share_of
    } else {
        MIN_BUCKET_NS
    };
    proof {
        buckets_are_few(duration);
    }
    let n: usize = (duration / size + 1) as usize;
    let threads = agg.thread_list();
    let ghost views = thread_views(threads@);
    let mut cells = Cells {
        on_cpu: zero_cells(n),
        off_cpu: zero_cells(n),
        total_on: 0,
        total_off: 0,
    };
    let mut t: usize = 0;
    assert(views.take(0) =~= seq![]);
    while t < threads.len()
        invariant
            t <= threads@.len(),
            views == thread_views(threads@),
            size == bucket_size(since(start, last)),
            cells.hold(intervals_of(views.take(t as int), tid), start, last),
        decreases threads@.len() - t,
    {
        let th = &threads[t];
        let ghost before = intervals_of(views.take(t as int), tid);
        proof {
            assert(views.take(t + 1).drop_last() =~= views.take(t as int));
            assert(views.take(t + 1).last() == th@);
        }
        let wanted = match tid {
            Some(want) => th.tid == want,
            None => true,
        };
        if wanted {
            let ghost own = owned_intervals(th@);
            let mut k: usize = 0;
            assert(before + own.take(0) =~= before);
            while k < th.intervals.len()
                invariant
                    k <= th.intervals@.len(),
                    own == owned_intervals(th@),
                    size == bucket_size(since(start, last)),
                    cells.hold(before + own.take(k as int), start, last),
                decreases th.intervals@.len() - k,
            {
                cells.add_interval(
                    th.tid,
                    &th.intervals[k],
                    start,
                    last,
                    size,
                    Ghost(before + own.take(k as int)),
                );
                proof {
                    assert(own[k as int] == OwnedInterval {
                        tid: th.tid,
                        interval: th.intervals@[k as int]@,
                    });
                    assert(before + own.take(k + 1) =~= (before + own.take(k as int)).push(
                        own[k as int],
                    ));
                }
                k = k + 1;
            }
            assert(own.take(k as int) =~= own);
        }
        t = t + 1;
    }
    assert(views.take(t as int) =~= views);
    let ghost is = intervals_of(views, tid);
    let mut buckets: Vec<TimelineBucket> = Vec::new();
    let mut b: usize = 0;
    let mut at: u64 = 0;
    assert(0 * size == 0);
    while b < n
        invariant
            b <= n,
            n == bucket_count(duration),
            duration == since(start, last),
            size == bucket_size(duration),
            (n - 1) * size <= u64::MAX,
            b < n ==> at == b * size,
            cells.hold(is, start, last),
            buckets@.len() == b,
            forall|k: int|
                0 <= k < b ==> #[trigger] buckets@[k] == (TimelineBucket {
                    start_ns: (k * size) as u64,
                    on_cpu_ns: time_in(is, true, start, last, k * size, (k + 1) * size),
                    off_cpu_ns: time_in(is, false, start, last, k * size, (k + 1) * size),
                }),
        decreases n - b,
    {
        buckets.push(
            TimelineBucket { start_ns: at, on_cpu_ns: cells.on_cpu[b], off_cpu_ns: cells.off_cpu[b] },
        );
        b = b + 1;
        if b < n {
            proof {
                assert(b * size <= (n - 1) * size) by (nonlinear_arith)
                    requires
                        b <= n - 1,
                        size >= 0,
                ;
                assert(b * size == (b - 1) * size + size) by (nonlinear_arith);
            }
            at = at + size;
        }
    }
    TimelineUpdate {
        bucket_size_ns: size,
        recording_duration_ns: duration,
        total_on_cpu_ns: cells.total_on,
        total_off_cpu_ns: cells.total_off,
        buckets,
    }
}

/// The law of threads: the intervals of a timeline are those of every thread that is asked for, each
/// with its thread, thread by thread in their order.
pub proof fn every_interval_of_the_threads_counts(ts: Seq<ThreadView>, tid: Option<u32>)
    ensures
        intervals_of(ts, tid) == ts.filter(
            |t: ThreadView| tid is None || tid->0 == t.tid,
        ).map_values(
            |t: ThreadView|
                t.intervals.map_values(|i: IntervalView| OwnedInterval { tid: t.tid, interval: i }),
        ).flatten_alt(),
    decreases ts.len(),
{
    reveal(Seq::filter);
    let asked = |t: ThreadView| tid is None || tid->0 == t.tid;
    let owned = |t: ThreadView|
        t.intervals.map_values(|i: IntervalView| OwnedInterval { tid: t.tid, interval: i });
    if ts.len() == 0 {
        assert(ts.filter(asked).map_values(owned) =~= seq![]);
    } else {
        let init = ts.drop_last();
        every_interval_of_the_threads_counts(init, tid);
        if asked(ts.last()) {
            let all = ts.filter(asked).map_values(owned);
            assert(ts.filter(asked).drop_last() =~= init.filter(asked));
            assert(all.drop_last() =~= init.filter(asked).map_values(owned));
            assert(all.last() =~= owned_intervals(ts.last()));
        }
    }
}

/// How long two stretches of time overlap.
pub open spec fn time_common(from: int, to: int, lo: int, hi: int) -> int {
    let common = (if to <= hi {
        to
    } else {
        hi
    }) - (if from >= lo {
        from
    } else {
        lo
    });
    if common >= 0 {
        common
    } else {
        0
    }
}

/// The time that each of some intervals within a recording spends in a stretch of it, of those on the
/// CPU or of those off it.
pub open spec fn times_in_stretch(
    is: Seq<OwnedInterval>,
    on_cpu: bool,
    start: u64,
    last: u64,
    lo: int,
    hi: int,
) -> Seq<int> {
    is.map_values(
        |i: OwnedInterval|
            if (i.interval.kind is OnCpu) == on_cpu {
                time_common(
                    i.interval.start_ns as int,
                    if i.interval.end_ns == 0 {
                        last as int
                    } else {
                        i.interval.end_ns as int
                    },
                    start + lo,
                    start + hi,
                )
            } else {
                0
            },
    )
}

/// The intervals lie within the recording; one that is still open has an end of zero.
pub open spec fn lie_within(is: Seq<OwnedInterval>, start: u64, last: u64) -> bool {
    forall|k: int|
        0 <= k < is.len() ==> start <= (#[trigger] is[k]).interval.start_ns <= last && (
        is[k].interval.end_ns == 0 || is[k].interval.start_ns <= is[k].interval.end_ns <= last)
}

proof fn lemma_time_in_is_a_sum(
    is: Seq<OwnedInterval>,
    on_cpu: bool,
    start: u64,
    last: u64,
    lo: int,
    hi: int,
)
    requires
        lie_within(is, start, last),
        0 <= lo <= hi,
    ensures
        time_in(is, on_cpu, start, last, lo, hi) == as_fits(
            sum_of(times_in_stretch(is, on_cpu, start, last, lo, hi)),
        ),
        sum_of(times_in_stretch(is, on_cpu, start, last, lo, hi)) >= 0,
    decreases is.len(),
{
    let times = times_in_stretch(is, on_cpu, start, last, lo, hi);
    if is.len() == 0 {
        assert(times =~= seq![]);
    } else {
        let init = is.drop_last();
        assert forall|k: int| 0 <= k < init.len() implies start <= (
        #[trigger] init[k]).interval.start_ns <= last && (init[k].interval.end_ns == 0
            || init[k].interval.start_ns <= init[k].interval.end_ns <= last) by {
            assert(init[k] == is[k]);
        }
        lemma_time_in_is_a_sum(init, on_cpu, start, last, lo, hi);
        assert(times.drop_last() =~= times_in_stretch(init, on_cpu, start, last, lo, hi));
        let i = is[is.len() - 1].interval;
        assert(start <= i.start_ns <= last);
        assert(0 <= share(i, start, last, lo, hi) <= u64::MAX);
        assert(share(i, start, last, lo, hi) == time_common(
            i.start_ns as int,
            end_of(i, last) as int,
            start + lo,
            start + hi,
        ));
    }
}

/// The law of buckets: each begins where the one before it ends, and holds the time that the intervals
/// of a recording spend in it, on the CPU and off it, at most what fits.
pub proof fn buckets_hold_their_time(
    is: Seq<OwnedInterval>,
    start: u64,
    last: u64,
    u: TimelineUpdate,
    b: int,
)
    requires
        is_timeline(is, start, last, u),
        start <= last,
        lie_within(is, start, last),
        0 <= b < u.buckets@.len(),
    ensures
        ({
            let lo = b * u.bucket_size_ns;
            let hi = (b + 1) * u.bucket_size_ns;
            &&& u.buckets@[b].start_ns == lo
            &&& u.buckets@[b].on_cpu_ns == as_fits(
                sum_of(times_in_stretch(is, true, start, last, lo, hi)),
            )
            &&& u.buckets@[b].off_cpu_ns == as_fits(
                sum_of(times_in_stretch(is, false, start, last, lo, hi)),
            )
        }),
{
    let duration = since(start, last);
    let size = bucket_size(duration) as int;
    let n = bucket_count(duration);
    buckets_are_few(duration);
    let lo = b * size;
    let hi = (b + 1) * size;
    assert(0 <= lo <= hi && lo <= (n - 1) * size) by (nonlinear_arith)
        requires
            0 <= b < n,
            size >= 0,
            lo == b * size,
            hi == (b + 1) * size,
    ;
    lemma_time_in_is_a_sum(is, true, start, last, lo, hi);
    lemma_time_in_is_a_sum(is, false, start, last, lo, hi);
    assert(u.buckets@[b].start_ns == (b * size) as u64);
}

/// The law of totals: a timeline shows the length of its recording and, at most what fits, the time
/// that its intervals spend on the CPU and off it, in buckets of a twentieth of a second or more.
pub proof fn timelines_show_all_time(
    is: Seq<OwnedInterval>,
    start: u64,
    last: u64,
    u: TimelineUpdate,
)
    requires
        is_timeline(is, start, last, u),
        start <= last,
        lie_within(is, start, last),
    ensures
        u.recording_duration_ns == last - start,
        u.bucket_size_ns >= 50_000_000,
        u.bucket_size_ns > 50_000_000 ==> u.bucket_size_ns * 200 <= last - start,
        u.buckets@.len() <= 201,
        (u.buckets@.len() - 1) * u.bucket_size_ns <= last - start < u.buckets@.len()
            * u.bucket_size_ns,
        u.total_on_cpu_ns == as_fits(
            sum_of(times_in_stretch(is, true, start, last, 0, last - start)),
        ),
        u.total_off_cpu_ns == as_fits(
            sum_of(times_in_stretch(is, false, start, last, 0, last - start)),
        ),
{
    let duration = since(start, last);
    let size = bucket_size(duration) as int;
    let n = bucket_count(duration);
    buckets_are_few(duration);
    assert(n * size >= 0) by (nonlinear_arith)
        requires
            n >= 0,
            size >= 0,
    ;
    lemma_time_in_is_a_sum(is, true, start, last, 0, n * size);
    lemma_time_in_is_a_sum(is, false, start, last, 0, n * size);
    assert forall|k: int| 0 <= k < is.len() implies start <= (#[trigger] is[k]).interval.start_ns
        <= last by {}
    assert(times_in_stretch(is, true, start, last, 0, last - start) =~= times_in_stretch(
        is,
        true,
        start,
        last,
        0,
        n * size,
    ));
    assert(times_in_stretch(is, false, start, last, 0, last - start) =~= times_in_stretch(
        is,
        false,
        start,
        last,
        0,
        n * size,
    ));
}

} // verus!
