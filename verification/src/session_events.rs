//! Events of a session that stand for more than one record: code that the target
//! generated, stretches of time and wakeups, as the sink gets them.
use vstd::prelude::*;
use vstd::slice::slice_to_vec;
use vstd::utf8::encode_utf8;

use crate::kdebug::KdBuf;
use crate::parser::{Sample, SampleView};
use crate::pipeline::{
    counters_of, output_views, OutputView, Pipeline, PipelineConfig, PipelineView, RecordOutput,
    SampleCounters,
};
use crate::sample_sink::{
    BinaryLoadedEvent, CpuIntervalEvent, CpuIntervalKind, MachOSymbol, SampleEvent, WakeupEvent,
};

verus! {

/// One function that the target generated.
pub struct JitRecord {
    pub name: String,
    pub avma: u64,
    pub code_size: u64,
    pub code: Vec<u8>,
}

/// What a generated function is shown as: an image of its own.
pub struct JitImage {
    pub path: String,
    pub symbols: Vec<MachOSymbol>,
    pub record: JitRecord,
}

/// The path of a generated function.
pub open spec fn jit_path(name: Seq<char>) -> Seq<char> {
    "[jit] "@ + name
}

/// An image for a generated function, with one symbol that covers it.
pub fn jit_image(record: JitRecord) -> (img: JitImage)
    requires
        record.avma + record.code_size <= u64::MAX,
    ensures
        img.path@ == jit_path(record.name@),
        img.record == record,
        img.symbols@.len() == 1,
        img.symbols@[0].start_svma == record.avma,
        img.symbols@[0].end_svma == record.avma + record.code_size,
        img.symbols@[0].name@ == encode_utf8(record.name@),
{
    let mut path = "[jit] ".to_owned();
    path.append(record.name.as_str());
    let mut symbols: Vec<MachOSymbol> = Vec::new();
    symbols.push(
        MachOSymbol {
            start_svma: record.avma,
            end_svma: record.avma + record.code_size,
            name: slice_to_vec(record.name.as_str().as_bytes()),
        },
    );
    JitImage { path, symbols, record }
}

/// The event of a generated function. Generated code runs where it was made, and brings
/// its bytes along.
pub fn jit_event<'a>(pid: u32, img: &'a JitImage, host_arch: Option<&'static str>) -> (e:
    BinaryLoadedEvent<'a>)
    ensures
        e.pid == pid,
        e.base_avma == img.record.avma,
        e.vmsize == img.record.code_size,
        e.text_svma == img.record.avma,
        e.path@ == img.path@,
        e.uuid is None,
        e.arch == host_arch,
        !e.is_executable,
        e.symbols@ == img.symbols@,
        e.text_bytes matches Some(b) && b@ == img.record.code@,
{
    BinaryLoadedEvent {
        pid,
        base_avma: img.record.avma,
        vmsize: img.record.code_size,
        text_svma: img.record.avma,
        path: img.path.as_str(),
        uuid: None,
        arch: host_arch,
        is_executable: false,
        symbols: img.symbols.as_slice(),
        text_bytes: Some(img.record.code.as_slice()),
    }
}

/// The event of a sample.
pub fn sample_event<'a>(pid: u32, sample: &'a Sample, c: SampleCounters) -> (e: SampleEvent<'a>)
    ensures
        e.timestamp_ns == sample.timestamp_ns,
        e.pid == pid,
        e.tid == sample.tid,
        e.backtrace@ == sample.user_backtrace@,
        e.kernel_backtrace@ == sample.kernel_backtrace@,
        e.cycles == c.cycles,
        e.instructions == c.instructions,
        e.l1d_misses == c.l1d_misses,
        e.branch_mispreds == c.branch_mispreds,
{
    SampleEvent {
        timestamp_ns: sample.timestamp_ns,
        pid,
        tid: sample.tid,
        backtrace: sample.user_backtrace.as_slice(),
        kernel_backtrace: sample.kernel_backtrace.as_slice(),
        cycles: c.cycles,
        instructions: c.instructions,
        l1d_misses: c.l1d_misses,
        branch_mispreds: c.branch_mispreds,
    }
}

/// A wakeup that was tracked.
pub struct PendingWakeup {
    pub timestamp_ns: u64,
    pub waker_tid: u32,
    pub wakee_tid: u32,
    pub waker_user_stack: Vec<u64>,
    pub waker_kernel_stack: Vec<u64>,
}

/// The event of a wakeup.
pub fn wakeup_event<'a>(pid: u32, w: &'a PendingWakeup) -> (e: WakeupEvent<'a>)
    ensures
        e.timestamp_ns == w.timestamp_ns,
        e.pid == pid,
        e.waker_tid == w.waker_tid,
        e.wakee_tid == w.wakee_tid,
        e.waker_user_stack@ == w.waker_user_stack@,
        e.waker_kernel_stack@ == w.waker_kernel_stack@,
{
    WakeupEvent {
        timestamp_ns: w.timestamp_ns,
        pid,
        waker_tid: w.waker_tid,
        wakee_tid: w.wakee_tid,
        waker_user_stack: w.waker_user_stack.as_slice(),
        waker_kernel_stack: w.waker_kernel_stack.as_slice(),
    }
}

/// Where a thread spent a stretch of time that was tracked.
pub enum PendingKind {
    OnCpu,
    OffCpu {
        user_stack: Vec<u64>,
        kernel_stack: Vec<u64>,
        waker_tid: Option<u32>,
        waker_user_stack: Option<Vec<u64>>,
    },
}

/// A stretch of time that was tracked.
pub struct PendingInterval {
    pub tid: u32,
    pub start_ns: u64,
    pub end_ns: u64,
    pub kind: PendingKind,
}

/// The event is of the kind that was tracked. The stack in the kernel is left out.
pub open spec fn is_kind_of(k: PendingKind, e: CpuIntervalKind<'_>) -> bool {
    match k {
        PendingKind::OnCpu => e is OnCpu,
        PendingKind::OffCpu { user_stack, kernel_stack, waker_tid, waker_user_stack } => match e {
            CpuIntervalKind::OnCpu => false,
            CpuIntervalKind::OffCpu { stack, waker_tid: by, waker_user_stack: from } => {
                &&& stack@ == user_stack@
                &&& by == waker_tid
                &&& match waker_user_stack {
                    Some(s) => from matches Some(f) && f@ == s@,
                    None => from is None,
                }
            },
        },
    }
}

/// The event of a stretch of time.
pub fn interval_event<'a>(pid: u32, i: &'a PendingInterval) -> (e: CpuIntervalEvent<'a>)
    ensures
        e.pid == pid,
        e.tid == i.tid,
        e.start_ns == i.start_ns,
        e.end_ns == i.end_ns,
        is_kind_of(i.kind, e.kind),
{
    let kind = match &i.kind {
        PendingKind::OnCpu => CpuIntervalKind::OnCpu,
        PendingKind::OffCpu { user_stack, kernel_stack: _, waker_tid, waker_user_stack } => {
            CpuIntervalKind::OffCpu {
                stack: user_stack.as_slice(),
                waker_tid: *waker_tid,
                waker_user_stack: match waker_user_stack {
                    Some(s) => Some(s.as_slice()),
                    None => None,
                },
            }
        },
    };
    CpuIntervalEvent { pid, tid: i.tid, start_ns: i.start_ns, end_ns: i.end_ns, kind }
}

/// An event of a batch of records, as the sink gets it.
pub enum BatchEvent<'a> {
    Sample(SampleEvent<'a>),
    Wakeup(WakeupEvent<'a>),
    Interval(CpuIntervalEvent<'a>),
}

/// The model of where a stretch of time was spent.
pub enum SpentView {
    OnCpu,
    OffCpu { stack: Seq<u64>, waker_tid: Option<u32>, waker_user_stack: Option<Seq<u64>> },
}

/// The model of a [`BatchEvent`].
pub enum BatchEventView {
    Sample { pid: u32, sample: SampleView, counters: SampleCounters },
    Wakeup {
        pid: u32,
        timestamp_ns: u64,
        waker_tid: u32,
        wakee_tid: u32,
        waker_user_stack: Seq<u64>,
        waker_kernel_stack: Seq<u64>,
    },
    Interval { pid: u32, tid: u32, start_ns: u64, end_ns: u64, spent: SpentView },
}

/// The event `e` stands for what the model says. The counters of a sample have their names,
/// so those behind them are left out.
pub open spec fn stands_for_event(v: BatchEventView, e: BatchEvent<'_>) -> bool {
    match (v, e) {
        (BatchEventView::Sample { pid, sample, counters }, BatchEvent::Sample(e)) => {
            &&& e.pid == pid
            &&& e.timestamp_ns == sample.timestamp_ns
            &&& e.tid == sample.tid
            &&& e.backtrace@ == sample.user_backtrace
            &&& e.kernel_backtrace@ == sample.kernel_backtrace
            &&& e.cycles == counters.cycles
            &&& e.instructions == counters.instructions
            &&& e.l1d_misses == counters.l1d_misses
            &&& e.branch_mispreds == counters.branch_mispreds
        },
        (
            BatchEventView::Wakeup {
                pid,
                timestamp_ns,
                waker_tid,
                wakee_tid,
                waker_user_stack,
                waker_kernel_stack,
            },
            BatchEvent::Wakeup(e),
        ) => {
            &&& e.pid == pid
            &&& e.timestamp_ns == timestamp_ns
            &&& e.waker_tid == waker_tid
            &&& e.wakee_tid == wakee_tid
            &&& e.waker_user_stack@ == waker_user_stack
            &&& e.waker_kernel_stack@ == waker_kernel_stack
        },
        (
            BatchEventView::Interval { pid, tid, start_ns, end_ns, spent },
            BatchEvent::Interval(e),
        ) => {
            &&& e.pid == pid
            &&& e.tid == tid
            &&& e.start_ns == start_ns
            &&& e.end_ns == end_ns
            &&& match (spent, e.kind) {
                (SpentView::OnCpu, CpuIntervalKind::OnCpu) => true,
                (
                    SpentView::OffCpu { stack, waker_tid, waker_user_stack },
                    CpuIntervalKind::OffCpu { stack: s, waker_tid: by, waker_user_stack: from },
                ) => {
                    &&& s@ == stack
                    &&& by == waker_tid
                    &&& match waker_user_stack {
                        Some(w) => from matches Some(f) && f@ == w,
                        None => from is None,
                    }
                },
                _ => false,
            }
        },
        _ => false,
    }
}

/// The events stand for what the models say, one by one.
pub open spec fn stand_for_events(v: Seq<BatchEventView>, e: Seq<BatchEvent<'_>>) -> bool {
    v.len() == e.len() && forall|i: int|
        0 <= i < v.len() ==> stands_for_event(v[i], #[trigger] e[i])
}

/// The samples among what records come to, as events. Those without a user stack are none.
pub open spec fn sample_events(pid: u32, out: Seq<OutputView>) -> Seq<BatchEventView>
    decreases out.len(),
{
    if out.len() == 0 {
        seq![]
    } else {
        let before = sample_events(pid, out.drop_last());
        match out.last() {
            OutputView::Sample { sample, event: Some(counters) } => before.push(
                BatchEventView::Sample { pid, sample, counters },
            ),
            _ => before,
        }
    }
}

/// A wakeup as an event.
pub open spec fn wakeup_view(pid: u32, w: PendingWakeup) -> BatchEventView {
    BatchEventView::Wakeup {
        pid,
        timestamp_ns: w.timestamp_ns,
        waker_tid: w.waker_tid,
        wakee_tid: w.wakee_tid,
        waker_user_stack: w.waker_user_stack@,
        waker_kernel_stack: w.waker_kernel_stack@,
    }
}

/// Wakeups as events.
pub open spec fn wakeup_events(pid: u32, ws: Seq<PendingWakeup>) -> Seq<BatchEventView> {
    ws.map_values(|w: PendingWakeup| wakeup_view(pid, w))
}

/// A stretch of time as an event. The stack in the kernel is left out.
pub open spec fn interval_view(pid: u32, i: PendingInterval) -> BatchEventView {
    BatchEventView::Interval {
        pid,
        tid: i.tid,
        start_ns: i.start_ns,
        end_ns: i.end_ns,
        spent: match i.kind {
            PendingKind::OnCpu => SpentView::OnCpu,
            PendingKind::OffCpu { user_stack, waker_tid, waker_user_stack, .. } => {
                SpentView::OffCpu {
                    stack: user_stack@,
                    waker_tid,
                    waker_user_stack: match waker_user_stack {
                        Some(s) => Some(s@),
                        None => None,
                    },
                }
            },
        },
    }
}

/// The stretches of time of threads that were sampled, as events.
pub open spec fn interval_events(
    pid: u32,
    seen: Seq<u32>,
    is: Seq<PendingInterval>,
) -> Seq<BatchEventView>
    decreases is.len(),
{
    if is.len() == 0 {
        seq![]
    } else {
        let before = interval_events(pid, seen, is.drop_last());
        if seen.contains(is.last().tid) {
            before.push(interval_view(pid, is.last()))
        } else {
            before
        }
    }
}

/// The events of a batch of records: its samples, then the wakeups that were tracked by its
/// end, then the stretches of time, of threads that were sampled by then.
pub open spec fn batch_event_views(
    pid: u32,
    seen: Seq<u32>,
    out: Seq<OutputView>,
    ws: Seq<PendingWakeup>,
    is: Seq<PendingInterval>,
) -> Seq<BatchEventView> {
    sample_events(pid, out) + wakeup_events(pid, ws) + interval_events(pid, seen, is)
}

/// The events of a batch of records that the pipeline has taken in: `outputs` is what they
/// came to, and the tracker of CPU intervals has given the wakeups and the stretches of time.
pub fn batch_events<'a>(
    pipeline: &Pipeline,
    outputs: &'a Vec<RecordOutput>,
    wakeups: &'a Vec<PendingWakeup>,
    intervals: &'a Vec<PendingInterval>,
) -> (events: Vec<BatchEvent<'a>>)
    ensures
        stand_for_events(
            batch_event_views(
                pipeline.config().pid,
                pipeline.seen().seen_tids,
                output_views(outputs@),
                wakeups@,
                intervals@,
            ),
            events@,
        ),
{
    let pid: u32 = pipeline.pid();
    let ghost seen = pipeline.seen().seen_tids;
    let ghost views = output_views(outputs@);
    let mut events: Vec<BatchEvent<'a>> = Vec::new();
    let ghost mut all: Seq<BatchEventView> = seq![];
    let mut k: usize = 0;
    assert(views.take(0) =~= seq![]);
    while k < outputs.len()
        invariant
            k <= outputs@.len(),
            views == output_views(outputs@),
            all == sample_events(pid, views.take(k as int)),
            stand_for_events(all, events@),
        decreases outputs@.len() - k,
    {
        proof {
            assert(views.take(k + 1).drop_last() =~= views.take(k as int));
            assert(views.take(k + 1).last() == outputs@[k as int]@);
        }
        match &outputs[k] {
            RecordOutput::Sample { sample, event: Some(counters) } => {
                events.push(BatchEvent::Sample(sample_event(pid, sample, *counters)));
                proof {
                    all = all.push(
                        BatchEventView::Sample { pid, sample: sample@, counters: *counters },
                    );
                }
            },
            _ => {},
        }
        k = k + 1;
    }
    assert(views.take(k as int) =~= views);
    let ghost samples = all;
    let mut k: usize = 0;
    assert(samples + wakeup_events(pid, wakeups@.take(0)) =~= samples);
    while k < wakeups.len()
        invariant
            k <= wakeups@.len(),
            all == samples + wakeup_events(pid, wakeups@.take(k as int)),
            stand_for_events(all, events@),
        decreases wakeups@.len() - k,
    {
        events.push(BatchEvent::Wakeup(wakeup_event(pid, &wakeups[k])));
        proof {
            let w = wakeups@[k as int];
            all = all.push(wakeup_view(pid, w));
            assert(all =~= samples + wakeup_events(pid, wakeups@.take(k + 1)));
        }
        k = k + 1;
    }
    assert(wakeups@.take(k as int) =~= wakeups@);
    let ghost led = all;
    let mut k: usize = 0;
    assert(intervals@.take(0) =~= seq![]);
    assert(led + interval_events(pid, seen, intervals@.take(0)) =~= led);
    while k < intervals.len()
        invariant
            k <= intervals@.len(),
            seen == pipeline.seen().seen_tids,
            all == led + interval_events(pid, seen, intervals@.take(k as int)),
            stand_for_events(all, events@),
        decreases intervals@.len() - k,
    {
        let ghost rest = interval_events(pid, seen, intervals@.take(k as int));
        proof {
            assert(intervals@.take(k + 1).drop_last() =~= intervals@.take(k as int));
            assert(intervals@.take(k + 1).last() == intervals@[k as int]);
        }
        if pipeline.forwards_interval(intervals[k].tid) {
            events.push(BatchEvent::Interval(interval_event(pid, &intervals[k])));
            proof {
                let v = interval_view(pid, intervals@[k as int]);
                assert(led + rest.push(v) =~= all.push(v));
                all = all.push(v);
            }
        }
        k = k + 1;
    }
    assert(intervals@.take(k as int) =~= intervals@);
    events
}

/// Where an event stands among those of a batch.
pub open spec fn event_rank(e: BatchEventView) -> int {
    match e {
        BatchEventView::Sample { .. } => 0,
        BatchEventView::Wakeup { .. } => 1,
        BatchEventView::Interval { .. } => 2,
    }
}

/// The samples among events have a user stack, and the counters of the sample.
proof fn lemma_sample_events(
    start: PipelineView,
    cfg: PipelineConfig,
    recs: Seq<KdBuf>,
    pid: u32,
)
    ensures
        forall|i: int|
            0 <= i < sample_events(pid, start.outputs(cfg, recs)).len() ==> (
            #[trigger] sample_events(pid, start.outputs(cfg, recs))[i] matches BatchEventView::Sample {
                sample,
                counters,
                ..
            } && sample.user_backtrace.len() > 0 && counters == counters_of(cfg, sample.pmc)),
    decreases recs.len(),
{
    if recs.len() > 0 {
        lemma_sample_events(start, cfg, recs.drop_last(), pid);
        let before = start.outputs(cfg, recs.drop_last());
        let out = start.outputs(cfg, recs);
        match start.after_all(recs.drop_last()).output(cfg, recs.last()) {
            Some(o) => {
                assert(out.drop_last() =~= before);
            },
            None => {},
        }
    }
}

/// The stretches of time among events are of threads that were sampled.
proof fn lemma_interval_events(pid: u32, seen: Seq<u32>, is: Seq<PendingInterval>)
    ensures
        forall|i: int|
            0 <= i < interval_events(pid, seen, is).len() ==> (#[trigger] interval_events(
                pid,
                seen,
                is,
            )[i] matches BatchEventView::Interval { tid, .. } && seen.contains(tid)),
    decreases is.len(),
{
    if is.len() > 0 {
        lemma_interval_events(pid, seen, is.drop_last());
    }
}

/// The law of a batch: its samples come before its wakeups, and these before its stretches of
/// time. Only samples with a user stack are events, with their own counters, and only
/// stretches of threads that were sampled are.
pub proof fn batches_keep_their_order(
    start: PipelineView,
    cfg: PipelineConfig,
    recs: Seq<KdBuf>,
    seen: Seq<u32>,
    ws: Seq<PendingWakeup>,
    is: Seq<PendingInterval>,
)
    ensures
        ({
            let events = batch_event_views(cfg.pid, seen, start.outputs(cfg, recs), ws, is);
            &&& forall|i: int, j: int|
                0 <= i < j < events.len() ==> event_rank(#[trigger] events[i]) <= event_rank(
                    #[trigger] events[j],
                )
            &&& forall|i: int|
                0 <= i < events.len() ==> match #[trigger] events[i] {
                    BatchEventView::Sample { sample, counters, .. } => sample.user_backtrace.len()
                        > 0 && counters == counters_of(cfg, sample.pmc),
                    BatchEventView::Interval { tid, .. } => seen.contains(tid),
                    BatchEventView::Wakeup { .. } => true,
                }
        }),
{
    lemma_sample_events(start, cfg, recs, cfg.pid);
    lemma_interval_events(cfg.pid, seen, is);
    let a = sample_events(cfg.pid, start.outputs(cfg, recs));
    let b = wakeup_events(cfg.pid, ws);
    let c = interval_events(cfg.pid, seen, is);
    let events = batch_event_views(cfg.pid, seen, start.outputs(cfg, recs), ws, is);
    assert forall|i: int| 0 <= i < events.len() implies #[trigger] events[i] == (if i < a.len() {
        a[i]
    } else if i < a.len() + b.len() {
        b[i - a.len()]
    } else {
        c[i - a.len() - b.len()]
    }) by {}
}

/// The law of samples: every one that is told of is in the batch, with its counters, in its order.
pub proof fn told_samples_are_in_the_batch(pid: u32, out: Seq<OutputView>)
    ensures
        sample_events(pid, out) == out.filter(
            |o: OutputView| o is Sample && o->event is Some,
        ).map_values(
            |o: OutputView|
                BatchEventView::Sample { pid, sample: o->sample, counters: o->event->0 },
        ),
    decreases out.len(),
{
    reveal(Seq::filter);
    let told = |o: OutputView| o is Sample && o->event is Some;
    let event = |o: OutputView|
        BatchEventView::Sample { pid, sample: o->sample, counters: o->event->0 };
    if out.len() > 0 {
        let init = out.drop_last();
        told_samples_are_in_the_batch(pid, init);
        assert(out.filter(told).map_values(event) =~= if told(out.last()) {
            init.filter(told).map_values(event).push(event(out.last()))
        } else {
            init.filter(told).map_values(event)
        });
    } else {
        assert(out.filter(told).map_values(event) =~= seq![]);
    }
}

/// The law of intervals: those of threads that were seen are in the batch, in their order, on the CPU
/// or off it as they were spent.
pub proof fn intervals_of_seen_threads_are_in_the_batch(
    pid: u32,
    seen: Seq<u32>,
    is: Seq<PendingInterval>,
)
    ensures
        interval_events(pid, seen, is) == is.filter(
            |i: PendingInterval| seen.contains(i.tid),
        ).map_values(
            |i: PendingInterval|
                BatchEventView::Interval {
                    pid,
                    tid: i.tid,
                    start_ns: i.start_ns,
                    end_ns: i.end_ns,
                    spent: if i.kind is OnCpu {
                        SpentView::OnCpu
                    } else {
                        SpentView::OffCpu {
                            stack: i.kind->user_stack@,
                            waker_tid: i.kind->waker_tid,
                            waker_user_stack: if i.kind->waker_user_stack is Some {
                                Some(i.kind->waker_user_stack->0@)
                            } else {
                                None
                            },
                        }
                    },
                },
        ),
    decreases is.len(),
{
    reveal(Seq::filter);
    let known = |i: PendingInterval| seen.contains(i.tid);
    let event = |i: PendingInterval|
        BatchEventView::Interval {
            pid,
            tid: i.tid,
            start_ns: i.start_ns,
            end_ns: i.end_ns,
            spent: if i.kind is OnCpu {
                SpentView::OnCpu
            } else {
                SpentView::OffCpu {
                    stack: i.kind->user_stack@,
                    waker_tid: i.kind->waker_tid,
                    waker_user_stack: if i.kind->waker_user_stack is Some {
                        Some(i.kind->waker_user_stack->0@)
                    } else {
                        None
                    },
                }
            },
        };
    if is.len() > 0 {
        let init = is.drop_last();
        intervals_of_seen_threads_are_in_the_batch(pid, seen, init);
        assert(is.filter(known).map_values(event) =~= if known(is.last()) {
            init.filter(known).map_values(event).push(event(is.last()))
        } else {
            init.filter(known).map_values(event)
        });
    } else {
        assert(is.filter(known).map_values(event) =~= seq![]);
    }
}

/// The law of batches: they hold the samples that are told of, then every wakeup, then the intervals.
pub proof fn batches_hold_all_events(
    pid: u32,
    seen: Seq<u32>,
    out: Seq<OutputView>,
    ws: Seq<PendingWakeup>,
    is: Seq<PendingInterval>,
    k: int,
)
    ensures
        ({
            let all = batch_event_views(pid, seen, out, ws, is);
            let n = out.filter(|o: OutputView| o is Sample && o->event is Some).len();
            &&& all.len() == n + ws.len() + is.filter(
                |i: PendingInterval| seen.contains(i.tid),
            ).len()
            &&& 0 <= k < ws.len() ==> all[n + k] == (BatchEventView::Wakeup {
                pid,
                timestamp_ns: ws[k].timestamp_ns,
                waker_tid: ws[k].waker_tid,
                wakee_tid: ws[k].wakee_tid,
                waker_user_stack: ws[k].waker_user_stack@,
                waker_kernel_stack: ws[k].waker_kernel_stack@,
            })
        }),
{
    told_samples_are_in_the_batch(pid, out);
    intervals_of_seen_threads_are_in_the_batch(pid, seen, is);
}

/// The law of samples that are told: an event of the batch shows all of its sample, both stacks whole
/// and all four counters.
pub proof fn told_samples_are_whole(
    pid: u32,
    sample: SampleView,
    counters: SampleCounters,
    e: BatchEvent<'_>,
)
    requires
        stands_for_event(BatchEventView::Sample { pid, sample, counters }, e),
    ensures
        e is Sample,
        ({
            let s = e->Sample_0;
            &&& s.pid == pid
            &&& s.tid == sample.tid
            &&& s.timestamp_ns == sample.timestamp_ns
            &&& s.backtrace@ == sample.user_backtrace
            &&& s.kernel_backtrace@ == sample.kernel_backtrace
            &&& s.cycles == counters.cycles
            &&& s.instructions == counters.instructions
            &&& s.l1d_misses == counters.l1d_misses
            &&& s.branch_mispreds == counters.branch_mispreds
        }),
{
}

/// The law of batches that are told: the events are as many as the batch holds, each in its place.
pub proof fn told_events_keep_their_place(v: Seq<BatchEventView>, e: Seq<BatchEvent<'_>>, i: int)
    requires
        stand_for_events(v, e),
        0 <= i < v.len(),
    ensures
        e.len() == v.len(),
        (e[i] is Sample) == (v[i] is Sample),
        (e[i] is Wakeup) == (v[i] is Wakeup),
        (e[i] is Interval) == (v[i] is Interval),
        v[i] is Interval ==> (e[i]->Interval_0).start_ns == v[i]->start_ns && (
        e[i]->Interval_0).end_ns == v[i]->end_ns && (e[i]->Interval_0).tid == v[i]->tid,
        v[i] is Wakeup ==> (e[i]->Wakeup_0).waker_tid == v[i]->waker_tid && (
        e[i]->Wakeup_0).wakee_tid == v[i]->wakee_tid,
{
    assert(stands_for_event(v[i], e[i]));
}

} // verus!
