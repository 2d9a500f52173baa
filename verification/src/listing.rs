//! Lists of single samples, intervals, wakers and threads.
use vstd::prelude::*;

use crate::aggregator::{
    interval_views, pet_views, thread_views, Aggregator, IntervalKind, IntervalRecord,
    IntervalView, KindView, PetSample, PetView, PmuSample, ThreadStats, ThreadView,
};
use crate::binaries::{opt_symbol, BinaryRegistry};
use crate::classify::{classify_offcpu, reason_of, OffCpuReason};
use crate::filter::{in_time_range, is_in_time_range, passes, passes_filter, LiveFilter};
use crate::interner::{
    extends, extends_transitive, interned, interning_goes_on, stands_for, stands_for_opt,
    stands_for_stays, texts, StringInterner,
};
use crate::offcpu::{
    off_cpu_total_proto, reason_adds_to_total, time_for, time_goes_to_its_reason, OffCpuBreakdown,
};
use crate::probe_timing::sat_add;
use crate::sort::{
    descending, descending_key, existing_order, goes_before, is_reordering, is_stable_order,
    order_lists_every_position, sort_by_keys, stable_order_gives_sorted, stable_sorted, NumKey, Order,
};
use crate::sums::{as_fits, sum_of};
use crate::symbol_groups::{classify, label_at, lemma_time_off, time_off};
use crate::text::opt_text;
use crate::timeline::{intervals_of, owned_intervals, since, OwnedInterval};

verus! {

/// The rows that a list holds at most.
pub const DRILLDOWN_ENTRY_CAP: usize = 10_000;

/// One interval off the CPU. Names are ids of a table of strings.
#[derive(Clone, Copy, Debug, PartialEq, Eq, Structural)]
pub struct IntervalEntry {
    pub tid: u32,
    pub start_ns: u64,
    pub duration_ns: u64,
    pub reason: OffCpuReason,
    pub waker_tid: Option<u32>,
    pub waker_address: Option<u64>,
    pub waker_function_name: Option<u32>,
    pub waker_binary: Option<u32>,
}

/// Intervals off the CPU with their table of strings, the latest first.
pub struct IntervalListUpdate {
    pub strings: Vec<String>,
    pub total_intervals: u64,
    pub total_duration_ns: u64,
    pub by_reason: OffCpuBreakdown,
    pub entries: Vec<IntervalEntry>,
}

/// The length of an interval.
pub open spec fn length_of(i: IntervalView) -> u64 {
    since(i.start_ns, i.end_ns)
}

/// The interval is listed: off the CPU, in range, without an excluded symbol on its stack,
/// and of some length.
pub open spec fn is_listed(
    f: LiveFilter,
    start: u64,
    bins: BinaryRegistry,
    i: IntervalView,
) -> bool {
    &&& i.kind matches KindView::OffCpu { stack, .. } && passes(f, start, bins, i.start_ns, stack)
    &&& length_of(i) > 0
}

/// The intervals that are listed.
pub open spec fn listed_intervals(
    f: LiveFilter,
    start: u64,
    bins: BinaryRegistry,
    is: Seq<OwnedInterval>,
) -> Seq<OwnedInterval>
    decreases is.len(),
{
    if is.len() == 0 {
        is
    } else if is_listed(f, start, bins, is.last().interval) {
        listed_intervals(f, start, bins, is.drop_last()).push(is.last())
    } else {
        listed_intervals(f, start, bins, is.drop_last())
    }
}

/// The law of the filter: an interval is listed exactly where it passes, so none that was spent
/// below an excluded symbol is.
pub proof fn only_passing_intervals_are_listed(
    f: LiveFilter,
    start: u64,
    bins: BinaryRegistry,
    is: Seq<OwnedInterval>,
    i: OwnedInterval,
)
    ensures
        listed_intervals(f, start, bins, is).contains(i) == (is.contains(i) && is_listed(
            f,
            start,
            bins,
            i.interval,
        )),
    decreases is.len(),
{
    if is.len() > 0 {
        let init = is.drop_last();
        only_passing_intervals_are_listed(f, start, bins, init, i);
        let before = listed_intervals(f, start, bins, init);
        let kept = listed_intervals(f, start, bins, is);
        if init.contains(i) {
            let k = choose|k: int| 0 <= k < init.len() && init[k] == i;
            assert(is[k] == i);
        }
        if is.contains(i) && !init.contains(i) {
            let k = choose|k: int| 0 <= k < is.len() && is[k] == i;
            if k < init.len() {
                assert(init[k] == i);
            }
        }
        if before.contains(i) {
            let k = choose|k: int| 0 <= k < before.len() && before[k] == i;
            assert(kept[k] == i);
        }
        if kept.contains(i) {
            let k = choose|k: int| 0 <= k < kept.len() && kept[k] == i;
            if k < before.len() {
                assert(before[k] == i);
            }
        }
        assert(is[is.len() - 1] == is.last());
        if is_listed(f, start, bins, is.last().interval) {
            assert(kept[kept.len() - 1] == is.last());
        }
    }
}

/// The name of the function at the first address of a stack.
pub open spec fn leaf_name(bins: BinaryRegistry, stack: Seq<u64>) -> Option<Seq<char>> {
    if stack.len() > 0 {
        match bins.symbol_at(stack[0]) {
            Some(s) => Some(s.function_name),
            None => None,
        }
    } else {
        None
    }
}

/// Why an interval was off the CPU.
pub open spec fn reason_for(bins: BinaryRegistry, i: IntervalView) -> OffCpuReason {
    match i.kind {
        KindView::OffCpu { stack, .. } => reason_of(leaf_name(bins, stack)),
        KindView::OnCpu => OffCpuReason::Other,
    }
}

/// The address that an interval was ended from, where the waker is known.
pub open spec fn waker_address_of(k: KindView) -> Option<u64> {
    match k {
        KindView::OffCpu { waker_tid: Some(_), waker_user_stack: Some(s), .. } => if s.len() > 0 {
            Some(s[0])
        } else {
            None
        },
        _ => None,
    }
}

/// The thread that ended an interval.
pub open spec fn waker_tid_of(k: KindView) -> Option<u32> {
    match k {
        KindView::OffCpu { waker_tid, .. } => waker_tid,
        KindView::OnCpu => None,
    }
}

/// The row shows the interval.
pub open spec fn shows_interval(
    e: IntervalEntry,
    strings: Seq<Seq<char>>,
    bins: BinaryRegistry,
    start: u64,
    i: OwnedInterval,
) -> bool {
    let waker = waker_address_of(i.interval.kind);
    let symbol = match waker {
        Some(a) => bins.symbol_at(a),
        None => None,
    };
    &&& e.tid == i.tid
    &&& e.start_ns == since(start, i.interval.start_ns)
    &&& e.duration_ns == length_of(i.interval)
    &&& e.reason == reason_for(bins, i.interval)
    &&& e.waker_tid == waker_tid_of(i.interval.kind)
    &&& e.waker_address == waker
    &&& stands_for_opt(
        strings,
        e.waker_function_name,
        match symbol {
            Some(s) => Some(s.function_name),
            None => None,
        },
    )
    &&& stands_for_opt(
        strings,
        e.waker_binary,
        match symbol {
            Some(s) => Some(s.binary),
            None => None,
        },
    )
}

/// The strings that the row of an interval names, in their order: the function that ended it and
/// its binary, where they are known.
pub open spec fn waker_texts(bins: BinaryRegistry, i: IntervalView) -> Seq<Seq<char>> {
    match waker_address_of(i.kind) {
        Some(a) => match bins.symbol_at(a) {
            Some(s) => seq![s.function_name, s.binary],
            None => seq![],
        },
        None => seq![],
    }
}

/// The strings that the rows of some intervals name, row by row.
pub open spec fn row_texts(bins: BinaryRegistry, is: Seq<OwnedInterval>) -> Seq<Seq<char>>
    decreases is.len(),
{
    if is.len() == 0 {
        seq![]
    } else {
        row_texts(bins, is.drop_last()) + waker_texts(bins, is.last().interval)
    }
}

/// The first of some intervals, as many as a list holds.
pub open spec fn first_rows(is: Seq<OwnedInterval>) -> Seq<OwnedInterval> {
    if is.len() < DRILLDOWN_ENTRY_CAP {
        is
    } else {
        is.take(DRILLDOWN_ENTRY_CAP as int)
    }
}

/// What the listed intervals add up to.
pub struct IntervalSums {
    pub count: u64,
    pub duration_ns: u64,
    pub by_reason: OffCpuBreakdown,
}

/// What some intervals add up to, at most what fits.
pub open spec fn interval_sums(bins: BinaryRegistry, is: Seq<OwnedInterval>) -> IntervalSums
    decreases is.len(),
{
    if is.len() == 0 {
        IntervalSums { count: 0, duration_ns: 0, by_reason: OffCpuBreakdown::none() }
    } else {
        let s = interval_sums(bins, is.drop_last());
        let i = is.last().interval;
        IntervalSums {
            count: sat_add(s.count, 1),
            duration_ns: sat_add(s.duration_ns, length_of(i)),
            by_reason: s.by_reason.plus_reason(reason_for(bins, i), length_of(i)),
        }
    }
}

/// The keys that list the latest first.
pub open spec fn latest_first(es: Seq<IntervalEntry>) -> Seq<NumKey> {
    es.map_values(|e: IntervalEntry| descending(e.start_ns))
}

/// The rows show the first of some intervals, as many as a list holds.
pub open spec fn shows_intervals(
    raw: Seq<IntervalEntry>,
    strings: Seq<Seq<char>>,
    bins: BinaryRegistry,
    start: u64,
    is: Seq<OwnedInterval>,
) -> bool {
    &&& raw.len() == if is.len() < DRILLDOWN_ENTRY_CAP {
        is.len() as int
    } else {
        DRILLDOWN_ENTRY_CAP as int
    }
    &&& forall|k: int|
        0 <= k < raw.len() ==> shows_interval(#[trigger] raw[k], strings, bins, start, is[k])
}

/// `u` lists the intervals of a recording that pass the filter: sums over all of
/// them, rows of the first ones, the latest of these first. The table holds what the rows name
/// before they are sorted.
pub open spec fn is_interval_list(
    is: Seq<OwnedInterval>,
    start: u64,
    bins: BinaryRegistry,
    f: LiveFilter,
    u: IntervalListUpdate,
) -> bool {
    let kept = listed_intervals(f, start, bins, is);
    let sums = interval_sums(bins, kept);
    let strings = texts(u.strings@);
    &&& strings.no_duplicates()
    &&& strings == interned(seq![], row_texts(bins, first_rows(kept)))
    &&& u.total_intervals == sums.count
    &&& u.total_duration_ns == sums.duration_ns
    &&& u.by_reason == sums.by_reason
    &&& exists|raw: Seq<IntervalEntry>| #[trigger]
        shows_intervals(raw, strings, bins, start, kept) && u.entries@ == stable_sorted(
            latest_first(raw),
            raw,
        )
}

/// The sums over intervals agree.
proof fn lemma_reasons_add_up(bins: BinaryRegistry, is: Seq<OwnedInterval>)
    ensures
        interval_sums(bins, is).by_reason.total() == interval_sums(bins, is).duration_ns,
    decreases is.len(),
{
    if is.len() > 0 {
        let i = is.last().interval;
        lemma_reasons_add_up(bins, is.drop_last());
        reason_adds_to_total(
            interval_sums(bins, is.drop_last()).by_reason,
            reason_for(bins, i),
            length_of(i),
        );
    }
}

/// The law of reasons: the time over all reasons is the time of all intervals.
pub proof fn reasons_add_up(
    is: Seq<OwnedInterval>,
    start: u64,
    bins: BinaryRegistry,
    f: LiveFilter,
    u: IntervalListUpdate,
)
    requires
        is_interval_list(is, start, bins, f, u),
    ensures
        u.by_reason.total() == u.total_duration_ns,
{
    lemma_reasons_add_up(bins, listed_intervals(f, start, bins, is));
}

/// A list of intervals under construction.
struct IntervalScan {
    interner: StringInterner,
    count: u64,
    duration_ns: u64,
    by_reason: OffCpuBreakdown,
    entries: Vec<IntervalEntry>,
}

impl IntervalScan {
    /// The scan has been over some intervals.
    spec fn covers(
        self,
        is: Seq<OwnedInterval>,
        start: u64,
        bins: BinaryRegistry,
        f: LiveFilter,
    ) -> bool {
        let kept = listed_intervals(f, start, bins, is);
        let sums = interval_sums(bins, kept);
        &&& self.interner.wf()
        &&& self.interner.table() == interned(seq![], row_texts(bins, first_rows(kept)))
        &&& self.count == sums.count
        &&& self.duration_ns == sums.duration_ns
        &&& self.by_reason == sums.by_reason
        &&& shows_intervals(self.entries@, self.interner.table(), bins, start, kept)
    }

    /// Scans one more interval.
    fn add_interval(
        &mut self,
        tid: u32,
        i: &IntervalRecord,
        start: u64,
        bins: &BinaryRegistry,
        filter: &LiveFilter,
        Ghost(is): Ghost<Seq<OwnedInterval>>,
    )
        requires
            bins.wf(),
            old(self).covers(is, start, *bins, *filter),
        ensures
            final(self).covers(
                is.push(OwnedInterval { tid, interval: i@ }),
                start,
                *bins,
                *filter,
            ),
    {
        let ghost item = OwnedInterval { tid, interval: i@ };
        let ghost next = is.push(item);
        let ghost kept = listed_intervals(*filter, start, *bins, is);
        proof {
            assert(next.drop_last() =~= is);
            assert(next.last() == item);
        }
        match &i.kind {
            IntervalKind::OnCpu => {},
            IntervalKind::OffCpu { stack, waker_tid, waker_user_stack } => {
                let length: u64 = i.end_ns.saturating_sub(i.start_ns);
                if passes_filter(filter, start, bins, i.start_ns, stack.as_slice()) && length > 0 {
                    let leaf: Option<String> = if stack.len() > 0 {
                        match bins.lookup_symbol(stack[0]) {
                            Some(s) => {
                                assert(bins.symbol_at(stack@[0]) == Some(s@));
                                Some(s.function_name)
                            },
                            None => None,
                        }
                    } else {
                        None
                    };
                    let reason = classify_offcpu(
                        match &leaf {
                            Some(n) => Some(n.as_str()),
                            None => None,
                        },
                    );
                    proof {
                        assert(opt_text(leaf) == leaf_name(*bins, stack@));
                        assert(reason == reason_for(*bins, i@));
                        assert(kept.push(item).drop_last() =~= kept);
                        if kept.len() >= DRILLDOWN_ENTRY_CAP {
                            assert(first_rows(kept.push(item)) =~= first_rows(kept));
                        }
                    }
                    self.count = self.count.saturating_add(1);
                    self.duration_ns = self.duration_ns.saturating_add(length);
                    self.by_reason.add_reason(reason, length);
                    if self.entries.len() < DRILLDOWN_ENTRY_CAP {
                        let ghost t0 = self.interner.table();
                        let waker_address: Option<u64> = match (waker_tid, waker_user_stack) {
                            (Some(_), Some(s)) => if s.len() > 0 {
                                Some(s[0])
                            } else {
                                None
                            },
                            _ => None,
                        };
                        assert(waker_address == waker_address_of(i@.kind));
                        let symbol = match waker_address {
                            Some(a) => bins.lookup_symbol(a),
                            None => None,
                        };
                        let ghost found = opt_symbol(symbol);
                        let (waker_function_name, waker_binary) = match symbol {
                            Some(s) => {
                                let f: u32 = self.interner.intern_str(s.function_name.as_str());
                                let ghost t1 = self.interner.table();
                                let b: u32 = self.interner.intern_str(s.binary.as_str());
                                let ghost t2 = self.interner.table();
                                proof {
                                    extends_transitive(t0, t1, t2);
                                    stands_for_stays(t1, t2, f, s.function_name@);
                                }
                                (Some(f), Some(b))
                            },
                            None => {
                                assert(t0.take(t0.len() as int) =~= t0);
                                (None, None)
                            },
                        };
                        let ghost t2 = self.interner.table();
                        proof {
                            let named = row_texts(*bins, kept);
                            let added = waker_texts(*bins, i@);
                            match found {
                                Some(s) => {
                                    interning_goes_on(t0, seq![s.function_name], seq![s.binary]);
                                    assert(seq![s.function_name] + seq![s.binary] =~= added);
                                },
                                None => {},
                            }
                            interning_goes_on(seq![], named, added);
                            if kept.len() + 1 == DRILLDOWN_ENTRY_CAP {
                                assert(first_rows(kept.push(item)) =~= kept.push(item));
                            }
                        }
                        let entry = IntervalEntry {
                            tid,
                            start_ns: i.start_ns.saturating_sub(start),
                            duration_ns: length,
                            reason,
                            waker_tid: *waker_tid,
                            waker_address,
                            waker_function_name,
                            waker_binary,
                        };
                        proof {
                            assert(shows_interval(entry, t2, *bins, start, item));
                            assert forall|k: int| 0 <= k < self.entries@.len() implies shows_interval(
                                #[trigger] self.entries@[k],
                                t2,
                                *bins,
                                start,
                                kept[k],
                            ) by {
                                shown_interval_stays(
                                    self.entries@[k],
                                    t0,
                                    t2,
                                    *bins,
                                    start,
                                    kept[k],
                                );
                            }
                        }
                        self.entries.push(entry);
                    }
                }
            },
        }
    }
}

/// A row shows its interval also when strings are added to the table.
proof fn shown_interval_stays(
    e: IntervalEntry,
    a: Seq<Seq<char>>,
    b: Seq<Seq<char>>,
    bins: BinaryRegistry,
    start: u64,
    i: OwnedInterval,
)
    requires
        shows_interval(e, a, bins, start, i),
        extends(a, b),
    ensures
        shows_interval(e, b, bins, start, i),
{
    let symbol = match waker_address_of(i.interval.kind) {
        Some(x) => bins.symbol_at(x),
        None => None,
    };
    if e.waker_function_name is Some {
        stands_for_stays(a, b, e.waker_function_name.unwrap(), symbol.unwrap().function_name);
    }
    if e.waker_binary is Some {
        stands_for_stays(a, b, e.waker_binary.unwrap(), symbol.unwrap().binary);
    }
}

/// Lists the intervals off the CPU of the thread `tid`, or of all threads, that pass the
/// filter.
pub fn build_intervals_update(
    agg: &Aggregator,
    bins: &BinaryRegistry,
    tid: Option<u32>,
    filter: &LiveFilter,
) -> (u: IntervalListUpdate)
    requires
        bins.wf(),
    ensures
        is_interval_list(
            intervals_of(agg.threads(), tid),
            match agg.start() {
                Some(s) => s,
                None => 0,
            },
            *bins,
            *filter,
            u,
        ),
{
    let start: u64 = match agg.session_start_ns() {
        Some(s) => s,
        None => 0,
    };
    let threads = agg.thread_list();
    let ghost views = thread_views(threads@);
    let mut scan = IntervalScan {
        interner: StringInterner::new(),
        count: 0,
        duration_ns: 0,
        by_reason: OffCpuBreakdown::default(),
        entries: Vec::new(),
    };
    let mut t: usize = 0;
    assert(views.take(0) =~= seq![]);
    while t < threads.len()
        invariant
            bins.wf(),
            t <= threads@.len(),
            views == thread_views(threads@),
            scan.covers(intervals_of(views.take(t as int), tid), start, *bins, *filter),
        decreases threads@.len() - t,
    {
        let th = &threads[t];
        let ghost before = intervals_of(views.take(t as int), tid);
        proof {
            assert(views.take(t + 1).drop_last() =~= views.take(t as int));
            assert(views.take(t + 1).last() == th@);
        }
        let wanted = match tid {
            Some(want) => th.tid == want,
            None => true,
        };
        if wanted {
            let ghost own = owned_intervals(th@);
            let mut k: usize = 0;
            assert(before + own.take(0) =~= before);
            while k < th.intervals.len()
                invariant
                    bins.wf(),
                    k <= th.intervals@.len(),
                    own == owned_intervals(th@),
                    scan.covers(before + own.take(k as int), start, *bins, *filter),
                decreases th.intervals@.len() - k,
            {
                scan.add_interval(
                    th.tid,
                    &th.intervals[k],
                    start,
                    bins,
                    filter,
                    Ghost(before + own.take(k as int)),
                );
                proof {
                    assert(own[k as int] == OwnedInterval {
                        tid: th.tid,
                        interval: th.intervals@[k as int]@,
                    });
                    assert(before + own.take(k + 1) =~= (before + own.take(k as int)).push(
                        own[k as int],
                    ));
                }
                k = k + 1;
            }
            assert(own.take(k as int) =~= own);
        }
        t = t + 1;
    }
    assert(views.take(t as int) =~= views);
    let IntervalScan { interner, count, duration_ns, by_reason, entries } = scan;
    let ghost raw = entries@;
    let ghost table = interner.table();
    proof {
        interner.lemma_wf();
    }
    let mut keys: Vec<NumKey> = Vec::new();
    let mut i: usize = 0;
    while i < entries.len()
        invariant
            i <= entries@.len(),
            keys@ == latest_first(entries@.take(i as int)),
        decreases entries@.len() - i,
    {
        keys.push(descending_key(entries[i].start_ns));
        i = i + 1;
        assert(keys@ =~= latest_first(entries@.take(i as int)));
    }
    assert(entries@.take(i as int) =~= entries@);
    let entries = sort_by_keys(entries, &keys);
    let u = IntervalListUpdate {
        strings: interner.into_strings(),
        total_intervals: count,
        total_duration_ns: duration_ns,
        by_reason,
        entries,
    };
    assert(shows_intervals(
        raw,
        texts(u.strings@),
        *bins,
        start,
        listed_intervals(*filter, start, *bins, intervals_of(views, tid)),
    ));
    u
}

/// One sample.
#[derive(Clone, Copy, Debug, PartialEq, Eq, Structural)]
pub struct PetSampleEntry {
    pub tid: u32,
    pub timestamp_ns: u64,
    pub cycles: u64,
    pub instructions: u64,
    pub l1d_misses: u64,
    pub branch_mispreds: u64,
}

/// Samples, the latest first.
pub struct PetSampleListUpdate {
    pub total_samples: u64,
    pub entries: Vec<PetSampleEntry>,
}

/// A sample and the thread that it belongs to.
pub struct OwnedSample {
    pub tid: u32,
    pub sample: PetView,
}

/// The samples of a thread.
pub open spec fn owned_samples(t: ThreadView) -> Seq<OwnedSample> {
    t.pets.map_values(|p: PetView| OwnedSample { tid: t.tid, sample: p })
}

/// The samples of the thread `tid`, or of all threads, thread by thread.
pub open spec fn samples_of(ts: Seq<ThreadView>, tid: Option<u32>) -> Seq<OwnedSample>
    decreases ts.len(),
{
    if ts.len() == 0 {
        seq![]
    } else {
        let before = samples_of(ts.drop_last(), tid);
        if tid is None || tid == Some(ts.last().tid) {
            before + owned_samples(ts.last())
        } else {
            before
        }
    }
}

/// The rows of the samples in range.
pub open spec fn sample_rows(f: LiveFilter, start: u64, ss: Seq<OwnedSample>) -> Seq<PetSampleEntry>
    decreases ss.len(),
{
    if ss.len() == 0 {
        seq![]
    } else {
        let before = sample_rows(f, start, ss.drop_last());
        let s = ss.last();
        if in_time_range(f.time_range, start, s.sample.timestamp_ns) {
            before.push(
                PetSampleEntry {
                    tid: s.tid,
                    timestamp_ns: since(start, s.sample.timestamp_ns),
                    cycles: s.sample.pmc.cycles,
                    instructions: s.sample.pmc.instructions,
                    l1d_misses: s.sample.pmc.l1d_misses,
                    branch_mispreds: s.sample.pmc.branch_mispreds,
                },
            )
        } else {
            before
        }
    }
}

/// The keys that list the latest first.
pub open spec fn latest_samples_first(es: Seq<PetSampleEntry>) -> Seq<NumKey> {
    es.map_values(|e: PetSampleEntry| descending(e.timestamp_ns))
}

/// `n`, at most what fits.
pub open spec fn clamp_count(n: nat) -> u64 {
    if n > u64::MAX {
        u64::MAX
    } else {
        n as u64
    }
}

/// Lists the samples of the thread `tid`, or of all threads: their number, and the
/// first ones in range, the latest of these first.
pub fn build_pet_samples_update(agg: &Aggregator, tid: Option<u32>, filter: &LiveFilter) -> (u:
    PetSampleListUpdate)
    ensures
        ({
            let start = match agg.start() {
                Some(s) => s,
                None => 0,
            };
            let rows = sample_rows(*filter, start, samples_of(agg.threads(), tid));
            let shown = crate::probe_diff::first_n(rows, DRILLDOWN_ENTRY_CAP);
            &&& u.total_samples == clamp_count(rows.len())
            &&& u.entries@ == stable_sorted(latest_samples_first(shown), shown)
        }),
{
    let start: u64 = match agg.session_start_ns() {
        Some(s) => s,
        None => 0,
    };
    let threads = agg.thread_list();
    let ghost views = thread_views(threads@);
    let mut total: u64 = 0;
    let mut entries: Vec<PetSampleEntry> = Vec::new();
    let mut t: usize = 0;
    assert(views.take(0) =~= seq![]);
    while t < threads.len()
        invariant
            t <= threads@.len(),
            views == thread_views(threads@),
            total == clamp_count(
                sample_rows(*filter, start, samples_of(views.take(t as int), tid)).len(),
            ),
            entries@ == crate::probe_diff::first_n(
                sample_rows(*filter, start, samples_of(views.take(t as int), tid)),
                DRILLDOWN_ENTRY_CAP,
            ),
        decreases threads@.len() - t,
    {
        let th = &threads[t];
        let ghost before = samples_of(views.take(t as int), tid);
        proof {
            assert(views.take(t + 1).drop_last() =~= views.take(t as int));
            assert(views.take(t + 1).last() == th@);
        }
        let wanted = match tid {
            Some(want) => th.tid == want,
            None => true,
        };
        if wanted {
            let ghost own = owned_samples(th@);
            let mut k: usize = 0;
            assert(before + own.take(0) =~= before);
            while k < th.pet_samples.len()
                invariant
                    k <= th.pet_samples@.len(),
                    own == owned_samples(th@),
                    total == clamp_count(
                        sample_rows(*filter, start, before + own.take(k as int)).len(),
                    ),
                    entries@ == crate::probe_diff::first_n(
                        sample_rows(*filter, start, before + own.take(k as int)),
                        DRILLDOWN_ENTRY_CAP,
                    ),
                decreases th.pet_samples@.len() - k,
            {
                let s = &th.pet_samples[k];
                let ghost seen = before + own.take(k as int);
                let ghost rows = sample_rows(*filter, start, seen);
                proof {
                    assert(own[k as int] == OwnedSample { tid: th.tid, sample: s@ });
                    assert(before + own.take(k + 1) =~= seen.push(own[k as int]));
                    assert(seen.push(own[k as int]).drop_last() =~= seen);
                }
                if is_in_time_range(&filter.time_range, start, s.timestamp_ns) {
                    total = total.saturating_add(1);
                    let entry = PetSampleEntry {
                        tid: th.tid,
                        timestamp_ns: s.timestamp_ns.saturating_sub(start),
                        cycles: s.pmc.cycles,
                        instructions: s.pmc.instructions,
                        l1d_misses: s.pmc.l1d_misses,
                        branch_mispreds: s.pmc.branch_mispreds,
                    };
                    let ghost held = entries@;
                    if entries.len() < DRILLDOWN_ENTRY_CAP {
                        entries.push(entry);
                    }
                    assert(entries@ =~= crate::probe_diff::first_n(
                        rows.push(entry),
                        DRILLDOWN_ENTRY_CAP,
                    ));
                }
                k = k + 1;
            }
            assert(own.take(k as int) =~= own);
        }
        t = t + 1;
    }
    assert(views.take(t as int) =~= views);
    let mut keys: Vec<NumKey> = Vec::new();
    let mut i: usize = 0;
    while i < entries.len()
        invariant
            i <= entries@.len(),
            keys@ == latest_samples_first(entries@.take(i as int)),
        decreases entries@.len() - i,
    {
        keys.push(descending_key(entries[i].timestamp_ns));
        i = i + 1;
        assert(keys@ =~= latest_samples_first(entries@.take(i as int)));
    }
    assert(entries@.take(i as int) =~= entries@);
    let entries = sort_by_keys(entries, &keys);
    PetSampleListUpdate { total_samples: total, entries }
}

/// How often one place woke a thread.
#[derive(Clone, Copy, Debug, PartialEq, Eq, Structural)]
pub struct WakerCount {
    pub waker_tid: u32,
    pub waker_leaf_address: u64,
    pub count: u64,
}

/// How often one place woke a thread, with its names.
pub struct WakerEntry {
    pub waker_tid: u32,
    pub waker_address: u64,
    pub waker_function_name: Option<String>,
    pub waker_binary: Option<String>,
    pub language: String,
    pub count: u64,
}

/// The places that woke a thread.
pub struct WakersUpdate {
    pub wakee_tid: u32,
    pub total_wakeups: u64,
    pub entries: Vec<WakerEntry>,
}

/// The row shows the place.
pub open spec fn shows_waker(e: WakerEntry, bins: BinaryRegistry, w: WakerCount) -> bool {
    let label = label_at(bins, w.waker_leaf_address);
    &&& e.waker_tid == w.waker_tid
    &&& e.waker_address == w.waker_leaf_address
    &&& opt_text(e.waker_function_name) == (match label.name {
        Some(n) => Some(n.0),
        None => None,
    })
    &&& opt_text(e.waker_binary) == (match label.name {
        Some(n) => Some(n.1),
        None => None,
    })
    &&& e.language@ == label.language
    &&& e.count == w.count
}

/// The wakeups over some places, at most what fits.
pub open spec fn wakeups(ws: Seq<WakerCount>) -> u64
    decreases ws.len(),
{
    if ws.len() == 0 {
        0
    } else {
        sat_add(wakeups(ws.drop_last()), ws.last().count)
    }
}

/// Names the places that woke the thread `wakee_tid`, in the order given.
pub fn build_wakers_update(bins: &BinaryRegistry, wakee_tid: u32, raw: &Vec<WakerCount>) -> (u:
    WakersUpdate)
    requires
        bins.wf(),
    ensures
        u.wakee_tid == wakee_tid,
        u.total_wakeups == wakeups(raw@),
        u.entries@.len() == raw@.len(),
        forall|i: int| 0 <= i < raw@.len() ==> shows_waker(#[trigger] u.entries@[i], *bins, raw@[i]),
{
    let mut total: u64 = 0;
    let mut entries: Vec<WakerEntry> = Vec::new();
    let mut i: usize = 0;
    assert(raw@.take(0) =~= seq![]);
    while i < raw.len()
        invariant
            bins.wf(),
            i <= raw@.len(),
            total == wakeups(raw@.take(i as int)),
            entries@.len() == i,
            forall|k: int| 0 <= k < i ==> shows_waker(#[trigger] entries@[k], *bins, raw@[k]),
        decreases raw@.len() - i,
    {
        let w = raw[i];
        proof {
            assert(raw@.take(i + 1).drop_last() =~= raw@.take(i as int));
            assert(raw@.take(i + 1).last() == w);
        }
        total = total.saturating_add(w.count);
        let label = classify(bins, w.waker_leaf_address);
        let ghost lv = label@;
        let (waker_function_name, waker_binary) = match label.name {
            Some(n) => (Some(n.function_name), Some(n.binary)),
            None => (None, None),
        };
        entries.push(
            WakerEntry {
                waker_tid: w.waker_tid,
                waker_address: w.waker_leaf_address,
                waker_function_name,
                waker_binary,
                language: label.language,
                count: w.count,
            },
        );
        i = i + 1;
    }
    assert(raw@.take(i as int) =~= raw@);
    WakersUpdate { wakee_tid, total_wakeups: total, entries }
}

/// One thread with its time on and off the CPU.
pub struct ThreadInfo {
    pub tid: u32,
    pub name: Option<String>,
    pub on_cpu_ns: u64,
    pub off_cpu: OffCpuBreakdown,
    pub pet_samples: u64,
}

/// The threads of a recording.
pub struct ThreadsUpdate {
    pub threads: Vec<ThreadInfo>,
}

/// The keys that list the busiest thread first.
pub open spec fn busiest_first(ts: Seq<ThreadInfo>) -> Seq<NumKey> {
    ts.map_values(|t: ThreadInfo| descending(sat_add(t.on_cpu_ns, t.off_cpu.total())))
}

/// Lists threads by their time on and off the CPU, the longest first.
pub fn build_threads_update(threads: Vec<ThreadInfo>) -> (u: ThreadsUpdate)
    ensures
        u.threads@ == stable_sorted(busiest_first(threads@), threads@),
{
    let mut keys: Vec<NumKey> = Vec::new();
    let mut i: usize = 0;
    while i < threads.len()
        invariant
            i <= threads@.len(),
            keys@ == busiest_first(threads@.take(i as int)),
        decreases threads@.len() - i,
    {
        let t = &threads[i];
        keys.push(descending_key(t.on_cpu_ns.saturating_add(off_cpu_total_proto(&t.off_cpu))));
        i = i + 1;
        assert(keys@ =~= busiest_first(threads@.take(i as int)));
    }
    assert(threads@.take(i as int) =~= threads@);
    ThreadsUpdate { threads: sort_by_keys(threads, &keys) }
}

/// The law of listed intervals: of those off the CPU, the ones that pass the filter and end behind
/// their start are listed, in their order.
pub proof fn listed_intervals_are_those_that_pass(
    f: LiveFilter,
    start: u64,
    bins: BinaryRegistry,
    is: Seq<OwnedInterval>,
)
    ensures
        listed_intervals(f, start, bins, is) == is.filter(
            |i: OwnedInterval|
                i.interval.kind is OffCpu && i.interval.end_ns > i.interval.start_ns && passes(
                    f,
                    start,
                    bins,
                    i.interval.start_ns,
                    i.interval.kind->stack,
                ),
        ),
    decreases is.len(),
{
    reveal(Seq::filter);
    if is.len() > 0 {
        listed_intervals_are_those_that_pass(f, start, bins, is.drop_last());
    }
}

/// The lengths of some intervals.
pub open spec fn lengths(is: Seq<OwnedInterval>) -> Seq<int> {
    is.map_values(|i: OwnedInterval| i.interval.end_ns - i.interval.start_ns)
}

/// The lengths of the intervals with one reason: that of the function at the first address of their
/// stack.
pub open spec fn lengths_for(bins: BinaryRegistry, is: Seq<OwnedInterval>, reason: OffCpuReason) -> Seq<
    int,
> {
    is.map_values(
        |i: OwnedInterval|
            if reason_of(
                if i.interval.kind->stack.len() > 0 && bins.symbol_at(
                    i.interval.kind->stack[0],
                ) is Some {
                    Some(bins.symbol_at(i.interval.kind->stack[0])->0.function_name)
                } else {
                    None
                },
            ) == reason {
                i.interval.end_ns - i.interval.start_ns
            } else {
                0
            },
    )
}

/// The intervals are off the CPU and end behind their start.
pub open spec fn are_off_cpu(is: Seq<OwnedInterval>) -> bool {
    forall|k: int|
        0 <= k < is.len() ==> (#[trigger] is[k]).interval.kind is OffCpu && is[k].interval.end_ns
            > is[k].interval.start_ns
}

proof fn lemma_interval_sums(bins: BinaryRegistry, is: Seq<OwnedInterval>, reason: OffCpuReason)
    requires
        are_off_cpu(is),
    ensures
        interval_sums(bins, is).count == as_fits(is.len() as int),
        interval_sums(bins, is).duration_ns == as_fits(sum_of(lengths(is))),
        time_for(interval_sums(bins, is).by_reason, reason) == as_fits(
            sum_of(lengths_for(bins, is, reason)),
        ),
        sum_of(lengths(is)) >= 0,
        sum_of(lengths_for(bins, is, reason)) >= 0,
    decreases is.len(),
{
    if is.len() == 0 {
        assert(lengths(is) =~= seq![]);
        assert(lengths_for(bins, is, reason) =~= seq![]);
    } else {
        let init = is.drop_last();
        assert forall|k: int| 0 <= k < init.len() implies (
        #[trigger] init[k]).interval.kind is OffCpu && init[k].interval.end_ns
            > init[k].interval.start_ns by {
            assert(init[k] == is[k]);
        }
        let i = is[is.len() - 1].interval;
        assert(i.kind is OffCpu && i.end_ns > i.start_ns);
        lemma_interval_sums(bins, init, reason);
        assert(lengths(is).drop_last() =~= lengths(init));
        assert(lengths_for(bins, is, reason).drop_last() =~= lengths_for(bins, init, reason));
        time_goes_to_its_reason(
            interval_sums(bins, init).by_reason,
            reason_for(bins, i),
            length_of(i),
            reason,
        );
    }
}

/// The law of sums: a list of intervals counts every one that is listed, and adds up their lengths,
/// over all of them and reason by reason, at most what fits.
pub proof fn lists_count_every_interval(
    is: Seq<OwnedInterval>,
    start: u64,
    bins: BinaryRegistry,
    f: LiveFilter,
    u: IntervalListUpdate,
    reason: OffCpuReason,
)
    requires
        is_interval_list(is, start, bins, f, u),
    ensures
        ({
            let kept = listed_intervals(f, start, bins, is);
            &&& u.total_intervals == as_fits(kept.len() as int)
            &&& u.total_duration_ns == as_fits(sum_of(lengths(kept)))
            &&& time_for(u.by_reason, reason) == as_fits(sum_of(lengths_for(bins, kept, reason)))
        }),
{
    let kept = listed_intervals(f, start, bins, is);
    assert forall|k: int| 0 <= k < kept.len() implies (#[trigger] kept[k]).interval.kind is OffCpu
        && kept[k].interval.end_ns > kept[k].interval.start_ns by {
        only_passing_intervals_are_listed(f, start, bins, is, kept[k]);
        assert(kept.contains(kept[k]));
    }
    lemma_interval_sums(bins, kept, reason);
}

/// The law of rows: each shows one of the first listed intervals, with its thread, its start from that
/// of the recording, its length, and who ended it.
pub proof fn interval_rows_show_their_interval(
    is: Seq<OwnedInterval>,
    start: u64,
    bins: BinaryRegistry,
    f: LiveFilter,
    u: IntervalListUpdate,
    r: int,
) -> (k: int)
    requires
        is_interval_list(is, start, bins, f, u),
        0 <= r < u.entries@.len(),
    ensures
        u.entries@.len() <= 10_000,
        u.entries@.len() == listed_intervals(f, start, bins, is).len() || u.entries@.len() == 10_000,
        0 <= k < u.entries@.len(),
        ({
            let i = listed_intervals(f, start, bins, is)[k];
            let e = u.entries@[r];
            &&& e.tid == i.tid
            &&& start <= i.interval.start_ns ==> start + e.start_ns == i.interval.start_ns
            &&& i.interval.start_ns + e.duration_ns == i.interval.end_ns
            &&& i.interval.kind is OffCpu
            &&& e.waker_tid == i.interval.kind->waker_tid
            &&& e.waker_address is Some ==> i.interval.kind->waker_tid is Some
                && i.interval.kind->waker_user_stack is Some
                && i.interval.kind->waker_user_stack->0.len() > 0 && e.waker_address
                == Some(i.interval.kind->waker_user_stack->0[0])
            &&& i.interval.kind->waker_tid is Some && i.interval.kind->waker_user_stack is Some
                && i.interval.kind->waker_user_stack->0.len() > 0 ==> e.waker_address is Some
            &&& e.reason == reason_of(
                if i.interval.kind->stack.len() > 0 && bins.symbol_at(
                    i.interval.kind->stack[0],
                ) is Some {
                    Some(bins.symbol_at(i.interval.kind->stack[0])->0.function_name)
                } else {
                    None
                },
            )
        }),
{
    let kept = listed_intervals(f, start, bins, is);
    let strings = texts(u.strings@);
    let raw = choose|raw: Seq<IntervalEntry>| #[trigger]
        shows_intervals(raw, strings, bins, start, kept) && u.entries@ == stable_sorted(
            latest_first(raw),
            raw,
        );
    let keys = latest_first(raw);
    let order = existing_order(keys);
    stable_order_gives_sorted(keys, raw, order);
    let k = order[r] as int;
    assert(order[r] < keys.len());
    assert(shows_interval(raw[k], strings, bins, start, kept[k]));
    only_passing_intervals_are_listed(f, start, bins, is, kept[k]);
    assert(kept.contains(kept[k]));
    k
}

/// The law of order: of the intervals shown, the latest come first.
pub proof fn latest_intervals_come_first(
    is: Seq<OwnedInterval>,
    start: u64,
    bins: BinaryRegistry,
    f: LiveFilter,
    u: IntervalListUpdate,
    i: int,
    j: int,
)
    requires
        is_interval_list(is, start, bins, f, u),
        0 <= i < j < u.entries@.len(),
    ensures
        u.entries@[i].start_ns >= u.entries@[j].start_ns,
{
    let kept = listed_intervals(f, start, bins, is);
    let strings = texts(u.strings@);
    let raw = choose|raw: Seq<IntervalEntry>| #[trigger]
        shows_intervals(raw, strings, bins, start, kept) && u.entries@ == stable_sorted(
            latest_first(raw),
            raw,
        );
    let keys = latest_first(raw);
    let order = existing_order(keys);
    stable_order_gives_sorted(keys, raw, order);
    assert(goes_before(keys, order[i] as int, order[j] as int));
    assert(order[i] < keys.len() && order[j] < keys.len());
    assert(keys[order[i] as int].first == u64::MAX - raw[order[i] as int].start_ns);
    assert(keys[order[j] as int].first == u64::MAX - raw[order[j] as int].start_ns);
}

/// The law of samples: a list shows the samples of every thread that is asked for, in their order.
pub proof fn every_sample_of_the_threads_counts(ts: Seq<ThreadView>, tid: Option<u32>)
    ensures
        samples_of(ts, tid) == ts.filter(
            |t: ThreadView| tid is None || tid->0 == t.tid,
        ).map_values(
            |t: ThreadView|
                t.pets.map_values(|p: PetView| OwnedSample { tid: t.tid, sample: p }),
        ).flatten_alt(),
    decreases ts.len(),
{
    reveal(Seq::filter);
    let asked = |t: ThreadView| tid is None || tid->0 == t.tid;
    let owned = |t: ThreadView|
        t.pets.map_values(|p: PetView| OwnedSample { tid: t.tid, sample: p });
    if ts.len() == 0 {
        assert(ts.filter(asked).map_values(owned) =~= seq![]);
    } else {
        let init = ts.drop_last();
        every_sample_of_the_threads_counts(init, tid);
        if asked(ts.last()) {
            let all = ts.filter(asked).map_values(owned);
            assert(ts.filter(asked).drop_last() =~= init.filter(asked));
            assert(all.drop_last() =~= init.filter(asked).map_values(owned));
            assert(all.last() =~= owned_samples(ts.last()));
        }
    }
}

/// The law of sample rows: the samples in range are shown, each with its thread, its instant from the
/// start of the recording, and its own counters.
pub proof fn sample_rows_show_their_sample(f: LiveFilter, start: u64, ss: Seq<OwnedSample>)
    requires
        forall|k: int| 0 <= k < ss.len() ==> start <= (#[trigger] ss[k]).sample.timestamp_ns,
    ensures
        sample_rows(f, start, ss) == ss.filter(
            |s: OwnedSample|
                f.time_range is None || (start + f.time_range->0.start_ns <= s.sample.timestamp_ns
                    && s.sample.timestamp_ns < start + f.time_range->0.end_ns),
        ).map_values(
            |s: OwnedSample|
                PetSampleEntry {
                    tid: s.tid,
                    timestamp_ns: (s.sample.timestamp_ns - start) as u64,
                    cycles: s.sample.pmc.cycles,
                    instructions: s.sample.pmc.instructions,
                    l1d_misses: s.sample.pmc.l1d_misses,
                    branch_mispreds: s.sample.pmc.branch_mispreds,
                },
        ),
    decreases ss.len(),
{
    reveal(Seq::filter);
    let in_range = |s: OwnedSample|
        f.time_range is None || (start + f.time_range->0.start_ns <= s.sample.timestamp_ns
            && s.sample.timestamp_ns < start + f.time_range->0.end_ns);
    let row = |s: OwnedSample|
        PetSampleEntry {
            tid: s.tid,
            timestamp_ns: (s.sample.timestamp_ns - start) as u64,
            cycles: s.sample.pmc.cycles,
            instructions: s.sample.pmc.instructions,
            l1d_misses: s.sample.pmc.l1d_misses,
            branch_mispreds: s.sample.pmc.branch_mispreds,
        };
    if ss.len() == 0 {
        assert(ss.filter(in_range).map_values(row) =~= seq![]);
    } else {
        let init = ss.drop_last();
        assert forall|k: int| 0 <= k < init.len() implies start <= (
        #[trigger] init[k]).sample.timestamp_ns by {
            assert(init[k] == ss[k]);
        }
        sample_rows_show_their_sample(f, start, init);
        assert(start <= ss[ss.len() - 1].sample.timestamp_ns);
        assert(ss.filter(in_range).map_values(row) =~= if in_range(ss.last()) {
            init.filter(in_range).map_values(row).push(row(ss.last()))
        } else {
            init.filter(in_range).map_values(row)
        });
    }
}

/// The law of order: of the samples shown, the latest come first, and no sample is lost.
pub proof fn latest_samples_come_first(shown: Seq<PetSampleEntry>, i: int, j: int)
    requires
        shown.len() <= usize::MAX,
        0 <= i < j < shown.len(),
    ensures
        ({
            let sorted = stable_sorted(latest_samples_first(shown), shown);
            &&& sorted.len() == shown.len()
            &&& sorted[i].timestamp_ns >= sorted[j].timestamp_ns
            &&& sorted.contains(shown[i])
            &&& shown.contains(sorted[i])
        }),
{
    let keys = latest_samples_first(shown);
    let order = existing_order(keys);
    stable_order_gives_sorted(keys, shown, order);
    let sorted = stable_sorted(keys, shown);
    assert(goes_before(keys, order[i] as int, order[j] as int));
    assert(order[i] < keys.len() && order[j] < keys.len());
    assert(keys[order[i] as int].first == u64::MAX - shown[order[i] as int].timestamp_ns);
    assert(keys[order[j] as int].first == u64::MAX - shown[order[j] as int].timestamp_ns);
    order_lists_every_position(keys, order, i);
    let x = choose|x: int| 0 <= x < order.len() && order[x] == i;
    assert(sorted[x] == shown[i]);
}

/// The law of wakeups: the total counts every place, at most what fits.
pub proof fn wakeups_count_every_place(ws: Seq<WakerCount>)
    ensures
        wakeups(ws) == as_fits(sum_of(ws.map_values(|w: WakerCount| w.count as int))),
        sum_of(ws.map_values(|w: WakerCount| w.count as int)) >= 0,
    decreases ws.len(),
{
    let counts = ws.map_values(|w: WakerCount| w.count as int);
    if ws.len() == 0 {
        assert(counts =~= seq![]);
    } else {
        wakeups_count_every_place(ws.drop_last());
        assert(counts.drop_last() =~= ws.drop_last().map_values(|w: WakerCount| w.count as int));
    }
}

/// The law of threads: those with more time on and off the CPU come first, and none is lost.
pub proof fn busiest_threads_come_first(ts: Seq<ThreadInfo>, i: int, j: int)
    requires
        ts.len() <= usize::MAX,
        0 <= i < j < ts.len(),
    ensures
        ({
            let sorted = stable_sorted(busiest_first(ts), ts);
            &&& sorted.len() == ts.len()
            &&& as_fits(sorted[i].on_cpu_ns + as_fits(time_off(sorted[i].off_cpu))) >= as_fits(
                sorted[j].on_cpu_ns + as_fits(time_off(sorted[j].off_cpu)),
            )
            &&& sorted.contains(ts[i])
            &&& ts.contains(sorted[i])
        }),
{
    let keys = busiest_first(ts);
    let order = existing_order(keys);
    stable_order_gives_sorted(keys, ts, order);
    let sorted = stable_sorted(keys, ts);
    assert(goes_before(keys, order[i] as int, order[j] as int));
    assert(order[i] < keys.len() && order[j] < keys.len());
    let a = ts[order[i] as int];
    let b = ts[order[j] as int];
    lemma_time_off(a.off_cpu);
    lemma_time_off(b.off_cpu);
    assert(keys[order[i] as int].first == u64::MAX - sat_add(a.on_cpu_ns, a.off_cpu.total()));
    assert(keys[order[j] as int].first == u64::MAX - sat_add(b.on_cpu_ns, b.off_cpu.total()));
    order_lists_every_position(keys, order, i);
    let x = choose|x: int| 0 <= x < order.len() && order[x] == i;
    assert(sorted[x] == ts[i]);
}

/// The law of rows of wakers: each shows who woke, from where, how often, and the symbol there.
pub proof fn waker_rows_show_their_waker(e: WakerEntry, bins: BinaryRegistry, w: WakerCount)
    requires
        shows_waker(e, bins, w),
    ensures
        e.waker_tid == w.waker_tid,
        e.waker_address == w.waker_leaf_address,
        e.count == w.count,
        (match bins.symbol_at(w.waker_leaf_address) {
            Some(s) => e.waker_function_name is Some && e.waker_function_name->0@
                == s.function_name && e.waker_binary is Some && e.waker_binary->0@ == s.binary,
            None => e.waker_function_name is None && e.waker_binary is None,
        }),
{
}

} // verus!
