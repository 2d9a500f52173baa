//! Comparison of a recording's samples with its probes.
use std::collections::VecDeque;
use vstd::prelude::*;

use crate::aggregator::{
    pet_views, probe_views, thread_views, Aggregator, PetSample, PetView, ProbeResultRecord,
    ProbeView, ThreadStats, ThreadView,
};
use crate::binaries::{opt_symbol, BinaryRegistry};
use crate::pair_totals::{
    compare_pair, drift_cells_count_pairs, drift_edge, drift_upper_ns, falls_into, how_many,
    how_many_with, pairs_show_both_sides, raw_is_dwarf_richer_than_fp, raw_is_richer_than_kperf,
    raw_of, totals_count_pairs, totals_count_walks, DiffConfig, PairTotals, RawEntry, RawView,
    TotalsView, DRIFT_CELLS, PROBE_DEPTH_CAP,
};
use crate::pairing::{in_order, pair_samples, pairs_are_disjoint_and_close, pairs_of, Pair};
use crate::probe_timing::{sat_add, ProbeTimingBreakdown, ProbeTimingSummary};
use crate::sample_sink::ProbeQueueStats;
use crate::sort::{
    ascending, ascending_key, existing_order, goes_before, is_reordering, is_stable_order,
    order_lists_every_position, sort_by_keys, stable_order, stable_order_gives_sorted, stable_sorted,
    NumKey, Order,
};
use crate::sums::{as_fits, sum_of};
use crate::text::{clone_opt_text, hex_prefixed, opt_text, push_hex_prefixed, same_text};

verus! {

/// The entries that are kept of the thread in focus.
pub const PROBE_RECENT_CAP: usize = 64;

/// The entries that are kept of pairs whose probe shows more.
pub const PROBE_RICH_EXAMPLES_CAP: usize = 4096;

/// The threads that are listed.
pub const PROBE_THREADS_CAP: usize = 32;

/// The thread that serves the probes, which is not compared unless asked for.
pub const INFERIOR_HELPER_THREAD_NAME: &'static str = "stax-inferior-helper";

/// One address with the names that it is shown under.
pub struct ResolvedFrame {
    pub address: u64,
    pub display: String,
    pub binary: String,
    pub function: String,
}

/// The model of a [`ResolvedFrame`].
pub struct FrameView {
    pub address: u64,
    pub display: Seq<char>,
    pub binary: Seq<char>,
    pub function: Seq<char>,
}

impl View for ResolvedFrame {
    type V = FrameView;

    open spec fn view(&self) -> FrameView {
        FrameView {
            address: self.address,
            display: self.display@,
            binary: self.binary@,
            function: self.function@,
        }
    }
}

/// The names of an address.
pub open spec fn frame_at(bins: BinaryRegistry, address: u64) -> FrameView {
    if address == 0 {
        FrameView { address, display: "<null>"@, binary: seq![], function: seq![] }
    } else {
        match bins.symbol_at(address) {
            Some(s) => FrameView {
                address,
                display: s.binary + "!"@ + s.function_name,
                binary: s.binary,
                function: s.function_name,
            },
            None => FrameView {
                address,
                display: "<unmapped:"@ + hex_prefixed(address as nat) + ">"@,
                binary: seq![],
                function: seq![],
            },
        }
    }
}

/// The names of an address.
pub fn resolve_frame(bins: &BinaryRegistry, address: u64) -> (f: ResolvedFrame)
    requires
        bins.wf(),
    ensures
        f@ == frame_at(*bins, address),
{
    if address == 0 {
        let f = ResolvedFrame {
            address,
            display: "<null>".to_owned(),
            binary: String::new(),
            function: String::new(),
        };
        assert(f.binary@ =~= seq![]);
        return f;
    }
    match bins.lookup_symbol(address) {
        Some(sym) => {
            let mut display = sym.binary.clone();
            display.append("!");
            display.append(sym.function_name.as_str());
            assert(bins.symbol_at(address) == Some(sym@));
            ResolvedFrame { address, display, binary: sym.binary, function: sym.function_name }
        },
        None => {
            let mut display = "<unmapped:".to_owned();
            push_hex_prefixed(&mut display, address);
            display.append(">");
            let f = ResolvedFrame {
                address,
                display,
                binary: String::new(),
                function: String::new(),
            };
            assert(f.binary@ =~= seq![]);
            f
        },
    }
}

/// The models of frames.
pub open spec fn frame_views(s: Seq<ResolvedFrame>) -> Seq<FrameView> {
    s.map_values(|f: ResolvedFrame| f@)
}

/// The names of the addresses of a stack.
pub open spec fn frames_at(bins: BinaryRegistry, stack: Seq<u64>) -> Seq<FrameView> {
    stack.map_values(|a: u64| frame_at(bins, a))
}

/// The names of the addresses of a stack, appended to `out`.
fn push_frames(bins: &BinaryRegistry, stack: &Vec<u64>, out: &mut Vec<ResolvedFrame>)
    requires
        bins.wf(),
    ensures
        frame_views(final(out)@) == frame_views(old(out)@) + frames_at(*bins, stack@),
{
    let mut i: usize = 0;
    assert(stack@.take(0) =~= seq![]);
    assert(frame_views(out@) =~= frame_views(old(out)@) + frames_at(*bins, stack@.take(0)));
    while i < stack.len()
        invariant
            bins.wf(),
            i <= stack@.len(),
            frame_views(out@) == frame_views(old(out)@) + frames_at(*bins, stack@.take(i as int)),
        decreases stack@.len() - i,
    {
        let ghost before = out@;
        out.push(resolve_frame(bins, stack[i]));
        proof {
            assert(frame_views(out@) =~= frame_views(before).push(out@.last()@));
            assert(frames_at(*bins, stack@.take(i + 1)) =~= frames_at(
                *bins,
                stack@.take(i as int),
            ).push(frame_at(*bins, stack@[i as int])));
        }
        i = i + 1;
        assert(frame_views(out@) =~= frame_views(old(out)@) + frames_at(
            *bins,
            stack@.take(i as int),
        ));
    }
    assert(stack@.take(i as int) =~= stack@);
}

/// The names of the addresses of a stack.
fn resolve_stack(bins: &BinaryRegistry, stack: &Vec<u64>) -> (out: Vec<ResolvedFrame>)
    requires
        bins.wf(),
    ensures
        frame_views(out@) == frames_at(*bins, stack@),
{
    let mut out: Vec<ResolvedFrame> = Vec::new();
    push_frames(bins, stack, &mut out);
    assert(frame_views(out@) =~= frames_at(*bins, stack@));
    out
}

/// One pair with its frames named.
pub struct ProbeDiffEntry {
    pub tid: u32,
    pub timestamp_ns: u64,
    pub drift_ns: i64,
    pub timing: ProbeTimingBreakdown,
    pub queue: ProbeQueueStats,
    pub kperf_stack: Vec<ResolvedFrame>,
    pub kperf_kernel_stack: Vec<ResolvedFrame>,
    pub probe_stack: Vec<ResolvedFrame>,
    pub compact_stack: Vec<ResolvedFrame>,
    pub compact_dwarf_stack: Vec<ResolvedFrame>,
    pub dwarf_stack: Vec<ResolvedFrame>,
    pub stitched_stack: Vec<ResolvedFrame>,
    pub common_suffix: u32,
    pub compact_common_suffix: u32,
    pub compact_dwarf_common_suffix: u32,
    pub dwarf_common_suffix: u32,
    pub pc_match: bool,
    pub stitchable: bool,
    pub used_framehop: bool,
}

/// The model of a [`ProbeDiffEntry`].
pub struct EntryView {
    pub tid: u32,
    pub timestamp_ns: u64,
    pub drift_ns: i64,
    pub timing: ProbeTimingBreakdown,
    pub queue: ProbeQueueStats,
    pub kperf_stack: Seq<FrameView>,
    pub kperf_kernel_stack: Seq<FrameView>,
    pub probe_stack: Seq<FrameView>,
    pub compact_stack: Seq<FrameView>,
    pub compact_dwarf_stack: Seq<FrameView>,
    pub dwarf_stack: Seq<FrameView>,
    pub stitched_stack: Seq<FrameView>,
    pub common_suffix: u32,
    pub compact_common_suffix: u32,
    pub compact_dwarf_common_suffix: u32,
    pub dwarf_common_suffix: u32,
    pub pc_match: bool,
    pub stitchable: bool,
    pub used_framehop: bool,
}

impl View for ProbeDiffEntry {
    type V = EntryView;

    open spec fn view(&self) -> EntryView {
        EntryView {
            tid: self.tid,
            timestamp_ns: self.timestamp_ns,
            drift_ns: self.drift_ns,
            timing: self.timing,
            queue: self.queue,
            kperf_stack: frame_views(self.kperf_stack@),
            kperf_kernel_stack: frame_views(self.kperf_kernel_stack@),
            probe_stack: frame_views(self.probe_stack@),
            compact_stack: frame_views(self.compact_stack@),
            compact_dwarf_stack: frame_views(self.compact_dwarf_stack@),
            dwarf_stack: frame_views(self.dwarf_stack@),
            stitched_stack: frame_views(self.stitched_stack@),
            common_suffix: self.common_suffix,
            compact_common_suffix: self.compact_common_suffix,
            compact_dwarf_common_suffix: self.compact_dwarf_common_suffix,
            dwarf_common_suffix: self.dwarf_common_suffix,
            pc_match: self.pc_match,
            stitchable: self.stitchable,
            used_framehop: self.used_framehop,
        }
    }
}

/// A pair of the thread `tid` with its frames named. Where the probe's stack can
/// stand in for the sample's, the stitched stack puts it behind the kernel frames.
pub open spec fn entry_of(bins: BinaryRegistry, tid: u32, raw: RawView) -> EntryView {
    EntryView {
        tid,
        timestamp_ns: raw.timestamp_ns,
        drift_ns: raw.drift_ns,
        timing: raw.timing,
        queue: raw.queue,
        kperf_stack: frames_at(bins, raw.kperf_stack),
        kperf_kernel_stack: frames_at(bins, raw.kperf_kernel_stack),
        probe_stack: frames_at(bins, raw.probe_stack),
        compact_stack: frames_at(bins, raw.compact_stack),
        compact_dwarf_stack: frames_at(bins, raw.compact_dwarf_stack),
        dwarf_stack: frames_at(bins, raw.dwarf_stack),
        stitched_stack: if raw.stitchable {
            frames_at(bins, raw.kperf_kernel_stack) + frames_at(bins, raw.dwarf_stack)
        } else {
            seq![]
        },
        common_suffix: raw.common as u32,
        compact_common_suffix: raw.compact_common as u32,
        compact_dwarf_common_suffix: raw.compact_dwarf_common as u32,
        dwarf_common_suffix: raw.dwarf_common as u32,
        pc_match: raw.pc_match,
        stitchable: raw.stitchable,
        used_framehop: raw.used_framehop,
    }
}

/// Names the frames of a pair.
pub fn resolve_probe_diff_entry(bins: &BinaryRegistry, tid: u32, raw: &RawEntry) -> (e: ProbeDiffEntry)
    requires
        bins.wf(),
    ensures
        e@ == entry_of(*bins, tid, raw@),
{
    let mut stitched_stack: Vec<ResolvedFrame> = Vec::new();
    assert(frame_views(stitched_stack@) =~= seq![]);
    if raw.stitchable {
        push_frames(bins, &raw.kperf_kernel_stack, &mut stitched_stack);
        push_frames(bins, &raw.dwarf_stack, &mut stitched_stack);
        assert(frame_views(stitched_stack@) =~= frames_at(*bins, raw.kperf_kernel_stack@)
            + frames_at(*bins, raw.dwarf_stack@));
    }
    ProbeDiffEntry {
        tid,
        timestamp_ns: raw.timestamp_ns,
        drift_ns: raw.drift_ns,
        timing: raw.timing,
        queue: raw.queue,
        kperf_stack: resolve_stack(bins, &raw.kperf_stack),
        kperf_kernel_stack: resolve_stack(bins, &raw.kperf_kernel_stack),
        probe_stack: resolve_stack(bins, &raw.probe_stack),
        compact_stack: resolve_stack(bins, &raw.compact_stack),
        compact_dwarf_stack: resolve_stack(bins, &raw.compact_dwarf_stack),
        dwarf_stack: resolve_stack(bins, &raw.dwarf_stack),
        stitched_stack,
        common_suffix: raw.common as u32,
        compact_common_suffix: raw.compact_common as u32,
        compact_dwarf_common_suffix: raw.compact_dwarf_common as u32,
        dwarf_common_suffix: raw.dwarf_common as u32,
        pc_match: raw.pc_match,
        stitchable: raw.stitchable,
        used_framehop: raw.used_framehop,
    }
}

/// Kernel stacks over some samples. Counts stop at what fits.
#[derive(Clone, Copy, Debug, PartialEq, Eq, Structural)]
pub struct KernelTotals {
    pub samples: u64,
    pub frames: u64,
    pub max_frames: u32,
}

impl KernelTotals {
    /// The totals over no sample.
    pub open spec fn none() -> KernelTotals {
        KernelTotals { samples: 0, frames: 0, max_frames: 0 }
    }

    /// The totals with one more sample, whose kernel stack has `depth` frames.
    pub open spec fn plus(self, depth: usize) -> KernelTotals {
        if depth > 0 {
            KernelTotals {
                samples: sat_add(self.samples, 1),
                frames: sat_add(self.frames, depth as u64),
                max_frames: if depth as u32 > self.max_frames {
                    depth as u32
                } else {
                    self.max_frames
                },
            }
        } else {
            self
        }
    }

    /// The totals with some more samples, in order.
    pub open spec fn plus_all(self, pets: Seq<PetView>) -> KernelTotals
        decreases pets.len(),
    {
        if pets.len() == 0 {
            self
        } else {
            self.plus_all(pets.drop_last()).plus(pets.last().kernel_stack.len() as usize)
        }
    }

    /// Adds one sample.
    fn add_depth(&mut self, depth: usize)
        ensures
            *final(self) == old(self).plus(depth),
    {
        if depth > 0 {
            self.samples = self.samples.saturating_add(1);
            self.frames = self.frames.saturating_add(depth as u64);
            let frames: u32 = depth as u32;
            if frames > self.max_frames {
                self.max_frames = frames;
            }
        }
    }
}

/// The keys by which samples are put in order.
pub open spec fn pet_keys(s: Seq<PetView>) -> Seq<NumKey> {
    s.map_values(|p: PetView| ascending(p.timestamp_ns))
}

/// The keys by which probes are put in order.
pub open spec fn probe_keys(s: Seq<ProbeView>) -> Seq<NumKey> {
    s.map_values(|p: ProbeView| ascending(p.timing.kperf_ts))
}

/// The samples of a thread in the order of their timestamps.
pub open spec fn pets_in_order(t: ThreadView) -> Seq<PetView> {
    stable_sorted(pet_keys(t.pets), t.pets)
}

/// The probes of a thread in the order of the samples that they were asked for.
pub open spec fn probes_in_order(t: ThreadView) -> Seq<ProbeView> {
    stable_sorted(probe_keys(t.probes), t.probes)
}

/// The pairs of a thread.
pub open spec fn thread_pairs(cfg: DiffConfig, t: ThreadView) -> Seq<Pair> {
    pairs_of(
        cfg.timebase,
        pets_in_order(t).map_values(|p: PetView| p.timestamp_ns),
        probes_in_order(t).map_values(|p: ProbeView| p.timing.kperf_ts),
    )
}

/// The entries of a thread.
pub open spec fn entries_of(cfg: DiffConfig, start: u64, t: ThreadView) -> Seq<RawView> {
    thread_pairs(cfg, t).map_values(
        |p: Pair|
            raw_of(cfg, start, pets_in_order(t)[p.pet as int], probes_in_order(t)[p.probe as int]),
    )
}

/// A pair and the thread that it belongs to.
pub struct TaggedEntry {
    pub tid: u32,
    pub raw: RawEntry,
}

/// The model of a [`TaggedEntry`].
pub struct TaggedView {
    pub tid: u32,
    pub raw: RawView,
}

impl View for TaggedEntry {
    type V = TaggedView;

    open spec fn view(&self) -> TaggedView {
        TaggedView { tid: self.tid, raw: self.raw@ }
    }
}

/// The entries of a thread with its id.
pub open spec fn tagged(tid: u32, es: Seq<RawView>) -> Seq<TaggedView> {
    es.map_values(|e: RawView| TaggedView { tid, raw: e })
}

/// The last `n` of a sequence, or all of it.
pub open spec fn last_n<T>(s: Seq<T>, n: usize) -> Seq<T> {
    if s.len() <= n {
        s
    } else {
        s.skip(s.len() - n)
    }
}

/// The entries whose stitched stack shows more than the sample did.
pub open spec fn richer_only(s: Seq<TaggedView>) -> Seq<TaggedView>
    decreases s.len(),
{
    if s.len() == 0 {
        s
    } else if crate::pair_totals::richer_than_kperf(s.last().raw) {
        richer_only(s.drop_last()).push(s.last())
    } else {
        richer_only(s.drop_last())
    }
}

/// The entries whose table-driven walk shows more than the frame pointers did.
pub open spec fn dwarf_richer_only(s: Seq<TaggedView>) -> Seq<TaggedView>
    decreases s.len(),
{
    if s.len() == 0 {
        s
    } else if crate::pair_totals::dwarf_richer_than_fp(s.last().raw) {
        dwarf_richer_only(s.drop_last()).push(s.last())
    } else {
        dwarf_richer_only(s.drop_last())
    }
}

/// Keeps the last `cap` items of what passes by.
fn keep_last<T>(ring: &mut VecDeque<T>, item: T, cap: usize)
    requires
        old(ring)@.len() <= cap,
        cap > 0,
    ensures
        final(ring)@ == last_n(old(ring)@.push(item), cap),
        final(ring)@.len() <= cap,
{
    if ring.len() == cap {
        let _ = ring.pop_front();
    }
    ring.push_back(item);
    assert(ring@ =~= last_n(old(ring)@.push(item), cap));
}

/// Dropping old items at once or one by one leaves the same.
proof fn lemma_last_n_push<T>(s: Seq<T>, x: T, cap: usize)
    requires
        cap > 0,
    ensures
        last_n(last_n(s, cap).push(x), cap) == last_n(s.push(x), cap),
{
    assert(last_n(last_n(s, cap).push(x), cap) =~= last_n(s.push(x), cap));
}

/// One row of the list of threads.
pub struct ProbeDiffThread {
    pub tid: u32,
    pub kperf_samples: u64,
    pub kperf_kernel_stack_samples: u64,
    pub probe_results: u64,
    pub paired: u64,
    pub kperf_only: u64,
    pub probe_only: u64,
    pub pc_match: u64,
    pub stitchable: u64,
    pub richer_than_kperf: u64,
    pub dwarf_richer_than_fp: u64,
    pub compact_stitchable: u64,
    pub compact_dwarf_stitchable: u64,
    pub dwarf_stitchable: u64,
    /// Shared frames over all pairs; their average is over `paired`.
    pub common_total: u64,
    pub compact_common_total: u64,
    pub compact_dwarf_common_total: u64,
    pub dwarf_common_total: u64,
    pub thread_name: Option<String>,
}

/// The model of a [`ProbeDiffThread`].
pub struct RowView {
    pub tid: u32,
    pub kperf_samples: u64,
    pub kperf_kernel_stack_samples: u64,
    pub probe_results: u64,
    pub paired: u64,
    pub kperf_only: u64,
    pub probe_only: u64,
    pub pc_match: u64,
    pub stitchable: u64,
    pub richer_than_kperf: u64,
    pub dwarf_richer_than_fp: u64,
    pub compact_stitchable: u64,
    pub compact_dwarf_stitchable: u64,
    pub dwarf_stitchable: u64,
    pub common_total: u64,
    pub compact_common_total: u64,
    pub compact_dwarf_common_total: u64,
    pub dwarf_common_total: u64,
    pub thread_name: Option<Seq<char>>,
}

impl View for ProbeDiffThread {
    type V = RowView;

    open spec fn view(&self) -> RowView {
        RowView {
            tid: self.tid,
            kperf_samples: self.kperf_samples,
            kperf_kernel_stack_samples: self.kperf_kernel_stack_samples,
            probe_results: self.probe_results,
            paired: self.paired,
            kperf_only: self.kperf_only,
            probe_only: self.probe_only,
            pc_match: self.pc_match,
            stitchable: self.stitchable,
            richer_than_kperf: self.richer_than_kperf,
            dwarf_richer_than_fp: self.dwarf_richer_than_fp,
            compact_stitchable: self.compact_stitchable,
            compact_dwarf_stitchable: self.compact_dwarf_stitchable,
            dwarf_stitchable: self.dwarf_stitchable,
            common_total: self.common_total,
            compact_common_total: self.compact_common_total,
            compact_dwarf_common_total: self.compact_dwarf_common_total,
            dwarf_common_total: self.dwarf_common_total,
            thread_name: opt_text(self.thread_name),
        }
    }
}

/// The row of a thread. Every sample and every probe is in a pair or counted alone.
pub open spec fn row_of(cfg: DiffConfig, start: u64, t: ThreadView) -> RowView {
    let es = entries_of(cfg, start, t);
    let totals = TotalsView::none().plus_all(es);
    RowView {
        tid: t.tid,
        kperf_samples: t.pets.len() as u64,
        kperf_kernel_stack_samples: KernelTotals::none().plus_all(pets_in_order(t)).samples,
        probe_results: t.probes.len() as u64,
        paired: totals.paired,
        kperf_only: (t.pets.len() - es.len()) as u64,
        probe_only: (t.probes.len() - es.len()) as u64,
        pc_match: totals.pc_match,
        stitchable: totals.stitchable,
        richer_than_kperf: totals.richer_than_kperf,
        dwarf_richer_than_fp: totals.dwarf_richer_than_fp,
        compact_stitchable: totals.compact_stitchable,
        compact_dwarf_stitchable: totals.compact_dwarf_stitchable,
        dwarf_stitchable: totals.dwarf_stitchable,
        common_total: totals.common_total,
        compact_common_total: totals.compact_common_total,
        compact_dwarf_common_total: totals.compact_dwarf_common_total,
        dwarf_common_total: totals.dwarf_common_total,
        thread_name: t.name,
    }
}

/// The thread is compared: it is the one asked for, or none is asked for and it is
/// not the one that serves the probes.
pub open spec fn is_compared(only_tid: Option<u32>, t: ThreadView) -> bool {
    match only_tid {
        Some(want) => t.tid == want,
        None => t.name != Some(INFERIOR_HELPER_THREAD_NAME@),
    }
}

/// The threads that are compared.
pub open spec fn compared(only_tid: Option<u32>, ts: Seq<ThreadView>) -> Seq<ThreadView>
    decreases ts.len(),
{
    if ts.len() == 0 {
        ts
    } else if is_compared(only_tid, ts.last()) {
        compared(only_tid, ts.drop_last()).push(ts.last())
    } else {
        compared(only_tid, ts.drop_last())
    }
}

/// What is counted over threads besides their pairs.
pub struct SumView {
    pub kperf: u64,
    pub probes: u64,
    pub kperf_only: u64,
    pub probe_only: u64,
    pub kernel: KernelTotals,
    pub totals: TotalsView,
    pub entries: Seq<TaggedView>,
    pub rows: Seq<RowView>,
}

/// What is counted over the threads `ts`, in order.
pub open spec fn sum_over(cfg: DiffConfig, start: u64, ts: Seq<ThreadView>) -> SumView
    decreases ts.len(),
{
    if ts.len() == 0 {
        SumView {
            kperf: 0,
            probes: 0,
            kperf_only: 0,
            probe_only: 0,
            kernel: KernelTotals::none(),
            totals: TotalsView::none(),
            entries: seq![],
            rows: seq![],
        }
    } else {
        let before = sum_over(cfg, start, ts.drop_last());
        let t = ts.last();
        let row = row_of(cfg, start, t);
        SumView {
            kperf: sat_add(before.kperf, t.pets.len() as u64),
            probes: sat_add(before.probes, t.probes.len() as u64),
            kperf_only: sat_add(before.kperf_only, row.kperf_only),
            probe_only: sat_add(before.probe_only, row.probe_only),
            kernel: before.kernel.plus_all(pets_in_order(t)),
            totals: before.totals.plus_all(entries_of(cfg, start, t)),
            entries: before.entries + tagged(t.tid, entries_of(cfg, start, t)),
            rows: if t.pets.len() > 0 || t.probes.len() > 0 {
                before.rows.push(row)
            } else {
                before.rows
            },
        }
    }
}

/// A row ranks before another in the list of threads.
pub open spec fn row_key(r: RowView) -> NumKey {
    NumKey {
        first: (u64::MAX - r.kperf_samples) as u64,
        second: (u64::MAX - r.kperf_only) as u64,
        third: (u64::MAX - r.paired) as u64,
        fourth: (u64::MAX - r.probe_results) as u64,
    }
}

/// The keys by which rows are listed.
pub open spec fn row_keys(s: Seq<RowView>) -> Seq<NumKey> {
    s.map_values(|r: RowView| row_key(r))
}

/// The first `n` of a sequence, or all of it.
pub open spec fn first_n<T>(s: Seq<T>, n: usize) -> Seq<T> {
    if s.len() <= n {
        s
    } else {
        s.take(n as int)
    }
}

/// `a` is no more informative than `b`: fewer pairs to stitch, or as many and no
/// more pairs.
pub open spec fn no_more_telling(a: RowView, b: RowView) -> bool {
    a.stitchable < b.stitchable || (a.stitchable == b.stitchable && a.paired <= b.paired)
}

/// `i` is the most informative row, and the last such.
pub open spec fn is_most_telling(rows: Seq<RowView>, i: int) -> bool {
    &&& 0 <= i < rows.len()
    &&& forall|j: int| 0 <= j < rows.len() ==> no_more_telling(#[trigger] rows[j], rows[i])
    &&& forall|j: int| i < j < rows.len() ==> !no_more_telling(rows[i], #[trigger] rows[j])
}

/// The thread in focus: the one asked for, or else the most informative one.
pub open spec fn focus_of(only_tid: Option<u32>, rows: Seq<RowView>) -> Option<u32> {
    match only_tid {
        Some(t) => Some(t),
        None => if exists|i: int| is_most_telling(rows, i) {
            Some(rows[choose|i: int| is_most_telling(rows, i)].tid)
        } else {
            None
        },
    }
}

/// The entries of the thread `tid` among those of the threads `ts`.
pub open spec fn entries_of_tid(
    cfg: DiffConfig,
    start: u64,
    ts: Seq<ThreadView>,
    tid: Option<u32>,
) -> Seq<TaggedView>
    decreases ts.len(),
{
    if ts.len() == 0 {
        seq![]
    } else if Some(ts.last().tid) == tid {
        tagged(ts.last().tid, entries_of(cfg, start, ts.last()))
    } else {
        entries_of_tid(cfg, start, ts.drop_last(), tid)
    }
}

/// The entries with their frames named.
pub open spec fn named(bins: BinaryRegistry, s: Seq<TaggedView>) -> Seq<EntryView> {
    s.map_values(|e: TaggedView| entry_of(bins, e.tid, e.raw))
}

/// One cell of the drift histogram.
#[derive(Clone, Copy, Debug, PartialEq, Eq, Structural)]
pub struct ProbeDiffBucket {
    pub upper_ns: u64,
    pub samples: u64,
    pub pc_match: u64,
}

/// How often the frames at one depth agree.
#[derive(Clone, Copy, Debug, PartialEq, Eq, Structural)]
pub struct ProbeDiffDepthCell {
    pub depth: u32,
    pub matched: u64,
    pub total: u64,
}

/// The cells of the drift histogram.
pub open spec fn drift_buckets_of(t: TotalsView) -> Seq<ProbeDiffBucket> {
    Seq::new(
        DRIFT_CELLS as nat,
        |i: int|
            ProbeDiffBucket {
                upper_ns: drift_edge(i),
                samples: t.drift_count[i],
                pc_match: t.drift_pc_match[i],
            },
    )
}

/// The depths below `n` at which anything was compared.
pub open spec fn depth_cells_of(t: TotalsView, n: nat) -> Seq<ProbeDiffDepthCell>
    decreases n,
{
    if n == 0 {
        seq![]
    } else {
        let d = n - 1;
        let before = depth_cells_of(t, d as nat);
        if t.depth_total[d] > 0 {
            before.push(
                ProbeDiffDepthCell {
                    depth: d as u32,
                    matched: t.depth_matched[d],
                    total: t.depth_total[d],
                },
            )
        } else {
            before
        }
    }
}

/// Comparison of a recording's samples with its probes.
pub struct ProbeDiffUpdate {
    pub total_kperf_samples: u64,
    pub total_probes: u64,
    pub kperf_kernel_stack_samples: u64,
    pub kperf_kernel_frames: u64,
    pub max_kperf_kernel_frames: u32,
    pub paired: u64,
    pub paired_kernel_stack_samples: u64,
    pub kperf_only: u64,
    pub probe_only: u64,
    pub probe_augmented_kperf: u64,
    pub probe_walked_deeper: u64,
    pub common_suffix_hist: Vec<u64>,
    pub compact_suffix_hist: Vec<u64>,
    pub compact_dwarf_suffix_hist: Vec<u64>,
    pub dwarf_suffix_hist: Vec<u64>,
    pub depth_match: Vec<ProbeDiffDepthCell>,
    pub drift_buckets: Vec<ProbeDiffBucket>,
    pub timing: ProbeTimingSummary,
    pub pc_match: u64,
    pub stitchable: u64,
    pub richer_than_kperf: u64,
    pub dwarf_richer_than_fp: u64,
    pub compact_stitchable: u64,
    pub compact_dwarf_stitchable: u64,
    pub dwarf_stitchable: u64,
    pub framehop_used: u64,
    pub compact_used: u64,
    pub compact_dwarf_used: u64,
    pub fp_walk_used: u64,
    pub threads: Vec<ProbeDiffThread>,
    pub richer: Vec<ProbeDiffEntry>,
    pub dwarf_richer: Vec<ProbeDiffEntry>,
    pub recent: Vec<ProbeDiffEntry>,
}

/// The models of rows.
pub open spec fn row_views(s: Seq<ProbeDiffThread>) -> Seq<RowView> {
    s.map_values(|r: ProbeDiffThread| r@)
}

/// The models of entries.
pub open spec fn entry_views(s: Seq<ProbeDiffEntry>) -> Seq<EntryView> {
    s.map_values(|e: ProbeDiffEntry| e@)
}

/// The models of tagged entries.
pub open spec fn tagged_views(s: Seq<TaggedEntry>) -> Seq<TaggedView> {
    s.map_values(|e: TaggedEntry| e@)
}

/// `u` is the comparison of the threads of a recording that began at `start`.
pub open spec fn is_probe_diff(
    cfg: DiffConfig,
    start: u64,
    threads: Seq<ThreadView>,
    bins: BinaryRegistry,
    only_tid: Option<u32>,
    u: ProbeDiffUpdate,
) -> bool {
    let ts = compared(only_tid, threads);
    let sum = sum_over(cfg, start, ts);
    let t = sum.totals;
    let focus = focus_of(only_tid, sum.rows);
    &&& u.total_kperf_samples == sum.kperf
    &&& u.total_probes == sum.probes
    &&& u.kperf_kernel_stack_samples == sum.kernel.samples
    &&& u.kperf_kernel_frames == sum.kernel.frames
    &&& u.max_kperf_kernel_frames == sum.kernel.max_frames
    &&& u.paired == t.paired
    &&& u.paired_kernel_stack_samples == t.paired_kernel_stack_samples
    &&& u.kperf_only == sum.kperf_only
    &&& u.probe_only == sum.probe_only
    &&& u.probe_augmented_kperf == t.probe_augmented_kperf
    &&& u.probe_walked_deeper == t.probe_walked_deeper
    &&& u.common_suffix_hist@ == t.common_suffix_hist
    &&& u.compact_suffix_hist@ == t.compact_suffix_hist
    &&& u.compact_dwarf_suffix_hist@ == t.compact_dwarf_suffix_hist
    &&& u.dwarf_suffix_hist@ == t.dwarf_suffix_hist
    &&& u.depth_match@ == depth_cells_of(t, PROBE_DEPTH_CAP as nat)
    &&& u.drift_buckets@ == drift_buckets_of(t)
    &&& u.timing == t.timing.summary()
    &&& u.pc_match == t.pc_match
    &&& u.stitchable == t.stitchable
    &&& u.richer_than_kperf == t.richer_than_kperf
    &&& u.dwarf_richer_than_fp == t.dwarf_richer_than_fp
    &&& u.compact_stitchable == t.compact_stitchable
    &&& u.compact_dwarf_stitchable == t.compact_dwarf_stitchable
    &&& u.dwarf_stitchable == t.dwarf_stitchable
    &&& u.framehop_used == t.framehop_used
    &&& u.compact_used == t.compact_used
    &&& u.compact_dwarf_used == t.compact_dwarf_used
    &&& u.fp_walk_used == t.fp_walk_used
    &&& row_views(u.threads@) == first_n(
        stable_sorted(row_keys(sum.rows), sum.rows),
        PROBE_THREADS_CAP,
    )
    &&& entry_views(u.richer@) == named(
        bins,
        last_n(richer_only(sum.entries), PROBE_RICH_EXAMPLES_CAP),
    )
    &&& entry_views(u.dwarf_richer@) == named(
        bins,
        last_n(dwarf_richer_only(sum.entries), PROBE_RICH_EXAMPLES_CAP),
    )
    &&& entry_views(u.recent@) == named(
        bins,
        last_n(entries_of_tid(cfg, start, ts, focus), PROBE_RECENT_CAP),
    )
}

/// The samples in order: their positions, and their timestamps.
fn order_pets(pets: &Vec<PetSample>) -> (r: (Vec<usize>, Vec<u64>))
    ensures
        is_stable_order(pet_keys(pet_views(pets@)), r.0@),
        r.1@ == stable_sorted(pet_keys(pet_views(pets@)), pet_views(pets@)).map_values(
            |p: PetView| p.timestamp_ns,
        ),
        in_order(r.1@),
{
    let ghost views = pet_views(pets@);
    let mut keys: Vec<NumKey> = Vec::new();
    let mut i: usize = 0;
    while i < pets.len()
        invariant
            i <= pets@.len(),
            keys@ == pet_keys(pet_views(pets@.take(i as int))),
        decreases pets@.len() - i,
    {
        keys.push(ascending_key(pets[i].timestamp_ns));
        i = i + 1;
        assert(keys@ =~= pet_keys(pet_views(pets@.take(i as int))));
    }
    assert(pets@.take(i as int) =~= pets@);
    let order = stable_order(&keys);
    proof {
        stable_order_gives_sorted(keys@, views, order@);
    }
    let ghost sorted = stable_sorted(keys@, views);
    let mut ts: Vec<u64> = Vec::new();
    let mut k: usize = 0;
    while k < order.len()
        invariant
            k <= order@.len(),
            is_stable_order(keys@, order@),
            keys@.len() == pets@.len(),
            views == pet_views(pets@),
            sorted.len() == order@.len(),
            forall|a: int| 0 <= a < order@.len() ==> #[trigger] sorted[a] == views[order@[a] as int],
            ts@ == sorted.take(k as int).map_values(|p: PetView| p.timestamp_ns),
        decreases order@.len() - k,
    {
        assert(order@[k as int] < keys@.len());
        ts.push(pets[order[k]].timestamp_ns);
        assert(sorted[k as int] == views[order@[k as int] as int]);
        k = k + 1;
        assert(ts@ =~= sorted.take(k as int).map_values(|p: PetView| p.timestamp_ns));
    }
    proof {
        assert(sorted.take(k as int) =~= sorted);
        assert forall|a: int, b: int| 0 <= a < b < ts@.len() implies ts@[a] <= ts@[b] by {
            assert(goes_before(keys@, order@[a] as int, order@[b] as int));
            assert(sorted[a] == views[order@[a] as int]);
            assert(sorted[b] == views[order@[b] as int]);
        }
    }
    (order, ts)
}

/// The probes in order: their positions, and the samples that they were asked for.
fn order_probes(probes: &Vec<ProbeResultRecord>) -> (r: (Vec<usize>, Vec<u64>))
    ensures
        is_stable_order(probe_keys(probe_views(probes@)), r.0@),
        r.1@ == stable_sorted(probe_keys(probe_views(probes@)), probe_views(probes@)).map_values(
            |p: ProbeView| p.timing.kperf_ts,
        ),
        in_order(r.1@),
{
    let ghost views = probe_views(probes@);
    let mut keys: Vec<NumKey> = Vec::new();
    let mut i: usize = 0;
    while i < probes.len()
        invariant
            i <= probes@.len(),
            keys@ == probe_keys(probe_views(probes@.take(i as int))),
        decreases probes@.len() - i,
    {
        keys.push(ascending_key(probes[i].timing.kperf_ts));
        i = i + 1;
        assert(keys@ =~= probe_keys(probe_views(probes@.take(i as int))));
    }
    assert(probes@.take(i as int) =~= probes@);
    let order = stable_order(&keys);
    proof {
        stable_order_gives_sorted(keys@, views, order@);
    }
    let ghost sorted = stable_sorted(keys@, views);
    let mut ts: Vec<u64> = Vec::new();
    let mut k: usize = 0;
    while k < order.len()
        invariant
            k <= order@.len(),
            is_stable_order(keys@, order@),
            keys@.len() == probes@.len(),
            views == probe_views(probes@),
            sorted.len() == order@.len(),
            forall|a: int| 0 <= a < order@.len() ==> #[trigger] sorted[a] == views[order@[a] as int],
            ts@ == sorted.take(k as int).map_values(|p: ProbeView| p.timing.kperf_ts),
        decreases order@.len() - k,
    {
        assert(order@[k as int] < keys@.len());
        ts.push(probes[order[k]].timing.kperf_ts);
        assert(sorted[k as int] == views[order@[k as int] as int]);
        k = k + 1;
        assert(ts@ =~= sorted.take(k as int).map_values(|p: ProbeView| p.timing.kperf_ts));
    }
    proof {
        assert(sorted.take(k as int) =~= sorted);
        assert forall|a: int, b: int| 0 <= a < b < ts@.len() implies ts@[a] <= ts@[b] by {
            assert(goes_before(keys@, order@[a] as int, order@[b] as int));
            assert(sorted[a] == views[order@[a] as int]);
            assert(sorted[b] == views[order@[b] as int]);
        }
    }
    (order, ts)
}

/// The last entries of one thread.
struct RecentEntries {
    tid: u32,
    ring: VecDeque<TaggedEntry>,
}

/// What has been counted and kept over some threads.
struct DiffScan {
    kperf: u64,
    probes: u64,
    kperf_only: u64,
    probe_only: u64,
    kernel: KernelTotals,
    totals: PairTotals,
    richer: VecDeque<TaggedEntry>,
    dwarf_richer: VecDeque<TaggedEntry>,
    rows: Vec<ProbeDiffThread>,
    recent: Vec<RecentEntries>,
}

impl DiffScan {
    /// The scan has been over the threads `ts`.
    spec fn covers(self, cfg: DiffConfig, start: u64, ts: Seq<ThreadView>) -> bool {
        let sum = sum_over(cfg, start, ts);
        &&& self.kperf == sum.kperf
        &&& self.probes == sum.probes
        &&& self.kperf_only == sum.kperf_only
        &&& self.probe_only == sum.probe_only
        &&& self.kernel == sum.kernel
        &&& self.totals@ == sum.totals
        &&& self.totals@.shaped()
        &&& tagged_views(self.richer@) == last_n(richer_only(sum.entries), PROBE_RICH_EXAMPLES_CAP)
        &&& tagged_views(self.dwarf_richer@) == last_n(
            dwarf_richer_only(sum.entries),
            PROBE_RICH_EXAMPLES_CAP,
        )
        &&& row_views(self.rows@) == sum.rows
        &&& self.recent@.len() == ts.len()
        &&& forall|i: int|
            0 <= i < ts.len() ==> (#[trigger] self.recent@[i]).tid == ts[i].tid && tagged_views(
                self.recent@[i].ring@,
            ) == last_n(tagged(ts[i].tid, entries_of(cfg, start, ts[i])), PROBE_RECENT_CAP)
    }

    /// A scan over no thread.
    fn new(Ghost(cfg): Ghost<DiffConfig>, Ghost(start): Ghost<u64>) -> (s: DiffScan)
        ensures
            s.covers(cfg, start, Seq::<ThreadView>::empty()),
    {
        let s = DiffScan {
            kperf: 0,
            probes: 0,
            kperf_only: 0,
            probe_only: 0,
            kernel: KernelTotals { samples: 0, frames: 0, max_frames: 0 },
            totals: PairTotals::new(),
            richer: VecDeque::new(),
            dwarf_richer: VecDeque::new(),
            rows: Vec::new(),
            recent: Vec::new(),
        };
        proof {
            assert(tagged_views(s.richer@) =~= seq![]);
            assert(tagged_views(s.dwarf_richer@) =~= seq![]);
            assert(row_views(s.rows@) =~= seq![]);
        }
        s
    }

    /// Counts and keeps one pair of the thread `tid`.
    fn add_entry(&mut self, tid: u32, raw: &RawEntry, Ghost(seen): Ghost<Seq<TaggedView>>)
        requires
            old(self).totals@.shaped(),
            tagged_views(old(self).richer@) == last_n(richer_only(seen), PROBE_RICH_EXAMPLES_CAP),
            tagged_views(old(self).dwarf_richer@) == last_n(
                dwarf_richer_only(seen),
                PROBE_RICH_EXAMPLES_CAP,
            ),
        ensures
            final(self).totals@ == old(self).totals@.plus(raw@),
            final(self).totals@.shaped(),
            tagged_views(final(self).richer@) == last_n(
                richer_only(seen.push(TaggedView { tid, raw: raw@ })),
                PROBE_RICH_EXAMPLES_CAP,
            ),
            tagged_views(final(self).dwarf_richer@) == last_n(
                dwarf_richer_only(seen.push(TaggedView { tid, raw: raw@ })),
                PROBE_RICH_EXAMPLES_CAP,
            ),
            final(self).kperf == old(self).kperf,
            final(self).probes == old(self).probes,
            final(self).kperf_only == old(self).kperf_only,
            final(self).probe_only == old(self).probe_only,
            final(self).kernel == old(self).kernel,
            final(self).rows == old(self).rows,
            final(self).recent == old(self).recent,
    {
        let ghost item = TaggedView { tid, raw: raw@ };
        assert(seen.push(item).drop_last() =~= seen);
        assert(tagged_views(self.richer@).len() == self.richer@.len());
        assert(tagged_views(self.dwarf_richer@).len() == self.dwarf_richer@.len());
        self.totals.add(raw);
        if raw_is_richer_than_kperf(raw) {
            let ghost before = self.richer@;
            keep_last(
                &mut self.richer,
                TaggedEntry { tid, raw: raw.duplicate() },
                PROBE_RICH_EXAMPLES_CAP,
            );
            proof {
                let kept = richer_only(seen);
                lemma_last_n_push(kept, item, PROBE_RICH_EXAMPLES_CAP);
                assert(tagged_views(self.richer@) =~= last_n(
                    tagged_views(before).push(item),
                    PROBE_RICH_EXAMPLES_CAP,
                ));
            }
        }
        if raw_is_dwarf_richer_than_fp(raw) {
            let ghost before = self.dwarf_richer@;
            keep_last(
                &mut self.dwarf_richer,
                TaggedEntry { tid, raw: raw.duplicate() },
                PROBE_RICH_EXAMPLES_CAP,
            );
            proof {
                let kept = dwarf_richer_only(seen);
                lemma_last_n_push(kept, item, PROBE_RICH_EXAMPLES_CAP);
                assert(tagged_views(self.dwarf_richer@) =~= last_n(
                    tagged_views(before).push(item),
                    PROBE_RICH_EXAMPLES_CAP,
                ));
            }
        }
    }

    /// Counts the kernel stacks of a thread; hands back those of it alone.
    fn add_kernel(&mut self, pets: &Vec<PetSample>, order: &Vec<usize>) -> (own: KernelTotals)
        requires
            is_stable_order(pet_keys(pet_views(pets@)), order@),
        ensures
            final(self).kernel == old(self).kernel.plus_all(
                stable_sorted(pet_keys(pet_views(pets@)), pet_views(pets@)),
            ),
            own == KernelTotals::none().plus_all(
                stable_sorted(pet_keys(pet_views(pets@)), pet_views(pets@)),
            ),
            final(self).totals == old(self).totals,
            final(self).richer == old(self).richer,
            final(self).dwarf_richer == old(self).dwarf_richer,
            final(self).kperf == old(self).kperf,
            final(self).probes == old(self).probes,
            final(self).kperf_only == old(self).kperf_only,
            final(self).probe_only == old(self).probe_only,
            final(self).rows == old(self).rows,
            final(self).recent == old(self).recent,
    {
        let ghost views = pet_views(pets@);
        let ghost keys = pet_keys(views);
        let ghost sorted = stable_sorted(keys, views);
        let ghost kernel0 = self.kernel;
        proof {
            stable_order_gives_sorted(keys, views, order@);
            assert(sorted.take(0) =~= seq![]);
        }
        let mut own = KernelTotals { samples: 0, frames: 0, max_frames: 0 };
        let mut k: usize = 0;
        while k < order.len()
            invariant
                k <= order@.len(),
                views == pet_views(pets@),
                keys == pet_keys(views),
                is_stable_order(keys, order@),
                sorted.len() == order@.len(),
                forall|a: int| 0 <= a < order@.len() ==> #[trigger] sorted[a] == views[order@[a] as int],
                self.kernel == kernel0.plus_all(sorted.take(k as int)),
                own == KernelTotals::none().plus_all(sorted.take(k as int)),
                self.totals == old(self).totals,
                self.richer == old(self).richer,
                self.dwarf_richer == old(self).dwarf_richer,
                self.kperf == old(self).kperf,
                self.probes == old(self).probes,
                self.kperf_only == old(self).kperf_only,
                self.probe_only == old(self).probe_only,
                self.rows == old(self).rows,
                self.recent == old(self).recent,
            decreases order@.len() - k,
        {
            assert(order@[k as int] < keys.len());
            let depth: usize = pets[order[k]].kernel_stack.len();
            proof {
                assert(sorted[k as int] == views[order@[k as int] as int]);
                assert(sorted.take(k + 1).drop_last() =~= sorted.take(k as int));
                assert(sorted.take(k + 1).last() == sorted[k as int]);
            }
            self.kernel.add_depth(depth);
            own.add_depth(depth);
            k = k + 1;
        }
        assert(sorted.take(k as int) =~= sorted);
        own
    }

    /// Scans one more thread.
    #[verifier::rlimit(60)]
    #[verifier::spinoff_prover]
    fn add_thread(
        &mut self,
        cfg: DiffConfig,
        start: u64,
        t: &ThreadStats,
        Ghost(ts): Ghost<Seq<ThreadView>>,
    )
        requires
            old(self).covers(cfg, start, ts),
        ensures
            final(self).covers(cfg, start, ts.push(t@)),
    {
        let ghost tv = t@;
        let ghost before = sum_over(cfg, start, ts);
        let ghost es = entries_of(cfg, start, tv);
        let ghost pets = pets_in_order(tv);
        let ghost probes = probes_in_order(tv);
        let (pet_order, pet_ts) = order_pets(&t.pet_samples);
        let (probe_order, probe_ts) = order_probes(&t.probe_results);
        let own_kernel = self.add_kernel(&t.pet_samples, &pet_order);
        let pairs = pair_samples(cfg.timebase, &pet_ts, &probe_ts);
        proof {
            assert(pet_ts.len() <= usize::MAX && probe_ts.len() <= usize::MAX);
            stable_order_gives_sorted(pet_keys(tv.pets), tv.pets, pet_order@);
            stable_order_gives_sorted(probe_keys(tv.probes), tv.probes, probe_order@);
            pairs_are_disjoint_and_close(cfg.timebase, pet_ts@, probe_ts@, probe_ts@.len());
            assert(pairs@ == thread_pairs(cfg, tv));
            assert(es.take(0) =~= seq![]);
            assert(before.entries + tagged(tv.tid, es.take(0)) =~= before.entries);
        }
        let mut own = PairTotals::new();
        let mut ring: VecDeque<TaggedEntry> = VecDeque::new();
        let mut j: usize = 0;
        assert(tagged_views(ring@) =~= last_n(tagged(tv.tid, es.take(0)), PROBE_RECENT_CAP));
        while j < pairs.len()
            invariant
                j <= pairs@.len(),
                tv == t@,
                es == entries_of(cfg, start, tv),
                es.len() == pairs@.len(),
                pairs@ == thread_pairs(cfg, tv),
                pets == pets_in_order(tv),
                probes == probes_in_order(tv),
                is_stable_order(pet_keys(tv.pets), pet_order@),
                is_stable_order(probe_keys(tv.probes), probe_order@),
                pets.len() == tv.pets.len(),
                probes.len() == tv.probes.len(),
                forall|a: int|
                    0 <= a < pets.len() ==> #[trigger] pets[a] == tv.pets[pet_order@[a] as int],
                forall|a: int|
                    0 <= a < probes.len() ==> #[trigger] probes[a]
                        == tv.probes[probe_order@[a] as int],
                forall|a: int|
                    0 <= a < pairs@.len() ==> (#[trigger] pairs@[a]).probe < probes.len()
                        && pairs@[a].pet < pets.len(),
                own@ == TotalsView::none().plus_all(es.take(j as int)),
                own@.shaped(),
                self.totals@ == before.totals.plus_all(es.take(j as int)),
                self.totals@.shaped(),
                tagged_views(self.richer@) == last_n(
                    richer_only(before.entries + tagged(tv.tid, es.take(j as int))),
                    PROBE_RICH_EXAMPLES_CAP,
                ),
                tagged_views(self.dwarf_richer@) == last_n(
                    dwarf_richer_only(before.entries + tagged(tv.tid, es.take(j as int))),
                    PROBE_RICH_EXAMPLES_CAP,
                ),
                tagged_views(ring@) == last_n(
                    tagged(tv.tid, es.take(j as int)),
                    PROBE_RECENT_CAP,
                ),
                self.kernel == before.kernel.plus_all(pets),
                self.kperf == old(self).kperf,
                self.probes == old(self).probes,
                self.kperf_only == old(self).kperf_only,
                self.probe_only == old(self).probe_only,
                self.rows == old(self).rows,
                self.recent == old(self).recent,
            decreases pairs@.len() - j,
        {
            let pair = pairs[j];
            assert(pair.probe < probes.len() && pair.pet < pets.len());
            assert(pet_order@[pair.pet as int] < tv.pets.len());
            assert(probe_order@[pair.probe as int] < tv.probes.len());
            let pet = &t.pet_samples[pet_order[pair.pet]];
            let probe = &t.probe_results[probe_order[pair.probe]];
            let raw = compare_pair(cfg, start, pet, probe);
            let ghost item = TaggedView { tid: tv.tid, raw: raw@ };
            let ghost seen = before.entries + tagged(tv.tid, es.take(j as int));
            proof {
                assert(pets[pair.pet as int] == pet@);
                assert(probes[pair.probe as int] == probe@);
                assert(raw@ == es[j as int]);
                assert(es.take(j + 1).drop_last() =~= es.take(j as int));
                assert(es.take(j + 1).last() == es[j as int]);
                assert(tagged(tv.tid, es.take(j + 1)) =~= tagged(tv.tid, es.take(j as int)).push(
                    item,
                ));
                assert(before.entries + tagged(tv.tid, es.take(j + 1)) =~= seen.push(item));
                lemma_last_n_push(tagged(tv.tid, es.take(j as int)), item, PROBE_RECENT_CAP);
                assert(tagged_views(ring@).len() == ring@.len());
            }
            own.add(&raw);
            self.add_entry(t.tid, &raw, Ghost(seen));
            let ghost held = ring@;
            keep_last(&mut ring, TaggedEntry { tid: t.tid, raw }, PROBE_RECENT_CAP);
            assert(tagged_views(ring@) =~= last_n(tagged_views(held).push(item), PROBE_RECENT_CAP));
            j = j + 1;
        }
        assert(es.take(j as int) =~= es);
        let t_kperf: u64 = t.pet_samples.len() as u64;
        let t_probes: u64 = t.probe_results.len() as u64;
        let kperf_only: u64 = t_kperf - pairs.len() as u64;
        let probe_only: u64 = t_probes - pairs.len() as u64;
        self.kperf = self.kperf.saturating_add(t_kperf);
        self.probes = self.probes.saturating_add(t_probes);
        self.kperf_only = self.kperf_only.saturating_add(kperf_only);
        self.probe_only = self.probe_only.saturating_add(probe_only);
        if t_kperf > 0 || t_probes > 0 {
            let ghost rows = self.rows@;
            self.rows.push(
                ProbeDiffThread {
                    tid: t.tid,
                    kperf_samples: t_kperf,
                    kperf_kernel_stack_samples: own_kernel.samples,
                    probe_results: t_probes,
                    paired: own.paired,
                    kperf_only,
                    probe_only,
                    pc_match: own.pc_match,
                    stitchable: own.stitchable,
                    richer_than_kperf: own.richer_than_kperf,
                    dwarf_richer_than_fp: own.dwarf_richer_than_fp,
                    compact_stitchable: own.compact_stitchable,
                    compact_dwarf_stitchable: own.compact_dwarf_stitchable,
                    dwarf_stitchable: own.dwarf_stitchable,
                    common_total: own.common_total,
                    compact_common_total: own.compact_common_total,
                    compact_dwarf_common_total: own.compact_dwarf_common_total,
                    dwarf_common_total: own.dwarf_common_total,
                    thread_name: clone_opt_text(&t.name),
                },
            );
            proof {
                assert(self.rows@.last()@ == row_of(cfg, start, tv));
                assert(row_views(self.rows@) =~= row_views(rows).push(row_of(cfg, start, tv)));
            }
        }
        self.recent.push(RecentEntries { tid: t.tid, ring });
        proof {
            assert(ts.push(tv).drop_last() =~= ts);
            assert(ts.push(tv).last() == tv);
        }
    }
}

/// The most informative row.
fn most_telling(rows: &Vec<ProbeDiffThread>) -> (r: Option<u32>)
    ensures
        r == focus_of(None, row_views(rows@)),
{
    let ghost views = row_views(rows@);
    if rows.len() == 0 {
        assert(forall|i: int| !is_most_telling(views, i));
        return None;
    }
    let mut best: usize = 0;
    let mut i: usize = 1;
    while i < rows.len()
        invariant
            1 <= i <= rows@.len(),
            views == row_views(rows@),
            best < i,
            forall|j: int| 0 <= j < i ==> no_more_telling(#[trigger] views[j], views[best as int]),
            forall|j: int| best < j < i ==> !no_more_telling(views[best as int], #[trigger] views[j]),
        decreases rows@.len() - i,
    {
        let a = &rows[best];
        let b = &rows[i];
        assert(views[i as int] == rows@[i as int]@);
        if a.stitchable < b.stitchable || (a.stitchable == b.stitchable && a.paired <= b.paired) {
            best = i;
        }
        i = i + 1;
    }
    proof {
        assert(is_most_telling(views, best as int));
        let k = choose|k: int| is_most_telling(views, k);
        assert(is_most_telling(views, k));
        assert(no_more_telling(views[k], views[best as int]));
        assert(no_more_telling(views[best as int], views[k]));
        if k < best {
            assert(!no_more_telling(views[k], views[best as int]));
        } else if best < k {
            assert(!no_more_telling(views[best as int], views[k]));
        }
        assert(views[best as int] == rows@[best as int]@);
    }
    Some(rows[best].tid)
}

/// Names the frames of some entries.
fn resolve_entries(bins: &BinaryRegistry, ring: &VecDeque<TaggedEntry>) -> (out: Vec<ProbeDiffEntry>)
    requires
        bins.wf(),
    ensures
        entry_views(out@) == named(*bins, tagged_views(ring@)),
{
    let mut out: Vec<ProbeDiffEntry> = Vec::new();
    let mut i: usize = 0;
    while i < ring.len()
        invariant
            bins.wf(),
            i <= ring@.len(),
            entry_views(out@) == named(*bins, tagged_views(ring@.take(i as int))),
        decreases ring@.len() - i,
    {
        let e = &ring[i];
        let ghost before = out@;
        out.push(resolve_probe_diff_entry(bins, e.tid, &e.raw));
        proof {
            let item = ring@[i as int];
            assert(entry_views(out@) =~= entry_views(before).push(out@.last()@));
            assert(named(*bins, tagged_views(ring@.take(i + 1))) =~= named(
                *bins,
                tagged_views(ring@.take(i as int)),
            ).push(entry_of(*bins, item.tid, item.raw@)));
        }
        i = i + 1;
    }
    assert(ring@.take(i as int) =~= ring@);
    out
}

/// The rows in the order in which they are listed.
fn list_rows(rows: Vec<ProbeDiffThread>) -> (out: Vec<ProbeDiffThread>)
    ensures
        row_views(out@) == first_n(
            stable_sorted(row_keys(row_views(rows@)), row_views(rows@)),
            PROBE_THREADS_CAP,
        ),
{
    let mut keys: Vec<NumKey> = Vec::new();
    let mut i: usize = 0;
    while i < rows.len()
        invariant
            i <= rows@.len(),
            keys@ == row_keys(row_views(rows@.take(i as int))),
        decreases rows@.len() - i,
    {
        let r = &rows[i];
        keys.push(
            NumKey {
                first: u64::MAX - r.kperf_samples,
                second: u64::MAX - r.kperf_only,
                third: u64::MAX - r.paired,
                fourth: u64::MAX - r.probe_results,
            },
        );
        i = i + 1;
        assert(keys@ =~= row_keys(row_views(rows@.take(i as int))));
    }
    assert(rows@.take(i as int) =~= rows@);
    let ghost src = rows@;
    let mut out = sort_by_keys(rows, &keys);
    proof {
        let order = choose|order: Seq<usize>| #[trigger]
            is_stable_order(keys@, order) && is_reordering(src, order, out@);
        stable_order_gives_sorted(keys@, row_views(src), order);
        let sorted = stable_sorted(keys@, row_views(src));
        assert forall|k: int| 0 <= k < out@.len() implies sorted[k] == (#[trigger] out@[k])@ by {
            assert(order[k] < keys@.len());
            assert(sorted[k] == row_views(src)[order[k] as int]);
        }
        assert(row_views(out@) =~= sorted);
    }
    let ghost sorted = row_views(out@);
    if out.len() > PROBE_THREADS_CAP {
        out.truncate(PROBE_THREADS_CAP);
    }
    assert(row_views(out@) =~= first_n(sorted, PROBE_THREADS_CAP));
    out
}

/// The cells of the drift histogram.
fn drift_buckets(t: &PairTotals) -> (out: Vec<ProbeDiffBucket>)
    requires
        t@.shaped(),
    ensures
        out@ == drift_buckets_of(t@),
{
    let mut out: Vec<ProbeDiffBucket> = Vec::new();
    let mut i: usize = 0;
    while i < DRIFT_CELLS
        invariant
            i <= DRIFT_CELLS,
            t@.shaped(),
            out@ == drift_buckets_of(t@).take(i as int),
        decreases DRIFT_CELLS - i,
    {
        out.push(
            ProbeDiffBucket {
                upper_ns: drift_upper_ns(i),
                samples: t.drift_count[i],
                pc_match: t.drift_pc_match[i],
            },
        );
        i = i + 1;
        assert(out@ =~= drift_buckets_of(t@).take(i as int));
    }
    assert(drift_buckets_of(t@).take(i as int) =~= drift_buckets_of(t@));
    out
}

/// The depths at which anything was compared.
fn depth_cells(t: &PairTotals) -> (out: Vec<ProbeDiffDepthCell>)
    requires
        t@.shaped(),
    ensures
        out@ == depth_cells_of(t@, PROBE_DEPTH_CAP as nat),
{
    let mut out: Vec<ProbeDiffDepthCell> = Vec::new();
    let mut d: usize = 0;
    while d < PROBE_DEPTH_CAP
        invariant
            d <= PROBE_DEPTH_CAP,
            t@.shaped(),
            out@ == depth_cells_of(t@, d as nat),
        decreases PROBE_DEPTH_CAP - d,
    {
        if t.depth_total[d] > 0 {
            out.push(
                ProbeDiffDepthCell {
                    depth: d as u32,
                    matched: t.depth_matched[d],
                    total: t.depth_total[d],
                },
            );
        }
        d = d + 1;
    }
    out
}

/// Compares the samples of a recording with its probes, for the thread `only_tid`
/// or for all but the one that serves the probes.
pub fn build_probe_diff_update(
    cfg: DiffConfig,
    agg: &Aggregator,
    bins: &BinaryRegistry,
    only_tid: Option<u32>,
) -> (u: ProbeDiffUpdate)
    requires
        bins.wf(),
    ensures
        is_probe_diff(
            cfg,
            match agg.start() {
                Some(s) => s,
                None => 0,
            },
            agg.threads(),
            *bins,
            only_tid,
            u,
        ),
{
    let start: u64 = match agg.session_start_ns() {
        Some(s) => s,
        None => 0,
    };
    let threads = agg.thread_list();
    let ghost views = thread_views(threads@);
    let mut scan = DiffScan::new(Ghost(cfg), Ghost(start));
    let mut i: usize = 0;
    assert(views.take(0) =~= Seq::<ThreadView>::empty());
    while i < threads.len()
        invariant
            i <= threads@.len(),
            views == thread_views(threads@),
            scan.covers(cfg, start, compared(only_tid, views.take(i as int))),
        decreases threads@.len() - i,
    {
        let t = &threads[i];
        proof {
            assert(views.take(i + 1).drop_last() =~= views.take(i as int));
            assert(views.take(i + 1).last() == t@);
        }
        let wanted = match only_tid {
            Some(want) => t.tid == want,
            None => match &t.name {
                Some(name) => !same_text(name.as_str(), INFERIOR_HELPER_THREAD_NAME),
                None => true,
            },
        };
        if wanted {
            scan.add_thread(
                cfg,
                start,
                t,
                Ghost(compared(only_tid, views.take(i as int))),
            );
        }
        i = i + 1;
    }
    assert(views.take(i as int) =~= views);
    let ghost ts = compared(only_tid, views);
    let focus: Option<u32> = match only_tid {
        Some(t) => Some(t),
        None => most_telling(&scan.rows),
    };
    let mut recent: Vec<ProbeDiffEntry> = Vec::new();
    assert(entry_views(recent@) =~= seq![]);
    assert(named(*bins, last_n(Seq::<TaggedView>::empty(), PROBE_RECENT_CAP)) =~= seq![]);
    let mut k: usize = scan.recent.len();
    let mut found = false;
    assert(ts.take(k as int) =~= ts);
    while k > 0 && !found
        invariant
            bins.wf(),
            k <= scan.recent@.len(),
            scan.covers(cfg, start, ts),
            found ==> entry_views(recent@) == named(
                *bins,
                last_n(entries_of_tid(cfg, start, ts, focus), PROBE_RECENT_CAP),
            ),
            !found ==> recent@.len() == 0 && entries_of_tid(cfg, start, ts, focus) == entries_of_tid(
                cfg,
                start,
                ts.take(k as int),
                focus,
            ),
        decreases k + (if found { 0int } else { 1int }),
    {
        proof {
            assert(scan.recent@[k - 1].tid == ts[k - 1].tid);
            assert(ts.take(k as int).last() == ts[k - 1]);
            assert(ts.take(k as int).drop_last() =~= ts.take(k - 1));
        }
        let matches_focus = match focus {
            Some(tid) => scan.recent[k - 1].tid == tid,
            None => false,
        };
        if matches_focus {
            recent = resolve_entries(bins, &scan.recent[k - 1].ring);
            found = true;
        } else {
            k = k - 1;
        }
    }
    proof {
        if !found {
            assert(ts.take(0) =~= seq![]);
            assert(entry_views(recent@) =~= seq![]);
        }
    }
    let richer = resolve_entries(bins, &scan.richer);
    let dwarf_richer = resolve_entries(bins, &scan.dwarf_richer);
    let drift_buckets = drift_buckets(&scan.totals);
    let depth_match = depth_cells(&scan.totals);
    let DiffScan { kperf, probes, kperf_only, probe_only, kernel, totals, richer: _, dwarf_richer: _, rows, recent: _ } = scan;
    let threads = list_rows(rows);
    ProbeDiffUpdate {
        total_kperf_samples: kperf,
        total_probes: probes,
        kperf_kernel_stack_samples: kernel.samples,
        kperf_kernel_frames: kernel.frames,
        max_kperf_kernel_frames: kernel.max_frames,
        paired: totals.paired,
        paired_kernel_stack_samples: totals.paired_kernel_stack_samples,
        kperf_only,
        probe_only,
        probe_augmented_kperf: totals.probe_augmented_kperf,
        probe_walked_deeper: totals.probe_walked_deeper,
        common_suffix_hist: totals.common_suffix_hist,
        compact_suffix_hist: totals.compact_suffix_hist,
        compact_dwarf_suffix_hist: totals.compact_dwarf_suffix_hist,
        dwarf_suffix_hist: totals.dwarf_suffix_hist,
        depth_match,
        drift_buckets,
        timing: totals.timing.finish(),
        pc_match: totals.pc_match,
        stitchable: totals.stitchable,
        richer_than_kperf: totals.richer_than_kperf,
        dwarf_richer_than_fp: totals.dwarf_richer_than_fp,
        compact_stitchable: totals.compact_stitchable,
        compact_dwarf_stitchable: totals.compact_dwarf_stitchable,
        dwarf_stitchable: totals.dwarf_stitchable,
        framehop_used: totals.framehop_used,
        compact_used: totals.compact_used,
        compact_dwarf_used: totals.compact_dwarf_used,
        fp_walk_used: totals.fp_walk_used,
        threads,
        richer,
        dwarf_richer,
        recent,
    }
}

/// Counting pairs one by one gives their number.
proof fn lemma_paired_counts(es: Seq<RawView>)
    requires
        es.len() <= u64::MAX,
    ensures
        TotalsView::none().plus_all(es).paired == es.len(),
    decreases es.len(),
{
    if es.len() > 0 {
        lemma_paired_counts(es.drop_last());
    }
}

/// Every sample of a thread is in a pair or counted alone, and so is every probe.
pub proof fn samples_and_probes_are_accounted_for(cfg: DiffConfig, start: u64, t: ThreadView)
    requires
        t.pets.len() <= usize::MAX,
        t.probes.len() <= usize::MAX,
    ensures
        ({
            let row = row_of(cfg, start, t);
            &&& row.paired + row.kperf_only == row.kperf_samples == t.pets.len()
            &&& row.paired + row.probe_only == row.probe_results == t.probes.len()
        }),
{
    let pets = pets_in_order(t);
    let probes = probes_in_order(t);
    let pet_order = existing_order(pet_keys(t.pets));
    let probe_order = existing_order(probe_keys(t.probes));
    stable_order_gives_sorted(pet_keys(t.pets), t.pets, pet_order);
    stable_order_gives_sorted(probe_keys(t.probes), t.probes, probe_order);
    pairs_are_disjoint_and_close(
        cfg.timebase,
        pets.map_values(|p: PetView| p.timestamp_ns),
        probes.map_values(|p: ProbeView| p.timing.kperf_ts),
        probes.len(),
    );
    lemma_paired_counts(entries_of(cfg, start, t));
}

/// The totals of all cells.
pub open spec fn cell_sum(cells: Seq<u64>) -> int
    decreases cells.len(),
{
    if cells.len() == 0 {
        0
    } else {
        cell_sum(cells.drop_last()) + cells.last()
    }
}

/// No cell is above the sum.
proof fn lemma_cell_bound(cells: Seq<u64>, i: int)
    requires
        0 <= i < cells.len(),
    ensures
        cells[i] <= cell_sum(cells),
        0 <= cell_sum(cells),
    decreases cells.len(),
{
    reveal_with_fuel(cell_sum, 2);
    if i < cells.len() - 1 {
        lemma_cell_bound(cells.drop_last(), i);
    } else if cells.len() > 1 {
        lemma_cell_bound(cells.drop_last(), 0);
    }
}

/// Counting one in a cell counts one in all.
proof fn lemma_one_more(cells: Seq<u64>, at: int)
    requires
        0 <= at < cells.len(),
        cells[at] < u64::MAX,
    ensures
        cell_sum(crate::pair_totals::one_more(cells, at)) == cell_sum(cells) + 1,
    decreases cells.len(),
{
    let next = crate::pair_totals::one_more(cells, at);
    if at == cells.len() - 1 {
        assert(next.drop_last() =~= cells.drop_last());
    } else {
        lemma_one_more(cells.drop_last(), at);
        assert(next.drop_last() =~= crate::pair_totals::one_more(cells.drop_last(), at));
    }
}

/// Empty cells add up to nothing.
proof fn lemma_empty_cells(n: usize)
    ensures
        cell_sum(crate::pair_totals::empty_cells(n)) == 0,
    decreases n,
{
    if n > 0 {
        lemma_empty_cells((n - 1) as usize);
        assert(crate::pair_totals::empty_cells(n).drop_last()
            =~= crate::pair_totals::empty_cells((n - 1) as usize));
    }
}

/// Every pair falls into one cell of each histogram, and whatever is counted over
/// pairs is counted at most once for each of them.
pub proof fn histograms_count_every_pair_once(es: Seq<RawView>)
    requires
        es.len() < u64::MAX,
    ensures
        ({
            let t = TotalsView::none().plus_all(es);
            &&& t.shaped()
            &&& t.paired == es.len()
            &&& cell_sum(t.common_suffix_hist) == es.len()
            &&& cell_sum(t.compact_suffix_hist) == es.len()
            &&& cell_sum(t.compact_dwarf_suffix_hist) == es.len()
            &&& cell_sum(t.dwarf_suffix_hist) == es.len()
            &&& cell_sum(t.drift_count) == es.len()
            &&& cell_sum(t.drift_pc_match) == t.pc_match
            &&& t.pc_match <= es.len()
            &&& t.stitchable == t.dwarf_stitchable
            &&& t.stitchable <= es.len()
            &&& t.richer_than_kperf <= t.stitchable
            &&& t.dwarf_richer_than_fp <= t.stitchable
        }),
    decreases es.len(),
{
    use_empty_histograms();
    if es.len() > 0 {
        let before = TotalsView::none().plus_all(es.drop_last());
        let e = es.last();
        histograms_count_every_pair_once(es.drop_last());
        lemma_bump_suffix(before.common_suffix_hist, e.common, es.len() - 1);
        lemma_bump_suffix(before.compact_suffix_hist, e.compact_common, es.len() - 1);
        lemma_bump_suffix(before.compact_dwarf_suffix_hist, e.compact_dwarf_common, es.len() - 1);
        lemma_bump_suffix(before.dwarf_suffix_hist, e.dwarf_common, es.len() - 1);
        let cell = crate::pair_totals::drift_cell(e.drift_abs_ns);
        lemma_cell_bound(before.drift_count, cell);
        lemma_one_more(before.drift_count, cell);
        lemma_cell_bound(before.drift_pc_match, cell);
        lemma_one_more(before.drift_pc_match, cell);
    }
}

/// The histograms over no pair are empty.
proof fn use_empty_histograms()
    ensures
        cell_sum(crate::pair_totals::empty_cells(crate::pair_totals::SUFFIX_CELLS)) == 0,
        cell_sum(crate::pair_totals::empty_cells(DRIFT_CELLS)) == 0,
{
    lemma_empty_cells(crate::pair_totals::SUFFIX_CELLS);
    lemma_empty_cells(DRIFT_CELLS);
}

/// Counting one shared stretch counts one in its histogram.
proof fn lemma_bump_suffix(cells: Seq<u64>, common: usize, n: int)
    requires
        cells.len() == crate::pair_totals::SUFFIX_CELLS,
        cell_sum(cells) == n,
        n < u64::MAX,
    ensures
        cell_sum(
            crate::pair_totals::one_more(cells, crate::pair_totals::suffix_cell(common)),
        ) == n + 1,
{
    let cell = crate::pair_totals::suffix_cell(common);
    lemma_cell_bound(cells, cell);
    lemma_one_more(cells, cell);
}

/// The pairs of a thread: sample and probe.
pub open spec fn sides_of(cfg: DiffConfig, t: ThreadView) -> Seq<(PetView, ProbeView)> {
    thread_pairs(cfg, t).map_values(
        |p: Pair| (pets_in_order(t)[p.pet as int], probes_in_order(t)[p.probe as int]),
    )
}

/// The pairs of some threads, one thread behind the other.
pub open spec fn all_sides(cfg: DiffConfig, ts: Seq<ThreadView>) -> Seq<(PetView, ProbeView)>
    decreases ts.len(),
{
    if ts.len() == 0 {
        seq![]
    } else {
        all_sides(cfg, ts.drop_last()) + sides_of(cfg, ts.last())
    }
}

/// The sample and the probe stopped at the same instruction: the innermost user frame of the one, 0
/// where there is none, is what the other read.
pub open spec fn stopped_alike(side: (PetView, ProbeView)) -> bool {
    (if side.0.stack.len() > 0 {
        side.0.stack.first()
    } else {
        0
    }) == side.1.mach_pc
}

/// The entries of some threads, one thread behind the other.
spec fn all_entries(cfg: DiffConfig, start: u64, ts: Seq<ThreadView>) -> Seq<RawView>
    decreases ts.len(),
{
    if ts.len() == 0 {
        seq![]
    } else {
        all_entries(cfg, start, ts.drop_last()) + entries_of(cfg, start, ts.last())
    }
}

/// Counting on is counting all.
proof fn lemma_plus_all(t: TotalsView, a: Seq<RawView>, b: Seq<RawView>)
    ensures
        t.plus_all(a).plus_all(b) == t.plus_all(a + b),
    decreases b.len(),
{
    if b.len() == 0 {
        assert(a + b =~= a);
    } else {
        lemma_plus_all(t, a, b.drop_last());
        assert((a + b).drop_last() =~= a + b.drop_last());
    }
}

/// The totals over threads are those over all of their entries.
proof fn lemma_sum_totals(cfg: DiffConfig, start: u64, ts: Seq<ThreadView>)
    ensures
        sum_over(cfg, start, ts).totals == TotalsView::none().plus_all(all_entries(cfg, start, ts)),
        all_entries(cfg, start, ts).len() == all_sides(cfg, ts).len(),
        forall|i: int|
            0 <= i < all_sides(cfg, ts).len() ==> #[trigger] all_entries(cfg, start, ts)[i]
                == raw_of(cfg, start, all_sides(cfg, ts)[i].0, all_sides(cfg, ts)[i].1),
    decreases ts.len(),
{
    if ts.len() > 0 {
        lemma_sum_totals(cfg, start, ts.drop_last());
        lemma_plus_all(
            TotalsView::none(),
            all_entries(cfg, start, ts.drop_last()),
            entries_of(cfg, start, ts.last()),
        );
        let m = all_sides(cfg, ts.drop_last()).len();
        assert forall|i: int| 0 <= i < all_sides(cfg, ts).len() implies #[trigger] all_entries(
            cfg,
            start,
            ts,
        )[i] == raw_of(cfg, start, all_sides(cfg, ts)[i].0, all_sides(cfg, ts)[i].1) by {
            if i < m {
                assert(all_entries(cfg, start, ts.drop_last())[i] == all_entries(cfg, start, ts)[i]);
            } else {
                assert(all_entries(cfg, start, ts)[i] == entries_of(cfg, start, ts.last())[i - m]);
                assert(all_sides(cfg, ts)[i] == sides_of(cfg, ts.last())[i - m]);
            }
        }
    }
}

/// As many entries are so as sides are.
proof fn lemma_as_many(
    es: Seq<RawView>,
    sides: Seq<(PetView, ProbeView)>,
    p: spec_fn(RawView) -> bool,
    q: spec_fn((PetView, ProbeView)) -> bool,
)
    requires
        es.len() == sides.len(),
        forall|i: int| 0 <= i < es.len() ==> p(#[trigger] es[i]) == q(sides[i]),
    ensures
        how_many(es, p) == how_many(sides, q),
    decreases es.len(),
{
    if es.len() > 0 {
        how_many_with(es, p);
        how_many_with(sides, q);
        assert(p(es[es.len() - 1]) == q(sides[es.len() - 1]));
        assert forall|i: int| 0 <= i < es.len() - 1 implies p(#[trigger] es.drop_last()[i]) == q(
            sides.drop_last()[i],
        ) by {
            assert(p(es[i]) == q(sides[i]));
        }
        lemma_as_many(es.drop_last(), sides.drop_last(), p, q);
    } else {
        reveal(Seq::filter);
    }
}

/// The law of matches: over a comparison, the pairs that stopped at the same instruction are counted
/// as such, and no others: altogether, and in each cell of the drift histogram those whose drift
/// falls into it.
pub proof fn only_pairs_that_stopped_alike_match(
    cfg: DiffConfig,
    start: u64,
    threads: Seq<ThreadView>,
    bins: BinaryRegistry,
    only_tid: Option<u32>,
    u: ProbeDiffUpdate,
    c: int,
)
    requires
        is_probe_diff(cfg, start, threads, bins, only_tid, u),
        all_sides(cfg, compared(only_tid, threads)).len() <= u64::MAX,
        0 <= c < 7,
    ensures
        ({
            let sides = all_sides(cfg, compared(only_tid, threads));
            let drift = |s: (PetView, ProbeView)|
                crate::pair_totals::magnitude_64(
                    crate::pair_totals::drift_of(cfg.timebase, s.0, s.1),
                );
            &&& u.paired == sides.len()
            &&& u.pc_match == how_many(sides, |s: (PetView, ProbeView)| stopped_alike(s))
            &&& u.drift_buckets@.len() == 7
            &&& u.drift_buckets@[c].samples == how_many(
                sides,
                |s: (PetView, ProbeView)| falls_into(c, drift(s)),
            )
            &&& u.drift_buckets@[c].pc_match == how_many(
                sides,
                |s: (PetView, ProbeView)| falls_into(c, drift(s)) && stopped_alike(s),
            )
            &&& u.paired_kernel_stack_samples == how_many(
                sides,
                |s: (PetView, ProbeView)| s.0.kernel_stack.len() > 0,
            )
            &&& u.fp_walk_used == how_many(
                sides,
                |s: (PetView, ProbeView)| s.1.mach_walked.len() > 0,
            )
            &&& u.framehop_used == how_many(
                sides,
                |s: (PetView, ProbeView)| s.1.dwarf_walked.len() > 0,
            )
        }),
{
    let ts = compared(only_tid, threads);
    let sides = all_sides(cfg, ts);
    let es = all_entries(cfg, start, ts);
    let drift = |s: (PetView, ProbeView)|
        crate::pair_totals::magnitude_64(crate::pair_totals::drift_of(cfg.timebase, s.0, s.1));
    lemma_sum_totals(cfg, start, ts);
    totals_count_pairs(es);
    totals_count_walks(es);
    drift_cells_count_pairs(es, c);
    assert forall|i: int| 0 <= i < es.len() implies (#[trigger] es[i]).pc_match == stopped_alike(
        sides[i],
    ) && es[i].drift_abs_ns == drift(sides[i]) && es[i].kperf_kernel_stack
        == sides[i].0.kernel_stack && es[i].probe_stack.len() == sides[i].1.mach_walked.len() + 1
        && es[i].dwarf_stack.len() == sides[i].1.dwarf_walked.len() + 1 by {
        pairs_show_both_sides(cfg, start, sides[i].0, sides[i].1);
        assert(es[i].dwarf_stack.drop_first() == sides[i].1.dwarf_walked);
    }
    lemma_as_many(
        es,
        sides,
        |e: RawView| e.pc_match,
        |s: (PetView, ProbeView)| stopped_alike(s),
    );
    lemma_as_many(
        es,
        sides,
        |e: RawView| falls_into(c, e.drift_abs_ns),
        |s: (PetView, ProbeView)| falls_into(c, drift(s)),
    );
    lemma_as_many(
        es,
        sides,
        |e: RawView| falls_into(c, e.drift_abs_ns) && e.pc_match,
        |s: (PetView, ProbeView)| falls_into(c, drift(s)) && stopped_alike(s),
    );
    lemma_as_many(
        es,
        sides,
        |e: RawView| e.kperf_kernel_stack.len() > 0,
        |s: (PetView, ProbeView)| s.0.kernel_stack.len() > 0,
    );
    lemma_as_many(
        es,
        sides,
        |e: RawView| e.probe_stack.len() > 1,
        |s: (PetView, ProbeView)| s.1.mach_walked.len() > 0,
    );
    lemma_as_many(
        es,
        sides,
        |e: RawView| e.dwarf_stack.len() > 1,
        |s: (PetView, ProbeView)| s.1.dwarf_walked.len() > 0,
    );
}

/// The law of rows: the row of a thread counts its own pairs that stopped at the same instruction.
pub proof fn rows_count_their_matches(cfg: DiffConfig, start: u64, t: ThreadView)
    requires
        sides_of(cfg, t).len() <= u64::MAX,
    ensures
        row_of(cfg, start, t).tid == t.tid,
        row_of(cfg, start, t).paired == sides_of(cfg, t).len(),
        row_of(cfg, start, t).pc_match == how_many(
            sides_of(cfg, t),
            |s: (PetView, ProbeView)| stopped_alike(s),
        ),
{
    let es = entries_of(cfg, start, t);
    let sides = sides_of(cfg, t);
    totals_count_pairs(es);
    assert forall|i: int| 0 <= i < es.len() implies (#[trigger] es[i]).pc_match == stopped_alike(
        sides[i],
    ) by {
        pairs_show_both_sides(cfg, start, sides[i].0, sides[i].1);
    }
    lemma_as_many(
        es,
        sides,
        |e: RawView| e.pc_match,
        |s: (PetView, ProbeView)| stopped_alike(s),
    );
}

/// The row is that of a thread with samples or probes.
pub open spec fn is_row_of(cfg: DiffConfig, start: u64, t: ThreadView, row: RowView) -> bool {
    row == row_of(cfg, start, t) && (t.pets.len() > 0 || t.probes.len() > 0)
}

/// The law of shown rows: every row that is listed is the row of a thread that is compared and has
/// samples or probes.
pub proof fn rows_are_of_compared_threads(
    cfg: DiffConfig,
    start: u64,
    threads: Seq<ThreadView>,
    bins: BinaryRegistry,
    only_tid: Option<u32>,
    u: ProbeDiffUpdate,
    i: int,
) -> (k: int)
    requires
        is_probe_diff(cfg, start, threads, bins, only_tid, u),
        threads.len() <= usize::MAX,
        0 <= i < u.threads@.len(),
    ensures
        0 <= k < threads.len(),
        is_row_of(cfg, start, threads[k], u.threads@[i]@),
        only_tid matches Some(want) ==> threads[k].tid == want,
{
    let ts = compared(only_tid, threads);
    let rows = sum_over(cfg, start, ts).rows;
    let keys = row_keys(rows);
    lemma_compared(only_tid, threads);
    lemma_rows_are_few(cfg, start, ts);
    let order = existing_order(keys);
    stable_order_gives_sorted(keys, rows, order);
    let sorted = stable_sorted(keys, rows);
    assert(row_views(u.threads@) == first_n(sorted, PROBE_THREADS_CAP));
    assert(row_views(u.threads@).len() == u.threads@.len());
    assert(i < first_n(sorted, PROBE_THREADS_CAP).len());
    assert(i < sorted.len() && first_n(sorted, PROBE_THREADS_CAP)[i] == sorted[i]);
    assert(row_views(u.threads@)[i] == u.threads@[i]@);
    assert(order[i] < keys.len());
    let j = lemma_rows(cfg, start, ts, order[i] as int);
    assert(threads.contains(compared(only_tid, threads)[j]));
    choose|k: int| 0 <= k < threads.len() && threads[k] == ts[j]
}

/// There are no more rows than threads.
proof fn lemma_rows_are_few(cfg: DiffConfig, start: u64, ts: Seq<ThreadView>)
    ensures
        sum_over(cfg, start, ts).rows.len() <= ts.len(),
    decreases ts.len(),
{
    if ts.len() > 0 {
        lemma_rows_are_few(cfg, start, ts.drop_last());
    }
}

/// The rows are those of threads.
proof fn lemma_rows(cfg: DiffConfig, start: u64, ts: Seq<ThreadView>, r: int) -> (j: int)
    requires
        0 <= r < sum_over(cfg, start, ts).rows.len(),
    ensures
        0 <= j < ts.len(),
        is_row_of(cfg, start, ts[j], sum_over(cfg, start, ts).rows[r]),
    decreases ts.len(),
{
    let init = ts.drop_last();
    if r < sum_over(cfg, start, init).rows.len() {
        let j = lemma_rows(cfg, start, init, r);
        assert(init[j] == ts[j]);
        j
    } else {
        ts.len() - 1
    }
}

/// The threads that are compared are threads of the recording.
proof fn lemma_compared(only_tid: Option<u32>, ts: Seq<ThreadView>)
    ensures
        compared(only_tid, ts).len() <= ts.len(),
        forall|j: int|
            0 <= j < compared(only_tid, ts).len() ==> ts.contains(
                #[trigger] compared(only_tid, ts)[j],
            ) && (only_tid matches Some(want) ==> compared(only_tid, ts)[j].tid == want),
    decreases ts.len(),
{
    if ts.len() > 0 {
        let init = ts.drop_last();
        lemma_compared(only_tid, init);
        let now = compared(only_tid, ts);
        let before = compared(only_tid, init);
        assert forall|j: int| 0 <= j < now.len() implies ts.contains(#[trigger] now[j]) && (
        only_tid matches Some(want) ==> now[j].tid == want) by {
            if j < before.len() {
                assert(before[j] == now[j]);
                let k = choose|k: int| 0 <= k < init.len() && init[k] == before[j];
                assert(ts[k] == now[j]);
            } else {
                assert(ts[ts.len() - 1] == now[j]);
            }
        }
    }
}

/// The law of shown pairs: of every pair that is shown, recent or richer, it is said that it stopped at
/// the same instruction exactly where the first frame of the sample, or 0, is the first frame of
/// the probe; and its stitched stack is the kernel frames and behind them those of the table-driven
/// walk, where that can stand in.
pub proof fn shown_pairs_match_by_their_leaves(
    cfg: DiffConfig,
    start: u64,
    threads: Seq<ThreadView>,
    bins: BinaryRegistry,
    only_tid: Option<u32>,
    u: ProbeDiffUpdate,
    i: int,
)
    requires
        is_probe_diff(cfg, start, threads, bins, only_tid, u),
        0 <= i < u.recent@.len(),
    ensures
        ({
            let e = u.recent@[i]@;
            &&& e.probe_stack.len() > 0
            &&& e.pc_match == ((if e.kperf_stack.len() > 0 {
                e.kperf_stack[0].address
            } else {
                0
            }) == e.probe_stack[0].address)
            &&& e.stitchable ==> e.stitched_stack == e.kperf_kernel_stack + e.dwarf_stack
            &&& !e.stitchable ==> e.stitched_stack.len() == 0
        }),
{
    let ts = compared(only_tid, threads);
    let focus = focus_of(only_tid, sum_over(cfg, start, ts).rows);
    let own = entries_of_tid(cfg, start, ts, focus);
    let kept = last_n(own, PROBE_RECENT_CAP);
    assert(entry_views(u.recent@) == named(bins, kept));
    assert(entry_views(u.recent@).len() == u.recent@.len());
    assert(named(bins, kept).len() == kept.len());
    assert(entry_views(u.recent@)[i] == u.recent@[i]@);
    assert(named(bins, kept)[i] == entry_of(bins, kept[i].tid, kept[i].raw));
    let at = i + own.len() - kept.len();
    assert(kept[i] == own[at]);
    let s = lemma_entries_of_tid(cfg, start, ts, focus, at);
    pairs_show_both_sides(cfg, start, s.0, s.1);
}

/// The entries of a thread are those of pairs.
proof fn lemma_entries_of_tid(
    cfg: DiffConfig,
    start: u64,
    ts: Seq<ThreadView>,
    tid: Option<u32>,
    i: int,
) -> (s: (PetView, ProbeView))
    requires
        0 <= i < entries_of_tid(cfg, start, ts, tid).len(),
    ensures
        entries_of_tid(cfg, start, ts, tid)[i].raw == raw_of(cfg, start, s.0, s.1),
    decreases ts.len(),
{
    if Some(ts.last().tid) == tid {
        sides_of(cfg, ts.last())[i]
    } else {
        lemma_entries_of_tid(cfg, start, ts.drop_last(), tid, i)
    }
}

/// The law of names: a frame is shown with its own address, and a stack with a name for each frame.
pub proof fn frames_keep_their_addresses(bins: BinaryRegistry, stack: Seq<u64>, i: int)
    requires
        0 <= i < stack.len(),
    ensures
        frames_at(bins, stack).len() == stack.len(),
        frames_at(bins, stack)[i].address == stack[i],
        stack[i] != 0 && bins.symbol_at(stack[i]) is Some ==> frames_at(bins, stack)[i].function
            == bins.symbol_at(stack[i])->0.function_name && frames_at(bins, stack)[i].binary
            == bins.symbol_at(stack[i])->0.binary,
{
}

/// The law of compared threads: with no thread asked for all but the helper's own are compared, and
/// otherwise the one that is asked for, in their order.
pub proof fn all_but_the_helper_are_compared(only_tid: Option<u32>, ts: Seq<ThreadView>)
    ensures
        only_tid is None ==> compared(only_tid, ts) == ts.filter(
            |t: ThreadView| t.name != Some("stax-inferior-helper"@),
        ),
        only_tid is Some ==> compared(only_tid, ts) == ts.filter(
            |t: ThreadView| t.tid == only_tid->0,
        ),
    decreases ts.len(),
{
    reveal(Seq::filter);
    if ts.len() > 0 {
        all_but_the_helper_are_compared(only_tid, ts.drop_last());
    }
}

/// No thread has more pairs than samples, or than probes.
proof fn lemma_pairs_are_few(cfg: DiffConfig, t: ThreadView)
    requires
        t.pets.len() <= usize::MAX,
        t.probes.len() <= usize::MAX,
    ensures
        thread_pairs(cfg, t).len() <= t.pets.len(),
        thread_pairs(cfg, t).len() <= t.probes.len(),
{
    let pets = pets_in_order(t);
    let probes = probes_in_order(t);
    let pet_order = existing_order(pet_keys(t.pets));
    let probe_order = existing_order(probe_keys(t.probes));
    stable_order_gives_sorted(pet_keys(t.pets), t.pets, pet_order);
    stable_order_gives_sorted(probe_keys(t.probes), t.probes, probe_order);
    pairs_are_disjoint_and_close(
        cfg.timebase,
        pets.map_values(|p: PetView| p.timestamp_ns),
        probes.map_values(|p: ProbeView| p.timing.kperf_ts),
        probes.len(),
    );
}

/// The law of totals over threads: the samples and the probes of all threads are counted, at most what
/// fits, and so are those that found no partner.
pub proof fn sums_count_every_thread(cfg: DiffConfig, start: u64, ts: Seq<ThreadView>)
    requires
        forall|i: int|
            0 <= i < ts.len() ==> (#[trigger] ts[i]).pets.len() <= usize::MAX
                && ts[i].probes.len() <= usize::MAX,
    ensures
        sum_over(cfg, start, ts).kperf == as_fits(
            sum_of(ts.map_values(|t: ThreadView| t.pets.len() as int)),
        ),
        sum_over(cfg, start, ts).probes == as_fits(
            sum_of(ts.map_values(|t: ThreadView| t.probes.len() as int)),
        ),
        sum_over(cfg, start, ts).kperf_only == as_fits(
            sum_of(ts.map_values(|t: ThreadView| t.pets.len() - thread_pairs(cfg, t).len())),
        ),
        sum_over(cfg, start, ts).probe_only == as_fits(
            sum_of(ts.map_values(|t: ThreadView| t.probes.len() - thread_pairs(cfg, t).len())),
        ),
        sum_of(ts.map_values(|t: ThreadView| t.pets.len() as int)) >= 0,
        sum_of(ts.map_values(|t: ThreadView| t.probes.len() as int)) >= 0,
        sum_of(ts.map_values(|t: ThreadView| t.pets.len() - thread_pairs(cfg, t).len())) >= 0,
        sum_of(ts.map_values(|t: ThreadView| t.probes.len() - thread_pairs(cfg, t).len())) >= 0,
    decreases ts.len(),
{
    let a = ts.map_values(|t: ThreadView| t.pets.len() as int);
    let b = ts.map_values(|t: ThreadView| t.probes.len() as int);
    let c = ts.map_values(|t: ThreadView| t.pets.len() - thread_pairs(cfg, t).len());
    let d = ts.map_values(|t: ThreadView| t.probes.len() - thread_pairs(cfg, t).len());
    if ts.len() == 0 {
        assert(a =~= seq![] && b =~= seq![] && c =~= seq![] && d =~= seq![]);
    } else {
        let init = ts.drop_last();
        assert forall|i: int| 0 <= i < init.len() implies (#[trigger] init[i]).pets.len()
            <= usize::MAX && init[i].probes.len() <= usize::MAX by {
            assert(init[i] == ts[i]);
        }
        sums_count_every_thread(cfg, start, init);
        let t = ts[ts.len() - 1];
        assert(t.pets.len() <= usize::MAX);
        lemma_pairs_are_few(cfg, t);
        assert(a.drop_last() =~= init.map_values(|t: ThreadView| t.pets.len() as int));
        assert(b.drop_last() =~= init.map_values(|t: ThreadView| t.probes.len() as int));
        assert(c.drop_last() =~= init.map_values(
            |t: ThreadView| t.pets.len() - thread_pairs(cfg, t).len(),
        ));
        assert(d.drop_last() =~= init.map_values(
            |t: ThreadView| t.probes.len() - thread_pairs(cfg, t).len(),
        ));
    }
}

/// The law of kernel stacks: the samples that have one are counted with their frames, at most what
/// fits, and no sample has more frames than the most.
pub proof fn kernel_stacks_are_counted(k: KernelTotals, pets: Seq<PetView>)
    requires
        forall|i: int|
            0 <= i < pets.len() ==> (#[trigger] pets[i]).kernel_stack.len() <= u32::MAX,
    ensures
        k.plus_all(pets).samples == as_fits(
            k.samples + sum_of(
                pets.map_values(
                    |p: PetView|
                        if p.kernel_stack.len() > 0 {
                            1int
                        } else {
                            0
                        },
                ),
            ),
        ),
        k.plus_all(pets).frames == as_fits(
            k.frames + sum_of(pets.map_values(|p: PetView| p.kernel_stack.len() as int)),
        ),
        k.plus_all(pets).max_frames >= k.max_frames,
        forall|i: int|
            0 <= i < pets.len() ==> (#[trigger] pets[i]).kernel_stack.len() <= k.plus_all(
                pets,
            ).max_frames,
        k.plus_all(pets).max_frames > k.max_frames ==> exists|i: int|
            0 <= i < pets.len() && (#[trigger] pets[i]).kernel_stack.len() == k.plus_all(
                pets,
            ).max_frames,
        sum_of(pets.map_values(|p: PetView| p.kernel_stack.len() as int)) >= 0,
        sum_of(
            pets.map_values(
                |p: PetView|
                    if p.kernel_stack.len() > 0 {
                        1int
                    } else {
                        0
                    },
            ),
        ) >= 0,
    decreases pets.len(),
{
    let ones = pets.map_values(
        |p: PetView|
            if p.kernel_stack.len() > 0 {
                1int
            } else {
                0
            },
    );
    let frames = pets.map_values(|p: PetView| p.kernel_stack.len() as int);
    if pets.len() == 0 {
        assert(ones =~= seq![] && frames =~= seq![]);
    } else {
        let init = pets.drop_last();
        assert(forall|i: int| 0 <= i < init.len() ==> #[trigger] init[i] == pets[i]);
        assert forall|i: int| 0 <= i < init.len() implies (#[trigger] init[i]).kernel_stack.len()
            <= u32::MAX by {
            assert(init[i] == pets[i]);
        }
        kernel_stacks_are_counted(k, init);
        let last = pets[pets.len() - 1];
        assert(last.kernel_stack.len() <= u32::MAX);
        assert(ones.drop_last() =~= init.map_values(
            |p: PetView|
                if p.kernel_stack.len() > 0 {
                    1int
                } else {
                    0
                },
        ));
        assert(frames.drop_last() =~= init.map_values(|p: PetView| p.kernel_stack.len() as int));
        let before = k.plus_all(init);
        let after = k.plus_all(pets);
        assert forall|i: int| 0 <= i < pets.len() implies (#[trigger] pets[i]).kernel_stack.len()
            <= after.max_frames by {
            if i < init.len() {
                assert(init[i] == pets[i]);
            }
        }
        if after.max_frames > k.max_frames {
            if after.max_frames > before.max_frames {
                assert(pets[pets.len() - 1].kernel_stack.len() == after.max_frames);
            } else {
                let i = choose|i: int|
                    0 <= i < init.len() && (#[trigger] init[i]).kernel_stack.len()
                        == before.max_frames;
                assert(pets[i].kernel_stack.len() == after.max_frames);
            }
        }
    }
}

/// The law of examples: of the pairs of all threads those are shown whose table-driven walk shows more,
/// in their order, and of these the last ones.
pub proof fn richer_pairs_are_shown(s: Seq<TaggedView>)
    ensures
        richer_only(s) == s.filter(
            |e: TaggedView|
                e.raw.stitchable && (e.raw.kperf_kernel_stack.len() > 0 || (
                e.raw.dwarf_stack.len() > e.raw.kperf_stack.len()
                    && crate::pair_totals::has_new_frame(e.raw.dwarf_stack, e.raw.kperf_stack))),
        ),
        dwarf_richer_only(s) == s.filter(
            |e: TaggedView|
                e.raw.stitchable && e.raw.dwarf_stack.len() > e.raw.probe_stack.len()
                    && crate::pair_totals::has_new_frame(e.raw.dwarf_stack, e.raw.probe_stack),
        ),
    decreases s.len(),
{
    reveal(Seq::filter);
    if s.len() > 0 {
        richer_pairs_are_shown(s.drop_last());
    }
}

/// The law of rings: the last of a list are its end, as long as asked for, and all of it where it is
/// shorter.
pub proof fn last_ones_are_the_end<T>(s: Seq<T>, n: usize, i: int)
    requires
        0 <= i < last_n(s, n).len(),
    ensures
        last_n(s, n).len() == (if s.len() < n {
            s.len() as int
        } else {
            n as int
        }),
        last_n(s, n)[last_n(s, n).len() - 1 - i] == s[s.len() - 1 - i],
{
}

/// The law of frames: one without an address is shown as null, one in a symbol by the binary and the
/// function, and any other by its address.
pub proof fn frames_are_named(bins: BinaryRegistry, address: u64)
    ensures
        frame_at(bins, address).address == address,
        address == 0 ==> frame_at(bins, address).display == "<null>"@,
        address != 0 && bins.symbol_at(address) is Some ==> frame_at(bins, address).display
            == bins.symbol_at(address)->0.binary + "!"@ + bins.symbol_at(address)->0.function_name
            && frame_at(bins, address).binary == bins.symbol_at(address)->0.binary && frame_at(
            bins,
            address,
        ).function == bins.symbol_at(address)->0.function_name,
        address != 0 && bins.symbol_at(address) is None ==> frame_at(bins, address).display
            == "<unmapped:"@ + "0x"@ + crate::text::hex(address as nat) + ">"@ && frame_at(
            bins,
            address,
        ).function.len() == 0,
{
    assert("<unmapped:"@ + ("0x"@ + crate::text::hex(address as nat)) + ">"@ =~= "<unmapped:"@
        + "0x"@ + crate::text::hex(address as nat) + ">"@);
}

/// The law of stitched stacks: where a pair can be stitched its stack is the kernel's side of the
/// sample on top of the table-driven walk of the probe, frame by frame; otherwise there is none.
pub proof fn stitched_stacks_join_both_sides(
    bins: BinaryRegistry,
    tid: u32,
    raw: RawView,
    i: int,
)
    ensures
        ({
            let e = entry_of(bins, tid, raw);
            let k = raw.kperf_kernel_stack.len();
            &&& e.tid == tid
            &&& !raw.stitchable ==> e.stitched_stack.len() == 0
            &&& raw.stitchable ==> e.stitched_stack.len() == k + raw.dwarf_stack.len()
            &&& raw.stitchable && 0 <= i < k ==> e.stitched_stack[i].address
                == raw.kperf_kernel_stack[i]
            &&& raw.stitchable && 0 <= i < raw.dwarf_stack.len() ==> e.stitched_stack[k
                + i].address == raw.dwarf_stack[i]
            &&& e.kperf_stack.len() == raw.kperf_stack.len()
            &&& e.kperf_kernel_stack.len() == k
            &&& e.probe_stack.len() == raw.probe_stack.len()
            &&& e.compact_stack.len() == raw.compact_stack.len()
            &&& e.compact_dwarf_stack.len() == raw.compact_dwarf_stack.len()
            &&& e.dwarf_stack.len() == raw.dwarf_stack.len()
            &&& 0 <= i < raw.kperf_stack.len() ==> e.kperf_stack[i].address == raw.kperf_stack[i]
            &&& 0 <= i < raw.probe_stack.len() ==> e.probe_stack[i].address == raw.probe_stack[i]
            &&& 0 <= i < raw.compact_stack.len() ==> e.compact_stack[i].address
                == raw.compact_stack[i]
            &&& 0 <= i < raw.compact_dwarf_stack.len() ==> e.compact_dwarf_stack[i].address
                == raw.compact_dwarf_stack[i]
            &&& 0 <= i < raw.dwarf_stack.len() ==> e.dwarf_stack[i].address == raw.dwarf_stack[i]
        }),
{
    let k = raw.kperf_kernel_stack.len();
    if raw.stitchable && 0 <= i < k {
        frames_are_named(bins, raw.kperf_kernel_stack[i]);
    }
    if 0 <= i < raw.dwarf_stack.len() {
        frames_are_named(bins, raw.dwarf_stack[i]);
    }
    if 0 <= i < raw.kperf_stack.len() {
        frames_are_named(bins, raw.kperf_stack[i]);
    }
    if 0 <= i < raw.probe_stack.len() {
        frames_are_named(bins, raw.probe_stack[i]);
    }
    if 0 <= i < raw.compact_stack.len() {
        frames_are_named(bins, raw.compact_stack[i]);
    }
    if 0 <= i < raw.compact_dwarf_stack.len() {
        frames_are_named(bins, raw.compact_dwarf_stack[i]);
    }
}

/// The law of the focus: the thread that is asked for, or one of those with the most pairs to stitch;
/// among these none has more pairs, and none behind it has as many.
pub proof fn focus_is_most_telling(only_tid: Option<u32>, rows: Seq<RowView>, j: int) -> (i: int)
    requires
        0 <= j < rows.len(),
    ensures
        only_tid is Some ==> focus_of(only_tid, rows) == only_tid,
        only_tid is None ==> {
            &&& 0 <= i < rows.len()
            &&& focus_of(only_tid, rows) == Some(rows[i].tid)
            &&& rows[j].stitchable <= rows[i].stitchable
            &&& rows[j].stitchable == rows[i].stitchable ==> rows[j].paired <= rows[i].paired
            &&& j > i ==> rows[j].stitchable < rows[i].stitchable || rows[j].paired
                < rows[i].paired
        },
{
    let x = lemma_some_row_tells_most(rows);
    let i = choose|i: int| is_most_telling(rows, i);
    assert(is_most_telling(rows, i));
    assert(no_more_telling(rows[j], rows[i]));
    if j > i {
        assert(!no_more_telling(rows[i], rows[j]));
    }
    i
}

proof fn lemma_some_row_tells_most(rows: Seq<RowView>) -> (i: int)
    requires
        rows.len() > 0,
    ensures
        is_most_telling(rows, i),
    decreases rows.len(),
{
    let last = rows.len() - 1;
    if rows.len() == 1 {
        assert(is_most_telling(rows, 0));
        0
    } else {
        let init = rows.drop_last();
        let k = lemma_some_row_tells_most(init);
        assert(forall|j: int| 0 <= j < init.len() ==> #[trigger] init[j] == rows[j]);
        if no_more_telling(rows[k], rows[last]) {
            assert forall|j: int| 0 <= j < rows.len() implies no_more_telling(
                #[trigger] rows[j],
                rows[last],
            ) by {
                if j < last {
                    assert(no_more_telling(init[j], init[k]));
                }
            }
            assert(is_most_telling(rows, last));
            last
        } else {
            assert forall|j: int| 0 <= j < rows.len() implies no_more_telling(
                #[trigger] rows[j],
                rows[k],
            ) by {
                if j < last {
                    assert(no_more_telling(init[j], init[k]));
                }
            }
            assert forall|j: int| k < j < rows.len() implies !no_more_telling(
                rows[k],
                #[trigger] rows[j],
            ) by {
                if j < last {
                    assert(!no_more_telling(init[k], init[j]));
                }
            }
            assert(is_most_telling(rows, k));
            k
        }
    }
}

/// The law of rows: the threads with the most samples come first; of those with as many, the ones with
/// the most samples without a partner.
pub proof fn rows_with_most_samples_come_first(rows: Seq<RowView>, i: int, j: int)
    requires
        rows.len() <= usize::MAX,
        0 <= i < j < rows.len(),
    ensures
        ({
            let sorted = stable_sorted(row_keys(rows), rows);
            &&& sorted.len() == rows.len()
            &&& sorted[i].kperf_samples >= sorted[j].kperf_samples
            &&& sorted[i].kperf_samples == sorted[j].kperf_samples ==> sorted[i].kperf_only
                >= sorted[j].kperf_only
            &&& sorted[i].kperf_samples == sorted[j].kperf_samples && sorted[i].kperf_only
                == sorted[j].kperf_only ==> sorted[i].paired >= sorted[j].paired
            &&& sorted[i].kperf_samples == sorted[j].kperf_samples && sorted[i].kperf_only
                == sorted[j].kperf_only && sorted[i].paired == sorted[j].paired
                ==> sorted[i].probe_results >= sorted[j].probe_results
            &&& rows.contains(sorted[i])
            &&& sorted.contains(rows[i])
        }),
{
    let keys = row_keys(rows);
    let order = existing_order(keys);
    stable_order_gives_sorted(keys, rows, order);
    let sorted = stable_sorted(keys, rows);
    assert(goes_before(keys, order[i] as int, order[j] as int));
    assert(order[i] < keys.len() && order[j] < keys.len());
    assert(keys[order[i] as int] == row_key(rows[order[i] as int]));
    assert(keys[order[j] as int] == row_key(rows[order[j] as int]));
    order_lists_every_position(keys, order, i);
    let x = choose|x: int| 0 <= x < order.len() && order[x] == i;
    assert(sorted[x] == rows[i]);
}

/// The law of depths: every depth at which some pair has a frame is shown with its counts, in order.
pub proof fn depths_with_pairs_are_shown(t: TotalsView, n: nat, d: int)
    requires
        0 <= d < n,
        n <= u32::MAX,
    ensures
        t.depth_total[d] > 0 ==> depth_cells_of(t, n).contains(
            ProbeDiffDepthCell {
                depth: d as u32,
                matched: t.depth_matched[d],
                total: t.depth_total[d],
            },
        ),
        depth_cells_of(t, n).len() <= n,
        forall|i: int|
            0 <= i < depth_cells_of(t, n).len() ==> (#[trigger] depth_cells_of(t, n)[i]).depth < n
                && depth_cells_of(t, n)[i].total > 0 && depth_cells_of(t, n)[i].total
                == t.depth_total[depth_cells_of(t, n)[i].depth as int] && depth_cells_of(
                t,
                n,
            )[i].matched == t.depth_matched[depth_cells_of(t, n)[i].depth as int],
    decreases n,
{
    let m = (n - 1) as nat;
    let before = depth_cells_of(t, m);
    let after = depth_cells_of(t, n);
    if m > 0 {
        depths_with_pairs_are_shown(
            t,
            m,
            if d < m {
                d
            } else {
                0
            },
        );
    }
    assert forall|i: int| 0 <= i < after.len() implies (#[trigger] after[i]).depth < n
        && after[i].total > 0 && after[i].total == t.depth_total[after[i].depth as int]
        && after[i].matched == t.depth_matched[after[i].depth as int] by {
        if i < before.len() {
            assert(after[i] == before[i]);
        }
    }
    if t.depth_total[d] > 0 {
        let cell = ProbeDiffDepthCell {
            depth: d as u32,
            matched: t.depth_matched[d],
            total: t.depth_total[d],
        };
        if d < m {
            let i = choose|i: int| 0 <= i < before.len() && before[i] == cell;
            assert(after[i] == cell);
        } else {
            assert(after[after.len() - 1] == cell);
        }
    }
}

} // verus!
