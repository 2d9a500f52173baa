//! What a comparison of samples with probes counts, pair by pair.
use vstd::prelude::*;

use crate::aggregator::{PetSample, PetView, ProbeResultRecord, ProbeView};
use crate::probe_match::{
    common_run, common_run_is_unique, is_common_run, is_longest_common_run, logical_probe_stack,
    longest_common_run, ns_of_ticks, probe_stack, ticks_to_ns, Timebase,
};
use crate::probe_timing::{
    probe_timing_breakdown, sat_add, timing_breakdown, ProbeTimingAccum, ProbeTimingBreakdown,
};
use crate::sample_sink::ProbeQueueStats;
use crate::sums::{as_fits, sum_of};

verus! {

/// The frames that a histogram of shared stretches tells apart: the last cell
/// counts every longer stretch.
pub const SUFFIX_CELLS: usize = 33;

/// The frames that are compared position by position.
pub const PROBE_DEPTH_CAP: usize = 32;

/// The cells of the drift histogram.
pub const DRIFT_CELLS: usize = 7;

/// What the comparison depends on besides the recording.
#[derive(Clone, Copy, Debug, PartialEq, Eq, Structural)]
pub struct DiffConfig {
    /// The clock of the recording.
    pub timebase: Timebase,
    /// How many frames a sample and a probe must share for the probe's stack to
    /// stand in for the sample's.
    pub stitch_min_suffix: u32,
}

/// One pair of a sample and a probe.
pub struct RawEntry {
    pub timestamp_ns: u64,
    pub drift_ns: i64,
    pub drift_abs_ns: u64,
    pub timing: ProbeTimingBreakdown,
    pub queue: ProbeQueueStats,
    pub common: usize,
    pub compact_common: usize,
    pub compact_dwarf_common: usize,
    pub dwarf_common: usize,
    pub pc_match: bool,
    pub compact_stitchable: bool,
    pub compact_dwarf_stitchable: bool,
    pub stitchable: bool,
    pub used_framehop: bool,
    pub kperf_stack: Vec<u64>,
    pub kperf_kernel_stack: Vec<u64>,
    pub probe_stack: Vec<u64>,
    pub compact_stack: Vec<u64>,
    pub compact_dwarf_stack: Vec<u64>,
    pub dwarf_stack: Vec<u64>,
}

/// The model of a [`RawEntry`].
pub struct RawView {
    pub timestamp_ns: u64,
    pub drift_ns: i64,
    pub drift_abs_ns: u64,
    pub timing: ProbeTimingBreakdown,
    pub queue: ProbeQueueStats,
    pub common: usize,
    pub compact_common: usize,
    pub compact_dwarf_common: usize,
    pub dwarf_common: usize,
    pub pc_match: bool,
    pub compact_stitchable: bool,
    pub compact_dwarf_stitchable: bool,
    pub stitchable: bool,
    pub used_framehop: bool,
    pub kperf_stack: Seq<u64>,
    pub kperf_kernel_stack: Seq<u64>,
    pub probe_stack: Seq<u64>,
    pub compact_stack: Seq<u64>,
    pub compact_dwarf_stack: Seq<u64>,
    pub dwarf_stack: Seq<u64>,
}

impl View for RawEntry {
    type V = RawView;

    open spec fn view(&self) -> RawView {
        RawView {
            timestamp_ns: self.timestamp_ns,
            drift_ns: self.drift_ns,
            drift_abs_ns: self.drift_abs_ns,
            timing: self.timing,
            queue: self.queue,
            common: self.common,
            compact_common: self.compact_common,
            compact_dwarf_common: self.compact_dwarf_common,
            dwarf_common: self.dwarf_common,
            pc_match: self.pc_match,
            compact_stitchable: self.compact_stitchable,
            compact_dwarf_stitchable: self.compact_dwarf_stitchable,
            stitchable: self.stitchable,
            used_framehop: self.used_framehop,
            kperf_stack: self.kperf_stack@,
            kperf_kernel_stack: self.kperf_kernel_stack@,
            probe_stack: self.probe_stack@,
            compact_stack: self.compact_stack@,
            compact_dwarf_stack: self.compact_dwarf_stack@,
            dwarf_stack: self.dwarf_stack@,
        }
    }
}

/// A copy of a list of addresses.
pub fn copy_stack(s: &Vec<u64>) -> (r: Vec<u64>)
    ensures
        r@ == s@,
{
    let mut r: Vec<u64> = Vec::new();
    r.extend_from_slice(s.as_slice());
    assert(r@ =~= s@);
    r
}

impl RawEntry {
    /// A copy of the entry.
    pub fn duplicate(&self) -> (r: RawEntry)
        ensures
            r@ == self@,
    {
        RawEntry {
            timestamp_ns: self.timestamp_ns,
            drift_ns: self.drift_ns,
            drift_abs_ns: self.drift_abs_ns,
            timing: self.timing,
            queue: self.queue,
            common: self.common,
            compact_common: self.compact_common,
            compact_dwarf_common: self.compact_dwarf_common,
            dwarf_common: self.dwarf_common,
            pc_match: self.pc_match,
            compact_stitchable: self.compact_stitchable,
            compact_dwarf_stitchable: self.compact_dwarf_stitchable,
            stitchable: self.stitchable,
            used_framehop: self.used_framehop,
            kperf_stack: copy_stack(&self.kperf_stack),
            kperf_kernel_stack: copy_stack(&self.kperf_kernel_stack),
            probe_stack: copy_stack(&self.probe_stack),
            compact_stack: copy_stack(&self.compact_stack),
            compact_dwarf_stack: copy_stack(&self.compact_dwarf_stack),
            dwarf_stack: copy_stack(&self.dwarf_stack),
        }
    }
}

/// The frames above the leaf.
pub open spec fn callers(stack: Seq<u64>) -> Seq<u64> {
    if stack.len() > 0 {
        stack.skip(1)
    } else {
        seq![]
    }
}

/// `x` moved into the range of a signed 64-bit number.
pub open spec fn clamp_i64(x: int) -> i64 {
    if x < i64::MIN {
        i64::MIN
    } else if x > i64::MAX {
        i64::MAX
    } else {
        x as i64
    }
}

/// The nanoseconds from the sample to the moment at which the probe read the
/// registers; negative where the probe came first.
pub open spec fn drift_of(tb: Timebase, pet: PetView, probe: ProbeView) -> int {
    ns_of_ticks(tb, probe.timing.state_done - pet.timestamp_ns)
}

/// The magnitude of a drift in 64 bits; what does not fit is cut off.
pub open spec fn magnitude_64(drift: int) -> u64 {
    let magnitude = if drift < 0 {
        -drift
    } else {
        drift
    };
    (magnitude % 0x1_0000_0000_0000_0000) as u64
}

/// The `common` frames that a walk of `walked` frames shares are enough.
pub open spec fn enough_shared(cfg: DiffConfig, common: usize, walked: Seq<u64>) -> bool {
    common as u32 >= cfg.stitch_min_suffix && walked.len() > 0
}

/// The frames that the stack of a sample shares with a walk.
pub open spec fn shared_frames(pet: PetView, walked: Seq<u64>) -> usize {
    common_run(callers(pet.stack), walked) as usize
}

/// The entry of a pair, in a recording that began at `start`.
pub open spec fn raw_of(cfg: DiffConfig, start: u64, pet: PetView, probe: ProbeView) -> RawView {
    let common = shared_frames(pet, probe.mach_walked);
    let compact_common = shared_frames(pet, probe.compact_walked);
    let compact_dwarf_common = shared_frames(pet, probe.compact_dwarf_walked);
    let dwarf_common = shared_frames(pet, probe.dwarf_walked);
    let drift = drift_of(cfg.timebase, pet, probe);
    RawView {
        timestamp_ns: if pet.timestamp_ns < start {
            0
        } else {
            (pet.timestamp_ns - start) as u64
        },
        drift_ns: clamp_i64(drift),
        drift_abs_ns: magnitude_64(drift),
        timing: timing_breakdown(cfg.timebase, probe.timing, pet.timestamp_ns),
        queue: probe.queue,
        common,
        compact_common,
        compact_dwarf_common,
        dwarf_common,
        pc_match: (if pet.stack.len() > 0 {
            pet.stack[0]
        } else {
            0
        }) == probe.mach_pc,
        compact_stitchable: enough_shared(cfg, compact_common, probe.compact_walked),
        compact_dwarf_stitchable: enough_shared(
            cfg,
            compact_dwarf_common,
            probe.compact_dwarf_walked,
        ),
        stitchable: enough_shared(cfg, dwarf_common, probe.dwarf_walked),
        used_framehop: probe.used_framehop,
        kperf_stack: pet.stack,
        kperf_kernel_stack: pet.kernel_stack,
        probe_stack: probe_stack(probe.mach_pc, 0, probe.mach_walked),
        compact_stack: probe_stack(probe.mach_pc, 0, probe.compact_walked),
        compact_dwarf_stack: probe_stack(probe.mach_pc, 0, probe.compact_dwarf_walked),
        dwarf_stack: probe_stack(probe.mach_pc, 0, probe.dwarf_walked),
    }
}

/// The frames that the stack of a sample shares with a walk.
fn count_shared(pet: &PetSample, walked: &Vec<u64>) -> (n: usize)
    ensures
        n == shared_frames(pet@, walked@),
{
    if pet.stack.len() > 0 {
        let above = vstd::slice::slice_subrange(pet.stack.as_slice(), 1, pet.stack.len());
        assert(above@ =~= callers(pet@.stack));
        longest_common_run(above, walked.as_slice())
    } else {
        let none: Vec<u64> = Vec::new();
        assert(none@ =~= callers(pet@.stack));
        longest_common_run(none.as_slice(), walked.as_slice())
    }
}

/// Compares a sample with its probe.
pub fn compare_pair(
    cfg: DiffConfig,
    start: u64,
    pet: &PetSample,
    probe: &ProbeResultRecord,
) -> (raw: RawEntry)
    ensures
        raw@ == raw_of(cfg, start, pet@, probe@),
{
    let common: usize = count_shared(pet, &probe.mach_walked);
    let compact_common: usize = count_shared(pet, &probe.compact_walked);
    let compact_dwarf_common: usize = count_shared(pet, &probe.compact_dwarf_walked);
    let dwarf_common: usize = count_shared(pet, &probe.dwarf_walked);
    let drift: i128 = ticks_to_ns(
        cfg.timebase,
        probe.timing.state_done as i128 - pet.timestamp_ns as i128,
    );
    let magnitude: u128 = if drift < 0 {
        (-drift) as u128
    } else {
        drift as u128
    };
    let drift_abs_ns: u64 = #[verifier::truncate]
    (magnitude as u64);
    assert(magnitude as u64 == magnitude % 0x1_0000_0000_0000_0000u128) by (bit_vector);
    let drift_ns: i64 = if drift < i64::MIN as i128 {
        i64::MIN
    } else if drift > i64::MAX as i128 {
        i64::MAX
    } else {
        drift as i64
    };
    let leaf: u64 = if pet.stack.len() > 0 {
        pet.stack[0]
    } else {
        0
    };
    RawEntry {
        timestamp_ns: pet.timestamp_ns.saturating_sub(start),
        drift_ns,
        drift_abs_ns,
        timing: probe_timing_breakdown(cfg.timebase, &probe.timing, pet.timestamp_ns),
        queue: probe.queue,
        common,
        compact_common,
        compact_dwarf_common,
        dwarf_common,
        pc_match: leaf == probe.mach_pc,
        compact_stitchable: compact_common as u32 >= cfg.stitch_min_suffix
            && probe.compact_walked.len() > 0,
        compact_dwarf_stitchable: compact_dwarf_common as u32 >= cfg.stitch_min_suffix
            && probe.compact_dwarf_walked.len() > 0,
        stitchable: dwarf_common as u32 >= cfg.stitch_min_suffix && probe.dwarf_walked.len() > 0,
        used_framehop: probe.used_framehop,
        kperf_stack: copy_stack(&pet.stack),
        kperf_kernel_stack: copy_stack(&pet.kernel_stack),
        probe_stack: logical_probe_stack(probe.mach_pc, 0, probe.mach_walked.as_slice()),
        compact_stack: logical_probe_stack(probe.mach_pc, 0, probe.compact_walked.as_slice()),
        compact_dwarf_stack: logical_probe_stack(
            probe.mach_pc,
            0,
            probe.compact_dwarf_walked.as_slice(),
        ),
        dwarf_stack: logical_probe_stack(probe.mach_pc, 0, probe.dwarf_walked.as_slice()),
    }
}

/// `a` holds a frame that `b` lacks.
pub open spec fn has_new_frame(a: Seq<u64>, b: Seq<u64>) -> bool {
    exists|i: int| 0 <= i < a.len() && !b.contains(#[trigger] a[i])
}

/// The stitched stack shows more than the sample did: kernel frames, or a deeper
/// stack with a frame that the sample lacks.
pub open spec fn richer_than_kperf(e: RawView) -> bool {
    e.stitchable && (e.kperf_kernel_stack.len() > 0 || (e.dwarf_stack.len() > e.kperf_stack.len()
        && has_new_frame(e.dwarf_stack, e.kperf_stack)))
}

/// The table-driven walk shows more than the frame pointers did.
pub open spec fn dwarf_richer_than_fp(e: RawView) -> bool {
    e.stitchable && e.dwarf_stack.len() > e.probe_stack.len() && has_new_frame(
        e.dwarf_stack,
        e.probe_stack,
    )
}

/// Whether `frame` is among the frames of `s`.
fn holds_frame(s: &Vec<u64>, frame: u64) -> (r: bool)
    ensures
        r == s@.contains(frame),
{
    let mut i: usize = 0;
    while i < s.len()
        invariant
            i <= s@.len(),
            forall|j: int| 0 <= j < i ==> s@[j] != frame,
        decreases s@.len() - i,
    {
        if s[i] == frame {
            assert(s@[i as int] == frame);
            return true;
        }
        i = i + 1;
    }
    false
}

/// Whether `a` holds a frame that `b` lacks.
fn adds_frame(a: &Vec<u64>, b: &Vec<u64>) -> (r: bool)
    ensures
        r == has_new_frame(a@, b@),
{
    let mut i: usize = 0;
    while i < a.len()
        invariant
            i <= a@.len(),
            forall|j: int| 0 <= j < i ==> b@.contains(#[trigger] a@[j]),
        decreases a@.len() - i,
    {
        if !holds_frame(b, a[i]) {
            assert(!b@.contains(a@[i as int]));
            return true;
        }
        i = i + 1;
    }
    false
}

/// Whether the stitched stack shows more than the sample did.
pub fn raw_is_richer_than_kperf(raw: &RawEntry) -> (r: bool)
    ensures
        r == richer_than_kperf(raw@),
{
    raw.stitchable && (raw.kperf_kernel_stack.len() > 0 || (raw.dwarf_stack.len()
        > raw.kperf_stack.len() && adds_frame(&raw.dwarf_stack, &raw.kperf_stack)))
}

/// Whether the table-driven walk shows more than the frame pointers did.
pub fn raw_is_dwarf_richer_than_fp(raw: &RawEntry) -> (r: bool)
    ensures
        r == dwarf_richer_than_fp(raw@),
{
    raw.stitchable && raw.dwarf_stack.len() > raw.probe_stack.len() && adds_frame(
        &raw.dwarf_stack,
        &raw.probe_stack,
    )
}

/// The upper edge of a cell of the drift histogram.
pub open spec fn drift_edge(cell: int) -> u64 {
    if cell == 0 {
        1_000
    } else if cell == 1 {
        10_000
    } else if cell == 2 {
        100_000
    } else if cell == 3 {
        1_000_000
    } else if cell == 4 {
        10_000_000
    } else if cell == 5 {
        100_000_000
    } else {
        u64::MAX
    }
}

/// The upper edge of a cell of the drift histogram.
pub fn drift_upper_ns(cell: usize) -> (edge: u64)
    ensures
        edge == drift_edge(cell as int),
{
    match cell {
        0 => 1_000,
        1 => 10_000,
        2 => 100_000,
        3 => 1_000_000,
        4 => 10_000_000,
        5 => 100_000_000,
        _ => u64::MAX,
    }
}

/// The cell of the drift histogram that `ns` falls into: the first whose edge lies
/// above it, or the last.
pub open spec fn drift_cell(ns: u64) -> int {
    if ns < drift_edge(0) {
        0
    } else if ns < drift_edge(1) {
        1
    } else if ns < drift_edge(2) {
        2
    } else if ns < drift_edge(3) {
        3
    } else if ns < drift_edge(4) {
        4
    } else if ns < drift_edge(5) {
        5
    } else {
        6
    }
}

/// The cell of the drift histogram that `ns` falls into.
fn drift_cell_of(ns: u64) -> (cell: usize)
    ensures
        cell == drift_cell(ns),
        cell < DRIFT_CELLS,
{
    let mut cell: usize = 0;
    while cell < 6 && ns >= drift_upper_ns(cell)
        invariant
            cell <= 6,
            forall|c: int| 0 <= c < cell ==> ns >= #[trigger] drift_edge(c),
        ensures
            cell <= 6,
            forall|c: int| 0 <= c < cell ==> ns >= #[trigger] drift_edge(c),
            cell < 6 ==> ns < drift_edge(cell as int),
        decreases 6 - cell,
    {
        cell = cell + 1;
    }
    proof {
        if cell > 0 { assert(ns >= drift_edge(0)); }
        if cell > 1 { assert(ns >= drift_edge(1)); }
        if cell > 2 { assert(ns >= drift_edge(2)); }
        if cell > 3 { assert(ns >= drift_edge(3)); }
        if cell > 4 { assert(ns >= drift_edge(4)); }
        if cell > 5 { assert(ns >= drift_edge(5)); }
    }
    cell
}

/// How many frames of the pair are compared position by position.
pub open spec fn compared_depth(e: RawView) -> int {
    let shorter = if e.kperf_stack.len() < e.probe_stack.len() {
        e.kperf_stack.len() as int
    } else {
        e.probe_stack.len() as int
    };
    if shorter < PROBE_DEPTH_CAP {
        shorter
    } else {
        PROBE_DEPTH_CAP as int
    }
}

/// The cell of a histogram of shared stretches.
pub open spec fn suffix_cell(common: usize) -> int {
    if common < SUFFIX_CELLS - 1 {
        common as int
    } else {
        SUFFIX_CELLS - 1
    }
}

/// `n` or `n + 1`, at most what fits.
pub open spec fn count_if(n: u64, yes: bool) -> u64 {
    if yes {
        sat_add(n, 1)
    } else {
        n
    }
}

/// One more in a cell.
pub open spec fn one_more(cells: Seq<u64>, at: int) -> Seq<u64> {
    cells.update(at, sat_add(cells[at], 1))
}

/// What has been counted over some pairs. Counts stop at what fits.
pub struct PairTotals {
    pub paired: u64,
    pub paired_kernel_stack_samples: u64,
    pub framehop_used: u64,
    pub compact_used: u64,
    pub compact_dwarf_used: u64,
    pub fp_walk_used: u64,
    pub probe_augmented_kperf: u64,
    pub probe_walked_deeper: u64,
    pub pc_match: u64,
    pub stitchable: u64,
    pub richer_than_kperf: u64,
    pub dwarf_richer_than_fp: u64,
    pub compact_stitchable: u64,
    pub compact_dwarf_stitchable: u64,
    pub dwarf_stitchable: u64,
    pub common_total: u64,
    pub compact_common_total: u64,
    pub compact_dwarf_common_total: u64,
    pub dwarf_common_total: u64,
    pub common_suffix_hist: Vec<u64>,
    pub compact_suffix_hist: Vec<u64>,
    pub compact_dwarf_suffix_hist: Vec<u64>,
    pub dwarf_suffix_hist: Vec<u64>,
    pub drift_count: Vec<u64>,
    pub drift_pc_match: Vec<u64>,
    pub depth_total: Vec<u64>,
    pub depth_matched: Vec<u64>,
    pub timing: ProbeTimingAccum,
}

/// The model of [`PairTotals`].
pub struct TotalsView {
    pub paired: u64,
    pub paired_kernel_stack_samples: u64,
    pub framehop_used: u64,
    pub compact_used: u64,
    pub compact_dwarf_used: u64,
    pub fp_walk_used: u64,
    pub probe_augmented_kperf: u64,
    pub probe_walked_deeper: u64,
    pub pc_match: u64,
    pub stitchable: u64,
    pub richer_than_kperf: u64,
    pub dwarf_richer_than_fp: u64,
    pub compact_stitchable: u64,
    pub compact_dwarf_stitchable: u64,
    pub dwarf_stitchable: u64,
    pub common_total: u64,
    pub compact_common_total: u64,
    pub compact_dwarf_common_total: u64,
    pub dwarf_common_total: u64,
    pub common_suffix_hist: Seq<u64>,
    pub compact_suffix_hist: Seq<u64>,
    pub compact_dwarf_suffix_hist: Seq<u64>,
    pub dwarf_suffix_hist: Seq<u64>,
    pub drift_count: Seq<u64>,
    pub drift_pc_match: Seq<u64>,
    pub depth_total: Seq<u64>,
    pub depth_matched: Seq<u64>,
    pub timing: ProbeTimingAccum,
}

impl View for PairTotals {
    type V = TotalsView;

    open spec fn view(&self) -> TotalsView {
        TotalsView {
            paired: self.paired,
            paired_kernel_stack_samples: self.paired_kernel_stack_samples,
            framehop_used: self.framehop_used,
            compact_used: self.compact_used,
            compact_dwarf_used: self.compact_dwarf_used,
            fp_walk_used: self.fp_walk_used,
            probe_augmented_kperf: self.probe_augmented_kperf,
            probe_walked_deeper: self.probe_walked_deeper,
            pc_match: self.pc_match,
            stitchable: self.stitchable,
            richer_than_kperf: self.richer_than_kperf,
            dwarf_richer_than_fp: self.dwarf_richer_than_fp,
            compact_stitchable: self.compact_stitchable,
            compact_dwarf_stitchable: self.compact_dwarf_stitchable,
            dwarf_stitchable: self.dwarf_stitchable,
            common_total: self.common_total,
            compact_common_total: self.compact_common_total,
            compact_dwarf_common_total: self.compact_dwarf_common_total,
            dwarf_common_total: self.dwarf_common_total,
            common_suffix_hist: self.common_suffix_hist@,
            compact_suffix_hist: self.compact_suffix_hist@,
            compact_dwarf_suffix_hist: self.compact_dwarf_suffix_hist@,
            dwarf_suffix_hist: self.dwarf_suffix_hist@,
            drift_count: self.drift_count@,
            drift_pc_match: self.drift_pc_match@,
            depth_total: self.depth_total@,
            depth_matched: self.depth_matched@,
            timing: self.timing,
        }
    }
}

/// `n` empty cells.
pub open spec fn empty_cells(n: usize) -> Seq<u64> {
    Seq::new(n as nat, |i: int| 0u64)
}

impl TotalsView {
    /// The totals over no pair.
    pub open spec fn none() -> TotalsView {
        TotalsView {
            paired: 0,
            paired_kernel_stack_samples: 0,
            framehop_used: 0,
            compact_used: 0,
            compact_dwarf_used: 0,
            fp_walk_used: 0,
            probe_augmented_kperf: 0,
            probe_walked_deeper: 0,
            pc_match: 0,
            stitchable: 0,
            richer_than_kperf: 0,
            dwarf_richer_than_fp: 0,
            compact_stitchable: 0,
            compact_dwarf_stitchable: 0,
            dwarf_stitchable: 0,
            common_total: 0,
            compact_common_total: 0,
            compact_dwarf_common_total: 0,
            dwarf_common_total: 0,
            common_suffix_hist: empty_cells(SUFFIX_CELLS),
            compact_suffix_hist: empty_cells(SUFFIX_CELLS),
            compact_dwarf_suffix_hist: empty_cells(SUFFIX_CELLS),
            dwarf_suffix_hist: empty_cells(SUFFIX_CELLS),
            drift_count: empty_cells(DRIFT_CELLS),
            drift_pc_match: empty_cells(DRIFT_CELLS),
            depth_total: empty_cells(PROBE_DEPTH_CAP),
            depth_matched: empty_cells(PROBE_DEPTH_CAP),
            timing: ProbeTimingAccum::none(),
        }
    }

    /// The totals with one more pair.
    pub open spec fn plus(self, e: RawView) -> TotalsView {
        TotalsView {
            paired: count_if(self.paired, true),
            paired_kernel_stack_samples: count_if(self.paired_kernel_stack_samples, e.kperf_kernel_stack.len() > 0),
            framehop_used: count_if(self.framehop_used, e.dwarf_stack.len() > 1),
            compact_used: count_if(self.compact_used, e.compact_stack.len() > 1),
            compact_dwarf_used: count_if(self.compact_dwarf_used, e.compact_dwarf_stack.len() > 1),
            fp_walk_used: count_if(self.fp_walk_used, e.probe_stack.len() > 1),
            probe_augmented_kperf: count_if(self.probe_augmented_kperf, e.kperf_stack.len() <= 1 && e.probe_stack.len() >= 2),
            probe_walked_deeper: count_if(self.probe_walked_deeper, e.probe_stack.len() > e.kperf_stack.len()),
            pc_match: count_if(self.pc_match, e.pc_match),
            stitchable: count_if(self.stitchable, e.stitchable),
            richer_than_kperf: count_if(self.richer_than_kperf, richer_than_kperf(e)),
            dwarf_richer_than_fp: count_if(self.dwarf_richer_than_fp, dwarf_richer_than_fp(e)),
            compact_stitchable: count_if(self.compact_stitchable, e.compact_stitchable),
            compact_dwarf_stitchable: count_if(self.compact_dwarf_stitchable, e.compact_dwarf_stitchable),
            dwarf_stitchable: count_if(self.dwarf_stitchable, e.stitchable),
            common_total: sat_add(self.common_total, e.common as u64),
            compact_common_total: sat_add(self.compact_common_total, e.compact_common as u64),
            compact_dwarf_common_total: sat_add(self.compact_dwarf_common_total, e.compact_dwarf_common as u64),
            dwarf_common_total: sat_add(self.dwarf_common_total, e.dwarf_common as u64),
            common_suffix_hist: one_more(self.common_suffix_hist, suffix_cell(e.common)),
            compact_suffix_hist: one_more(self.compact_suffix_hist, suffix_cell(e.compact_common)),
            compact_dwarf_suffix_hist: one_more(self.compact_dwarf_suffix_hist, suffix_cell(e.compact_dwarf_common)),
            dwarf_suffix_hist: one_more(self.dwarf_suffix_hist, suffix_cell(e.dwarf_common)),
            drift_count: one_more(self.drift_count, drift_cell(e.drift_abs_ns)),
            drift_pc_match: if e.pc_match {
                one_more(self.drift_pc_match, drift_cell(e.drift_abs_ns))
            } else {
                self.drift_pc_match
            },
            depth_total: Seq::new(
                PROBE_DEPTH_CAP as nat,
                |d: int| count_if(self.depth_total[d], d < compared_depth(e)),
            ),
            depth_matched: Seq::new(
                PROBE_DEPTH_CAP as nat,
                |d: int|
                    count_if(
                        self.depth_matched[d],
                        d < compared_depth(e) && e.kperf_stack[d] == e.probe_stack[d],
                    ),
            ),
            timing: self.timing.plus(e.timing, e.queue),
        }
    }

    /// The totals with some more pairs, in order.
    pub open spec fn plus_all(self, es: Seq<RawView>) -> TotalsView
        decreases es.len(),
    {
        if es.len() == 0 {
            self
        } else {
            self.plus_all(es.drop_last()).plus(es.last())
        }
    }

    /// Every histogram has its cells.
    pub open spec fn shaped(self) -> bool {
        &&& self.common_suffix_hist.len() == SUFFIX_CELLS
        &&& self.compact_suffix_hist.len() == SUFFIX_CELLS
        &&& self.compact_dwarf_suffix_hist.len() == SUFFIX_CELLS
        &&& self.dwarf_suffix_hist.len() == SUFFIX_CELLS
        &&& self.drift_count.len() == DRIFT_CELLS
        &&& self.drift_pc_match.len() == DRIFT_CELLS
        &&& self.depth_total.len() == PROBE_DEPTH_CAP
        &&& self.depth_matched.len() == PROBE_DEPTH_CAP
    }
}

/// `n` empty cells.
fn make_cells(n: usize) -> (v: Vec<u64>)
    ensures
        v@ == empty_cells(n),
{
    let mut v: Vec<u64> = Vec::new();
    let mut i: usize = 0;
    while i < n
        invariant
            i <= n,
            v@ == empty_cells(i),
        decreases n - i,
    {
        v.push(0);
        i = i + 1;
        assert(v@ =~= empty_cells(i));
    }
    v
}

/// Counts one in a cell.
fn bump(cells: &mut Vec<u64>, at: usize)
    requires
        at < old(cells)@.len(),
    ensures
        final(cells)@ == one_more(old(cells)@, at as int),
{
    let n: u64 = cells[at];
    cells.set(at, n.saturating_add(1));
}

/// The cell of a histogram of shared stretches.
fn suffix_cell_of(common: usize) -> (cell: usize)
    ensures
        cell == suffix_cell(common),
        cell < SUFFIX_CELLS,
{
    if common < SUFFIX_CELLS - 1 {
        common
    } else {
        SUFFIX_CELLS - 1
    }
}

/// `n`, or one more.
fn counted(n: u64, yes: bool) -> (r: u64)
    ensures
        r == count_if(n, yes),
{
    if yes {
        n.saturating_add(1)
    } else {
        n
    }
}

impl PairTotals {
    /// The totals over no pair.
    pub fn new() -> (t: PairTotals)
        ensures
            t@ == TotalsView::none(),
            t@.shaped(),
    {
        PairTotals {
            paired: 0,
            paired_kernel_stack_samples: 0,
            framehop_used: 0,
            compact_used: 0,
            compact_dwarf_used: 0,
            fp_walk_used: 0,
            probe_augmented_kperf: 0,
            probe_walked_deeper: 0,
            pc_match: 0,
            stitchable: 0,
            richer_than_kperf: 0,
            dwarf_richer_than_fp: 0,
            compact_stitchable: 0,
            compact_dwarf_stitchable: 0,
            dwarf_stitchable: 0,
            common_total: 0,
            compact_common_total: 0,
            compact_dwarf_common_total: 0,
            dwarf_common_total: 0,
            common_suffix_hist: make_cells(SUFFIX_CELLS),
            compact_suffix_hist: make_cells(SUFFIX_CELLS),
            compact_dwarf_suffix_hist: make_cells(SUFFIX_CELLS),
            dwarf_suffix_hist: make_cells(SUFFIX_CELLS),
            drift_count: make_cells(DRIFT_CELLS),
            drift_pc_match: make_cells(DRIFT_CELLS),
            depth_total: make_cells(PROBE_DEPTH_CAP),
            depth_matched: make_cells(PROBE_DEPTH_CAP),
            timing: ProbeTimingAccum::default(),
        }
    }

    /// Compares the stacks of a pair position by position.
    fn add_depths(&mut self, e: &RawEntry)
        requires
            old(self)@.shaped(),
        ensures
            final(self)@ == (TotalsView {
                depth_total: old(self)@.plus(e@).depth_total,
                depth_matched: old(self)@.plus(e@).depth_matched,
                ..old(self)@
            }),
    {
        let mut depth: usize = if e.kperf_stack.len() < e.probe_stack.len() {
            e.kperf_stack.len()
        } else {
            e.probe_stack.len()
        };
        if depth > PROBE_DEPTH_CAP {
            depth = PROBE_DEPTH_CAP;
        }
        let ghost before = self@;
        let mut d: usize = 0;
        while d < depth
            invariant
                d <= depth,
                depth == compared_depth(e@),
                depth <= PROBE_DEPTH_CAP,
                depth <= e.kperf_stack@.len(),
                depth <= e.probe_stack@.len(),
                before.shaped(),
                self@ == (TotalsView {
                    depth_total: self@.depth_total,
                    depth_matched: self@.depth_matched,
                    ..before
                }),
                self@.depth_total.len() == PROBE_DEPTH_CAP,
                self@.depth_matched.len() == PROBE_DEPTH_CAP,
                forall|k: int|
                    0 <= k < PROBE_DEPTH_CAP ==> #[trigger] self@.depth_total[k] == count_if(
                        before.depth_total[k],
                        k < d,
                    ),
                forall|k: int|
                    0 <= k < PROBE_DEPTH_CAP ==> #[trigger] self@.depth_matched[k] == count_if(
                        before.depth_matched[k],
                        k < d && e@.kperf_stack[k] == e@.probe_stack[k],
                    ),
            decreases depth - d,
        {
            bump(&mut self.depth_total, d);
            if e.kperf_stack[d] == e.probe_stack[d] {
                bump(&mut self.depth_matched, d);
            }
            d = d + 1;
        }
        proof {
            assert(self@.depth_total =~= before.plus(e@).depth_total);
            assert(self@.depth_matched =~= before.plus(e@).depth_matched);
        }
    }

    /// Counts which walks the pair has.
    fn add_uses(&mut self, e: &RawEntry)
        requires
            old(self)@.shaped(),
        ensures
            final(self)@ == (TotalsView {
                paired: old(self)@.plus(e@).paired,
                paired_kernel_stack_samples: old(self)@.plus(e@).paired_kernel_stack_samples,
                framehop_used: old(self)@.plus(e@).framehop_used,
                compact_used: old(self)@.plus(e@).compact_used,
                compact_dwarf_used: old(self)@.plus(e@).compact_dwarf_used,
                fp_walk_used: old(self)@.plus(e@).fp_walk_used,
                probe_augmented_kperf: old(self)@.plus(e@).probe_augmented_kperf,
                probe_walked_deeper: old(self)@.plus(e@).probe_walked_deeper,
                ..old(self)@
            }),
    {
        self.paired = counted(self.paired, true);
        self.paired_kernel_stack_samples = counted(self.paired_kernel_stack_samples, e.kperf_kernel_stack.len() > 0);
        self.framehop_used = counted(self.framehop_used, e.dwarf_stack.len() > 1);
        self.compact_used = counted(self.compact_used, e.compact_stack.len() > 1);
        self.compact_dwarf_used = counted(self.compact_dwarf_used, e.compact_dwarf_stack.len() > 1);
        self.fp_walk_used = counted(self.fp_walk_used, e.probe_stack.len() > 1);
        self.probe_augmented_kperf = counted(self.probe_augmented_kperf, e.kperf_stack.len() <= 1 && e.probe_stack.len() >= 2);
        self.probe_walked_deeper = counted(self.probe_walked_deeper, e.probe_stack.len() > e.kperf_stack.len());
    }

    /// Counts what the walks of the pair agree on.
    fn add_matches(&mut self, e: &RawEntry)
        requires
            old(self)@.shaped(),
        ensures
            final(self)@ == (TotalsView {
                pc_match: old(self)@.plus(e@).pc_match,
                stitchable: old(self)@.plus(e@).stitchable,
                richer_than_kperf: old(self)@.plus(e@).richer_than_kperf,
                dwarf_richer_than_fp: old(self)@.plus(e@).dwarf_richer_than_fp,
                compact_stitchable: old(self)@.plus(e@).compact_stitchable,
                compact_dwarf_stitchable: old(self)@.plus(e@).compact_dwarf_stitchable,
                dwarf_stitchable: old(self)@.plus(e@).dwarf_stitchable,
                ..old(self)@
            }),
    {
        self.pc_match = counted(self.pc_match, e.pc_match);
        self.stitchable = counted(self.stitchable, e.stitchable);
        self.richer_than_kperf = counted(self.richer_than_kperf, raw_is_richer_than_kperf(e));
        self.dwarf_richer_than_fp = counted(self.dwarf_richer_than_fp, raw_is_dwarf_richer_than_fp(e));
        self.compact_stitchable = counted(self.compact_stitchable, e.compact_stitchable);
        self.compact_dwarf_stitchable = counted(self.compact_dwarf_stitchable, e.compact_dwarf_stitchable);
        self.dwarf_stitchable = counted(self.dwarf_stitchable, e.stitchable);
    }

    /// Adds up the shared frames of the pair.
    fn add_sums(&mut self, e: &RawEntry)
        requires
            old(self)@.shaped(),
        ensures
            final(self)@ == (TotalsView {
                common_total: old(self)@.plus(e@).common_total,
                compact_common_total: old(self)@.plus(e@).compact_common_total,
                compact_dwarf_common_total: old(self)@.plus(e@).compact_dwarf_common_total,
                dwarf_common_total: old(self)@.plus(e@).dwarf_common_total,
                ..old(self)@
            }),
    {
        self.common_total = self.common_total.saturating_add(e.common as u64);
        self.compact_common_total = self.compact_common_total.saturating_add(e.compact_common as u64);
        self.compact_dwarf_common_total = self.compact_dwarf_common_total.saturating_add(e.compact_dwarf_common as u64);
        self.dwarf_common_total = self.dwarf_common_total.saturating_add(e.dwarf_common as u64);
    }

    /// Counts the shared frames of the pair.
    fn add_suffixes(&mut self, e: &RawEntry)
        requires
            old(self)@.shaped(),
        ensures
            final(self)@ == (TotalsView {
                common_suffix_hist: old(self)@.plus(e@).common_suffix_hist,
                compact_suffix_hist: old(self)@.plus(e@).compact_suffix_hist,
                compact_dwarf_suffix_hist: old(self)@.plus(e@).compact_dwarf_suffix_hist,
                dwarf_suffix_hist: old(self)@.plus(e@).dwarf_suffix_hist,
                ..old(self)@
            }),
    {
        bump(&mut self.common_suffix_hist, suffix_cell_of(e.common));
        bump(&mut self.compact_suffix_hist, suffix_cell_of(e.compact_common));
        bump(&mut self.compact_dwarf_suffix_hist, suffix_cell_of(e.compact_dwarf_common));
        bump(&mut self.dwarf_suffix_hist, suffix_cell_of(e.dwarf_common));
    }

    /// Counts the drift of the pair and its phases.
    fn add_drift(&mut self, e: &RawEntry)
        requires
            old(self)@.shaped(),
        ensures
            final(self)@ == (TotalsView {
                drift_count: old(self)@.plus(e@).drift_count,
                drift_pc_match: old(self)@.plus(e@).drift_pc_match,
                timing: old(self)@.plus(e@).timing,
                ..old(self)@
            }),
    {
        let cell: usize = drift_cell_of(e.drift_abs_ns);
        bump(&mut self.drift_count, cell);
        if e.pc_match {
            bump(&mut self.drift_pc_match, cell);
        }
        self.timing.add(e.timing, e.queue);
    }

    /// Adds one pair.
    pub fn add(&mut self, e: &RawEntry)
        requires
            old(self)@.shaped(),
        ensures
            final(self)@ == old(self)@.plus(e@),
            final(self)@.shaped(),
    {
        self.add_depths(e);
        self.add_uses(e);
        self.add_matches(e);
        self.add_sums(e);
        self.add_suffixes(e);
        self.add_drift(e);
    }
}

/// How many of some things are so.
pub open spec fn how_many<T>(s: Seq<T>, p: spec_fn(T) -> bool) -> int {
    s.filter(p).len() as int
}

/// One more thing.
pub proof fn how_many_with<T>(s: Seq<T>, p: spec_fn(T) -> bool)
    requires
        s.len() > 0,
    ensures
        how_many(s, p) == how_many(s.drop_last(), p) + (if p(s.last()) {
            1int
        } else {
            0
        }),
        how_many(s, p) <= s.len(),
        how_many(s.drop_last(), p) <= s.len() - 1,
    decreases s.len(),
{
    reveal(Seq::filter);
    if s.len() > 1 {
        how_many_with(s.drop_last(), p);
    }
}

/// The leaf of a sample: its innermost user frame, or 0 where there is none.
pub open spec fn leaf_of(pet: PetView) -> u64 {
    if pet.stack.len() > 0 {
        pet.stack.first()
    } else {
        0
    }
}

/// The law of a pair: the sample and the probe stopped at the same instruction exactly where the
/// innermost user frame of the sample is the instruction that the probe read; and the stacks are
/// those of the two, each walk of the probe behind that instruction.
pub proof fn pairs_show_both_sides(cfg: DiffConfig, start: u64, pet: PetView, probe: ProbeView)
    ensures
        ({
            let e = raw_of(cfg, start, pet, probe);
            &&& e.pc_match <==> leaf_of(pet) == probe.mach_pc
            &&& e.pc_match <==> (if e.kperf_stack.len() > 0 {
                e.kperf_stack[0]
            } else {
                0
            }) == e.probe_stack[0]
            &&& e.kperf_stack == pet.stack
            &&& e.kperf_kernel_stack == pet.kernel_stack
            &&& e.probe_stack.len() == probe.mach_walked.len() + 1
            &&& e.probe_stack.first() == probe.mach_pc
            &&& e.probe_stack.drop_first() == probe.mach_walked
            &&& e.compact_stack.first() == probe.mach_pc
            &&& e.compact_stack.drop_first() == probe.compact_walked
            &&& e.compact_dwarf_stack.first() == probe.mach_pc
            &&& e.compact_dwarf_stack.drop_first() == probe.compact_dwarf_walked
            &&& e.dwarf_stack.first() == probe.mach_pc
            &&& e.dwarf_stack.drop_first() == probe.dwarf_walked
            &&& pet.timestamp_ns >= start ==> e.timestamp_ns == pet.timestamp_ns - start
            &&& e.queue == probe.queue
            &&& e.used_framehop == probe.used_framehop
        }),
{
    let e = raw_of(cfg, start, pet, probe);
    assert(e.probe_stack.drop_first() =~= probe.mach_walked);
    assert(e.compact_stack.drop_first() =~= probe.compact_walked);
    assert(e.compact_dwarf_stack.drop_first() =~= probe.compact_dwarf_walked);
    assert(e.dwarf_stack.drop_first() =~= probe.dwarf_walked);
}

/// The walk and the frames above the leaf of the sample have a stretch of `n` frames in common.
pub open spec fn share_stretch(pet: PetView, walked: Seq<u64>, n: int) -> bool {
    exists|i: int, j: int|
        1 <= i && 0 <= n && i + n <= pet.stack.len() && 0 <= j && j + n <= walked.len()
            && #[trigger] pet.stack.subrange(i, i + n) == #[trigger] walked.subrange(j, j + n)
}

/// A shared stretch of the frames above the leaf.
proof fn lemma_stretch(pet: PetView, walked: Seq<u64>, n: int)
    requires
        n > 0,
    ensures
        share_stretch(pet, walked, n) == exists|i: int, j: int| #[trigger]
            is_common_run(callers(pet.stack), walked, i, j, n),
{
    let above = callers(pet.stack);
    if share_stretch(pet, walked, n) {
        let (i, j) = choose|i: int, j: int|
            1 <= i && 0 <= n && i + n <= pet.stack.len() && 0 <= j && j + n <= walked.len()
                && #[trigger] pet.stack.subrange(i, i + n) == #[trigger] walked.subrange(j, j + n);
        assert(above.subrange(i - 1, i - 1 + n) =~= pet.stack.subrange(i, i + n));
        assert(is_common_run(above, walked, i - 1, j, n));
    }
    if exists|i: int, j: int| #[trigger] is_common_run(above, walked, i, j, n) {
        let (i, j) = choose|i: int, j: int| #[trigger] is_common_run(above, walked, i, j, n);
        assert(above.subrange(i, i + n) =~= pet.stack.subrange(i + 1, i + 1 + n));
        assert(pet.stack.subrange(i + 1, i + 1 + n) == walked.subrange(j, j + n));
    }
}

/// There is a longest shared stretch among those of at most `n` frames.
proof fn lemma_longest_there(a: Seq<u64>, b: Seq<u64>, n: int) -> (m: int)
    requires
        n >= 0,
    ensures
        0 <= m <= n,
        exists|i: int, j: int| #[trigger] is_common_run(a, b, i, j, m),
        forall|i: int, j: int, k: int| #[trigger]
            is_common_run(a, b, i, j, k) && k <= n ==> k <= m,
    decreases n,
{
    if exists|i: int, j: int| #[trigger] is_common_run(a, b, i, j, n) {
        n
    } else if n == 0 {
        assert(a.subrange(0, 0) =~= b.subrange(0, 0));
        assert(is_common_run(a, b, 0, 0, 0));
        0
    } else {
        lemma_longest_there(a, b, n - 1)
    }
}

/// The law of shared frames: a pair shares as many frames as the longest stretch has that stands in
/// the walk and in the sample above its leaf; a longer one does not. A walk can stand in for the
/// sample where there is one and it shares at least as many frames as are asked for.
pub proof fn longest_stretches_are_counted(
    cfg: DiffConfig,
    start: u64,
    pet: PetView,
    probe: ProbeView,
    n: int,
)
    requires
        pet.stack.len() <= usize::MAX,
        n > 0,
    ensures
        ({
            let e = raw_of(cfg, start, pet, probe);
            &&& share_stretch(pet, probe.mach_walked, n) ==> n <= e.common
            &&& share_stretch(pet, probe.compact_walked, n) ==> n <= e.compact_common
            &&& share_stretch(pet, probe.compact_dwarf_walked, n) ==> n <= e.compact_dwarf_common
            &&& share_stretch(pet, probe.dwarf_walked, n) ==> n <= e.dwarf_common
            &&& n == e.common ==> share_stretch(pet, probe.mach_walked, n)
            &&& n == e.compact_common ==> share_stretch(pet, probe.compact_walked, n)
            &&& n == e.compact_dwarf_common ==> share_stretch(pet, probe.compact_dwarf_walked, n)
            &&& n == e.dwarf_common ==> share_stretch(pet, probe.dwarf_walked, n)
            &&& pet.stack.len() <= u32::MAX ==> {
                &&& e.stitchable == (probe.dwarf_walked.len() > 0 && e.dwarf_common
                    >= cfg.stitch_min_suffix)
                &&& e.compact_stitchable == (probe.compact_walked.len() > 0 && e.compact_common
                    >= cfg.stitch_min_suffix)
                &&& e.compact_dwarf_stitchable == (probe.compact_dwarf_walked.len() > 0
                    && e.compact_dwarf_common >= cfg.stitch_min_suffix)
            }
        }),
{
    lemma_shared(pet, probe.mach_walked, n);
    lemma_shared(pet, probe.compact_walked, n);
    lemma_shared(pet, probe.compact_dwarf_walked, n);
    lemma_shared(pet, probe.dwarf_walked, n);
}

proof fn lemma_shared(pet: PetView, walked: Seq<u64>, n: int)
    requires
        pet.stack.len() <= usize::MAX,
        n > 0,
    ensures
        share_stretch(pet, walked, n) ==> n <= shared_frames(pet, walked),
        n == shared_frames(pet, walked) ==> share_stretch(pet, walked, n),
        shared_frames(pet, walked) <= pet.stack.len(),
{
    let above = callers(pet.stack);
    let m = lemma_longest_there(above, walked, above.len() as int);
    assert(is_longest_common_run(above, walked, m));
    common_run_is_unique(above, walked, m);
    lemma_stretch(pet, walked, n);
}

/// The law of drift: with a clock that ticks in nanoseconds it is the time from the sample to the
/// moment at which the probe read the registers, negative where the probe came first.
pub proof fn drift_is_the_time_between(cfg: DiffConfig, start: u64, pet: PetView, probe: ProbeView)
    requires
        cfg.timebase.numer == 1,
        cfg.timebase.denom == 1,
        i64::MIN <= probe.timing.state_done - pet.timestamp_ns <= i64::MAX,
    ensures
        raw_of(cfg, start, pet, probe).drift_ns == probe.timing.state_done - pet.timestamp_ns,
        probe.timing.state_done >= pet.timestamp_ns ==> raw_of(
            cfg,
            start,
            pet,
            probe,
        ).drift_abs_ns == probe.timing.state_done - pet.timestamp_ns,
        probe.timing.state_done < pet.timestamp_ns ==> raw_of(cfg, start, pet, probe).drift_abs_ns
            == pet.timestamp_ns - probe.timing.state_done,
{
    let d = probe.timing.state_done - pet.timestamp_ns;
    assert(d * 1 == d && d / 1 == d && (-d) / 1 == -d);
    assert(drift_of(cfg.timebase, pet, probe) == d);
}

/// The law of counts: whatever is counted over pairs is the number of pairs of which it holds.
pub proof fn totals_count_pairs(es: Seq<RawView>)
    requires
        es.len() <= u64::MAX,
    ensures
        ({
            let t = TotalsView::none().plus_all(es);
            &&& t.paired == es.len()
            &&& t.pc_match == how_many(es, |e: RawView| e.pc_match)
            &&& t.stitchable == how_many(es, |e: RawView| e.stitchable)
            &&& t.dwarf_stitchable == how_many(es, |e: RawView| e.stitchable)
            &&& t.compact_stitchable == how_many(es, |e: RawView| e.compact_stitchable)
            &&& t.compact_dwarf_stitchable == how_many(es, |e: RawView| e.compact_dwarf_stitchable)
            &&& t.paired_kernel_stack_samples == how_many(
                es,
                |e: RawView| e.kperf_kernel_stack.len() > 0,
            )
        }),
    decreases es.len(),
{
    let pc = |e: RawView| e.pc_match;
    let stitch = |e: RawView| e.stitchable;
    let compact = |e: RawView| e.compact_stitchable;
    let compact_dwarf = |e: RawView| e.compact_dwarf_stitchable;
    let kernel = |e: RawView| e.kperf_kernel_stack.len() > 0;
    if es.len() > 0 {
        totals_count_pairs(es.drop_last());
        how_many_with(es, pc);
        how_many_with(es, stitch);
        how_many_with(es, compact);
        how_many_with(es, compact_dwarf);
        how_many_with(es, kernel);
    } else {
        reveal(Seq::filter);
    }
}

/// The law of walks: a walk is counted as used in the pairs in which it found a caller, and as
/// deeper in those in which it shows more frames than the sample.
pub proof fn totals_count_walks(es: Seq<RawView>)
    requires
        es.len() <= u64::MAX,
    ensures
        ({
            let t = TotalsView::none().plus_all(es);
            &&& t.fp_walk_used == how_many(es, |e: RawView| e.probe_stack.len() > 1)
            &&& t.framehop_used == how_many(es, |e: RawView| e.dwarf_stack.len() > 1)
            &&& t.compact_used == how_many(es, |e: RawView| e.compact_stack.len() > 1)
            &&& t.compact_dwarf_used == how_many(es, |e: RawView| e.compact_dwarf_stack.len() > 1)
            &&& t.probe_walked_deeper == how_many(
                es,
                |e: RawView| e.probe_stack.len() > e.kperf_stack.len(),
            )
            &&& t.probe_augmented_kperf == how_many(
                es,
                |e: RawView| e.kperf_stack.len() <= 1 && e.probe_stack.len() >= 2,
            )
        }),
    decreases es.len(),
{
    if es.len() > 0 {
        totals_count_walks(es.drop_last());
        how_many_with(es, |e: RawView| e.probe_stack.len() > 1);
        how_many_with(es, |e: RawView| e.dwarf_stack.len() > 1);
        how_many_with(es, |e: RawView| e.compact_stack.len() > 1);
        how_many_with(es, |e: RawView| e.compact_dwarf_stack.len() > 1);
        how_many_with(es, |e: RawView| e.probe_stack.len() > e.kperf_stack.len());
        how_many_with(es, |e: RawView| e.kperf_stack.len() <= 1 && e.probe_stack.len() >= 2);
    } else {
        reveal(Seq::filter);
    }
}

/// The stack holds a frame that the other one lacks.
pub open spec fn shows_more(deep: Seq<u64>, other: Seq<u64>) -> bool {
    deep.len() > other.len() && exists|i: int| 0 <= i < deep.len() && !other.contains(#[trigger] deep[i])
}

/// The law of richer stacks: of the pairs whose walk can stand in, those count that show kernel
/// frames or are deeper than the sample with a frame that it lacks, and those whose tables found
/// more than the frame pointers.
pub proof fn totals_count_richer_stacks(es: Seq<RawView>)
    requires
        es.len() <= u64::MAX,
    ensures
        ({
            let t = TotalsView::none().plus_all(es);
            &&& t.richer_than_kperf == how_many(
                es,
                |e: RawView|
                    e.stitchable && (e.kperf_kernel_stack.len() > 0 || shows_more(
                        e.dwarf_stack,
                        e.kperf_stack,
                    )),
            )
            &&& t.dwarf_richer_than_fp == how_many(
                es,
                |e: RawView| e.stitchable && shows_more(e.dwarf_stack, e.probe_stack),
            )
        }),
    decreases es.len(),
{
    if es.len() > 0 {
        totals_count_richer_stacks(es.drop_last());
        how_many_with(
            es,
            |e: RawView|
                e.stitchable && (e.kperf_kernel_stack.len() > 0 || shows_more(
                    e.dwarf_stack,
                    e.kperf_stack,
                )),
        );
        how_many_with(
            es,
            |e: RawView| e.stitchable && shows_more(e.dwarf_stack, e.probe_stack),
        );
    } else {
        reveal(Seq::filter);
    }
}

/// The length of a stretch, where all of 32 frames and more are one.
pub open spec fn up_to_32(n: usize) -> int {
    if n < 32 {
        n as int
    } else {
        32
    }
}

/// The law of stretches: each cell counts the pairs that share so many frames, the last those that
/// share 32 or more.
pub proof fn suffix_cells_count_pairs(es: Seq<RawView>, c: int)
    requires
        es.len() <= u64::MAX,
        0 <= c <= 32,
    ensures
        ({
            let t = TotalsView::none().plus_all(es);
            &&& t.shaped()
            &&& t.common_suffix_hist[c] == how_many(es, |e: RawView| up_to_32(e.common) == c)
            &&& t.compact_suffix_hist[c] == how_many(
                es,
                |e: RawView| up_to_32(e.compact_common) == c,
            )
            &&& t.compact_dwarf_suffix_hist[c] == how_many(
                es,
                |e: RawView| up_to_32(e.compact_dwarf_common) == c,
            )
            &&& t.dwarf_suffix_hist[c] == how_many(es, |e: RawView| up_to_32(e.dwarf_common) == c)
        }),
    decreases es.len(),
{
    if es.len() > 0 {
        suffix_cells_count_pairs(es.drop_last(), c);
        how_many_with(es, |e: RawView| up_to_32(e.common) == c);
        how_many_with(es, |e: RawView| up_to_32(e.compact_common) == c);
        how_many_with(es, |e: RawView| up_to_32(e.compact_dwarf_common) == c);
        how_many_with(es, |e: RawView| up_to_32(e.dwarf_common) == c);
    } else {
        reveal(Seq::filter);
    }
}

/// The drift falls into the cell: below a microsecond, ten, a hundred, a millisecond, ten, a hundred,
/// or above, and not into one before.
pub open spec fn falls_into(c: int, ns: u64) -> bool {
    ||| c == 0 && ns < 1_000
    ||| c == 1 && 1_000 <= ns < 10_000
    ||| c == 2 && 10_000 <= ns < 100_000
    ||| c == 3 && 100_000 <= ns < 1_000_000
    ||| c == 4 && 1_000_000 <= ns < 10_000_000
    ||| c == 5 && 10_000_000 <= ns < 100_000_000
    ||| c == 6 && 100_000_000 <= ns
}

/// The law of drift cells: each counts the pairs whose drift falls into it, and those of them that
/// stopped at the same instruction.
pub proof fn drift_cells_count_pairs(es: Seq<RawView>, c: int)
    requires
        es.len() <= u64::MAX,
        0 <= c <= 6,
    ensures
        ({
            let t = TotalsView::none().plus_all(es);
            &&& t.shaped()
            &&& t.drift_count[c] == how_many(es, |e: RawView| falls_into(c, e.drift_abs_ns))
            &&& t.drift_pc_match[c] == how_many(
                es,
                |e: RawView| falls_into(c, e.drift_abs_ns) && e.pc_match,
            )
        }),
    decreases es.len(),
{
    if es.len() > 0 {
        drift_cells_count_pairs(es.drop_last(), c);
        how_many_with(es, |e: RawView| falls_into(c, e.drift_abs_ns));
        how_many_with(es, |e: RawView| falls_into(c, e.drift_abs_ns) && e.pc_match);
    } else {
        reveal(Seq::filter);
    }
}

/// The law of depths: each counts the pairs both of whose stacks reach it, and those of them with
/// the same frame there.
pub proof fn depth_cells_count_pairs(es: Seq<RawView>, d: int)
    requires
        es.len() <= u64::MAX,
        0 <= d < 32,
    ensures
        ({
            let t = TotalsView::none().plus_all(es);
            &&& t.depth_total[d] == how_many(
                es,
                |e: RawView| d < e.kperf_stack.len() && d < e.probe_stack.len(),
            )
            &&& t.depth_matched[d] == how_many(
                es,
                |e: RawView|
                    d < e.kperf_stack.len() && d < e.probe_stack.len() && e.kperf_stack[d]
                        == e.probe_stack[d],
            )
        }),
    decreases es.len(),
{
    if es.len() > 0 {
        depth_cells_count_pairs(es.drop_last(), d);
        how_many_with(es, |e: RawView| d < e.kperf_stack.len() && d < e.probe_stack.len());
        how_many_with(
            es,
            |e: RawView|
                d < e.kperf_stack.len() && d < e.probe_stack.len() && e.kperf_stack[d]
                    == e.probe_stack[d],
        );
    } else {
        reveal(Seq::filter);
    }
}

/// The law of sums: shared frames are added up over all pairs, at most what fits.
pub proof fn totals_add_up_shared_frames(es: Seq<RawView>)
    ensures
        ({
            let t = TotalsView::none().plus_all(es);
            &&& t.common_total == as_fits(sum_of(es.map_values(|e: RawView| e.common as int)))
            &&& t.compact_common_total == as_fits(
                sum_of(es.map_values(|e: RawView| e.compact_common as int)),
            )
            &&& t.compact_dwarf_common_total == as_fits(
                sum_of(es.map_values(|e: RawView| e.compact_dwarf_common as int)),
            )
            &&& t.dwarf_common_total == as_fits(
                sum_of(es.map_values(|e: RawView| e.dwarf_common as int)),
            )
            &&& sum_of(es.map_values(|e: RawView| e.common as int)) >= 0
            &&& sum_of(es.map_values(|e: RawView| e.compact_common as int)) >= 0
            &&& sum_of(es.map_values(|e: RawView| e.compact_dwarf_common as int)) >= 0
            &&& sum_of(es.map_values(|e: RawView| e.dwarf_common as int)) >= 0
        }),
    decreases es.len(),
{
    if es.len() > 0 {
        let init = es.drop_last();
        totals_add_up_shared_frames(init);
        assert(es.map_values(|e: RawView| e.common as int).drop_last() =~= init.map_values(
            |e: RawView| e.common as int,
        ));
        assert(es.map_values(|e: RawView| e.compact_common as int).drop_last() =~= init.map_values(
            |e: RawView| e.compact_common as int,
        ));
        assert(es.map_values(|e: RawView| e.compact_dwarf_common as int).drop_last()
            =~= init.map_values(|e: RawView| e.compact_dwarf_common as int));
        assert(es.map_values(|e: RawView| e.dwarf_common as int).drop_last() =~= init.map_values(
            |e: RawView| e.dwarf_common as int,
        ));
    }
}

} // verus!
