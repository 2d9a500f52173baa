use stax::aggregator::{
    Aggregator, PmuSample, ProbeResultRecord, ProbeTiming,
};
use stax::binaries::BinaryRegistry;
use stax::pair_totals::DiffConfig;
use stax::probe_diff::build_probe_diff_update;
use stax::probe_match::mach_timebase_numer_denom;
use stax::sample_sink::ProbeQueueStats;

fn config() -> DiffConfig {
    DiffConfig { timebase: mach_timebase_numer_denom(1, 1), stitch_min_suffix: 3 }
}

fn ticks_for_ns(ns: u64) -> u64 {
    let tb = config().timebase;
    ((u128::from(ns) * u128::from(tb.denom)).div_ceil(u128::from(tb.numer)))
        .min(u128::from(u64::MAX)) as u64
}

#[test]
fn probe_diff_pairs_correlation_probe_with_nearest_pet_not_first_in_window() {
    let mut agg = Aggregator::default();
    let tid = 7;

    for i in 0..=10u64 {
        agg.record_pet_sample(
            tid,
            ticks_for_ns(i * 1_000_000),
            &[0x1000 + i],
            &[],
            PmuSample::default(),
        );
    }

    agg.record_probe_result(ProbeResultRecord {
        tid,
        timing: ProbeTiming {
            kperf_ts: ticks_for_ns(9_100_000),
            state_done: ticks_for_ns(9_100_000),
            ..ProbeTiming::default()
        },
        queue: ProbeQueueStats::default(),
        mach_pc: 0x2000,
        mach_lr: 0,
        mach_fp: 0,
        mach_sp: 0,
        mach_walked: vec![],
        compact_walked: vec![],
        compact_dwarf_walked: vec![],
        dwarf_walked: vec![],
        used_framehop: true,
    });

    let bins = BinaryRegistry::new();
    let update = build_probe_diff_update(config(), &agg, &bins, Some(tid));

    assert_eq!(update.paired, 1);
    assert_eq!(update.kperf_only, 10);
    assert_eq!(update.probe_only, 0);
    assert_eq!(update.recent.len(), 1);
    assert_eq!(update.recent[0].kperf_stack[0].address, 0x1009);
    assert!(update.recent[0].drift_ns.abs() <= 101_000);
}

#[test]
fn probe_diff_rejects_correlation_probe_outside_strict_window() {
    let mut agg = Aggregator::default();
    let tid = 7;

    agg.record_pet_sample(
        tid,
        ticks_for_ns(9_000_000),
        &[0x1009],
        &[],
        PmuSample::default(),
    );
    agg.record_pet_sample(
        tid,
        ticks_for_ns(11_000_000),
        &[0x100b],
        &[],
        PmuSample::default(),
    );

    agg.record_probe_result(ProbeResultRecord {
        tid,
        timing: ProbeTiming {
            kperf_ts: ticks_for_ns(10_000_000),
            state_done: ticks_for_ns(10_000_000),
            ..ProbeTiming::default()
        },
        queue: ProbeQueueStats::default(),
        mach_pc: 0x2000,
        mach_lr: 0,
        mach_fp: 0,
        mach_sp: 0,
        mach_walked: vec![],
        compact_walked: vec![],
        compact_dwarf_walked: vec![],
        dwarf_walked: vec![],
        used_framehop: true,
    });

    let bins = BinaryRegistry::new();
    let update = build_probe_diff_update(config(), &agg, &bins, Some(tid));

    assert_eq!(update.paired, 0);
    assert_eq!(update.kperf_only, 2);
    assert_eq!(update.probe_only, 1);
    assert!(update.recent.is_empty());
}

#[test]
fn probe_diff_validates_with_fp_and_stitches_with_dwarf() {
    let mut agg = Aggregator::default();
    let tid = 7;

    agg.record_pet_sample(
        tid,
        ticks_for_ns(1_000_000),
        &[0x10, 0x20, 0x30, 0x40, 0x50, 0x60, 0x70],
        &[0xa0, 0xb0],
        PmuSample::default(),
    );

    agg.record_probe_result(ProbeResultRecord {
        tid,
        timing: ProbeTiming {
            kperf_ts: ticks_for_ns(1_000_000),
            state_done: ticks_for_ns(1_000_000),
            ..ProbeTiming::default()
        },
        queue: ProbeQueueStats::default(),
        mach_pc: 0x10,
        mach_lr: 0,
        mach_fp: 0,
        mach_sp: 0,
        mach_walked: vec![0x20, 0x30, 0x40, 0x50],
        compact_walked: vec![0x20, 0x30, 0x40, 0x50],
        compact_dwarf_walked: vec![0x20, 0x30, 0x40, 0x50],
        dwarf_walked: vec![0x20, 0x30, 0x40, 0x50, 0x80],
        used_framehop: true,
    });

    let bins = BinaryRegistry::new();
    let update = build_probe_diff_update(config(), &agg, &bins, Some(tid));

    assert_eq!(update.paired, 1);
    assert_eq!(update.kperf_kernel_stack_samples, 1);
    assert_eq!(update.kperf_kernel_frames, 2);
    assert_eq!(update.max_kperf_kernel_frames, 2);
    assert_eq!(update.paired_kernel_stack_samples, 1);
    assert_eq!(update.pc_match, 1);
    assert_eq!(update.stitchable, 1);
    assert_eq!(update.framehop_used, 1);
    assert_eq!(update.fp_walk_used, 1);
    assert_eq!(update.recent.len(), 1);
    assert_eq!(update.richer.len(), 1);
    assert_eq!(update.threads[0].kperf_kernel_stack_samples, 1);

    let entry = &update.recent[0];
    let probe_addrs: Vec<_> = entry
        .probe_stack
        .iter()
        .map(|frame| frame.address)
        .collect();
    let stitched_addrs: Vec<_> = entry
        .stitched_stack
        .iter()
        .map(|frame| frame.address)
        .collect();
    let kernel_addrs: Vec<_> = entry
        .kperf_kernel_stack
        .iter()
        .map(|frame| frame.address)
        .collect();
    assert_eq!(probe_addrs, [0x10, 0x20, 0x30, 0x40, 0x50]);
    assert_eq!(kernel_addrs, [0xa0, 0xb0]);
    assert_eq!(
        stitched_addrs,
        [0xa0, 0xb0, 0x10, 0x20, 0x30, 0x40, 0x50, 0x80]
    );
}

#[test]
fn probe_diff_does_not_ship_dwarf_when_only_fp_matches() {
    let mut agg = Aggregator::default();
    let tid = 7;

    agg.record_pet_sample(
        tid,
        ticks_for_ns(1_000_000),
        &[0x10, 0x20, 0x30, 0x40, 0x50, 0x60],
        &[],
        PmuSample::default(),
    );

    agg.record_probe_result(ProbeResultRecord {
        tid,
        timing: ProbeTiming {
            kperf_ts: ticks_for_ns(1_000_000),
            state_done: ticks_for_ns(1_000_000),
            ..ProbeTiming::default()
        },
        queue: ProbeQueueStats::default(),
        mach_pc: 0x10,
        mach_lr: 0,
        mach_fp: 0,
        mach_sp: 0,
        mach_walked: vec![0x20, 0x30, 0x40, 0x50],
        compact_walked: vec![],
        compact_dwarf_walked: vec![],
        dwarf_walked: vec![0x90, 0x91],
        used_framehop: true,
    });

    let bins = BinaryRegistry::new();
    let update = build_probe_diff_update(config(), &agg, &bins, Some(tid));

    assert_eq!(update.paired, 1);
    assert_eq!(update.common_suffix_hist[4], 1);
    assert_eq!(update.dwarf_suffix_hist[0], 1);
    assert_eq!(update.stitchable, 0);
    assert!(update.recent[0].stitched_stack.is_empty());
    assert!(update.richer.is_empty());
}

#[test]
fn probe_diff_does_not_count_duplicate_recursive_frames_as_richer() {
    let mut agg = Aggregator::default();
    let tid = 7;

    agg.record_pet_sample(
        tid,
        ticks_for_ns(1_000_000),
        &[0x10, 0x20, 0x20, 0x30],
        &[],
        PmuSample::default(),
    );

    agg.record_probe_result(ProbeResultRecord {
        tid,
        timing: ProbeTiming {
            kperf_ts: ticks_for_ns(1_000_000),
            state_done: ticks_for_ns(1_000_000),
            ..ProbeTiming::default()
        },
        queue: ProbeQueueStats::default(),
        mach_pc: 0x10,
        mach_lr: 0,
        mach_fp: 0,
        mach_sp: 0,
        mach_walked: vec![0x20, 0x20, 0x30],
        compact_walked: vec![],
        compact_dwarf_walked: vec![],
        dwarf_walked: vec![0x20, 0x20, 0x20, 0x30],
        used_framehop: true,
    });

    let bins = BinaryRegistry::new();
    let update = build_probe_diff_update(config(), &agg, &bins, Some(tid));

    assert_eq!(update.paired, 1);
    assert_eq!(update.stitchable, 1);
    assert!(update.richer.is_empty());
}

#[test]
fn probe_diff_keeps_distinct_user_frame_richer_examples() {
    let mut agg = Aggregator::default();
    let tid = 7;

    agg.record_pet_sample(
        tid,
        ticks_for_ns(1_000_000),
        &[0x10, 0x20, 0x30, 0x40],
        &[],
        PmuSample::default(),
    );

    agg.record_probe_result(ProbeResultRecord {
        tid,
        timing: ProbeTiming {
            kperf_ts: ticks_for_ns(1_000_000),
            state_done: ticks_for_ns(1_000_000),
            ..ProbeTiming::default()
        },
        queue: ProbeQueueStats::default(),
        mach_pc: 0x10,
        mach_lr: 0,
        mach_fp: 0,
        mach_sp: 0,
        mach_walked: vec![0x20, 0x30, 0x40],
        compact_walked: vec![],
        compact_dwarf_walked: vec![],
        dwarf_walked: vec![0x20, 0x30, 0x40, 0x80],
        used_framehop: true,
    });

    let bins = BinaryRegistry::new();
    let update = build_probe_diff_update(config(), &agg, &bins, Some(tid));

    assert_eq!(update.paired, 1);
    assert_eq!(update.stitchable, 1);
    assert_eq!(update.richer.len(), 1);
    let stitched_addrs: Vec<_> = update.richer[0]
        .stitched_stack
        .iter()
        .map(|frame| frame.address)
        .collect();
    assert_eq!(stitched_addrs, [0x10, 0x20, 0x30, 0x40, 0x80]);
}

#[test]
fn probe_diff_does_not_keep_different_but_not_deeper_user_stack_as_richer() {
    let mut agg = Aggregator::default();
    let tid = 7;

    agg.record_pet_sample(
        tid,
        ticks_for_ns(1_000_000),
        &[0x10, 0x20, 0x30, 0x40, 0x50],
        &[],
        PmuSample::default(),
    );

    agg.record_probe_result(ProbeResultRecord {
        tid,
        timing: ProbeTiming {
            kperf_ts: ticks_for_ns(1_000_000),
            state_done: ticks_for_ns(1_000_000),
            ..ProbeTiming::default()
        },
        queue: ProbeQueueStats::default(),
        mach_pc: 0x10,
        mach_lr: 0,
        mach_fp: 0,
        mach_sp: 0,
        mach_walked: vec![0x20, 0x30, 0x40],
        compact_walked: vec![],
        compact_dwarf_walked: vec![],
        dwarf_walked: vec![0x20, 0x30, 0x40, 0x90],
        used_framehop: true,
    });

    let bins = BinaryRegistry::new();
    let update = build_probe_diff_update(config(), &agg, &bins, Some(tid));

    assert_eq!(update.paired, 1);
    assert_eq!(update.stitchable, 1);
    assert!(update.richer.is_empty());
}
