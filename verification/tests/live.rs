use stax::aggregator::{Aggregator, IntervalKind, PmuSample};
use stax::binaries::{
    avma_for_svma, short_path, svma_for, BinaryRegistry, CacheImage, LiveSymbolOwned, LoadedBinary,
};
use stax::classify::OffCpuReason;
use stax::filter::{
    is_filter_empty, is_in_time_range, passes_filter, should_publish_revision, LiveFilter, SymbolRef,
    TimeRange,
};
use stax::flame::{compute_flame_update, AddressEntry, AddressStats, Aggregation};
use stax::interner::StringInterner;
use stax::listing::{
    build_intervals_update, build_pet_samples_update, build_threads_update, build_wakers_update,
    ThreadInfo, WakerCount,
};
use stax::neighbors::compute_neighbors_update;
use stax::offcpu::{off_cpu_total_proto, OffCpuBreakdown, PmcAccum};
use stax::pairing::pair_samples;
use stax::probe_match::mach_timebase_numer_denom;
use stax::probe_timing::{probe_timing_breakdown, ProbeTimingAccum};
use stax::sample_sink::ProbeQueueStats;
use stax::symbol_groups::{StackChild, StackNode};
use stax::timeline::build_timeline_update;
use stax::top::{group_top_entries, TopSort};

fn symbol(start: u64, end: u64, name: &str) -> LiveSymbolOwned {
    LiveSymbolOwned {
        start_svma: start,
        end_svma: end,
        name: name.as_bytes().to_vec(),
        function_name: name.to_owned(),
        language: "rust".to_owned(),
    }
}

fn registry() -> BinaryRegistry {
    let mut reg = BinaryRegistry::new();
    reg.insert(LoadedBinary {
        path: "/bin/app".into(),
        base_avma: 0x1000,
        avma_end: 0x2000,
        text_svma: 0x1000,
        arch: None,
        is_executable: true,
        symbols: vec![symbol(0x1000, 0x1100, "main"), symbol(0x1100, 0x1200, "work"), symbol(0x1200, 0x1300, "read")],
        text_bytes: None,
    });
    reg
}

#[test]
fn addresses_are_looked_up() {
    let mut reg = registry();
    let s = reg.lookup_symbol(0x1104).unwrap();
    assert_eq!((s.function_name.as_str(), s.binary.as_str(), s.is_main), ("work", "app", true));
    assert!(reg.lookup_symbol(0x9000).is_none());
    reg.set_shared_cache(vec![CacheImage {
        install_name: "/usr/lib/libc.dylib".into(),
        runtime_avma: 0x9000,
        avma_end: 0xa000,
        text_svma: 0,
        symbols: vec![symbol(0, 0x10, "read")],
    }]);
    assert_eq!(reg.lookup_symbol(0x9004).unwrap().binary, "libc.dylib");
    assert_eq!(short_path("/a/b"), "b");
    assert_eq!(avma_for_svma(0x5000, 0x1000, 0x1010), 0x5010);
    assert_eq!(svma_for(&reg.binary_list()[0], 0x1010), 0x1010);
    reg.remove(0x1000);
    assert!(reg.binary_for_address(0x1010).is_none());
    reg.set_target(4, 5);
}

fn node(on: u64, children: Vec<StackChild>) -> StackNode {
    StackNode {
        on_cpu_ns: on,
        off_cpu: OffCpuBreakdown::default(),
        pet_samples: 1,
        off_cpu_intervals: 0,
        pmc: PmcAccum::default(),
        children,
    }
}

fn tree() -> StackNode {
    let leaf = StackChild { address: 0x1110, node: node(60, vec![]) };
    let other = StackChild { address: 0x1120, node: node(30, vec![]) };
    node(100, vec![StackChild { address: 0x1010, node: node(100, vec![leaf, other]) }])
}

fn stats(self_ns: u64, total_ns: u64) -> AddressStats {
    AddressStats {
        self_on_cpu_ns: self_ns,
        total_on_cpu_ns: total_ns,
        self_off_cpu: OffCpuBreakdown::default(),
        total_off_cpu: OffCpuBreakdown::default(),
        self_pet_samples: 0,
        total_pet_samples: 0,
        self_off_cpu_intervals: 0,
        total_off_cpu_intervals: 0,
        self_pmc: PmcAccum::default(),
        total_pmc: PmcAccum::default(),
    }
}

fn aggregation() -> Aggregation {
    Aggregation {
        by_address: vec![
            AddressEntry { address: 0x1010, stats: stats(10, 100) },
            AddressEntry { address: 0x1110, stats: stats(60, 60) },
            AddressEntry { address: 0x1120, stats: stats(30, 30) },
        ],
        flame_root: tree(),
        total_on_cpu_ns: 100,
        total_off_cpu: OffCpuBreakdown::default(),
    }
}

#[test]
fn flames_are_grouped_by_symbol() {
    let u = compute_flame_update(&aggregation(), &registry());
    assert_eq!(u.total_on_cpu_ns, 100);
    assert_eq!(u.root.children.len(), 1);
    let main = &u.root.children[0];
    let name = |n: Option<u32>| u.strings[n.unwrap() as usize].as_str();
    assert_eq!(name(main.function_name), "main");
    assert_eq!(main.children.len(), 1);
    assert_eq!(name(main.children[0].function_name), "work");
    assert_eq!(main.children[0].on_cpu_ns, 90);
    assert_eq!(u.strings, ["work", "app", "rust", "main", "unknown", "(all)"]);
}

#[test]
fn the_top_is_sorted() {
    let by_self = group_top_entries(&aggregation(), &registry(), TopSort::BySelf, 10);
    assert_eq!(by_self.len(), 2);
    assert_eq!((by_self[0].function_name.as_deref(), by_self[0].self_on_cpu_ns), (Some("work"), 90));
    let by_total = group_top_entries(&aggregation(), &registry(), TopSort::ByTotal, 1);
    assert_eq!(by_total.len(), 1);
    assert_eq!(by_total[0].function_name.as_deref(), Some("main"));
}

#[test]
fn neighbors_are_callers_and_callees() {
    let root = tree();
    let u = compute_neighbors_update(&root, &registry(), 0x1010);
    let name = |n: Option<u32>| u.strings[n.unwrap() as usize].clone();
    assert_eq!(name(u.function_name), "main");
    assert_eq!(u.own_on_cpu_ns, 100);
    assert_eq!(u.callees_tree.children.len(), 1);
    assert_eq!(name(u.callees_tree.children[0].function_name), "work");
    assert!(u.callers_tree.children.is_empty());
    let w = compute_neighbors_update(&root, &registry(), 0x1110);
    assert_eq!(w.own_on_cpu_ns, 90);
    assert_eq!(w.callers_tree.children.len(), 1);
    assert_eq!(u.strings, ["main", "app", "rust", "work"]);
    assert_eq!(w.strings, ["work", "app", "rust", "main"]);
}

fn recorded() -> Aggregator {
    let mut agg = Aggregator::default();
    agg.record_pet_sample(1, 1_000, &[0x1110, 0x1010], &[], PmuSample::default());
    agg.record_pet_sample(2, 2_000, &[0x1010], &[], PmuSample::default());
    agg.record_interval(1, 0, 100_000_000, IntervalKind::OnCpu);
    agg.record_interval(
        1,
        100_000_000,
        150_000_000,
        IntervalKind::OffCpu { stack: vec![0x1210], waker_tid: Some(2), waker_user_stack: Some(vec![0x1110]) },
    );
    agg.set_thread_name(1, "main".into());
    agg
}

fn all() -> LiveFilter {
    LiveFilter { time_range: None, exclude_symbols: vec![] }
}

#[test]
fn time_is_put_into_buckets() {
    let u = build_timeline_update(&recorded(), Some(1));
    assert_eq!(u.bucket_size_ns, 50_000_000);
    assert_eq!((u.total_on_cpu_ns, u.total_off_cpu_ns), (100_000_000, 50_000_000));
    let on: u64 = u.buckets.iter().map(|b| b.on_cpu_ns).sum();
    assert_eq!(on, 100_000_000);
    assert_eq!(u.buckets[0].on_cpu_ns, 50_000_000);
}

#[test]
fn buckets_add_up_to_the_totals() {
    let mut agg = Aggregator::default();
    agg.record_interval(1, 10_000_000, 130_000_000, IntervalKind::OnCpu);
    agg.record_interval(2, 20_000_000, 75_000_001, IntervalKind::OnCpu);
    agg.record_interval(
        1,
        130_000_000,
        290_000_000,
        IntervalKind::OffCpu { stack: vec![0x1210], waker_tid: None, waker_user_stack: None },
    );
    let u = build_timeline_update(&agg, None);
    let on: u64 = u.buckets.iter().map(|b| b.on_cpu_ns).sum();
    let off: u64 = u.buckets.iter().map(|b| b.off_cpu_ns).sum();
    assert_eq!((on, off), (175_000_001, 160_000_000));
    assert_eq!((u.total_on_cpu_ns, u.total_off_cpu_ns), (on, off));
    let list = build_intervals_update(&agg, &registry(), None, &all());
    assert_eq!(list.by_reason.total_ns(), list.total_duration_ns);
    assert_eq!(list.total_duration_ns, 160_000_000);
}

#[test]
fn intervals_and_samples_are_listed() {
    let agg = recorded();
    let u = build_intervals_update(&agg, &registry(), None, &all());
    assert_eq!((u.total_intervals, u.total_duration_ns), (1, 50_000_000));
    assert_eq!(u.entries[0].reason, OffCpuReason::IoRead);
    assert_eq!(u.by_reason.io_read_ns, 50_000_000);
    assert_eq!(u.strings[u.entries[0].waker_function_name.unwrap() as usize], "work");
    let s = build_pet_samples_update(&agg, Some(2), &all());
    assert_eq!((s.total_samples, s.entries[0].tid), (1, 2));
    let w = build_wakers_update(
        &registry(),
        1,
        &vec![WakerCount { waker_tid: 2, waker_leaf_address: 0x1110, count: 3 }],
    );
    assert_eq!((w.total_wakeups, w.entries[0].waker_function_name.as_deref()), (3, Some("work")));
    let t = build_threads_update(vec![
        ThreadInfo { tid: 1, name: None, on_cpu_ns: 5, off_cpu: OffCpuBreakdown::default(), pet_samples: 0 },
        ThreadInfo { tid: 2, name: None, on_cpu_ns: 9, off_cpu: OffCpuBreakdown::default(), pet_samples: 0 },
    ]);
    assert_eq!(t.threads[0].tid, 2);
    assert_eq!((agg.session_start_ns().is_some(), agg.last_event_ns()), (true, Some(150_000_000)));
}

#[test]
fn names_stand_in_the_order_of_their_rows() {
    let mut agg = Aggregator::default();
    for (start, waker) in [(30_000, 0x1210), (10_000, 0x1010), (20_000, 0x1210), (40_000, 0x9000)] {
        agg.record_interval(
            1,
            start,
            start + 5_000,
            IntervalKind::OffCpu {
                stack: vec![0x1210],
                waker_tid: Some(2),
                waker_user_stack: Some(vec![waker]),
            },
        );
    }
    let u = build_intervals_update(&agg, &registry(), None, &all());
    assert_eq!(u.strings, ["read", "app", "main"]);
    let names: Vec<_> = u.entries.iter().map(|e| (e.waker_function_name, e.waker_binary)).collect();
    assert_eq!(
        names,
        [(None, None), (Some(0), Some(1)), (Some(0), Some(1)), (Some(2), Some(1))],
    );
}

#[test]
fn filters_leave_things_out() {
    assert!(is_filter_empty(&all()));
    let f = LiveFilter {
        time_range: Some(TimeRange { start_ns: 10, end_ns: 20 }),
        exclude_symbols: vec![SymbolRef { function_name: Some("work".into()), binary: Some("app".into()) }],
    };
    assert!(!is_filter_empty(&f));
    assert!(is_in_time_range(&f.time_range, 100, 115) && !is_in_time_range(&f.time_range, 100, 125));
    let reg = registry();
    assert!(passes_filter(&f, 100, &reg, 115, &[0x1010]));
    assert!(!passes_filter(&f, 100, &reg, 115, &[0x1110]));
    assert!(!passes_filter(&f, 100, &reg, 105, &[0x1010]));
    let waits_in_read = LiveFilter {
        time_range: None,
        exclude_symbols: vec![SymbolRef { function_name: Some("read".into()), binary: Some("app".into()) }],
    };
    let u = build_intervals_update(&recorded(), &reg, None, &waits_in_read);
    assert_eq!((u.total_intervals, u.total_duration_ns, u.entries.len()), (0, 0, 0));
    assert_eq!(u.by_reason.total_ns(), 0);
    assert_eq!(build_intervals_update(&recorded(), &reg, None, &f).total_intervals, 0);
    let other = LiveFilter {
        time_range: None,
        exclude_symbols: vec![SymbolRef { function_name: Some("work".into()), binary: Some("app".into()) }],
    };
    assert_eq!(build_intervals_update(&recorded(), &reg, None, &other).total_intervals, 1);
    let mut last = None;
    assert!(should_publish_revision(4, &mut last));
    assert!(!should_publish_revision(4, &mut last));
    assert!(should_publish_revision(5, &mut last));
}

#[test]
fn strings_are_kept_once() {
    let mut i = StringInterner::new();
    let a = i.intern_str("x");
    assert_eq!(i.intern("x".into()), a);
    assert_ne!(i.intern_str("y"), a);
    assert_eq!(i.intern_opt(None), None);
    assert_eq!(i.intern_opt(Some("y")), Some(1));
    assert_eq!(i.into_strings(), ["x", "y"]);
}

#[test]
fn waiting_is_added_up_by_reason() {
    let mut b = OffCpuBreakdown::default();
    b.add_reason(OffCpuReason::LockWait, 5);
    b.add_reason(OffCpuReason::Sleep, 2);
    let mut sum = OffCpuBreakdown::default();
    sum.add_other(&b);
    sum.add_other(&b);
    assert_eq!((sum.lock_ns, sum.sleep_ns, sum.total_ns()), (10, 4, 14));
    assert_eq!(off_cpu_total_proto(&sum), 14);
}

#[test]
fn samples_are_paired_with_probes() {
    let tb = mach_timebase_numer_denom(1, 1);
    let pairs = pair_samples(tb, &vec![0, 1_000_000, 2_000_000], &vec![1_100_000, 9_000_000]);
    assert_eq!(pairs.len(), 1);
    assert_eq!((pairs[0].probe, pairs[0].pet), (0, 1));
}

#[test]
fn probes_are_timed_by_phase() {
    let tb = mach_timebase_numer_denom(1, 1);
    let mut t = stax::aggregator::ProbeTiming::default();
    t.enqueued = 110;
    t.worker_started = 130;
    t.walk_done = 200;
    let b = probe_timing_breakdown(tb, &t, 100);
    assert_eq!((b.kperf_to_enqueue_ns, b.queue_wait_ns, b.kperf_to_staxd_read_ns), (10, 20, 0));
    let mut acc = ProbeTimingAccum::default();
    acc.add(b, ProbeQueueStats { coalesced_requests: 2, worker_batch_len: 3 });
    acc.add(b, ProbeQueueStats { coalesced_requests: 1, worker_batch_len: 5 });
    let s = acc.finish();
    assert_eq!((s.samples, s.avg_queue_wait_ns, s.max_queue_wait_ns), (2, 20, 20));
    assert_eq!((s.coalesced_requests, s.max_worker_batch_len), (3, 5));
}

#[test]
fn averages_stay_below_maxima() {
    let tb = mach_timebase_numer_denom(1, 1);
    let mut acc = ProbeTimingAccum::default();
    for wait in [3, 10, 1] {
        let mut t = stax::aggregator::ProbeTiming::default();
        t.enqueued = 110;
        t.worker_started = 110 + wait;
        acc.add(
            probe_timing_breakdown(tb, &t, 100),
            ProbeQueueStats { coalesced_requests: 0, worker_batch_len: 1 },
        );
    }
    let s = acc.finish();
    assert_eq!((s.avg_queue_wait_ns, s.max_queue_wait_ns), (4, 10));
}
