use stax::kdebug::{kdbg_class, kdbg_code, kdbg_eventid, kdbg_func, kdbg_subclass, KdBuf};
use stax::parser::Parser;
use stax::pipeline::{jitdump_path_for, Pipeline, PipelineConfig, RecordOutput};
use stax::session_events::{
    batch_events, interval_event, jit_event, jit_image, sample_event, wakeup_event, BatchEvent, JitRecord, PendingInterval,
    PendingKind, PendingWakeup,
};
use stax::sample_sink::CpuIntervalKind;

const PERF: u8 = 37;

fn record(class: u8, subclass: u8, code: u16, func: u32) -> KdBuf {
    KdBuf {
        timestamp: 0,
        arg1: 0,
        arg2: 0,
        arg3: 0,
        arg4: 0,
        arg5: 0,
        debugid: kdbg_eventid(class, subclass, code) | func,
        cpuid: 0,
    }
}

fn sample_records(tid: u64, user: &[u64; 4], n: u64) -> Vec<KdBuf> {
    let mut start = record(PERF, 0, 0, 1);
    start.arg5 = tid;
    start.timestamp = 77;
    let mut header = record(PERF, 2, 6, 0);
    header.arg2 = n;
    let mut frames = record(PERF, 2, 4, 0);
    frames.arg1 = user[0];
    frames.arg2 = user[1];
    frames.arg3 = user[2];
    frames.arg4 = user[3];
    let mut counters = record(PERF, 6, 8, 0);
    counters.arg1 = 1000;
    counters.arg2 = 500;
    counters.arg3 = 7;
    counters.arg4 = 9;
    let end = record(PERF, 0, 0, 2);
    vec![start, header, frames, counters, end]
}

#[test]
fn event_ids_hold_their_parts() {
    let id = kdbg_eventid(37, 6, 8) | 2;
    assert_eq!((kdbg_class(id), kdbg_subclass(id), kdbg_code(id), kdbg_func(id)), (37, 6, 8, 2));
    assert_eq!(kdbg_eventid(1, 0x40, 0), 0x0140_0000);
}

#[test]
fn samples_are_put_together_from_records() {
    let mut parser = Parser::new();
    let mut out = Vec::new();
    for r in sample_records(5, &[1, 2, 3, 0], 3) {
        if let Some(s) = parser.feed(&r) {
            out.push(s);
        }
    }
    assert_eq!(out.len(), 1);
    assert_eq!((out[0].tid, out[0].timestamp_ns), (5, 77));
    assert_eq!(out[0].user_backtrace, [1, 2, 3]);
    assert_eq!(&out[0].pmc[..2], [1000, 500]);
    assert_eq!((parser.stats().samples_started, parser.stats().samples_emitted), (1, 1));
    // A sample that is begun anew leaves the first one behind.
    let records = sample_records(6, &[1, 0, 0, 0], 1);
    parser.feed(&records[0]);
    parser.feed(&records[0]);
    assert_eq!(parser.stats().samples_orphaned, 1);
}

fn config() -> PipelineConfig {
    PipelineConfig { pid: 40, frequency_hz: 1000, pmc_idx_l1d: Some(2), pmc_idx_brmiss: Some(9) }
}

#[test]
fn the_pipeline_sorts_records() {
    let mut p = Pipeline::new(config(), 0);
    let mut records = sample_records(5, &[1, 2, 0, 0], 2);
    records.push(record(1, 0x40, 3, 0));
    records.extend(sample_records(6, &[0; 4], 0));
    let out = p.process_records(&records);
    assert_eq!(out.len(), 3);
    match &out[0] {
        RecordOutput::Sample { sample, event } => {
            let c = event.unwrap();
            assert_eq!((c.cycles, c.instructions, c.l1d_misses, c.branch_mispreds), (1000, 500, 7, 0));
            let e = sample_event(40, sample, c);
            assert_eq!((e.pid, e.tid, e.backtrace), (40, 5, &[1u64, 2][..]));
        }
        RecordOutput::Scheduler(_) => panic!("no sample"),
    }
    assert!(matches!(out[1], RecordOutput::Scheduler(_)));
    assert!(matches!(out[2], RecordOutput::Sample { event: None, .. }));
    assert!(p.has_seen(6) && p.forwards_interval(5) && !p.forwards_interval(9));
    assert_eq!(p.total_drained(), 11);
    let s = p.finish(true, Some(0x4000));
    assert_eq!((s.pmu_samples, s.pmu_total_cycles, s.kallsyms_slide), (2, 2000, Some(0x4000)));
}

#[test]
fn periodic_work_has_its_dates() {
    let mut p = Pipeline::new(config(), 1_000);
    assert!(!p.tick(1_001).rescan_threads);
    let plan = p.tick(50_001_000);
    assert!(plan.rescan_threads && !plan.rescan_images && !plan.probe_jitdump);
    assert!(!p.tick(50_001_001).rescan_threads);
    let plan = p.tick(500_001_000);
    assert!(plan.rescan_images && plan.probe_jitdump);
    p.jitdump_probed(500_001_000, false);
    assert!(!p.tick(500_001_001).probe_jitdump);
    assert!(p.tick(1_000_001_000).probe_jitdump);
    p.jitdump_probed(1_000_001_000, true);
    assert!(!p.tick(9_000_000_000).probe_jitdump);
    assert_eq!(p.finish(false, Some(1)).kallsyms_slide, None);
    assert_eq!(jitdump_path_for(123), "/tmp/jit-123.dump");
}

#[test]
fn generated_code_is_an_image_of_its_own() {
    let img = jit_image(JitRecord { name: "f".into(), avma: 0x100, code_size: 4, code: vec![1, 2, 3, 4] });
    assert_eq!(img.path, "[jit] f");
    assert_eq!((img.symbols[0].start_svma, img.symbols[0].end_svma), (0x100, 0x104));
    assert_eq!(img.symbols[0].name, b"f");
    let e = jit_event(9, &img, Some("aarch64"));
    assert_eq!((e.pid, e.base_avma, e.text_svma, e.vmsize), (9, 0x100, 0x100, 4));
    assert_eq!(e.text_bytes, Some(&[1u8, 2, 3, 4][..]));
    assert!(!e.is_executable && e.uuid.is_none());
}

#[test]
fn intervals_and_wakeups_become_events() {
    let on = PendingInterval { tid: 3, start_ns: 1, end_ns: 2, kind: PendingKind::OnCpu };
    assert!(matches!(interval_event(9, &on).kind, CpuIntervalKind::OnCpu));
    let off = PendingInterval {
        tid: 3,
        start_ns: 1,
        end_ns: 2,
        kind: PendingKind::OffCpu {
            user_stack: vec![7],
            kernel_stack: vec![8],
            waker_tid: Some(4),
            waker_user_stack: Some(vec![5]),
        },
    };
    match interval_event(9, &off).kind {
        CpuIntervalKind::OffCpu { stack, waker_tid, waker_user_stack } => {
            assert_eq!((stack, waker_tid, waker_user_stack), (&[7u64][..], Some(4), Some(&[5u64][..])));
        }
        CpuIntervalKind::OnCpu => panic!("on the processor"),
    }
    let w = PendingWakeup {
        timestamp_ns: 1,
        waker_tid: 2,
        wakee_tid: 3,
        waker_user_stack: vec![4],
        waker_kernel_stack: vec![],
    };
    let e = wakeup_event(9, &w);
    assert_eq!((e.waker_tid, e.wakee_tid, e.waker_user_stack), (2, 3, &[4u64][..]));
}

#[test]
fn a_batch_hands_its_events_on_in_order() {
    let mut p = Pipeline::new(config(), 0);
    let mut records = sample_records(5, &[1, 2, 0, 0], 2);
    records.extend(sample_records(6, &[0; 4], 0));
    let out = p.process_records(&records);
    let interval = |tid| PendingInterval { tid, start_ns: 1, end_ns: 2, kind: PendingKind::OnCpu };
    let wakeups = vec![PendingWakeup {
        timestamp_ns: 1,
        waker_tid: 2,
        wakee_tid: 9,
        waker_user_stack: vec![4],
        waker_kernel_stack: vec![],
    }];
    let intervals = vec![interval(9), interval(6), interval(5)];
    let events = batch_events(&p, &out, &wakeups, &intervals);
    assert_eq!(events.len(), 4);
    assert!(matches!(&events[0], BatchEvent::Sample(e) if e.tid == 5 && e.pid == 40 && e.cycles == 1000));
    assert!(matches!(&events[1], BatchEvent::Wakeup(e) if e.wakee_tid == 9));
    assert!(matches!(&events[2], BatchEvent::Interval(e) if e.tid == 6));
    assert!(matches!(&events[3], BatchEvent::Interval(e) if e.tid == 5));
    assert!(batch_events(&p, &Vec::new(), &Vec::new(), &vec![interval(7)]).is_empty());
}
