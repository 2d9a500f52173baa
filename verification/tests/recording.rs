use stax::client::SessionError;
use stax::demand::ThreadDemandTracker;
use stax::helper::{Capture, StackSnapshot};
use stax::pmu::{bytes_to_path, configure, PmuAnswers, PmuSearch, PmuSlot, PmuStep};
use stax::probe_worker::{
    capture_route, helper_connected, remote_capture, CaptureNext, CaptureRoute, CaptureSent,
    CaptureWorker, DwarfFailureStats, HelperOutcome, ProbeWorkerEvent, UnwindWorker,
};
use stax::demand::correlated_probe_timing;
use stax::record::{record_args, Counts};
use stax::sample_sink::ProbeQueueStats;
use stax::shade::{
    attach_failure, attach_mode, check_command, command_stops, decode_wait_status, file_actions,
    forward_input, launched_child_exited, pty_read, pty_write, registration_result, run_plan,
    shade_info, terminal_size, terminate_launched_child, AttachMode, ChildExit, CommandReceived,
    FileAction, InputReceived, PtyRead, PtyWrite, Recording, RunPlan, ShadeAck, ShadeArgError,
    StopCheck, TerminalInput, TerminateStep,
};
use stax::unwind::{
    callers_of_frames, check_capture, fp_bridge_step, BridgeStep, BridgeWalk, CapturedBridgePolicy,
    CapturedImageMapping, CapturedReload, CapturedStack, CapturedStackUnwinder, CapturedThreadState,
    CapturedUnwindError, CapturedUnwindFailure, CapturedUnwindOptions, CapturedUnwindOutcome,
    PointerBits, UnwindFailure, UnwindMode,
};
use stax::workload::{mix, parse_args, parse_number, stack_burn, Burner, Config, NumberError, Pause};

fn words(list: &[&str]) -> Vec<String> {
    list.iter().map(|w| w.to_string()).collect()
}

#[test]
fn a_target_is_attached_or_launched() {
    assert!(matches!(attach_mode(Some(4), false, vec![]), Ok(AttachMode::Existing(4))));
    assert!(matches!(attach_mode(None, true, words(&["ls"])), Ok(AttachMode::Launch(c)) if c == ["ls"]));
    assert_eq!(attach_mode(Some(4), true, vec![]).err(), Some(ShadeArgError::AttachAndLaunch));
    assert_eq!(attach_mode(None, true, vec![]).err(), Some(ShadeArgError::NoProgram));
    assert_eq!(attach_mode(None, false, vec![]).err(), Some(ShadeArgError::NoTarget));
    assert_eq!(
        ShadeArgError::AttachAndLaunch.message(),
        "--attach and --launch are mutually exclusive"
    );
    assert!(matches!(run_plan(true, Some(3)), Ok(RunPlan::Record { run_id: 3 })));
    assert_eq!(run_plan(true, None).err(), Some(ShadeArgError::NoRunId));
    assert!(matches!(run_plan(false, None), Ok(RunPlan::Standalone)));
    assert_eq!(check_command(&vec![]).err(), Some(ShadeArgError::EmptyCommand));
    assert_eq!(check_command(&words(&["a\0b"])).err(), Some(ShadeArgError::NulInProgram));
    assert_eq!(check_command(&words(&["a", "b\0"])).err(), Some(ShadeArgError::NulInArguments));
    assert!(check_command(&words(&["a", "b"])).is_ok());
    assert!(terminal_size(Some(24), Some(80), false).is_none());
    assert_eq!(terminal_size(Some(24), Some(80), true).unwrap().cols, 80);
    assert_eq!(
        file_actions(7, 8),
        [
            FileAction::Dup2 { from: 8, to: 0 },
            FileAction::Dup2 { from: 8, to: 1 },
            FileAction::Dup2 { from: 8, to: 2 },
            FileAction::Close(8),
            FileAction::Close(7),
        ]
    );
}

#[test]
fn children_end_in_one_way() {
    let code = decode_wait_status(3 << 8);
    assert_eq!(code, ChildExit { code: Some(3), signal: None });
    let signal = decode_wait_status(9);
    assert_eq!(signal, ChildExit { code: None, signal: Some(9) });
    assert_eq!(launched_child_exited(5, 0, 0), None);
    assert_eq!(launched_child_exited(5, 5, 3 << 8), Some(code));
    assert_eq!(launched_child_exited(5, -1, 0), Some(ChildExit { code: None, signal: None }));
    assert!(matches!(terminate_launched_child(5, 0, 0), TerminateStep::Kill));
    assert!(matches!(terminate_launched_child(5, 5, 9), TerminateStep::Ended(e) if e == signal));
    assert!(command_stops(CommandReceived::Stop) && !command_stops(CommandReceived::Nothing));
}

#[test]
fn a_recording_lets_its_target_go_once() {
    let mut r = Recording::new(true);
    assert!(r.take_resume());
    assert!(!r.take_resume());
    assert_eq!(r.check_stop(true, false), StopCheck::Stop);
    assert_eq!(r.check_stop(false, false), StopCheck::LookAtTarget);
    assert!(!r.on_look(None));
    assert!(r.on_look(Some(ChildExit { code: Some(0), signal: None })));
    assert_eq!(r.check_stop(false, false), StopCheck::GoOn);
    let p = r.end_plan(Err(SessionError::WorkerShutdownTimedOut { budget_ns: 1 }));
    assert!(!p.resume && !p.terminate);
    assert_eq!(p.forwarder_budget_ns, Some(5_000_000_000));
    let early = Recording::new(true).end_plan(Ok(()));
    assert!(early.resume && early.terminate && early.forwarder_budget_ns.is_none());
}

#[test]
fn terminals_are_pumped() {
    assert_eq!(pty_read(5, None), PtyRead::Forward(5));
    assert_eq!(pty_read(-1, Some(4)), PtyRead::Again);
    assert_eq!(pty_read(-1, Some(5)), PtyRead::End);
    assert_eq!(pty_read(-1, Some(9)), PtyRead::Fail);
    assert_eq!(pty_write(2, 10, 3, None), PtyWrite::More { offset: 5 });
    assert_eq!(pty_write(2, 10, 8, None), PtyWrite::Done);
    assert_eq!(pty_write(2, 10, -1, Some(4)), PtyWrite::More { offset: 2 });
    assert!(matches!(forward_input(InputReceived::Closed), (TerminalInput::Close, _)));
}

#[test]
fn shades_register() {
    let i = shade_info(1, 2, 3);
    assert_eq!((i.run_id, i.target_pid, i.shade_pid), (1, 2, 3));
    assert!(registration_result(&ShadeAck { accepted: true, reason: None }).is_ok());
    assert_eq!(
        registration_result(&ShadeAck { accepted: false, reason: None }).unwrap_err(),
        "stax-server rejected registration: (no reason)"
    );
    assert_eq!(
        registration_result(&ShadeAck { accepted: false, reason: Some("busy".into()) }).unwrap_err(),
        "stax-server rejected registration: busy"
    );
    assert!(attach_failure(7, -5).starts_with("task_for_pid(7) failed: kr=-5 (expected same-uid"));
}

#[test]
fn unwinding_failures_are_counted_by_reason() {
    let mut s = DwarfFailureStats::new();
    s.record(&CapturedUnwindError::NoMappings);
    s.record(&CapturedUnwindError::OnlyLeafFrame { reason: Some(UnwindFailure::MissingCfa) });
    s.record(&CapturedUnwindError::OnlyLeafFrame { reason: None });
    assert_eq!((s.no_mappings, s.missing_cfa, s.no_caller_frames), (1, 1, 1));
}

fn capture() -> Capture {
    let mut bytes = vec![0u8; 64];
    bytes[0..8].copy_from_slice(&0x1020u64.to_le_bytes());
    bytes[8..16].copy_from_slice(&0xaaaau64.to_le_bytes());
    bytes[40..48].copy_from_slice(&0xbbbbu64.to_le_bytes());
    Capture {
        thread_lookup_done: 1,
        state_done: 2,
        resume_done: 3,
        pc: 0x10,
        lr: 0x20,
        fp: 0x1000,
        sp: 0x1000,
        stack: StackSnapshot { base: 0x1000, bytes },
    }
}

#[test]
fn captures_are_unwound_in_every_way() {
    let c = remote_capture(9, correlated_probe_timing(5), capture(), ProbeQueueStats::default());
    let ok = |callers: Vec<u64>| Ok(CapturedUnwindOutcome { callers, bridge_attempted: false, bridge_steps: 0 });
    let failed = Err(CapturedUnwindFailure {
        error: CapturedUnwindError::NoMappings,
        bridge_attempted: true,
        bridge_steps: 2,
    });
    let mut w = UnwindWorker::new(PointerBits::unsigned());
    let r = w.on_capture(&c, ok(vec![1]), ok(vec![2]), ok(vec![3]), 99);
    assert_eq!((r.tid, r.mach_pc, r.timing.walk_done), (9, 0x10, 99));
    assert_eq!(r.mach_walked, [0xaaaa, 0xbbbb]);
    assert_eq!((r.compact_walked, r.compact_dwarf_walked, r.dwarf_walked), (vec![1], vec![2], vec![3]));
    assert!(r.used_framehop);
    let again = UnwindWorker::new(PointerBits::unsigned()).on_capture(&c, ok(vec![]), ok(vec![]), failed, 99);
    assert!(!again.used_framehop && again.dwarf_walked.is_empty());
    assert_eq!((w.dwarf_successes, w.dwarf_failures), (1, 0));
    assert!(w.on_sent(true) && !w.on_sent(false));
    assert_eq!(w.results_sent, 1);
}

#[test]
fn captures_go_through_the_helper_where_there_is_one() {
    assert!(matches!(capture_route(HelperOutcome::Captured), CaptureRoute::UseHelper));
    assert!(matches!(capture_route(HelperOutcome::Refused), CaptureRoute::Skip));
    assert!(matches!(capture_route(HelperOutcome::Absent), CaptureRoute::Remote { drop_helper: false }));
    assert!(matches!(capture_route(HelperOutcome::Failed), CaptureRoute::Remote { drop_helper: true }));
    let mut w = CaptureWorker::new(0);
    assert!(w.on_batch());
    w.images_seeded = true;
    assert!(!w.on_batch());
    assert!(!w.on_request(false, 5));
    assert!(w.on_request(false, 10_000_000));
    assert!(!w.on_request(false, 10_000_001));
    assert!(!w.on_request(true, 60_000_000));
    assert!(matches!(w.on_sent(CaptureSent::Sent, true), CaptureNext::GoOn));
    assert!(matches!(w.on_sent(CaptureSent::Disconnected, false), CaptureNext::End));
    assert_eq!((w.captures_sent, w.helper_captures_sent), (1, 1));
    let mut demands = ThreadDemandTracker::new(0);
    match helper_connected(&mut demands, 4, 77) {
        ProbeWorkerEvent::ThreadName { pid, tid, name } => {
            assert_eq!((pid, tid, name), (4, 77, "stax-inferior-helper"));
        }
        ProbeWorkerEvent::Snapshot(_) => panic!("no name"),
    }
    assert!(!demands.observe(77, 1));
}

#[test]
fn captured_stacks_are_bridged_by_frame_pointers() {
    let c = capture();
    let stack = || CapturedStack::new(0x1000, &c.stack.bytes, PointerBits::unsigned());
    let s = fp_bridge_step(stack(), 0x1000, 0x1000);
    assert_eq!(s, Some(CapturedThreadState { pc: 0xaaaa, lr: 0xbbbb, fp: 0x1020, sp: 0x1010 }));
    assert!(fp_bridge_step(stack(), 0x1020, 0x1000).is_none());
    assert!(fp_bridge_step(stack(), 0x9000, 0x1000).is_none());
    assert_eq!(callers_of_frames(&vec![1, 2, 3], None, 2, PointerBits::unsigned()).unwrap(), [2, 3]);
    assert_eq!(callers_of_frames(&vec![1, 2, 3], None, 1, PointerBits::unsigned()).unwrap(), [2]);
    assert!(matches!(
        callers_of_frames(&vec![1], None, 5, PointerBits::unsigned()),
        Err(CapturedUnwindError::OnlyLeafFrame { reason: None })
    ));
    assert!(matches!(check_capture(false, false, true, true, 1), Err(CapturedUnwindError::NoMappings)));
    assert!(matches!(check_capture(true, true, true, true, 1), Err(CapturedUnwindError::EmptyStack)));
    assert!(matches!(
        check_capture(true, false, false, true, 1),
        Err(CapturedUnwindError::MissingStackPointer)
    ));
    assert!(matches!(
        check_capture(true, false, true, false, 1),
        Err(CapturedUnwindError::MissingInstructionPointer)
    ));
    assert!(matches!(
        check_capture(true, false, true, true, 0),
        Err(CapturedUnwindError::NoMappedRegions)
    ));
    assert!(check_capture(true, false, true, true, 1).is_ok());
    let leaf = || CapturedUnwindError::OnlyLeafFrame { reason: Some(UnwindFailure::NoBinary) };
    assert!(CapturedBridgePolicy::OnlyNoBinaryOrNoUnwindInfo.should_bridge(&leaf()));
    assert!(!CapturedBridgePolicy::Never.should_bridge(&leaf()));
    let state = CapturedThreadState::new(0x10, 0, 0x1000, 0x1000, PointerBits::unsigned());
    let mut w = BridgeWalk::start(state, CapturedUnwindOptions::dwarf_with_fp_bridge(), PointerBits::unsigned());
    let next = match w.on_unwound(stack(), Err(leaf())) {
        BridgeStep::Unwind(s) => s,
        BridgeStep::Finished(_) => panic!("not bridged"),
    };
    assert_eq!(next.pc, 0xaaaa);
    match w.on_unwound(stack(), Ok(vec![0xcccc])) {
        BridgeStep::Finished(Ok(o)) => {
            assert_eq!(o.callers, [0xaaaa, 0xcccc]);
            assert!(o.bridge_attempted);
        }
        _ => panic!("not finished"),
    }
    let mut options = CapturedUnwindOptions::metadata(UnwindMode::CompactOnly);
    options.bridge = CapturedBridgePolicy::Never;
    let mut plain = BridgeWalk::start(state, options, PointerBits::unsigned());
    assert!(matches!(plain.on_unwound(stack(), Err(leaf())), BridgeStep::Finished(Err(_))));
}

#[test]
fn mappings_are_loaded_when_they_change() {
    let mut u = CapturedStackUnwinder::new();
    assert!(!u.has_mappings() && u.regions_to_load().is_none());
    u.add_mapping(CapturedImageMapping::executable_text("/a".into(), 0x100, 0x10, 0));
    u.add_mapping(CapturedImageMapping::executable_text("/a".into(), 0x100, 0x20, 4));
    let regions = u.regions_to_load().unwrap();
    assert_eq!(regions.len(), 1);
    assert_eq!((regions[0].end, regions[0].name.as_str(), regions[0].file_offset), (0x120, "/a", 4));
    u.reloaded(CapturedReload { mapped_regions: 1, loaded_binaries: 1, load_failures: Vec::new() });
    assert!(u.regions_to_load().is_none());
    assert_eq!(u.last_reload().mapped_regions, 1);
    u.remove_mapping_by_start(0x100);
    assert!(!u.has_mappings());
    u.set_mappings(vec![]);
}

#[test]
fn workloads_are_configured() {
    let c = parse_args(&words(&["--threads", "0", "--depth", "3", "--helper"]), Some(8)).unwrap();
    assert_eq!((c.threads, c.depth, c.helper), (1, 3, true));
    assert_eq!(Config::with_parallelism(Some(4)).threads, 2);
    assert_eq!(Config::with_parallelism(Some(0)).threads, 1);
    assert_eq!(parse_args(&words(&["--depth"]), None).unwrap_err(), "--depth requires a value");
    assert_eq!(parse_args(&words(&["--bogus"]), None).unwrap_err(), "unknown argument \"--bogus\"");
    assert_eq!(
        parse_args(&words(&["--seconds", "x"]), None).unwrap_err(),
        "invalid --seconds value \"x\": invalid digit found in string"
    );
    assert_eq!(
        parse_args(&words(&["-h"]), None).unwrap_err(),
        "stax-workload generates CPU and scheduler activity for stax"
    );
    assert_eq!(parse_number("", 9), Err(NumberError::Empty));
    assert_eq!(parse_number("+7", 9), Ok(7));
    assert_eq!(parse_number("-", 9), Err(NumberError::InvalidDigit));
    assert_eq!(parse_number("10", 9), Err(NumberError::TooLarge));
    assert_eq!(NumberError::TooLarge.message(), "number too large to fit in target type");
    assert_eq!(stack_burn(5, 0), mix(5));
    let mut b = Burner::new(1);
    let mut config = Config::with_parallelism(Some(1));
    config.yield_every = 1;
    config.sleep_us = 0;
    assert!(matches!(b.round(&config), Pause::Yield));
    config.sleep_us = 3;
    assert!(matches!(b.round(&config), Pause::Sleep { us: 3 }));
    config.yield_every = 0;
    assert!(matches!(b.round(&config), Pause::Nothing));
    assert_eq!(b.iterations, 3);
}

#[test]
fn recordings_have_arguments() {
    let a = record_args(&words(&["--pid", "7", "--duration", "9", "--socket", "/s"])).unwrap();
    assert_eq!((a.pid, a.duration_secs, a.socket.as_str()), (7, 9, "/s"));
    let d = record_args(&words(&["--pid", "7", "--pid", "8"])).unwrap();
    assert_eq!((d.pid, d.duration_secs, d.socket.as_str()), (8, 5, "/tmp/staxd.sock"));
    assert_eq!(record_args(&vec![]).err().unwrap(), "--pid is required");
    assert_eq!(record_args(&words(&["--pid"])).err().unwrap(), "--pid takes a value");
    assert_eq!(record_args(&words(&["x"])).err().unwrap(), "unknown arg: x");
    assert_eq!(
        record_args(&words(&["--pid", "99999999999"])).err().unwrap(),
        "number too large to fit in target type"
    );
    let mut c = Counts::new();
    assert!(!c.on_sample(false));
    assert!(c.on_sample(true) && c.on_sample(true) && c.on_sample(true) && !c.on_sample(true));
    assert_eq!(c.samples, 5);
    assert!(c.on_binary_loaded() && c.on_thread_name());
    c.on_wakeup();
    assert_eq!((c.binaries_loaded, c.thread_names, c.wakeups), (1, 1, 1));
}

#[test]
fn counters_are_configured() {
    let mut s = PmuSearch::new(2);
    assert!(matches!(s.step(), PmuStep::Find("L1D_CACHE_MISS_LD")));
    s.on_find(false);
    assert!(matches!(s.step(), PmuStep::Find("L1D_CACHE_MISS_LD_NONSPEC")));
    for _ in 0..3 {
        s.on_find(false);
    }
    assert!(matches!(s.step(), PmuStep::Find("BRANCH_MISPRED_NONSPEC")));
    s.on_find(true);
    assert!(matches!(s.step(), PmuStep::Add(PmuSlot::BranchMispredict)));
    s.on_add(true);
    assert!(matches!(s.step(), PmuStep::Done));
    let answers = |classes| PmuAnswers { forced: true, count: Some(1), configs: Some(vec![9; 32]), classes };
    let p = configure(&s, answers(Some(4))).unwrap();
    assert_eq!((p.configs.as_slice(), p.class_mask, p.fixed_count), (&[9u64][..], 5, 2));
    assert_eq!(p.slot_indices, [None, Some(2)]);
    assert_eq!(configure(&s, answers(None)).unwrap().class_mask, 3);
    let mut unforced = answers(None);
    unforced.forced = false;
    assert!(configure(&s, unforced).is_none());
    assert!(configure(&PmuSearch::new(2), answers(None)).is_none());
    let mut both = PmuSearch::new(2);
    both.on_find(true);
    both.on_add(true);
    both.on_find(true);
    both.on_add(true);
    assert_eq!(configure(&both, answers(None)).unwrap().slot_indices, [Some(2), Some(3)]);
    assert_eq!(bytes_to_path(b"/lib/kperf\0"), "/lib/kperf");
}
