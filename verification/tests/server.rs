use stax::binaries::LiveSymbolOwned;
use stax::observe::{
    channel_detail, duration_unit, empty_as_dash, format_channel_debug_block,
    format_channel_debug_inline, format_channel_ids, format_debug_snapshot, ChannelDebugContext,
    ChannelEvent, ConnectionSnapshot, DriverEvent, DurationUnit, LogLevel, RequestSnapshot, RpcEvent,
    SourceLocation, VoxDebugRegistry, VoxDebugSnapshot, VoxObserverLogger,
};
use stax::runs::{RunRegistry, RunState, StopReason};
use stax::server::{
    check_launch, condition_deadline, drain_ended, ingest_event_kind, pid_is_alive, reap_step,
    resolve_shade_path, resolve_socket_path, route, saturating_i64, shade_args, wait_active,
    ChildLook, DrainEnd, IngestDrainCounts, IngestEvent, ReapStep, ServerState, Service,
    ShadeOptions, ShadeTarget, WaitCondition, WaitOutcome, WireBinaryLoaded, WireSample,
};
use stax::shade::{shade_info, TerminalSize};

fn sample(tid: u32) -> IngestEvent {
    IngestEvent::Sample(WireSample {
        tid,
        timestamp_ns: 5,
        user_backtrace: vec![1, 2],
        kernel_backtrace: vec![],
        cycles: 0,
        instructions: 0,
        l1d_misses: 0,
        branch_mispreds: 0,
    })
}

#[test]
fn one_run_is_active_at_a_time() {
    let mut r = RunRegistry::new();
    let first = r.begin_run("a".into(), 10).unwrap();
    assert!(r.begin_run("b".into(), 11).unwrap_err().starts_with("another run is already active"));
    assert!(r.ensure_active_run(first.id).is_ok());
    assert_eq!(
        r.ensure_active_run(first.id + 9).unwrap_err(),
        format!("run id mismatch: ingest for {}, active run is {}", first.id + 9, first.id)
    );
    let plan = r.stop_active(20).unwrap();
    assert_eq!((plan.summary.id, plan.summary.stopped_at_unix_ns), (first.id, Some(20)));
    assert!(matches!(plan.summary.stop_reason, Some(StopReason::UserStop)));
    assert_eq!(r.active().unwrap().state, RunState::Stopped);
    let second = r.begin_run("b".into(), 30).unwrap();
    assert!(second.id > first.id);
    let runs = r.list_runs();
    assert_eq!(runs.len(), 2);
    assert!(runs.iter().any(|s| s.id == first.id && s.state == RunState::Stopped));
}

#[test]
fn shades_belong_to_runs() {
    let mut r = RunRegistry::new();
    assert_eq!(r.try_register_shade(shade_info(1, 2, 3)).reason.unwrap(), "no active run");
    let id = r.begin_run("a".into(), 0).unwrap().id;
    assert!(!r.try_register_shade(shade_info(id + 1, 2, 3)).accepted);
    assert!(r.try_register_shade(shade_info(id, 2, 3)).accepted);
    assert_eq!(
        r.try_register_shade(shade_info(id, 2, 4)).reason.unwrap(),
        "a shade is already registered for this run"
    );
    assert_eq!(r.registered_shade(), Some(3));
    assert!(!r.shade_session_closed(9) && r.shade_session_closed(3));
    r.shade_spawned(44);
    assert_eq!(r.shade_child_exited(id, 44, false, "code 1", 5), Some(None));
    let runs = r.list_runs();
    assert!(matches!(
        runs[0].stop_reason.as_ref(),
        Some(StopReason::RecorderError { message }) if message == "stax-shade exited: code 1"
    ));
    r.add_terminal(id);
    assert!(r.take_terminal(id).is_ok());
    assert_eq!(r.take_terminal(id).unwrap_err(), format!("no pending terminal for run {id}"));
}

#[test]
fn runs_end_for_a_reason() {
    let mut r = RunRegistry::new();
    let id = r.begin_run("a".into(), 0).unwrap().id;
    r.attach_ingest();
    assert!(r.cancel_for_run(id).is_ok());
    r.shade_spawned(8);
    assert_eq!(r.finalize_run(id + 1, StopReason::TargetExited, 3), None);
    assert!(r.active().is_some());
    assert_eq!(r.finalize_run(id, StopReason::TargetExited, 3), Some(8));
    assert!(r.active().is_none());
    let id = r.begin_run("b".into(), 0).unwrap().id;
    r.discard_start_failed(id, "no".into(), 4);
    assert!(r.active().is_none());
    let id = r.begin_run("c".into(), 0).unwrap().id;
    r.detach_ingest(id);
    assert_eq!(drain_ended(&mut r, id, DrainEnd::ChannelClosed, 9), None);
    assert!(r.active().is_some());
    drain_ended(&mut r, id, DrainEnd::Cancelled, 9);
    assert!(r.active().is_none());
    assert_eq!(r.ensure_active_run(id).unwrap_err(), "no active run");
}

#[test]
fn events_are_applied_to_the_active_run() {
    let mut s = ServerState::new();
    s.reset();
    let id = s.runs.begin_run("a".into(), 0).unwrap().id;
    assert!(s.apply_target_attached(id, 7, 9).is_ok());
    assert!(s.apply_target_attached(id + 1, 7, 9).is_err());
    s.apply_event(id, sample(3));
    s.apply_event(id, IngestEvent::ThreadName { tid: 3, name: "main".into() });
    assert_eq!(s.aggregator.thread_list().len(), 1);
    assert_eq!(s.aggregator.thread_list()[0].pet_samples.len(), 1);
    assert_eq!(s.aggregator.thread_list()[0].name.as_deref(), Some("main"));
    assert_eq!(s.runs.active().unwrap().pet_samples, 1);
    let loaded = WireBinaryLoaded {
        path: "/bin/a".into(),
        base_avma: 0x1000,
        vmsize: 0x100,
        text_svma: 0,
        arch: None,
        is_executable: true,
        symbols: vec![LiveSymbolOwned {
            start_svma: 0,
            end_svma: 0x10,
            name: b"main".to_vec(),
            function_name: "main".into(),
            language: "c".into(),
        }],
        text_bytes: None,
    };
    assert!(s.apply_binary_loaded(id, loaded).is_ok());
    assert_eq!(s.binaries.lookup_symbol(0x1004).unwrap().function_name, "main");
    assert!(s.apply_binary_unloaded(id, 0x1000).is_ok());
    let revision = s.revision;
    assert!(s.begin_run("b".into(), 5).is_err());
    assert_eq!((s.aggregator.thread_list().len(), s.revision), (1, revision));
    assert!(s.binaries.lookup_symbol(0x1004).is_some());
    assert_eq!(s.runs.active().unwrap().id, id);
    s.runs.finalize_run(id, StopReason::TargetExited, 6);
    assert!(s.runs.has_numbers_left());
    let next = s.begin_run("c".into(), 7).unwrap();
    assert!(next.id > id);
    assert_eq!((s.aggregator.thread_list().len(), s.revision), (0, revision + 1));
    assert!(s.binaries.lookup_symbol(0x1004).is_none());
    let run = s.runs.active().unwrap();
    assert_eq!((run.id, run.target_pid, run.pet_samples, run.off_cpu_intervals), (next.id, None, 0, 0));
    assert_eq!(s.runs.list_runs().iter().filter(|r| r.id == id).count(), 1);
}

#[test]
fn drained_events_are_counted() {
    let mut c = IngestDrainCounts::new();
    c.record(&sample(1));
    c.record(&sample(1));
    c.record(&IngestEvent::OnCpuInterval { tid: 1, start_ns: 0, end_ns: 1 });
    assert_eq!(ingest_event_kind(&sample(1)), "sample");
    assert_eq!(ingest_event_kind(&IngestEvent::BinaryUnloaded { base_avma: 1 }), "binary_unloaded");
    assert_eq!(
        c.summary(),
        "samples=2 probes=0 on_cpu=1 off_cpu=0 bin_load=0 bin_unload=0 target=0 threads=0 wakeups=0"
    );
    assert_eq!(saturating_i64(u64::MAX), i64::MAX);
    assert_eq!(saturating_i64(5), 5);
}

#[test]
fn waiting_has_an_end() {
    let mut r = RunRegistry::new();
    let until = WaitCondition::UntilStopped;
    assert_eq!(wait_active(None, &until, 0, 0, None, false), WaitOutcome::NoActiveRun);
    r.begin_run("a".into(), 0).unwrap();
    let deadline = condition_deadline(&WaitCondition::ForSeconds { seconds: 2 }, 5);
    assert_eq!(deadline, 2_000_000_005);
    let for_two = WaitCondition::ForSeconds { seconds: 2 };
    assert_eq!(wait_active(r.active(), &for_two, 6, deadline, None, false), WaitOutcome::Wait);
    assert_eq!(
        wait_active(r.active(), &for_two, deadline, deadline, None, false),
        WaitOutcome::ConditionMet
    );
    let one = WaitCondition::ForSamples { count: 1 };
    assert_eq!(wait_active(r.active(), &one, 6, u64::MAX, Some(6), false), WaitOutcome::TimedOut);
    r.count(true, false, None);
    assert_eq!(wait_active(r.active(), &one, 6, u64::MAX, None, false), WaitOutcome::ConditionMet);
    let seen = WaitCondition::UntilSymbolSeen { needle: "f".into() };
    assert_eq!(wait_active(r.active(), &seen, 6, u64::MAX, None, true), WaitOutcome::ConditionMet);
}

#[test]
fn a_shade_gets_its_arguments() {
    let o = ShadeOptions {
        run_id: 3,
        frequency_hz: 900,
        correlate_frequency_hz: 0,
        race_kperf: false,
        correlate_kperf: true,
        daemon_socket: "/d".into(),
        time_limit_secs: Some(9),
    };
    let args = shade_args(&ShadeTarget::Attach(7), &o, "/s");
    assert_eq!(&args[..2], ["--attach", "7"]);
    assert!(args.windows(2).any(|w| w == ["--server-socket", "/s"]));
    assert!(args.windows(2).any(|w| w == ["--time-limit", "9"]));
    let launch = ShadeTarget::Launch {
        command: vec!["ls".into(), "-l".into()],
        cwd: "/".into(),
        terminal_size: Some(TerminalSize { rows: 24, cols: 80 }),
    };
    let args = shade_args(&launch, &o, "/s");
    assert_eq!(&args[args.len() - 3..], ["--", "ls", "-l"]);
    assert!(args.windows(2).any(|w| w == ["--terminal-cols", "80"]));
    assert_eq!(check_launch(&vec![]), Err("launch command is empty"));
    assert!(check_launch(&vec!["ls".into()]).is_ok());
}

#[test]
fn the_server_finds_its_way() {
    assert_eq!(resolve_socket_path(Some("/x"), Some("/run"), 5), "/x");
    assert_eq!(resolve_socket_path(None, Some("/run"), 5), "/run/stax-server.sock");
    assert_eq!(resolve_socket_path(None, None, 5), "/tmp/stax-server-5.sock");
    let paths = resolve_shade_path(None, Some("/home/u"));
    assert_eq!(paths.last().unwrap(), "/usr/local/bin/stax-shade");
    assert!(paths.contains(&"/home/u/.cargo/bin/stax-shade".to_owned()));
    assert!(pid_is_alive(0, 0) && !pid_is_alive(-1, 3) && pid_is_alive(-1, 1));
    assert_eq!(reap_step(ChildLook::Exited, 0), ReapStep::Done);
    assert_eq!(reap_step(ChildLook::Running, 0), ReapStep::Wait);
    assert_eq!(reap_step(ChildLook::Running, 20), ReapStep::Kill);
    assert_eq!(route("Profiler"), Some(Service::Profiler));
    assert_eq!(route("Nothing"), None);
}

#[test]
fn failures_are_logged_loudly() {
    let l = VoxObserverLogger::new("stax", "ui").with_pid(5);
    assert_eq!(l.rpc_event(RpcEvent::Started).level, LogLevel::Trace);
    assert_eq!(l.rpc_event(RpcEvent::Finished { ok: false, elapsed_ns: 0 }).level, LogLevel::Info);
    assert_eq!(l.rpc_event(RpcEvent::Finished { ok: true, elapsed_ns: 0 }).level, LogLevel::Trace);
    assert!(l.channel_event(ChannelEvent::TrySend { sent: true }).is_none());
    assert_eq!(l.channel_event(ChannelEvent::TrySend { sent: false }).unwrap().level, LogLevel::Warn);
    assert_eq!(l.driver_event(DriverEvent::DecodeError).level, LogLevel::Warn);
    assert!(!l.transport_event().message.is_empty());
}

#[test]
fn callers_are_registered_for_a_while() {
    let mut r: VoxDebugRegistry<&str> = VoxDebugRegistry::new();
    let a = r.register_caller("c", "s", "r", "first");
    let b = r.register_caller("c", "s", "r", "second");
    assert_ne!(a, b);
    r.unregister(b);
    assert_eq!(r.registered().len(), 1);
    assert_eq!(r.registered()[0].caller, "first");
}

fn debug() -> Option<ChannelDebugContext> {
    Some(ChannelDebugContext {
        item_type: Some("T".into()),
        label: None,
        service: Some("S".into()),
        method: None,
        source_location: Some(SourceLocation { file: "f.rs".into(), line: 3, column: 4 }),
    })
}

#[test]
fn snapshots_are_written_out() {
    assert_eq!(format_channel_debug_block(&None), "- debug: none");
    assert_eq!(
        format_channel_debug_block(&debug()),
        "- debug:\n  - type: T\n  - label: -\n  - service: S\n  - method: -\n  - source: f.rs:3:4"
    );
    assert_eq!(
        format_channel_debug_inline(&debug()),
        "type=T label=- service=S method=- source=f.rs:3:4"
    );
    assert!(channel_detail("ui", "1", "2", &None).contains("debug=none"));
    assert_eq!(format_channel_ids(&vec![]), "[]");
    assert_eq!(format_channel_ids(&vec!["1".into(), "2".into()]), "[1, 2]");
    assert_eq!((empty_as_dash(""), empty_as_dash("x")), ("-", "x"));
    assert_eq!(duration_unit(999), DurationUnit::Nanos);
    assert_eq!(duration_unit(1_000_000_000), DurationUnit::Seconds);
    let connection = ConnectionSnapshot {
        connection_id: "C1".into(),
        state: "Open".into(),
        driver_task_status: "Running".into(),
        endpoint: Some("\"unix\"".into()),
        surface: None,
        component: None,
        close_reason: None,
        outbound_queue_depth: Some(1),
        outbound_queue_capacity: Some(2),
        local_control_queue_depth: None,
        local_control_queue_capacity: None,
        last_inbound_message: None,
        last_outbound_message: None,
        last_progress: None,
        outstanding_requests: 1,
        requests: vec![RequestSnapshot {
            request_id: "R".into(),
            state: "Busy".into(),
            age: "1ms".into(),
            service: None,
            method: Some("m".into()),
            method_id: "7".into(),
            response_sender_blocked: Some(false),
            associated_channels: vec![],
        }],
        open_channels: vec![],
    };
    let text = format_debug_snapshot(&VoxDebugSnapshot { connections: vec![connection] });
    assert!(text.starts_with("# Vox Debug Snapshot\n\n- connections: 1\n\n## Connection C1\n\n- state: Open\n- driver: Running\n- endpoint: \"unix\"\n- surface: -\n"));
    assert!(text.contains("- queues: outbound=1/2 \u{b7} local_control=-/-\n"));
    assert!(text.contains("\n#### R\n\n- state: Busy\n- age: 1ms\n- method: ?::m\n- method_id: 7\n- response_sender_blocked: false\n- associated_channels: []\n"));
    assert_eq!(
        format_debug_snapshot(&VoxDebugSnapshot { connections: vec![] }),
        "# Vox Debug Snapshot\n\n- connections: 0\n"
    );
}
