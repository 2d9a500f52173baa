use std::sync::Arc;

use stax::client::{
    attempt_of, daemon_url, drain_one_for_abort, drop_summary, drop_taken, join_step, scan_batch, session_config,
    session_outcome, unreachable_url, JoinPhase, JoinStep, KperfProbeTriggerScanner,
    KperfProbeTriggerTiming, LoopStep, NothingReceived, ParserDropSummary, ParserQueue, ParserQueueCounters,
    ProbeScannerQueue, ProbeScannerQueueCounters, QueuedBatch, ReceiveStep, Received, RemoteOptions,
    RpcEnd, SessionError, SessionLoop, Unsent, WorkerInput, WorkerLoop, WorkerStep,
};
use stax::demand::{
    correlated_probe_timing, sampling_interval_ns, wait_step, LatestProbeRequests, ProbeRequest,
    RaceProbeTrigger, TakenRequests, ThreadDemandTracker, WaitStep,
};
use stax::helper::{
    capture_of_reply, check_reply, helper_request, inferior_helper_socket_path, live_window_len,
    may_capture, next_seq, parse_request, probe_result, query_helper_tid, write_hello_response,
    write_response, Capture, HelperAction, HelperError, StackSnapshot, StackWindow, ThreadPortCache,
};
use stax::kdebug::{kdbg_eventid, KdBuf};
use stax::unwind::PointerBits;

fn timing(ts: u64) -> KperfProbeTriggerTiming {
    KperfProbeTriggerTiming {
        kperf_ts: ts,
        staxd_read_started: 0,
        staxd_drained: 0,
        staxd_queued_for_send: 0,
        staxd_send_started: 0,
        client_received: 0,
    }
}

fn record(subclass: u8, code: u16, func: u32) -> KdBuf {
    KdBuf {
        timestamp: 50,
        arg1: 0,
        arg2: 1,
        arg3: 0,
        arg4: 0,
        arg5: 7,
        debugid: kdbg_eventid(37, subclass, code) | func,
        cpuid: 0,
    }
}

fn batch(records: Vec<KdBuf>) -> QueuedBatch {
    QueuedBatch { enqueued_at: 0, records: Arc::new(records), timing: timing(1) }
}

#[test]
fn options_make_a_session() {
    let mut o = RemoteOptions::default();
    assert_eq!(o.daemon_socket, "/tmp/staxd.sock");
    o.pid = 8;
    let c = session_config(&o);
    assert_eq!((c.target_pid, c.samplers, c.class_mask), (8, 0x1d, 1));
    assert_eq!(c.filter_range_value1, 0x0140_0000);
    assert_eq!(c.filter_range_value2, 0x25ff_fffc);
    assert_eq!(daemon_url("/tmp/s"), "local:///tmp/s");
    assert_eq!(daemon_url("local:///tmp/s"), "local:///tmp/s");
    assert!(unreachable_url("/tmp/s", false).contains("is staxd running?"));
    assert_eq!(unreachable_url("/tmp/s", true), "local:///tmp/s");
}

#[test]
fn a_sample_triggers_one_probe() {
    let mut scanner = KperfProbeTriggerScanner { pending: None };
    let b = batch(vec![record(0, 0, 1), record(2, 6, 0), record(2, 6, 0), record(0, 0, 2), record(2, 6, 0)]);
    let found = scan_batch(&mut scanner, &b);
    assert_eq!(found.len(), 1);
    assert_eq!((found[0].tid, found[0].timing.kperf_ts), (7, 50));
    let d = drop_summary(&b);
    assert_eq!((d.chunks, d.records), (1, 5));
}

#[test]
fn attempts_to_queue_go_three_ways() {
    let queued = attempt_of::<u8>(Ok(()), None, 4);
    assert_eq!((queued.retry, queued.dropped, queued.depth), (None, None, Some(4)));
    let made_room = attempt_of(Err(Unsent::Full(7u8)), Some(Ok(1)), 9);
    assert_eq!((made_room.retry, made_room.dropped, made_room.depth), (Some(7), Some(1), None));
    let emptied = attempt_of(Err(Unsent::Full(7u8)), Some(Err(NothingReceived::Empty)), 9);
    assert_eq!((emptied.retry, emptied.dropped, emptied.depth), (Some(7), None, None));
    let ended = attempt_of(Err(Unsent::Full(7u8)), Some(Err(NothingReceived::Disconnected)), 9);
    assert_eq!((ended.retry, ended.dropped, ended.depth), (None, None, None));
    let alone = attempt_of(Err(Unsent::Disconnected(7u8)), None, 9);
    assert_eq!((alone.retry, alone.dropped, alone.depth), (None, None, None));
}

#[test]
fn a_full_queue_drops_the_oldest() {
    let q = ParserQueue::new(1);
    let mut counters = ParserQueueCounters::new();
    assert!(q.enqueue_chunk_drop_oldest(&mut counters, batch(vec![record(0, 0, 1)])).is_none());
    let mut next = q.enqueue_chunk_drop_oldest(&mut counters, batch(vec![record(0, 0, 2), record(0, 0, 2)]));
    assert!(next.is_some());
    while let Some(b) = next {
        next = q.enqueue_chunk_drop_oldest(&mut counters, b);
    }
    assert_eq!((counters.dropped_chunks, counters.dropped_records), (1, 1));
    assert!(counters.lost_data());
    let rx = q.receiver();
    assert_eq!(rx.len(), 1);
    let mut summary = ParserDropSummary::new();
    assert!(drain_one_for_abort(&rx, &mut summary));
    assert!(!drain_one_for_abort(&rx, &mut summary));
    assert_eq!((summary.chunks, summary.records), (1, 2));
    assert!(drop_taken(Ok(batch(vec![record(0, 0, 1), record(0, 0, 2), record(0, 0, 3)])), &mut summary));
    assert_eq!((summary.chunks, summary.records, summary.kperf_samples), (2, 5, 0));
    assert!(!drop_taken(Err(NothingReceived::Empty), &mut summary));
    assert!(!drop_taken(Err(NothingReceived::Disconnected), &mut summary));
    assert_eq!((summary.chunks, summary.records, summary.kperf_samples), (2, 5, 0));
    let s = ProbeScannerQueue::new(2);
    let mut sc = ProbeScannerQueueCounters::new();
    assert!(s.enqueue_batch(&mut sc, batch(Vec::new())).is_none());
    assert!(s.enqueue_batch(&mut sc, batch(Vec::new())).is_none());
    assert!(s.enqueue_batch(&mut sc, batch(Vec::new())).is_some());
    assert_eq!((sc.max_depth, sc.dropped_batches), (2, 1));
    assert!(s.receiver().try_recv().is_ok());
    let lone = ParserQueue::new(2);
    drop(lone.receiver());
    let sent = batch(vec![record(0, 0, 7)]);
    assert!(lone.enqueue_chunk_drop_oldest(&mut counters, sent).is_none());
    let first = lone.receiver().try_recv().unwrap();
    assert_eq!(first.records.len(), 1);
}

#[test]
fn sessions_begin_and_end() {
    let mut l = SessionLoop::new();
    assert_eq!(l.before_receive(true, 0, None), LoopStep::StopRequested);
    assert_eq!(l.before_receive(false, 5, Some(5)), LoopStep::DurationElapsed);
    assert_eq!(l.before_receive(false, 5, Some(6)), LoopStep::Receive);
    assert_eq!(
        l.on_received(Received::Batch { records: 0 }),
        ReceiveStep::Handle { first: true, first_nonempty: false }
    );
    assert_eq!(
        l.on_received(Received::Batch { records: 3 }),
        ReceiveStep::Handle { first: false, first_nonempty: true }
    );
    assert_eq!(l.on_received(Received::TimedOut), ReceiveStep::Again);
    assert_eq!(l.on_received(Received::Broken), ReceiveStep::End);
    assert_eq!(l.total_drained, 3);
    assert_eq!(session_outcome(RpcEnd::Clean, true), Ok(()));
    assert_eq!(session_outcome(RpcEnd::Refused, true), Err(SessionError::Rpc));
    assert_eq!(session_outcome(RpcEnd::CallFailed, true), Err(SessionError::VoxCall));
    assert!(matches!(
        session_outcome(RpcEnd::Clean, false),
        Err(SessionError::WorkerShutdownTimedOut { budget_ns: 2_000_000_000 })
    ));
    assert_eq!(join_step(JoinPhase::Draining, false, 2_000_000_000), JoinStep::Abort);
    assert_eq!(join_step(JoinPhase::Aborting, false, 1), JoinStep::Wait);
    assert_eq!(join_step(JoinPhase::Aborting, false, 250_000_000), JoinStep::Detach);
    assert_eq!(join_step(JoinPhase::Draining, true, 0), JoinStep::Joined);
    let mut w = WorkerLoop::new();
    assert_eq!(w.on_input(WorkerInput::Batch { records: 4 }, false), WorkerStep::Process);
    assert_eq!(w.on_input(WorkerInput::Batch { records: 4 }, true), WorkerStep::Abort);
    assert_eq!(w.on_input(WorkerInput::TimedOut, false), WorkerStep::Tick);
    assert_eq!(w.on_input(WorkerInput::Closed, false), WorkerStep::Leave);
    assert_eq!((w.processed_batches, w.processed_records), (1, 4));
    assert!(w.finishes(false, false) && !w.finishes(true, false));
}

#[test]
fn the_neediest_thread_is_probed() {
    let mut t = ThreadDemandTracker::new(0);
    for _ in 0..3 {
        assert!(t.observe(5, 10));
    }
    assert!(t.observe(6, 10));
    assert_eq!(t.pick(20).unwrap().tid, 5);
    assert_eq!(t.pick(21).unwrap().tid, 5);
    assert!(t.observe(6, 22) && t.observe(6, 22));
    let tied = t.pick(23).unwrap();
    assert_eq!((tied.tid, tied.demand, tied.deficit), (6, 3, 3));
    t.suppress(5);
    assert!(!t.observe(5, 30));
    assert_eq!(t.pick(40).unwrap().tid, 6);
    assert!(ThreadDemandTracker::new(0).pick(1).is_none());
}

#[test]
fn requests_wait_for_a_worker() {
    let mut q = LatestProbeRequests::new();
    let request = |tid, ts| ProbeRequest { tid, timing: correlated_probe_timing(ts), coalesced_requests: 0 };
    assert!(!q.push(request(1, 10)));
    assert!(q.push(request(1, 20)));
    assert!(!q.push(request(2, 30)));
    match q.take_all() {
        TakenRequests::Batch(b) => {
            assert_eq!(b.len(), 2);
            assert_eq!(b[0].coalesced_requests, 1);
            assert_eq!(b[0].timing.kperf_ts, 20);
        }
        _ => panic!("no requests"),
    }
    assert!(matches!(q.take_all(), TakenRequests::Wait));
    q.close();
    assert!(q.is_closed() && matches!(q.take_all(), TakenRequests::Closed));
    let mut trigger =
        RaceProbeTrigger { requests: LatestProbeRequests::new(), thread_demands: ThreadDemandTracker::new(0) };
    assert!(!trigger.enqueue(9, timing(1), 5));
    let (choice, _) = trigger.tick(6, 77).unwrap();
    assert_eq!(choice.tid, 9);
}

#[test]
fn the_last_request_for_each_thread_is_taken() {
    let mut q = LatestProbeRequests::new();
    let request = |tid, ts| ProbeRequest { tid, timing: correlated_probe_timing(ts), coalesced_requests: 0 };
    let told: Vec<bool> =
        [(1, 10), (2, 20), (1, 30), (3, 40), (1, 50), (3, 60)].map(|(tid, ts)| q.push(request(tid, ts))).to_vec();
    assert_eq!(told, [false, false, true, false, true, true]);
    q.close();
    assert!(!q.push(request(1, 70)) && !q.push(request(9, 80)));
    let mut taken: Vec<(u32, u64, u64)> = match q.take_all() {
        TakenRequests::Batch(b) => {
            b.iter().map(|r| (r.tid, r.timing.kperf_ts, r.coalesced_requests)).collect()
        }
        _ => panic!("no requests"),
    };
    taken.sort();
    assert_eq!(taken, [(1, 50, 2), (2, 20, 0), (3, 60, 1)]);
    assert!(matches!(q.take_all(), TakenRequests::Closed));
}

#[test]
fn timers_sleep_yield_and_spin() {
    assert_eq!(sampling_interval_ns(1000), 1_000_000);
    assert_eq!(wait_step(5, 5), WaitStep::Done);
    assert_eq!(wait_step(0, 10_000_000), WaitStep::Sleep { ns: 9_000_000 });
    assert!(matches!(wait_step(0, 1_000), WaitStep::Spin | WaitStep::Yield));
}

fn capture(bytes: Vec<u8>) -> Capture {
    Capture {
        thread_lookup_done: 1,
        state_done: 2,
        resume_done: 3,
        pc: 4,
        lr: 5,
        fp: 6,
        sp: 7,
        stack: StackSnapshot { base: 0x1000, bytes },
    }
}

#[test]
fn helpers_understand_requests() {
    let r = helper_request(1, 9, 44);
    assert!(matches!(parse_request(&r), (9, HelperAction::Capture { tid: 44 })));
    assert!(matches!(parse_request(&helper_request(2, 10, 0)), (10, HelperAction::Hello)));
    assert!(matches!(parse_request(&helper_request(7, 11, 0)), (11, HelperAction::Refuse)));
    assert_eq!((next_seq(4), next_seq(u64::MAX)), (5, 1));
    assert_eq!(inferior_helper_socket_path(6), "/tmp/stax-inferior-helper-6.sock");
    assert!(may_capture(1, 2) && !may_capture(2, 2));
}

#[test]
fn captures_come_through_the_socket() {
    let reply = write_response(9, &Some(capture(vec![1, 2, 3])));
    let (header, payload) = reply.split_at(88);
    let ok = check_reply(header, 9).unwrap();
    assert_eq!((ok.status, ok.payload_len), (0, 3));
    let got =
        capture_of_reply(header, ok.status, payload.to_vec(), 44, correlated_probe_timing(5), PointerBits::unsigned()).unwrap();
    assert_eq!((got.tid, got.pc, got.sp, got.stack.base), (44, 4, 7, 7));
    assert_eq!(got.stack.bytes, [1, 2, 3]);
    assert!(matches!(check_reply(header, 8), Err(HelperError::WrongSeq { got: 9, expected: 8 })));
    assert!(matches!(check_reply(&[0; 88], 0), Err(HelperError::BadMagic { magic: 0 })));
    let refused = write_response(9, &None);
    let r = check_reply(&refused[..88], 9).unwrap();
    assert_eq!(r.status, 1);
    assert!(capture_of_reply(&refused[..88], r.status, Vec::new(), 44, correlated_probe_timing(5), PointerBits::unsigned()).is_none());
    let hello = write_hello_response(1, 321);
    assert_eq!(query_helper_tid(&hello, 0).unwrap(), 321);
    assert_eq!(
        query_helper_tid(&hello, 1).unwrap_err().message(),
        "inferior helper hello status 1"
    );
}

#[test]
fn stacks_are_copied_as_far_as_they_go() {
    assert_eq!(live_window_len(0x100, Some((0x80, 0x100)), true), 0x80);
    assert_eq!(live_window_len(0x100, Some((0x80, 0x100)), false), 0);
    assert_eq!(live_window_len(0x100, None, true), 0);
    let mut w = StackWindow::new(0x1000, PointerBits::unsigned());
    assert_eq!(w.next_read(), Some((0x1000, 16_384)));
    w.on_read(true, 16_384);
    assert_eq!(w.next_read(), Some((0x5000, 16_384)));
    w.on_read(false, 0);
    assert_eq!(w.next_read(), None);
    assert_eq!(w.copied, 16_384);
}

#[test]
fn thread_ports_are_kept_and_given_back() {
    let mut c = ThreadPortCache::new();
    let list = vec![(10, Some(1)), (20, Some(2)), (30, Some(1)), (40, None)];
    assert_eq!(c.refresh(&list), [30, 40]);
    assert_eq!((c.get(1), c.get(2), c.get(3)), (Some(10), Some(20), None));
    assert_eq!(c.forget(1), Some(10));
    assert_eq!(c.drain(), [20]);
    assert!(c.drain().is_empty());
    assert!(probe_result(0, 0, 0).is_ok());
    assert_eq!(probe_result(3, 0, 0).unwrap_err().kr, 3);
    assert_eq!(probe_result(0, 5, 0).unwrap_err().kr, 5);
}
