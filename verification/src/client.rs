//! A recording session, as the client of the privileged daemon sees it.
//!
//! The daemon streams batches of trace records. The receiving loop hands each batch
//! to two queues, one for the scanner that notices samples and one for the parser,
//! and never waits for either: a full queue loses its oldest batch. What was lost is
//! counted.
use std::sync::Arc;
use vstd::prelude::*;

use crate::kdebug::{
    class_of, code_of, eventid_of, func_of, kdbg_class, kdbg_code, kdbg_eventid, kdbg_func,
    kdbg_subclass, subclass_of, KdBuf, CS_UHDR, DBG_FUNC_END, DBG_FUNC_START, DBG_MACH,
    DBG_MACH_SCHED, DBG_PERF, KDBG_TIMESTAMP_MASK, PERF_CALLSTACK, PERF_GENERIC,
};
use crate::parser::sat_add32;
use crate::probe_timing::sat_add;
use crate::sums::{as_fits, sum_of};

verus! {

/// Sampler bits: information on the thread.
pub const SAMPLER_TH_INFO: u32 = 0x1;

/// Sampler bits: the stack of the kernel side.
pub const SAMPLER_KSTACK: u32 = 0x4;

/// Sampler bits: the stack of the user side.
pub const SAMPLER_USTACK: u32 = 0x8;

/// Sampler bits: the hardware counters of the thread.
pub const SAMPLER_PMC_THREAD: u32 = 0x10;

/// The class of fixed hardware counters.
pub const KPC_CLASS_FIXED_MASK: u32 = 0x1;

/// How many batches may wait for the parser.
pub const WORKER_QUEUE_CAPACITY: usize = 16;

/// How many batches may wait for the scanner.
pub const PROBE_SCANNER_QUEUE_CAPACITY: usize = 64;

/// How long the parser has to work off its queue at the end, in nanoseconds.
pub const WORKER_SHUTDOWN_BUDGET: u64 = 2_000_000_000;

/// How long it has after it was told to drop its queue.
pub const WORKER_ABORT_GRACE: u64 = 250_000_000;

/// What a session is to record.
#[derive(Debug)]
pub struct RemoteOptions {
    /// The socket of the daemon, a path or a `local://` address.
    pub daemon_socket: String,
    pub pid: u32,
    pub frequency_hz: u32,
    /// How long to record, in nanoseconds; without it, until told to stop.
    pub duration: Option<u64>,
    /// The size of the kernel's ring of trace records.
    pub buf_records: u32,
    /// The task port of the target, where there is one.
    pub task: Option<u32>,
}

impl Default for RemoteOptions {
    fn default() -> (o: Self)
        ensures
            o.daemon_socket@ == "/tmp/staxd.sock"@,
            o.pid == 0,
            o.frequency_hz == 1000,
            o.duration is None,
            o.buf_records == 1_000_000,
            o.task is None,
    {
        RemoteOptions {
            daemon_socket: "/tmp/staxd.sock".to_owned(),
            pid: 0,
            frequency_hz: 1000,
            duration: None,
            buf_records: 1_000_000,
            task: None,
        }
    }
}

/// What the daemon is asked to record.
#[derive(Debug)]
pub struct SessionConfig {
    pub target_pid: u32,
    pub frequency_hz: u32,
    pub buf_records: u32,
    pub samplers: u32,
    pub pmu_event_configs: Vec<u64>,
    pub class_mask: u32,
    pub filter_range_value1: u32,
    pub filter_range_value2: u32,
    pub typefilter_cscs: Vec<u16>,
}

/// What the daemon is asked to record for `opts`: samples with both stacks and the
/// fixed counters, and all records from those of the scheduler to those of the
/// profiler.
pub fn session_config(opts: &RemoteOptions) -> (c: SessionConfig)
    ensures
        c.target_pid == opts.pid,
        c.frequency_hz == opts.frequency_hz,
        c.buf_records == opts.buf_records,
        c.samplers == 0x1du32,
        c.pmu_event_configs@.len() == 0,
        c.class_mask == KPC_CLASS_FIXED_MASK,
        c.filter_range_value1 == eventid_of(DBG_MACH, DBG_MACH_SCHED, 0),
        c.filter_range_value2 == eventid_of(DBG_PERF, 0xff, 0x3fff),
        c.typefilter_cscs@.len() == 0,
{
    assert(0x1u32 | 0x8u32 | 0x4u32 | 0x10u32 == 0x1du32) by (bit_vector);
    SessionConfig {
        target_pid: opts.pid,
        frequency_hz: opts.frequency_hz,
        buf_records: opts.buf_records,
        samplers: SAMPLER_TH_INFO | SAMPLER_USTACK | SAMPLER_KSTACK | SAMPLER_PMC_THREAD,
        pmu_event_configs: Vec::new(),
        class_mask: KPC_CLASS_FIXED_MASK,
        filter_range_value1: kdbg_eventid(DBG_MACH, DBG_MACH_SCHED, 0),
        filter_range_value2: kdbg_eventid(DBG_PERF, 0xff, 0x3fff),
        typefilter_cscs: Vec::new(),
    }
}

/// `s` begins with `p`.
pub open spec fn begins_with(s: Seq<char>, p: Seq<char>) -> bool {
    p.len() <= s.len() && s.take(p.len() as int) == p
}

/// Whether `s` begins with `p`.
pub fn text_begins_with(s: &str, p: &str) -> (r: bool)
    ensures
        r == begins_with(s@, p@),
{
    let n: usize = p.unicode_len();
    if s.unicode_len() < n {
        return false;
    }
    let mut i: usize = 0;
    while i < n
        invariant
            n == p@.len(),
            n <= s@.len(),
            i <= n,
            forall|j: int| 0 <= j < i ==> s@[j] == p@[j],
        decreases n - i,
    {
        if s.get_char(i) != p.get_char(i) {
            assert(s@.take(n as int)[i as int] != p@[i as int]);
            return false;
        }
        i = i + 1;
    }
    assert(s@.take(n as int) =~= p@);
    true
}

/// The address of a daemon's socket: a path is one in the file system.
pub open spec fn url_of(socket: Seq<char>) -> Seq<char> {
    if begins_with(socket, "local://"@) {
        socket
    } else {
        "local://"@ + socket
    }
}

/// The address of a daemon's socket.
pub fn daemon_url(socket: &str) -> (s: String)
    ensures
        s@ == url_of(socket@),
{
    if text_begins_with(socket, "local://") {
        socket.to_owned()
    } else {
        let mut s = "local://".to_owned();
        s.append(socket);
        s
    }
}

/// The advice for a socket that does not exist.
pub const MISSING_DAEMON_HINT: &'static str = " (daemon socket doesn't exist — is staxd running? try `sudo stax setup` to install it as a LaunchDaemon, or `sudo staxd --socket <path>` for a one-off)";

/// What is said to have failed where the daemon cannot be reached: its address, and
/// advice where the socket is a path at which there is nothing.
pub fn unreachable_url(socket: &str, exists: bool) -> (s: String)
    ensures
        s@ == (if !exists && !begins_with(socket@, "local://"@) {
            url_of(socket@) + MISSING_DAEMON_HINT@
        } else {
            url_of(socket@)
        }),
{
    let missing = !exists && !text_begins_with(socket, "local://");
    let mut s = daemon_url(socket);
    if missing {
        s.append(MISSING_DAEMON_HINT);
    }
    s
}

/// How a batch came to this process: dates of the daemon and of the client, in ticks.
#[derive(Clone, Copy, Debug, PartialEq, Eq, Structural)]
pub struct KperfProbeTriggerTiming {
    /// The start of the sample.
    pub kperf_ts: u64,
    /// The daemon began to read the ring.
    pub staxd_read_started: u64,
    /// The daemon had read it.
    pub staxd_drained: u64,
    /// The daemon queued the batch.
    pub staxd_queued_for_send: u64,
    /// The daemon began to send it.
    pub staxd_send_started: u64,
    /// The client had it.
    pub client_received: u64,
}

impl Default for KperfProbeTriggerTiming {
    fn default() -> (t: Self)
        ensures
            t == (KperfProbeTriggerTiming {
                kperf_ts: 0,
                staxd_read_started: 0,
                staxd_drained: 0,
                staxd_queued_for_send: 0,
                staxd_send_started: 0,
                client_received: 0,
            }),
    {
        KperfProbeTriggerTiming {
            kperf_ts: 0,
            staxd_read_started: 0,
            staxd_drained: 0,
            staxd_queued_for_send: 0,
            staxd_send_started: 0,
            client_received: 0,
        }
    }
}

/// A sample that has begun.
#[derive(Clone, Copy, Debug, PartialEq, Eq, Structural)]
pub struct PendingKperfSample {
    pub tid: u32,
    pub timestamp: u64,
    /// Whether it has been reported.
    pub triggered: bool,
}

/// Notices samples with a user stack in raw trace records, before they are parsed.
#[derive(Clone, Copy, Debug, PartialEq, Eq, Structural)]
pub struct KperfProbeTriggerScanner {
    pub pending: Option<PendingKperfSample>,
}

impl Default for KperfProbeTriggerScanner {
    fn default() -> (s: Self)
        ensures
            s.pending is None,
    {
        KperfProbeTriggerScanner { pending: None }
    }
}

/// The record opens a sample.
pub open spec fn opens_sample(rec: KdBuf) -> bool {
    class_of(rec.debugid) == DBG_PERF && subclass_of(rec.debugid) == PERF_GENERIC && code_of(
        rec.debugid,
    ) == 0 && func_of(rec.debugid) == DBG_FUNC_START
}

/// The record closes a sample.
pub open spec fn closes_sample(rec: KdBuf) -> bool {
    class_of(rec.debugid) == DBG_PERF && subclass_of(rec.debugid) == PERF_GENERIC && code_of(
        rec.debugid,
    ) == 0 && func_of(rec.debugid) == DBG_FUNC_END
}

/// The record says that frames of the user side follow.
pub open spec fn heads_user_stack(rec: KdBuf) -> bool {
    class_of(rec.debugid) == DBG_PERF && subclass_of(rec.debugid) == PERF_CALLSTACK && code_of(
        rec.debugid,
    ) == CS_UHDR && sat_add32(rec.arg2 as u32, rec.arg4 as u32) != 0
}

impl KperfProbeTriggerScanner {
    /// The scanner after one more record.
    pub open spec fn fed(self, rec: KdBuf) -> KperfProbeTriggerScanner {
        if opens_sample(rec) {
            KperfProbeTriggerScanner {
                pending: Some(
                    PendingKperfSample {
                        tid: rec.arg5 as u32,
                        timestamp: rec.timestamp & KDBG_TIMESTAMP_MASK,
                        triggered: false,
                    },
                ),
            }
        } else if closes_sample(rec) {
            KperfProbeTriggerScanner { pending: None }
        } else if self.noticed(rec) is Some {
            KperfProbeTriggerScanner {
                pending: Some(PendingKperfSample { triggered: true, ..self.pending->0 }),
            }
        } else {
            self
        }
    }

    /// The sample that the record shows to have a user stack: its thread and its
    /// start.
    pub open spec fn noticed(self, rec: KdBuf) -> Option<(u32, u64)> {
        match self.pending {
            Some(p) => if heads_user_stack(rec) && !p.triggered {
                Some((p.tid, p.timestamp))
            } else {
                None
            },
            None => None,
        }
    }

    /// The scanner after some records.
    pub open spec fn fed_all(self, recs: Seq<KdBuf>) -> KperfProbeTriggerScanner
        decreases recs.len(),
    {
        if recs.len() == 0 {
            self
        } else {
            self.fed_all(recs.drop_last()).fed(recs.last())
        }
    }

    /// What some records show, in order.
    pub open spec fn noticed_all(self, recs: Seq<KdBuf>) -> Seq<(u32, u64)>
        decreases recs.len(),
    {
        if recs.len() == 0 {
            seq![]
        } else {
            let before = self.noticed_all(recs.drop_last());
            match self.fed_all(recs.drop_last()).noticed(recs.last()) {
                Some(n) => before.push(n),
                None => before,
            }
        }
    }

    /// Takes in a record. A sample is reported once, when it turns out to have a
    /// user stack.
    pub fn feed(&mut self, rec: &KdBuf) -> (n: Option<(u32, u64)>)
        ensures
            *final(self) == old(self).fed(*rec),
            n == old(self).noticed(*rec),
    {
        if kdbg_class(rec.debugid) != DBG_PERF {
            return None;
        }
        let subclass: u8 = kdbg_subclass(rec.debugid);
        let code: u16 = kdbg_code(rec.debugid);
        let func: u32 = kdbg_func(rec.debugid);
        if subclass == PERF_GENERIC && code == 0 && func == DBG_FUNC_START {
            self.pending = Some(
                PendingKperfSample {
                    tid: rec.arg5 as u32,
                    timestamp: rec.timestamp & KDBG_TIMESTAMP_MASK,
                    triggered: false,
                },
            );
            return None;
        }
        if subclass == PERF_GENERIC && code == 0 && func == DBG_FUNC_END {
            self.pending = None;
            return None;
        }
        if subclass == PERF_CALLSTACK && code == CS_UHDR {
            match self.pending {
                Some(p) => {
                    let frames: u32 = (rec.arg2 as u32).saturating_add(rec.arg4 as u32);
                    if p.triggered || frames == 0 {
                        return None;
                    }
                    self.pending = Some(
                        PendingKperfSample {
                            tid: p.tid,
                            timestamp: p.timestamp,
                            triggered: true,
                        },
                    );
                    return Some((p.tid, p.timestamp));
                },
                None => {
                    return None;
                },
            }
        }
        None
    }
}

/// A batch of records in a queue: when it was queued, in nanoseconds, and how it came.
pub struct QueuedBatch {
    pub enqueued_at: u64,
    pub records: Arc<Vec<KdBuf>>,
    pub timing: KperfProbeTriggerTiming,
}

/// What the scanner reports.
#[derive(Clone, Copy, Debug, PartialEq, Eq, Structural)]
pub struct ProbeTrigger {
    pub tid: u32,
    pub timing: KperfProbeTriggerTiming,
}

/// The report on a sample that came in a batch.
pub open spec fn trigger_of(timing: KperfProbeTriggerTiming, n: (u32, u64)) -> ProbeTrigger {
    ProbeTrigger { tid: n.0, timing: KperfProbeTriggerTiming { kperf_ts: n.1, ..timing } }
}

/// Scans a batch, and reports the samples that it shows to have a user stack.
pub fn scan_batch(scanner: &mut KperfProbeTriggerScanner, batch: &QueuedBatch) -> (out: Vec<
    ProbeTrigger,
>)
    ensures
        *final(scanner) == old(scanner).fed_all(batch.records@),
        out@ == old(scanner).noticed_all(batch.records@).map_values(
            |n: (u32, u64)| trigger_of(batch.timing, n),
        ),
{
    let ghost start = *scanner;
    let ghost f = |n: (u32, u64)| trigger_of(batch.timing, n);
    let mut out: Vec<ProbeTrigger> = Vec::new();
    let records = &batch.records;
    let mut i: usize = 0;
    assert(records@.take(0) =~= seq![]);
    assert(out@ =~= start.noticed_all(records@.take(0)).map_values(f));
    while i < records.len()
        invariant
            i <= records@.len(),
            start == *old(scanner),
            records@ == batch.records@,
            f == (|n: (u32, u64)| trigger_of(batch.timing, n)),
            *scanner == start.fed_all(records@.take(i as int)),
            out@ == start.noticed_all(records@.take(i as int)).map_values(f),
        decreases records@.len() - i,
    {
        proof {
            assert(records@.take(i + 1).drop_last() =~= records@.take(i as int));
            assert(records@.take(i + 1).last() == records@[i as int]);
        }
        let ghost before = start.noticed_all(records@.take(i as int));
        match scanner.feed(&records[i]) {
            Some(n) => {
                let mut timing = batch.timing;
                timing.kperf_ts = n.1;
                out.push(ProbeTrigger { tid: n.0, timing });
                assert(out@ =~= before.push(n).map_values(f));
            },
            None => {},
        }
        i = i + 1;
    }
    assert(records@.take(i as int) =~= records@);
    out
}

/// The records that open a sample.
pub open spec fn openings(recs: Seq<KdBuf>) -> nat
    decreases recs.len(),
{
    if recs.len() == 0 {
        0
    } else {
        openings(recs.drop_last()) + (if opens_sample(recs.last()) {
            1nat
        } else {
            0nat
        })
    }
}

/// The law of the scanner: from a fresh start, no more samples are reported than
/// began, and a sample that was reported is not reported again.
pub proof fn samples_are_reported_once(recs: Seq<KdBuf>)
    ensures
        ({
            let s = KperfProbeTriggerScanner { pending: None };
            let unreported = s.fed_all(recs).pending is Some && !s.fed_all(
                recs,
            ).pending->0.triggered;
            s.noticed_all(recs).len() + (if unreported {
                1nat
            } else {
                0nat
            }) <= openings(recs)
        }),
    decreases recs.len(),
{
    if recs.len() > 0 {
        samples_are_reported_once(recs.drop_last());
        lemma_kinds_differ(recs.last());
    }
}

/// A record that opens a sample heads no stack.
proof fn lemma_kinds_differ(rec: KdBuf)
    ensures
        !(opens_sample(rec) && heads_user_stack(rec)),
        !(opens_sample(rec) && closes_sample(rec)),
{
}

/// A sender of a channel of the `flume` crate.
#[verifier::external_type_specification]
#[verifier::external_body]
#[verifier::reject_recursive_types(T)]
pub struct ExSender<T>(flume::Sender<T>);

/// A receiver of a channel of the `flume` crate.
#[verifier::external_type_specification]
#[verifier::external_body]
#[verifier::reject_recursive_types(T)]
pub struct ExReceiver<T>(flume::Receiver<T>);

/// A message that could not be sent.
pub enum Unsent<T> {
    /// There was no room.
    Full(T),
    /// There is nobody to receive it.
    Disconnected(T),
}

impl<T> Unsent<T> {
    /// The message.
    pub open spec fn message(self) -> T {
        match self {
            Unsent::Full(m) => m,
            Unsent::Disconnected(m) => m,
        }
    }
}

/// Why nothing was received.
#[derive(Clone, Copy, Debug, PartialEq, Eq, Structural)]
pub enum NothingReceived {
    Empty,
    Disconnected,
}

/// What `flume::Receiver::capacity` gives: how many messages the channel holds, where
/// that is limited. It is fixed when the channel is made.
pub uninterp spec fn receiver_capacity(rx: flume::Receiver<QueuedBatch>) -> Option<usize>;

/// `tx` and `rx` are ends of one channel of the `flume` crate. An end stays one of the channel
/// that it was made with.
pub uninterp spec fn ends_of_one(
    tx: flume::Sender<QueuedBatch>,
    rx: flume::Receiver<QueuedBatch>,
) -> bool;

/// All that the channel of `tx` takes in, from when it is made to when it is gone. What it holds
/// at some time changes with every message; what it has once taken in stays so.
pub uninterp spec fn all_taken_in(tx: flume::Sender<QueuedBatch>) -> Set<QueuedBatch>;

/// Calls `flume::bounded`: both ends of a new channel that holds at most `capacity`
/// messages.
#[verifier::external_body]
fn bounded(capacity: usize) -> (ends: (flume::Sender<QueuedBatch>, flume::Receiver<QueuedBatch>))
    ensures
        receiver_capacity(ends.1) == Some(capacity),
        ends_of_one(ends.0, ends.1),
{
    flume::bounded(capacity)
}

/// Calls `flume::Sender::try_send`: a message that was sent is one that the channel takes in, and
/// one that was not is handed back. Whether it is sent depends on what the other threads have
/// sent and received. A channel is disconnected only when its last sender or its last receiver
/// is dropped: that cannot be while `tx` is held together with `rx`, a receiver of the same
/// channel.
#[verifier::external_body]
fn try_send(
    tx: &flume::Sender<QueuedBatch>,
    rx: &flume::Receiver<QueuedBatch>,
    message: QueuedBatch,
) -> (r: Result<(), Unsent<QueuedBatch>>)
    ensures
        r is Ok ==> all_taken_in(*tx).contains(message),
        r matches Err(u) ==> u.message() == message,
        ends_of_one(*tx, *rx) ==> !(r matches Err(Unsent::Disconnected(_))),
{
    match tx.try_send(message) {
        Ok(()) => Ok(()),
        Err(flume::TrySendError::Full(m)) => Err(Unsent::Full(m)),
        Err(flume::TrySendError::Disconnected(m)) => Err(Unsent::Disconnected(m)),
    }
}

/// Calls `flume::Receiver::try_recv`. What is received depends on what the other threads have
/// sent and received; it is something that the channel took in. With `tx`, a sender of the same
/// channel that is held meanwhile, the channel is not disconnected.
#[verifier::external_body]
fn try_recv(
    rx: &flume::Receiver<QueuedBatch>,
    tx: Option<&flume::Sender<QueuedBatch>>,
) -> (r: Result<QueuedBatch, NothingReceived>)
    ensures
        tx matches Some(t) ==> (ends_of_one(*t, *rx) ==> match r {
            Ok(m) => all_taken_in(*t).contains(m),
            Err(e) => e == NothingReceived::Empty,
        }),
{
    match rx.try_recv() {
        Ok(m) => Ok(m),
        Err(flume::TryRecvError::Empty) => Err(NothingReceived::Empty),
        Err(flume::TryRecvError::Disconnected) => Err(NothingReceived::Disconnected),
    }
}

/// Calls `flume::Receiver::len`: how many messages wait, which changes with every
/// message that another thread sends or receives.
#[verifier::external_body]
fn waiting(rx: &flume::Receiver<QueuedBatch>) -> (n: usize) {
    rx.len()
}

/// Calls `flume::Receiver::clone`: another receiver of the same channel, which holds
/// as many messages.
#[verifier::external_body]
fn clone_receiver(rx: &flume::Receiver<QueuedBatch>) -> (r: flume::Receiver<QueuedBatch>)
    ensures
        receiver_capacity(r) == receiver_capacity(*rx),
        forall|tx: flume::Sender<QueuedBatch>| #[trigger]
            ends_of_one(tx, r) == ends_of_one(tx, *rx),
{
    rx.clone()
}

/// What an attempt to queue a message came to.
pub struct Attempt<T> {
    /// The message, where it is to be tried again.
    pub retry: Option<T>,
    /// The oldest message, where it was dropped to make room.
    pub dropped: Option<T>,
    /// How many messages wait, where it was queued.
    pub depth: Option<usize>,
}

/// The attempt where the queue was full and `oldest` came of taking one out: the
/// message is tried again unless nobody is left to send any.
pub open spec fn after_full_of<T>(message: T, oldest: Result<T, NothingReceived>) -> Attempt<T> {
    match oldest {
        Ok(d) => Attempt { retry: Some(message), dropped: Some(d), depth: None },
        Err(NothingReceived::Empty) => Attempt {
            retry: Some(message),
            dropped: None,
            depth: None,
        },
        Err(NothingReceived::Disconnected) => Attempt { retry: None, dropped: None, depth: None },
    }
}

/// What comes of an attempt where the queue was full.
pub fn after_full<T>(message: T, oldest: Result<T, NothingReceived>) -> (a: Attempt<T>)
    ensures
        a == after_full_of(message, oldest),
{
    match oldest {
        Ok(d) => Attempt { retry: Some(message), dropped: Some(d), depth: None },
        Err(NothingReceived::Empty) => Attempt {
            retry: Some(message),
            dropped: None,
            depth: None,
        },
        Err(NothingReceived::Disconnected) => Attempt { retry: None, dropped: None, depth: None },
    }
}

/// The attempt to queue a message: `sent` came of sending it, `oldest` of taking one out
/// where there was no room, and `waiting` messages wait then.
pub open spec fn attempted<T>(
    sent: Result<(), Unsent<T>>,
    oldest: Option<Result<T, NothingReceived>>,
    waiting: usize,
) -> Attempt<T> {
    match sent {
        Ok(()) => Attempt { retry: None, dropped: None, depth: Some(waiting) },
        Err(Unsent::Full(m)) => after_full_of(m, oldest->0),
        Err(Unsent::Disconnected(_)) => Attempt { retry: None, dropped: None, depth: None },
    }
}

/// What comes of an attempt to queue a message.
pub fn attempt_of<T>(
    sent: Result<(), Unsent<T>>,
    oldest: Option<Result<T, NothingReceived>>,
    waiting: usize,
) -> (a: Attempt<T>)
    requires
        sent matches Err(Unsent::Full(_)) ==> oldest is Some,
    ensures
        a == attempted(sent, oldest, waiting),
{
    match sent {
        Ok(()) => Attempt { retry: None, dropped: None, depth: Some(waiting) },
        Err(Unsent::Full(m)) => match oldest {
            Some(o) => after_full(m, o),
            None => Attempt { retry: None, dropped: None, depth: None },
        },
        Err(Unsent::Disconnected(_)) => Attempt { retry: None, dropped: None, depth: None },
    }
}

/// `sent` can come of sending `message` over a channel that is connected and takes in
/// `taken_in`: it was taken in, or there was no room and it is handed back.
pub open spec fn is_sending_of<T>(taken_in: Set<T>, message: T, sent: Result<(), Unsent<T>>) -> bool {
    match sent {
        Ok(()) => taken_in.contains(message),
        Err(u) => u == Unsent::Full(message),
    }
}

/// `oldest` can come of taking a message out of that channel.
pub open spec fn is_taking_out<T>(taken_in: Set<T>, oldest: Result<T, NothingReceived>) -> bool {
    match oldest {
        Ok(m) => taken_in.contains(m),
        Err(e) => e == NothingReceived::Empty,
    }
}

/// `a` is what an attempt to queue `message` came to, with a queue that takes in `taken_in`: the
/// message was handed to the queue, and one was taken out of it exactly where there was no room.
pub open spec fn is_attempt<T>(taken_in: Set<T>, message: T, a: Attempt<T>) -> bool {
    exists|sent: Result<(), Unsent<T>>, oldest: Option<Result<T, NothingReceived>>, n: usize|
        is_sending_of(taken_in, message, sent) && oldest is Some == sent is Err && (oldest
            matches Some(o) ==> is_taking_out(taken_in, o)) && a == #[trigger] attempted(
            sent,
            oldest,
            n,
        )
}

/// The law of queues: a batch is taken in by the queue or handed back to be tried again, one or
/// the other; only where it is handed back can another one have been dropped, and that is one
/// that the queue had taken in.
pub proof fn messages_are_taken_in_or_handed_back<T>(taken_in: Set<T>, message: T, a: Attempt<T>)
    requires
        is_attempt(taken_in, message, a),
    ensures
        a.retry is None ==> taken_in.contains(message) && a.dropped is None && a.depth is Some,
        a.retry matches Some(m) ==> m == message && a.depth is None,
        a.dropped matches Some(d) ==> taken_in.contains(d),
{
}

/// Tries to queue a message, dropping the oldest where there is no room. Which way it goes
/// depends on what the other threads have sent and received; what becomes of the message in
/// each is said by [`attempt_of`].
fn attempt(
    tx: &flume::Sender<QueuedBatch>,
    rx: &flume::Receiver<QueuedBatch>,
    message: QueuedBatch,
) -> (a: Attempt<QueuedBatch>)
    requires
        ends_of_one(*tx, *rx),
    ensures
        is_attempt(all_taken_in(*tx), message, a),
{
    let sent = try_send(tx, rx, message);
    let oldest: Option<Result<QueuedBatch, NothingReceived>> = match &sent {
        Err(Unsent::Full(_)) => Some(try_recv(rx, Some(tx))),
        _ => None,
    };
    let n: usize = match &sent {
        Ok(()) => waiting(rx),
        Err(_) => 0,
    };
    attempt_of(sent, oldest, n)
}

/// The larger of two numbers.
pub open spec fn max_of(a: u64, b: u64) -> u64 {
    if a < b {
        b
    } else {
        a
    }
}

/// Raises `max` to `value`.
pub fn update_max(max: &mut u64, value: u64)
    ensures
        *final(max) == max_of(*old(max), value),
{
    if value > *max {
        *max = value;
    }
}

/// What was lost on the way to the parser.
#[derive(Clone, Copy, Debug, PartialEq, Eq, Structural)]
pub struct ParserDropSummary {
    pub chunks: u64,
    pub records: u64,
    pub kperf_samples: u64,
}

impl ParserDropSummary {
    /// Nothing lost.
    pub open spec fn none() -> ParserDropSummary {
        ParserDropSummary { chunks: 0, records: 0, kperf_samples: 0 }
    }

    /// Both losses; counts stop at what fits.
    pub open spec fn plus(self, other: ParserDropSummary) -> ParserDropSummary {
        ParserDropSummary {
            chunks: sat_add(self.chunks, other.chunks),
            records: sat_add(self.records, other.records),
            kperf_samples: sat_add(self.kperf_samples, other.kperf_samples),
        }
    }

    /// Nothing lost.
    pub fn new() -> (s: Self)
        ensures
            s == ParserDropSummary::none(),
    {
        ParserDropSummary { chunks: 0, records: 0, kperf_samples: 0 }
    }

    /// Adds another loss.
    pub fn add(&mut self, other: ParserDropSummary)
        ensures
            *final(self) == old(self).plus(other),
    {
        self.chunks = self.chunks.saturating_add(other.chunks);
        self.records = self.records.saturating_add(other.records);
        self.kperf_samples = self.kperf_samples.saturating_add(other.kperf_samples);
    }

    /// Whether nothing was lost.
    pub fn is_empty(&self) -> (r: bool)
        ensures
            r == (*self == ParserDropSummary::none()),
    {
        self.records == 0 && self.chunks == 0 && self.kperf_samples == 0
    }
}

/// What is lost with a batch.
pub open spec fn loss_of(batch: QueuedBatch) -> ParserDropSummary {
    ParserDropSummary { chunks: 1, records: batch.records@.len() as u64, kperf_samples: 0 }
}

/// What is lost with a batch.
pub fn drop_summary(batch: &QueuedBatch) -> (s: ParserDropSummary)
    ensures
        s == loss_of(*batch),
{
    ParserDropSummary { chunks: 1, records: batch.records.len() as u64, kperf_samples: 0 }
}

/// What has been counted of a queue for the parser. Counts wrap around.
#[derive(Clone, Copy, Debug, PartialEq, Eq, Structural)]
pub struct ParserQueueCounters {
    pub dropped_chunks: u64,
    pub dropped_records: u64,
    pub dropped_kperf_samples: u64,
    pub max_depth: u64,
    pub max_age_ns: u64,
}

impl ParserQueueCounters {
    /// The counters after a loss.
    pub open spec fn after_drop(self, drop: ParserDropSummary) -> ParserQueueCounters {
        ParserQueueCounters {
            dropped_chunks: self.dropped_chunks.wrapping_add(drop.chunks),
            dropped_records: self.dropped_records.wrapping_add(drop.records),
            dropped_kperf_samples: self.dropped_kperf_samples.wrapping_add(drop.kperf_samples),
            ..self
        }
    }

    /// The counters after an attempt to queue a batch.
    pub open spec fn after_attempt(self, a: Attempt<QueuedBatch>) -> ParserQueueCounters {
        let dropped = match a.dropped {
            Some(d) => self.after_drop(loss_of(d)),
            None => self,
        };
        match a.depth {
            Some(n) => ParserQueueCounters {
                max_depth: max_of(dropped.max_depth, n as u64),
                ..dropped
            },
            None => dropped,
        }
    }

    /// Nothing counted.
    pub fn new() -> (c: Self)
        ensures
            c == (ParserQueueCounters {
                dropped_chunks: 0,
                dropped_records: 0,
                dropped_kperf_samples: 0,
                max_depth: 0,
                max_age_ns: 0,
            }),
    {
        ParserQueueCounters {
            dropped_chunks: 0,
            dropped_records: 0,
            dropped_kperf_samples: 0,
            max_depth: 0,
            max_age_ns: 0,
        }
    }

    /// Counts a loss.
    pub fn record_drop(&mut self, drop: ParserDropSummary)
        ensures
            *final(self) == old(self).after_drop(drop),
    {
        self.dropped_chunks = self.dropped_chunks.wrapping_add(drop.chunks);
        self.dropped_records = self.dropped_records.wrapping_add(drop.records);
        self.dropped_kperf_samples = self.dropped_kperf_samples.wrapping_add(drop.kperf_samples);
    }

    /// Notes how long a batch has waited.
    pub fn update_max_age(&mut self, age_ns: u64)
        ensures
            *final(self) == (ParserQueueCounters {
                max_age_ns: max_of(old(self).max_age_ns, age_ns),
                ..*old(self)
            }),
    {
        update_max(&mut self.max_age_ns, age_ns);
    }

    /// Counts what an attempt to queue a batch came to.
    pub fn record_attempt(&mut self, a: &Attempt<QueuedBatch>)
        ensures
            *final(self) == old(self).after_attempt(*a),
    {
        match &a.dropped {
            Some(d) => {
                let loss = drop_summary(d);
                self.record_drop(loss);
            },
            None => {},
        }
        match a.depth {
            Some(n) => {
                update_max(&mut self.max_depth, n as u64);
            },
            None => {},
        }
    }

    /// Whether something was lost that is worth a warning.
    pub fn lost_data(&self) -> (r: bool)
        ensures
            r == (self.dropped_records > 0 || self.dropped_chunks > 0),
    {
        self.dropped_records > 0 || self.dropped_chunks > 0
    }
}

/// The queue of batches for the parser.
pub struct ParserQueue {
    tx: flume::Sender<QueuedBatch>,
    drop_rx: flume::Receiver<QueuedBatch>,
}

impl ParserQueue {
    /// Both ends are of one channel.
    #[verifier::type_invariant]
    spec fn connected(self) -> bool {
        ends_of_one(self.tx, self.drop_rx)
    }

    /// How many batches the queue holds.
    pub closed spec fn capacity(self) -> Option<usize> {
        receiver_capacity(self.drop_rx)
    }

    /// All batches that the queue takes in.
    pub closed spec fn taken_in(self) -> Set<QueuedBatch> {
        all_taken_in(self.tx)
    }

    /// What is queued comes out at `rx`.
    pub closed spec fn feeds(self, rx: flume::Receiver<QueuedBatch>) -> bool {
        ends_of_one(self.tx, rx)
    }

    /// A queue that holds at most `capacity` batches.
    pub fn new(capacity: usize) -> (q: Self)
        ensures
            q.capacity() == Some(capacity),
    {
        let (tx, drop_rx) = bounded(capacity);
        ParserQueue { tx, drop_rx }
    }

    /// An end for the parser.
    pub fn receiver(&self) -> (r: flume::Receiver<QueuedBatch>)
        ensures
            receiver_capacity(r) == self.capacity(),
            self.feeds(r),
    {
        proof {
            use_type_invariant(self);
        }
        clone_receiver(&self.drop_rx)
    }

    /// Tries to queue a batch, dropping the oldest where there is no room, and counts
    /// what came of it. A batch that is handed back is to be tried again.
    pub fn enqueue_chunk_drop_oldest(
        &self,
        counters: &mut ParserQueueCounters,
        batch: QueuedBatch,
    ) -> (retry: Option<QueuedBatch>)
        ensures
            exists|a: Attempt<QueuedBatch>|
                is_attempt(self.taken_in(), batch, a) && retry == a.retry && *final(counters)
                    == #[trigger] old(counters).after_attempt(a),
            retry is None ==> self.taken_in().contains(batch),
            retry matches Some(b) ==> b == batch,
    {
        proof {
            use_type_invariant(self);
        }
        let a = attempt(&self.tx, &self.drop_rx, batch);
        counters.record_attempt(&a);
        a.retry
    }
}

/// What is dropped after something was taken out of the queue to be dropped with the rest.
pub open spec fn dropped_with(
    summary: ParserDropSummary,
    taken: Result<QueuedBatch, NothingReceived>,
) -> ParserDropSummary {
    match taken {
        Ok(batch) => summary.plus(loss_of(batch)),
        Err(_) => summary,
    }
}

/// Adds what was taken out of the queue to what is dropped; whether there was a batch, so
/// that there may be more.
pub fn drop_taken(
    taken: Result<QueuedBatch, NothingReceived>,
    summary: &mut ParserDropSummary,
) -> (more: bool)
    ensures
        more == taken is Ok,
        *final(summary) == dropped_with(*old(summary), taken),
{
    match taken {
        Ok(batch) => {
            let loss = drop_summary(&batch);
            summary.add(loss);
            true
        },
        Err(_) => false,
    }
}

/// Takes one batch out of the queue and adds it to what is dropped; whether there was
/// one. Which batch comes out, if any, depends on what the other threads have sent and
/// received; what becomes of it is said by [`drop_taken`].
pub fn drain_one_for_abort(
    rx: &flume::Receiver<QueuedBatch>,
    summary: &mut ParserDropSummary,
) -> (more: bool)
    ensures
        exists|taken: Result<QueuedBatch, NothingReceived>|
            more == taken is Ok && *final(summary) == #[trigger] dropped_with(
                *old(summary),
                taken,
            ),
{
    drop_taken(try_recv(rx, None), summary)
}

/// What has been counted of a queue for the scanner. Counts wrap around.
#[derive(Clone, Copy, Debug, PartialEq, Eq, Structural)]
pub struct ProbeScannerQueueCounters {
    pub dropped_batches: u64,
    pub dropped_records: u64,
    pub dropped_kperf_samples: u64,
    pub max_depth: u64,
}

impl ProbeScannerQueueCounters {
    /// The counters after a batch was lost.
    pub open spec fn after_drop(self, batch: QueuedBatch) -> ProbeScannerQueueCounters {
        ProbeScannerQueueCounters {
            dropped_batches: self.dropped_batches.wrapping_add(1),
            dropped_records: self.dropped_records.wrapping_add(batch.records@.len() as u64),
            ..self
        }
    }

    /// The counters after an attempt to queue a batch.
    pub open spec fn after_attempt(
        self,
        a: Attempt<QueuedBatch>,
    ) -> ProbeScannerQueueCounters {
        let dropped = match a.dropped {
            Some(d) => self.after_drop(d),
            None => self,
        };
        match a.depth {
            Some(n) => ProbeScannerQueueCounters {
                max_depth: max_of(dropped.max_depth, n as u64),
                ..dropped
            },
            None => dropped,
        }
    }

    /// Nothing counted.
    pub fn new() -> (c: Self)
        ensures
            c == (ProbeScannerQueueCounters {
                dropped_batches: 0,
                dropped_records: 0,
                dropped_kperf_samples: 0,
                max_depth: 0,
            }),
    {
        ProbeScannerQueueCounters {
            dropped_batches: 0,
            dropped_records: 0,
            dropped_kperf_samples: 0,
            max_depth: 0,
        }
    }

    /// Counts what an attempt to queue a batch came to.
    pub fn record_attempt(&mut self, a: &Attempt<QueuedBatch>)
        ensures
            *final(self) == old(self).after_attempt(*a),
    {
        match &a.dropped {
            Some(d) => {
                self.dropped_batches = self.dropped_batches.wrapping_add(1);
                self.dropped_records = self.dropped_records.wrapping_add(d.records.len() as u64);
            },
            None => {},
        }
        match a.depth {
            Some(n) => {
                update_max(&mut self.max_depth, n as u64);
            },
            None => {},
        }
    }

    /// Whether something was lost that is worth a warning.
    pub fn lost_data(&self) -> (r: bool)
        ensures
            r == (self.dropped_records > 0 || self.dropped_batches > 0),
    {
        self.dropped_records > 0 || self.dropped_batches > 0
    }
}

/// The queue of batches for the scanner.
pub struct ProbeScannerQueue {
    tx: flume::Sender<QueuedBatch>,
    drop_rx: flume::Receiver<QueuedBatch>,
}

impl ProbeScannerQueue {
    /// Both ends are of one channel.
    #[verifier::type_invariant]
    spec fn connected(self) -> bool {
        ends_of_one(self.tx, self.drop_rx)
    }

    /// How many batches the queue holds.
    pub closed spec fn capacity(self) -> Option<usize> {
        receiver_capacity(self.drop_rx)
    }

    /// All batches that the queue takes in.
    pub closed spec fn taken_in(self) -> Set<QueuedBatch> {
        all_taken_in(self.tx)
    }

    /// What is queued comes out at `rx`.
    pub closed spec fn feeds(self, rx: flume::Receiver<QueuedBatch>) -> bool {
        ends_of_one(self.tx, rx)
    }

    /// A queue that holds at most `capacity` batches.
    pub fn new(capacity: usize) -> (q: Self)
        ensures
            q.capacity() == Some(capacity),
    {
        let (tx, drop_rx) = bounded(capacity);
        ProbeScannerQueue { tx, drop_rx }
    }

    /// An end for the scanner.
    pub fn receiver(&self) -> (r: flume::Receiver<QueuedBatch>)
        ensures
            receiver_capacity(r) == self.capacity(),
            self.feeds(r),
    {
        proof {
            use_type_invariant(self);
        }
        clone_receiver(&self.drop_rx)
    }

    /// Tries to queue a batch, dropping the oldest where there is no room, and counts
    /// what came of it. A batch that is handed back is to be tried again.
    pub fn enqueue_batch(
        &self,
        counters: &mut ProbeScannerQueueCounters,
        batch: QueuedBatch,
    ) -> (retry: Option<QueuedBatch>)
        ensures
            exists|a: Attempt<QueuedBatch>|
                is_attempt(self.taken_in(), batch, a) && retry == a.retry && *final(counters)
                    == #[trigger] old(counters).after_attempt(a),
            retry is None ==> self.taken_in().contains(batch),
            retry matches Some(b) ==> b == batch,
    {
        proof {
            use_type_invariant(self);
        }
        let a = attempt(&self.tx, &self.drop_rx, batch);
        counters.record_attempt(&a);
        a.retry
    }
}

/// What the receiving loop does next.
#[derive(Clone, Copy, Debug, PartialEq, Eq, Structural)]
pub enum LoopStep {
    /// It was told to stop: the daemon is asked to stop, and the loop ends.
    StopRequested,
    /// The time is up: likewise.
    DurationElapsed,
    /// It waits for a batch, for a short while.
    Receive,
}

/// What came of waiting for a batch.
#[derive(Clone, Copy, Debug, PartialEq, Eq, Structural)]
pub enum Received {
    /// A batch of so many records.
    Batch { records: usize },
    /// The daemon closed the stream.
    Closed,
    /// The stream broke.
    Broken,
    /// Nothing came in time.
    TimedOut,
}

/// What becomes of what came.
#[derive(Clone, Copy, Debug, PartialEq, Eq, Structural)]
pub enum ReceiveStep {
    /// The batch goes to both queues. It may be the first of all, which is announced,
    /// or the first with records in it.
    Handle { first: bool, first_nonempty: bool },
    /// The loop ends.
    End,
    /// The loop goes round.
    Again,
}

/// The receiving loop.
#[derive(Clone, Copy, Debug, PartialEq, Eq, Structural)]
pub struct SessionLoop {
    pub seen_first_batch: bool,
    pub seen_first_nonempty_batch: bool,
    pub total_drained: u64,
}

impl SessionLoop {
    /// The loop before anything came.
    pub fn new() -> (l: Self)
        ensures
            l == (SessionLoop {
                seen_first_batch: false,
                seen_first_nonempty_batch: false,
                total_drained: 0,
            }),
    {
        SessionLoop {
            seen_first_batch: false,
            seen_first_nonempty_batch: false,
            total_drained: 0,
        }
    }

    /// What is done before waiting: a stop comes before the end of the time.
    pub fn before_receive(
        &self,
        should_stop: bool,
        elapsed_ns: u64,
        duration: Option<u64>,
    ) -> (s: LoopStep)
        ensures
            s == (if should_stop {
                LoopStep::StopRequested
            } else if duration is Some && elapsed_ns >= duration->0 {
                LoopStep::DurationElapsed
            } else {
                LoopStep::Receive
            }),
    {
        if should_stop {
            return LoopStep::StopRequested;
        }
        match duration {
            Some(d) => if elapsed_ns >= d {
                LoopStep::DurationElapsed
            } else {
                LoopStep::Receive
            },
            None => LoopStep::Receive,
        }
    }

    /// The loop after what came.
    pub open spec fn after(self, what: Received) -> SessionLoop {
        match what {
            Received::Batch { records } => SessionLoop {
                seen_first_batch: true,
                seen_first_nonempty_batch: self.seen_first_nonempty_batch || records > 0,
                total_drained: sat_add(self.total_drained, records as u64),
            },
            _ => self,
        }
    }

    /// What becomes of what came.
    pub open spec fn step(self, what: Received) -> ReceiveStep {
        match what {
            Received::Batch { records } => ReceiveStep::Handle {
                first: !self.seen_first_batch,
                first_nonempty: records > 0 && !self.seen_first_nonempty_batch,
            },
            Received::Closed => ReceiveStep::End,
            Received::Broken => ReceiveStep::End,
            Received::TimedOut => ReceiveStep::Again,
        }
    }

    /// Takes in what came, and says what becomes of it.
    pub fn on_received(&mut self, what: Received) -> (s: ReceiveStep)
        ensures
            *final(self) == old(self).after(what),
            s == old(self).step(what),
    {
        match what {
            Received::Batch { records } => {
                let first = !self.seen_first_batch;
                let first_nonempty = records > 0 && !self.seen_first_nonempty_batch;
                self.seen_first_batch = true;
                if records > 0 {
                    self.seen_first_nonempty_batch = true;
                }
                self.total_drained = self.total_drained.saturating_add(records as u64);
                ReceiveStep::Handle { first, first_nonempty }
            },
            Received::Closed => ReceiveStep::End,
            Received::Broken => ReceiveStep::End,
            Received::TimedOut => ReceiveStep::Again,
        }
    }
}

/// The loop after a series of things came.
pub open spec fn loop_after(l: SessionLoop, whats: Seq<Received>) -> SessionLoop
    decreases whats.len(),
{
    if whats.len() == 0 {
        l
    } else {
        loop_after(l, whats.drop_last()).after(whats.last())
    }
}

/// The law of the first batch: it is announced at most once, whatever comes.
pub proof fn first_batch_is_announced_once(l: SessionLoop, whats: Seq<Received>, i: int, j: int)
    requires
        0 <= i < j < whats.len(),
        loop_after(l, whats.take(i)).step(whats[i]) matches ReceiveStep::Handle { first: true, .. },
    ensures
        !(loop_after(l, whats.take(j)).step(whats[j]) matches ReceiveStep::Handle {
            first: true,
            ..
        }),
    decreases j,
{
    assert(whats.take(j).drop_last() =~= whats.take(j - 1));
    assert(whats.take(j).last() == whats[j - 1]);
    if j - 1 > i {
        lemma_seen_stays(l, whats, i, j - 1);
    }
}

/// Once a batch was seen, it stays seen.
proof fn lemma_seen_stays(l: SessionLoop, whats: Seq<Received>, i: int, j: int)
    requires
        0 <= i < j <= whats.len(),
        whats[i] is Batch,
    ensures
        loop_after(l, whats.take(j)).seen_first_batch,
    decreases j,
{
    assert(whats.take(j).drop_last() =~= whats.take(j - 1));
    assert(whats.take(j).last() == whats[j - 1]);
    if j - 1 > i {
        lemma_seen_stays(l, whats, i, j - 1);
    }
}

/// How the daemon ended the session.
#[derive(Clone, Copy, Debug, PartialEq, Eq, Structural)]
pub enum RpcEnd {
    /// It drained what there was.
    Clean,
    /// It refused or failed.
    Refused,
    /// The call itself failed.
    CallFailed,
}

/// Why a session failed.
#[derive(Clone, Copy, Debug, PartialEq, Eq, Structural)]
pub enum SessionError {
    Rpc,
    VoxCall,
    WorkerShutdownTimedOut { budget_ns: u64 },
}

/// What a session comes to. The daemon's failure comes before that of the parser to
/// end in time.
pub fn session_outcome(rpc: RpcEnd, worker_joined: bool) -> (r: Result<(), SessionError>)
    ensures
        r == (match rpc {
            RpcEnd::Refused => Err::<(), SessionError>(SessionError::Rpc),
            RpcEnd::CallFailed => Err(SessionError::VoxCall),
            RpcEnd::Clean => if worker_joined {
                Ok(())
            } else {
                Err(SessionError::WorkerShutdownTimedOut { budget_ns: WORKER_SHUTDOWN_BUDGET })
            },
        }),
{
    match rpc {
        RpcEnd::Refused => Err(SessionError::Rpc),
        RpcEnd::CallFailed => Err(SessionError::VoxCall),
        RpcEnd::Clean => if worker_joined {
            Ok(())
        } else {
            Err(SessionError::WorkerShutdownTimedOut { budget_ns: WORKER_SHUTDOWN_BUDGET })
        },
    }
}

/// How far the end of the parser has come.
#[derive(Clone, Copy, Debug, PartialEq, Eq, Structural)]
pub enum JoinPhase {
    /// It works off its queue.
    Draining,
    /// It was told to drop its queue.
    Aborting,
}

/// What is done about the end of the parser.
#[derive(Clone, Copy, Debug, PartialEq, Eq, Structural)]
pub enum JoinStep {
    /// It has ended, or its thread has gone.
    Joined,
    /// It has time left: look again in a moment.
    Wait,
    /// Its time is up: it is told to drop its queue, and time starts anew.
    Abort,
    /// That time is up, too: it is left behind.
    Detach,
}

/// What is done about the end of the parser. One that has ended is joined, even where
/// its time is up.
pub fn join_step(phase: JoinPhase, ended: bool, elapsed_ns: u64) -> (s: JoinStep)
    ensures
        s == (if ended {
            JoinStep::Joined
        } else {
            match phase {
                JoinPhase::Draining => if elapsed_ns >= WORKER_SHUTDOWN_BUDGET {
                    JoinStep::Abort
                } else {
                    JoinStep::Wait
                },
                JoinPhase::Aborting => if elapsed_ns >= WORKER_ABORT_GRACE {
                    JoinStep::Detach
                } else {
                    JoinStep::Wait
                },
            }
        }),
{
    if ended {
        return JoinStep::Joined;
    }
    match phase {
        JoinPhase::Draining => if elapsed_ns >= WORKER_SHUTDOWN_BUDGET {
            JoinStep::Abort
        } else {
            JoinStep::Wait
        },
        JoinPhase::Aborting => if elapsed_ns >= WORKER_ABORT_GRACE {
            JoinStep::Detach
        } else {
            JoinStep::Wait
        },
    }
}

/// What the parser's thread finds in its queue.
#[derive(Clone, Copy, Debug, PartialEq, Eq, Structural)]
pub enum WorkerInput {
    /// A batch of so many records.
    Batch { records: usize },
    /// Nothing came in time.
    TimedOut,
    /// The queue was closed, and is empty.
    Closed,
}

/// What the parser's thread does with it.
#[derive(Clone, Copy, Debug, PartialEq, Eq, Structural)]
pub enum WorkerStep {
    /// It processes the batch, then does what is due.
    Process,
    /// It does what is due.
    Tick,
    /// It drops its queue and ends, without finishing the pipeline.
    Abort,
    /// It leaves the loop.
    Leave,
}

/// The parser's thread.
#[derive(Clone, Copy, Debug, PartialEq, Eq, Structural)]
pub struct WorkerLoop {
    pub processed_batches: u64,
    pub processed_records: u64,
}

impl WorkerLoop {
    /// The thread before anything came.
    pub fn new() -> (w: Self)
        ensures
            w == (WorkerLoop { processed_batches: 0, processed_records: 0 }),
    {
        WorkerLoop { processed_batches: 0, processed_records: 0 }
    }

    /// Takes in what came. A batch that comes while the queue is to be dropped is
    /// dropped with it.
    pub fn on_input(&mut self, input: WorkerInput, abort: bool) -> (s: WorkerStep)
        ensures
            s == (match input {
                WorkerInput::Batch { .. } => if abort {
                    WorkerStep::Abort
                } else {
                    WorkerStep::Process
                },
                WorkerInput::TimedOut => WorkerStep::Tick,
                WorkerInput::Closed => WorkerStep::Leave,
            }),
            *final(self) == (match input {
                WorkerInput::Batch { records } => if abort {
                    *old(self)
                } else {
                    WorkerLoop {
                        processed_batches: sat_add(old(self).processed_batches, 1),
                        processed_records: sat_add(old(self).processed_records, records as u64),
                    }
                },
                _ => *old(self),
            }),
    {
        match input {
            WorkerInput::Batch { records } => if abort {
                WorkerStep::Abort
            } else {
                self.processed_batches = self.processed_batches.saturating_add(1);
                self.processed_records = self.processed_records.saturating_add(records as u64);
                WorkerStep::Process
            },
            WorkerInput::TimedOut => WorkerStep::Tick,
            WorkerInput::Closed => WorkerStep::Leave,
        }
    }

    /// Whether the pipeline is finished at the end: not where the queue was dropped,
    /// nor where it was to be.
    pub fn finishes(&self, aborted: bool, abort: bool) -> (r: bool)
        ensures
            r == (!aborted && !abort),
    {
        !aborted && !abort
    }
}

/// The law of records: those that open and close a sample, and those that head a stack of some frames,
/// are told by their identifier.
pub proof fn sample_records_are_told_by_their_identifier(rec: KdBuf)
    ensures
        opens_sample(rec) == (rec.debugid == 0x2500_0001),
        closes_sample(rec) == (rec.debugid == 0x2500_0002),
        heads_user_stack(rec) == (rec.debugid & 0xffff_fffc == 0x2502_0018 && (rec.arg2 as u32)
            + (rec.arg4 as u32) != 0),
{
    let id = rec.debugid;
    assert((((id >> 24) & 0xff) as u8 == 37u8 && ((id >> 16) & 0xff) as u8 == 0u8 && ((id >> 2)
        & 0x3fff) as u16 == 0u16 && id & 0x3 == 1) == (id == 0x2500_0001u32)) by (bit_vector);
    assert((((id >> 24) & 0xff) as u8 == 37u8 && ((id >> 16) & 0xff) as u8 == 0u8 && ((id >> 2)
        & 0x3fff) as u16 == 0u16 && id & 0x3 == 2) == (id == 0x2500_0002u32)) by (bit_vector);
    assert((((id >> 24) & 0xff) as u8 == 37u8 && ((id >> 16) & 0xff) as u8 == 2u8 && ((id >> 2)
        & 0x3fff) as u16 == 6u16) == (id & 0xffff_fffc == 0x2502_0018u32)) by (bit_vector);
}

/// Records that neither open nor close a sample nor head a stack change nothing.
proof fn lemma_passed_over(s: KperfProbeTriggerScanner, recs: Seq<KdBuf>)
    requires
        forall|i: int|
            0 <= i < recs.len() ==> (#[trigger] recs[i]).debugid != 0x2500_0001
                && recs[i].debugid != 0x2500_0002 && recs[i].debugid & 0xffff_fffc != 0x2502_0018,
    ensures
        s.fed_all(recs) == s,
        s.noticed_all(recs).len() == 0,
    decreases recs.len(),
{
    if recs.len() > 0 {
        let init = recs.drop_last();
        assert forall|i: int| 0 <= i < init.len() implies (#[trigger] init[i]).debugid
            != 0x2500_0001 && init[i].debugid != 0x2500_0002 && init[i].debugid & 0xffff_fffc
            != 0x2502_0018 by {
            assert(init[i] == recs[i]);
        }
        lemma_passed_over(s, init);
        let last = recs[recs.len() - 1];
        assert(last.debugid != 0x2500_0001);
        sample_records_are_told_by_their_identifier(last);
    }
}

/// The law of triggers: the first head of a stack behind the start of a sample triggers a probe of the
/// sampled thread, at the instant of that start, whatever other records come in between; a second head
/// triggers none.
pub proof fn stacks_trigger_probes(
    s: KperfProbeTriggerScanner,
    start: KdBuf,
    between: Seq<KdBuf>,
    head: KdBuf,
    second: KdBuf,
)
    requires
        start.debugid == 0x2500_0001,
        forall|i: int|
            0 <= i < between.len() ==> (#[trigger] between[i]).debugid != 0x2500_0001
                && between[i].debugid != 0x2500_0002 && between[i].debugid & 0xffff_fffc
                != 0x2502_0018,
        head.debugid & 0xffff_fffc == 0x2502_0018,
        (head.arg2 as u32) + (head.arg4 as u32) != 0,
        second.debugid != 0x2500_0001,
    ensures
        s.fed(start).fed_all(between).noticed(head) == Some(
            (start.arg5 as u32, start.timestamp & 0x00ff_ffff_ffff_ffff),
        ),
        s.fed(start).fed_all(between).fed(head).noticed(second) is None,
        s.noticed(start) is None,
{
    assert(start.debugid != head.debugid && head.debugid != 0x2500_0002 && 0x2500_0001u32
        & 0xffff_fffc != 0x2502_0018) by {
        let a = start.debugid;
        let b = head.debugid;
        assert(a == 0x2500_0001u32 && b & 0xffff_fffc == 0x2502_0018u32 ==> a != b && b
            != 0x2500_0002u32 && 0x2500_0001u32 & 0xffff_fffc != 0x2502_0018u32) by (bit_vector);
    }
    sample_records_are_told_by_their_identifier(start);
    sample_records_are_told_by_their_identifier(head);
    sample_records_are_told_by_their_identifier(second);
    lemma_passed_over(s.fed(start), between);
}

/// The law of samples without a start: a stack outside of a sample triggers nothing.
pub proof fn stacks_outside_of_samples_trigger_nothing(
    s: KperfProbeTriggerScanner,
    end: KdBuf,
    head: KdBuf,
)
    requires
        end.debugid == 0x2500_0002,
    ensures
        s.fed(end).noticed(head) is None,
{
    sample_records_are_told_by_their_identifier(end);
}

/// The law of batches: scanning one after the other is scanning all of them.
pub proof fn scanning_goes_on(s: KperfProbeTriggerScanner, a: Seq<KdBuf>, b: Seq<KdBuf>)
    ensures
        s.fed_all(a + b) == s.fed_all(a).fed_all(b),
        s.noticed_all(a + b) == s.noticed_all(a) + s.fed_all(a).noticed_all(b),
    decreases b.len(),
{
    if b.len() == 0 {
        assert(a + b =~= a);
        assert(s.noticed_all(a) + s.fed_all(a).noticed_all(b) =~= s.noticed_all(a));
    } else {
        scanning_goes_on(s, a, b.drop_last());
        assert((a + b).drop_last() =~= a + b.drop_last());
        assert((a + b).last() == b.last());
        assert(s.noticed_all(a + b) =~= s.noticed_all(a) + s.fed_all(a).noticed_all(b));
    }
}

/// The law of counting: a batch that was dropped counts with all of its records, and nothing else
/// changes but for the greatest depth.
pub proof fn dropped_batches_are_counted(c: ParserQueueCounters, a: Attempt<QueuedBatch>)
    requires
        a.dropped matches Some(d) ==> c.dropped_chunks < u64::MAX && c.dropped_records
            + d.records@.len() <= u64::MAX,
    ensures
        ({
            let after = c.after_attempt(a);
            &&& a.dropped matches Some(d) ==> after.dropped_chunks == c.dropped_chunks + 1
                && after.dropped_records == c.dropped_records + d.records@.len()
            &&& a.dropped is None ==> after.dropped_chunks == c.dropped_chunks
                && after.dropped_records == c.dropped_records
            &&& after.max_depth >= c.max_depth
            &&& a.depth matches Some(n) ==> after.max_depth >= n && (after.max_depth == n
                || after.max_depth == c.max_depth)
            &&& a.depth is None ==> after.max_depth == c.max_depth
            &&& after.max_age_ns == c.max_age_ns
            &&& after.dropped_kperf_samples == c.dropped_kperf_samples
        }),
{
}

/// The same law of the queue to the scanner.
pub proof fn dropped_scans_are_counted(c: ProbeScannerQueueCounters, a: Attempt<QueuedBatch>)
    requires
        a.dropped matches Some(d) ==> c.dropped_batches < u64::MAX && c.dropped_records
            + d.records@.len() <= u64::MAX,
    ensures
        ({
            let after = c.after_attempt(a);
            &&& a.dropped matches Some(d) ==> after.dropped_batches == c.dropped_batches + 1
                && after.dropped_records == c.dropped_records + d.records@.len()
            &&& a.dropped is None ==> after.dropped_batches == c.dropped_batches
                && after.dropped_records == c.dropped_records
            &&& after.max_depth >= c.max_depth
            &&& a.depth matches Some(n) ==> after.max_depth >= n && (after.max_depth == n
                || after.max_depth == c.max_depth)
            &&& a.depth is None ==> after.max_depth == c.max_depth
        }),
{
}

/// How many records each of some receptions brought.
pub open spec fn records_brought(whats: Seq<Received>) -> Seq<int> {
    whats.map_values(
        |w: Received|
            if w is Batch {
                w->records as int
            } else {
                0
            },
    )
}

/// The law of drained records: all that were received are counted, at most what fits.
pub proof fn received_records_are_counted(l: SessionLoop, whats: Seq<Received>)
    ensures
        loop_after(l, whats).total_drained == as_fits(
            l.total_drained + sum_of(records_brought(whats)),
        ),
        sum_of(records_brought(whats)) >= 0,
    decreases whats.len(),
{
    if whats.len() == 0 {
        assert(records_brought(whats) =~= seq![]);
    } else {
        received_records_are_counted(l, whats.drop_last());
        assert(records_brought(whats).drop_last() =~= records_brought(whats.drop_last()));
    }
}

/// The law of daemon addresses: they name the local transport once, in front of the path.
pub proof fn daemon_addresses_are_local(socket: Seq<char>)
    ensures
        begins_with(url_of(socket), "local://"@),
        url_of(url_of(socket)) == url_of(socket),
        begins_with(socket, "local://"@) ==> url_of(socket) == socket,
        !begins_with(socket, "local://"@) ==> url_of(socket) == "local://"@ + socket,
{
    let p = "local://"@;
    assert((p + socket).take(p.len() as int) =~= p);
}

/// The law of triggers: each names the thread that was noticed and the instant of its sample, with the
/// times of the batch that it came in.
pub proof fn triggers_keep_their_times(timing: KperfProbeTriggerTiming, tid: u32, at: u64)
    ensures
        trigger_of(timing, (tid, at)).tid == tid,
        trigger_of(timing, (tid, at)).timing.kperf_ts == at,
        trigger_of(timing, (tid, at)).timing.staxd_read_started == timing.staxd_read_started,
        trigger_of(timing, (tid, at)).timing.staxd_drained == timing.staxd_drained,
        trigger_of(timing, (tid, at)).timing.staxd_queued_for_send == timing.staxd_queued_for_send,
        trigger_of(timing, (tid, at)).timing.staxd_send_started == timing.staxd_send_started,
        trigger_of(timing, (tid, at)).timing.client_received == timing.client_received,
{
}

/// The law of aborted queues: a batch that is taken out counts as lost with all of its records.
pub proof fn aborted_batches_are_counted(s: ParserDropSummary, batch: QueuedBatch)
    requires
        s.chunks < u64::MAX,
        s.records + batch.records@.len() <= u64::MAX,
    ensures
        dropped_with(s, Ok(batch)).chunks == s.chunks + 1,
        dropped_with(s, Ok(batch)).records == s.records + batch.records@.len(),
        dropped_with(s, Ok(batch)).kperf_samples == s.kperf_samples,
        forall|e: NothingReceived| #[trigger] dropped_with(s, Err(e)) == s,
{
}

} // verus!
