//! The threads that probe a target: one captures, one unwinds what was captured.
use vstd::prelude::*;

use crate::aggregator::{ProbeResultRecord, ProbeTiming, ProbeView};
use crate::demand::{without_thread, ThreadDemandTracker};
use crate::helper::{Capture, ProbeCaptureWithKey};
use crate::probe_timing::sat_add;
use crate::sample_sink::ProbeQueueStats;
use crate::unwind::{
    captured_frame_pointer_walk, fp_chain, stripped_pointers_stay, CapturedStack,
    CapturedThreadState, CapturedUnwindError, CapturedUnwindFailure, CapturedUnwindOutcome,
    PointerBits, UnwindFailure, DEFAULT_MAX_FRAMES,
};

verus! {

/// How many captures may wait to be unwound.
pub const PROBE_UNWIND_QUEUE_CAPACITY: usize = 1024;

/// How long after a failure the helper is sought again, in nanoseconds.
pub const INFERIOR_HELPER_RECONNECT_INTERVAL: u64 = 10_000_000;

/// How long the helper is waited for.
pub const INFERIOR_HELPER_TIMEOUT: u64 = 50_000_000;

/// The name of the helper's thread.
pub const INFERIOR_HELPER_THREAD_NAME: &'static str = "stax-inferior-helper";

/// How often unwinding failed, by reason. Counts stop at what fits.
#[derive(Clone, Copy, Debug, PartialEq, Eq, Structural)]
pub struct DwarfFailureStats {
    pub no_mappings: u64,
    pub no_mapped_regions: u64,
    pub missing_stack_pointer: u64,
    pub missing_instruction_pointer: u64,
    pub empty_stack: u64,
    pub no_binary: u64,
    pub no_unwind_info: u64,
    pub null_instruction_pointer: u64,
    pub missing_cfa: u64,
    pub missing_cfa_register: u64,
    pub cfa_expression_failed: u64,
    pub register_memory_read_failed: u64,
    pub register_expression_failed: u64,
    pub unsupported_register_rule: u64,
    pub missing_return_address: u64,
    pub no_caller_frames: u64,
    pub other: u64,
}

impl DwarfFailureStats {
    /// No failures.
    pub open spec fn none() -> DwarfFailureStats {
        DwarfFailureStats {
            no_mappings: 0,
            no_mapped_regions: 0,
            missing_stack_pointer: 0,
            missing_instruction_pointer: 0,
            empty_stack: 0,
            no_binary: 0,
            no_unwind_info: 0,
            null_instruction_pointer: 0,
            missing_cfa: 0,
            missing_cfa_register: 0,
            cfa_expression_failed: 0,
            register_memory_read_failed: 0,
            register_expression_failed: 0,
            unsupported_register_rule: 0,
            missing_return_address: 0,
            no_caller_frames: 0,
            other: 0,
        }
    }

    /// One more failure.
    pub open spec fn plus(self, error: CapturedUnwindError) -> DwarfFailureStats {
        match error {
            CapturedUnwindError::NoMappings => DwarfFailureStats {
                no_mappings: sat_add(self.no_mappings, 1),
                ..self
            },
            CapturedUnwindError::NoMappedRegions => DwarfFailureStats {
                no_mapped_regions: sat_add(self.no_mapped_regions, 1),
                ..self
            },
            CapturedUnwindError::MissingStackPointer => DwarfFailureStats {
                missing_stack_pointer: sat_add(self.missing_stack_pointer, 1),
                ..self
            },
            CapturedUnwindError::MissingInstructionPointer => DwarfFailureStats {
                missing_instruction_pointer: sat_add(self.missing_instruction_pointer, 1),
                ..self
            },
            CapturedUnwindError::EmptyStack => DwarfFailureStats {
                empty_stack: sat_add(self.empty_stack, 1),
                ..self
            },
            CapturedUnwindError::OnlyLeafFrame { reason } => match reason {
                Some(UnwindFailure::NoBinary) => DwarfFailureStats {
                    no_binary: sat_add(self.no_binary, 1),
                    ..self
                },
                Some(UnwindFailure::NoUnwindInfo) => DwarfFailureStats {
                    no_unwind_info: sat_add(self.no_unwind_info, 1),
                    ..self
                },
                Some(UnwindFailure::NullInstructionPointer) => DwarfFailureStats {
                    null_instruction_pointer: sat_add(self.null_instruction_pointer, 1),
                    ..self
                },
                Some(UnwindFailure::MissingCfa) => DwarfFailureStats {
                    missing_cfa: sat_add(self.missing_cfa, 1),
                    ..self
                },
                Some(UnwindFailure::MissingCfaRegister) => DwarfFailureStats {
                    missing_cfa_register: sat_add(self.missing_cfa_register, 1),
                    ..self
                },
                Some(UnwindFailure::CfaExpressionFailed) => DwarfFailureStats {
                    cfa_expression_failed: sat_add(self.cfa_expression_failed, 1),
                    ..self
                },
                Some(UnwindFailure::RegisterMemoryReadFailed) => DwarfFailureStats {
                    register_memory_read_failed: sat_add(self.register_memory_read_failed, 1),
                    ..self
                },
                Some(UnwindFailure::RegisterExpressionFailed) => DwarfFailureStats {
                    register_expression_failed: sat_add(self.register_expression_failed, 1),
                    ..self
                },
                Some(UnwindFailure::UnsupportedRegisterRule) => DwarfFailureStats {
                    unsupported_register_rule: sat_add(self.unsupported_register_rule, 1),
                    ..self
                },
                Some(UnwindFailure::MissingReturnAddress) => DwarfFailureStats {
                    missing_return_address: sat_add(self.missing_return_address, 1),
                    ..self
                },
                Some(UnwindFailure::MissingInstructionPointer) => DwarfFailureStats {
                    missing_instruction_pointer: sat_add(self.missing_instruction_pointer, 1),
                    ..self
                },
                Some(UnwindFailure::Other) => DwarfFailureStats {
                    other: sat_add(self.other, 1),
                    ..self
                },
                None => DwarfFailureStats {
                    no_caller_frames: sat_add(self.no_caller_frames, 1),
                    ..self
                },
            },
        }
    }

    /// How many failures there were.
    pub open spec fn total(self) -> int {
        self.no_mappings + self.no_mapped_regions + self.missing_stack_pointer
            + self.missing_instruction_pointer + self.empty_stack + self.no_binary
            + self.no_unwind_info + self.null_instruction_pointer + self.missing_cfa
            + self.missing_cfa_register + self.cfa_expression_failed
            + self.register_memory_read_failed + self.register_expression_failed
            + self.unsupported_register_rule + self.missing_return_address
            + self.no_caller_frames + self.other
    }

    /// No failures.
    pub fn new() -> (s: Self)
        ensures
            s == DwarfFailureStats::none(),
    {
        DwarfFailureStats {
            no_mappings: 0,
            no_mapped_regions: 0,
            missing_stack_pointer: 0,
            missing_instruction_pointer: 0,
            empty_stack: 0,
            no_binary: 0,
            no_unwind_info: 0,
            null_instruction_pointer: 0,
            missing_cfa: 0,
            missing_cfa_register: 0,
            cfa_expression_failed: 0,
            register_memory_read_failed: 0,
            register_expression_failed: 0,
            unsupported_register_rule: 0,
            missing_return_address: 0,
            no_caller_frames: 0,
            other: 0,
        }
    }

    /// Counts a failure.
    pub fn record(&mut self, error: &CapturedUnwindError)
        ensures
            *final(self) == old(self).plus(*error),
    {
        match error {
            CapturedUnwindError::NoMappings => {
                self.no_mappings = self.no_mappings.saturating_add(1);
            },
            CapturedUnwindError::NoMappedRegions => {
                self.no_mapped_regions = self.no_mapped_regions.saturating_add(1);
            },
            CapturedUnwindError::MissingStackPointer => {
                self.missing_stack_pointer = self.missing_stack_pointer.saturating_add(1);
            },
            CapturedUnwindError::MissingInstructionPointer => {
                self.missing_instruction_pointer = self.missing_instruction_pointer.saturating_add(1);
            },
            CapturedUnwindError::EmptyStack => {
                self.empty_stack = self.empty_stack.saturating_add(1);
            },
            CapturedUnwindError::OnlyLeafFrame { reason } => match reason {
                Some(UnwindFailure::NoBinary) => {
                    self.no_binary = self.no_binary.saturating_add(1);
                },
                Some(UnwindFailure::NoUnwindInfo) => {
                    self.no_unwind_info = self.no_unwind_info.saturating_add(1);
                },
                Some(UnwindFailure::NullInstructionPointer) => {
                    self.null_instruction_pointer = self.null_instruction_pointer.saturating_add(1);
                },
                Some(UnwindFailure::MissingCfa) => {
                    self.missing_cfa = self.missing_cfa.saturating_add(1);
                },
                Some(UnwindFailure::MissingCfaRegister) => {
                    self.missing_cfa_register = self.missing_cfa_register.saturating_add(1);
                },
                Some(UnwindFailure::CfaExpressionFailed) => {
                    self.cfa_expression_failed = self.cfa_expression_failed.saturating_add(1);
                },
                Some(UnwindFailure::RegisterMemoryReadFailed) => {
                    self.register_memory_read_failed = self.register_memory_read_failed.saturating_add(1);
                },
                Some(UnwindFailure::RegisterExpressionFailed) => {
                    self.register_expression_failed = self.register_expression_failed.saturating_add(1);
                },
                Some(UnwindFailure::UnsupportedRegisterRule) => {
                    self.unsupported_register_rule = self.unsupported_register_rule.saturating_add(1);
                },
                Some(UnwindFailure::MissingReturnAddress) => {
                    self.missing_return_address = self.missing_return_address.saturating_add(1);
                },
                Some(UnwindFailure::MissingInstructionPointer) => {
                    self.missing_instruction_pointer = self.missing_instruction_pointer.saturating_add(1);
                },
                Some(UnwindFailure::Other) => {
                    self.other = self.other.saturating_add(1);
                },
                None => {
                    self.no_caller_frames = self.no_caller_frames.saturating_add(1);
                },
            },
        }
    }
}

/// The law of failures: each is counted under one reason.
pub proof fn failures_have_one_reason(s: DwarfFailureStats, error: CapturedUnwindError)
    requires
        s.no_mappings < u64::MAX,
        s.no_mapped_regions < u64::MAX,
        s.missing_stack_pointer < u64::MAX,
        s.missing_instruction_pointer < u64::MAX,
        s.empty_stack < u64::MAX,
        s.no_binary < u64::MAX,
        s.no_unwind_info < u64::MAX,
        s.null_instruction_pointer < u64::MAX,
        s.missing_cfa < u64::MAX,
        s.missing_cfa_register < u64::MAX,
        s.cfa_expression_failed < u64::MAX,
        s.register_memory_read_failed < u64::MAX,
        s.register_expression_failed < u64::MAX,
        s.unsupported_register_rule < u64::MAX,
        s.missing_return_address < u64::MAX,
        s.no_caller_frames < u64::MAX,
        s.other < u64::MAX,
    ensures
        s.plus(error).total() == s.total() + 1,
{
}

impl ProbeCaptureWithKey {
    /// The registers, without signatures.
    pub fn thread_state(&self, bits: PointerBits) -> (s: CapturedThreadState)
        ensures
            s == (CapturedThreadState {
                pc: bits.code_of(self.pc),
                lr: bits.code_of(self.lr),
                fp: bits.data_of(self.fp),
                sp: bits.data_of(self.sp),
            }),
    {
        CapturedThreadState::new(self.pc, self.lr, self.fp, self.sp, bits)
    }
}

/// What came of unwinding a capture.
pub type Unwound = Result<CapturedUnwindOutcome, CapturedUnwindFailure>;

/// The callers that were found, or none.
pub open spec fn callers_found(u: Unwound) -> Seq<u64> {
    match u {
        Ok(o) => o.callers@,
        Err(_) => seq![],
    }
}

/// The callers that were found, or none.
fn found_callers(u: Unwound) -> (v: Vec<u64>)
    ensures
        v@ == callers_found(u),
{
    match u {
        Ok(o) => o.callers,
        Err(_) => Vec::new(),
    }
}

/// The thread that unwinds captures. Counts stop at what fits.
#[derive(Clone, Copy, Debug, PartialEq, Eq, Structural)]
pub struct UnwindWorker {
    pub results_sent: u64,
    pub fp_successes: u64,
    pub dwarf_successes: u64,
    pub dwarf_failures: u64,
    pub dwarf_bridge_attempts: u64,
    pub dwarf_bridge_successes: u64,
    pub dwarf_bridge_steps: u64,
    pub failures: DwarfFailureStats,
    /// How pointers in the target are signed.
    pub bits: PointerBits,
}

impl UnwindWorker {
    /// The counts after a capture was unwound by all tables.
    pub open spec fn plus_dwarf(self, u: Unwound) -> UnwindWorker {
        match u {
            Ok(o) => UnwindWorker {
                dwarf_successes: sat_add(self.dwarf_successes, 1),
                dwarf_bridge_attempts: if o.bridge_attempted {
                    sat_add(self.dwarf_bridge_attempts, 1)
                } else {
                    self.dwarf_bridge_attempts
                },
                dwarf_bridge_successes: if o.bridge_attempted {
                    sat_add(self.dwarf_bridge_successes, 1)
                } else {
                    self.dwarf_bridge_successes
                },
                dwarf_bridge_steps: if o.bridge_attempted {
                    sat_add(self.dwarf_bridge_steps, o.bridge_steps as u64)
                } else {
                    self.dwarf_bridge_steps
                },
                ..self
            },
            Err(f) => UnwindWorker {
                dwarf_failures: sat_add(self.dwarf_failures, 1),
                dwarf_bridge_attempts: if f.bridge_attempted {
                    sat_add(self.dwarf_bridge_attempts, 1)
                } else {
                    self.dwarf_bridge_attempts
                },
                dwarf_bridge_steps: if f.bridge_attempted {
                    sat_add(self.dwarf_bridge_steps, f.bridge_steps as u64)
                } else {
                    self.dwarf_bridge_steps
                },
                failures: self.failures.plus(f.error),
                ..self
            },
        }
    }

    /// The counts after a capture.
    pub open spec fn plus_capture(self, fp_walked: Seq<u64>, dwarf: Unwound) -> UnwindWorker {
        (UnwindWorker {
            fp_successes: if fp_walked.len() > 0 {
                sat_add(self.fp_successes, 1)
            } else {
                self.fp_successes
            },
            ..self
        }).plus_dwarf(dwarf)
    }

    /// Nothing unwound yet, of a target whose pointers are signed so.
    pub fn new(bits: PointerBits) -> (w: Self)
        ensures
            w == (UnwindWorker {
                results_sent: 0,
                fp_successes: 0,
                dwarf_successes: 0,
                dwarf_failures: 0,
                dwarf_bridge_attempts: 0,
                dwarf_bridge_successes: 0,
                dwarf_bridge_steps: 0,
                failures: DwarfFailureStats::none(),
                bits,
            }),
    {
        UnwindWorker {
            results_sent: 0,
            fp_successes: 0,
            dwarf_successes: 0,
            dwarf_failures: 0,
            dwarf_bridge_attempts: 0,
            dwarf_bridge_successes: 0,
            dwarf_bridge_steps: 0,
            failures: DwarfFailureStats::new(),
            bits,
        }
    }

    /// Counts what came of unwinding by all tables.
    fn record_dwarf(&mut self, u: &Unwound)
        ensures
            *final(self) == old(self).plus_dwarf(*u),
    {
        match u {
            Ok(o) => {
                self.dwarf_successes = self.dwarf_successes.saturating_add(1);
                if o.bridge_attempted {
                    self.dwarf_bridge_attempts = self.dwarf_bridge_attempts.saturating_add(1);
                    self.dwarf_bridge_successes = self.dwarf_bridge_successes.saturating_add(1);
                    self.dwarf_bridge_steps = self.dwarf_bridge_steps.saturating_add(
                        o.bridge_steps as u64,
                    );
                }
            },
            Err(f) => {
                self.dwarf_failures = self.dwarf_failures.saturating_add(1);
                if f.bridge_attempted {
                    self.dwarf_bridge_attempts = self.dwarf_bridge_attempts.saturating_add(1);
                    self.dwarf_bridge_steps = self.dwarf_bridge_steps.saturating_add(
                        f.bridge_steps as u64,
                    );
                }
                self.failures.record(&f.error);
            },
        }
    }

    /// Puts together what a probe found: the walk along the frame pointers, and what
    /// came of unwinding by compact tables, by these and the others they refer to, and
    /// by all. Where one of these failed, it found no callers.
    pub fn on_capture(
        &mut self,
        capture: &ProbeCaptureWithKey,
        compact: Unwound,
        compact_dwarf: Unwound,
        dwarf: Unwound,
        walk_done: u64,
    ) -> (r: ProbeResultRecord)
        ensures
            r@ == (ProbeView {
                tid: capture.tid,
                timing: ProbeTiming { walk_done, ..capture.timing },
                queue: capture.queue,
                mach_pc: capture.pc,
                mach_lr: 0,
                mach_fp: capture.fp,
                mach_sp: capture.sp,
                mach_walked: fp_chain(
                    old(self).bits,
                    old(self).bits.data_of(capture.stack.base),
                    capture.stack.bytes@,
                    old(self).bits.data_of(capture.fp),
                    DEFAULT_MAX_FRAMES as nat,
                ),
                compact_walked: callers_found(compact),
                compact_dwarf_walked: callers_found(compact_dwarf),
                dwarf_walked: callers_found(dwarf),
                used_framehop: callers_found(dwarf).len() > 0,
            }),
            *final(self) == old(self).plus_capture(r@.mach_walked, dwarf),
    {
        let stack = CapturedStack::new(
            capture.stack.base,
            capture.stack.bytes.as_slice(),
            self.bits,
        );
        let walked = captured_frame_pointer_walk(
            capture.thread_state(self.bits),
            stack,
            DEFAULT_MAX_FRAMES,
        );
        proof {
            stripped_pointers_stay(self.bits.data, capture.fp);
        }
        if walked.len() > 0 {
            self.fp_successes = self.fp_successes.saturating_add(1);
        }
        self.record_dwarf(&dwarf);
        let mut timing = capture.timing;
        timing.walk_done = walk_done;
        let dwarf_walked = found_callers(dwarf);
        ProbeResultRecord {
            tid: capture.tid,
            timing,
            queue: capture.queue,
            mach_pc: capture.pc,
            mach_lr: 0,
            mach_fp: capture.fp,
            mach_sp: capture.sp,
            mach_walked: walked,
            compact_walked: found_callers(compact),
            compact_dwarf_walked: found_callers(compact_dwarf),
            used_framehop: dwarf_walked.len() > 0,
            dwarf_walked,
        }
    }

    /// Whether the failure that was just counted is worth a warning: the first is, and
    /// every 1024th.
    pub fn warns(&self) -> (r: bool)
        ensures
            r == (self.dwarf_failures == 1 || self.dwarf_failures % 1024 == 0),
    {
        self.dwarf_failures == 1 || self.dwarf_failures % 1024 == 0
    }

    /// Takes in whether a result could be handed on; whether to go on.
    pub fn on_sent(&mut self, sent: bool) -> (go_on: bool)
        ensures
            go_on == sent,
            *final(self) == (if sent {
                UnwindWorker { results_sent: sat_add(old(self).results_sent, 1), ..*old(self) }
            } else {
                *old(self)
            }),
    {
        if sent {
            self.results_sent = self.results_sent.saturating_add(1);
        }
        sent
    }
}

/// What the probing threads report.
pub enum ProbeWorkerEvent {
    Snapshot(ProbeResultRecord),
    ThreadName { pid: u32, tid: u32, name: &'static str },
}

/// Takes in that the helper was found: its thread is not probed from now on, and gets
/// a name.
pub fn helper_connected(demands: &mut ThreadDemandTracker, pid: u32, helper_tid: u32) -> (e:
    ProbeWorkerEvent)
    requires
        old(demands).wf(),
    ensures
        final(demands).wf(),
        final(demands).suppressed().contains(helper_tid),
        final(demands).suppressed() == (if old(demands).suppressed().contains(helper_tid) {
            old(demands).suppressed()
        } else {
            old(demands).suppressed().push(helper_tid)
        }),
        final(demands).threads() == without_thread(old(demands).threads(), helper_tid),
        final(demands).last_decay() == old(demands).last_decay(),
        e == (ProbeWorkerEvent::ThreadName {
            pid,
            tid: helper_tid,
            name: INFERIOR_HELPER_THREAD_NAME,
        }),
{
    let ghost before = demands.suppressed();
    demands.suppress(helper_tid);
    proof {
        if !before.contains(helper_tid) {
            assert(demands.suppressed()[before.len() as int] == helper_tid);
        }
    }
    ProbeWorkerEvent::ThreadName { pid, tid: helper_tid, name: INFERIOR_HELPER_THREAD_NAME }
}

/// What came of asking the helper for a capture.
#[derive(Clone, Copy, Debug, PartialEq, Eq, Structural)]
pub enum HelperOutcome {
    /// There is no helper.
    Absent,
    Captured,
    /// It could not capture the thread.
    Refused,
    /// It could not be asked.
    Failed,
}

/// What is done about a request.
#[derive(Clone, Copy, Debug, PartialEq, Eq, Structural)]
pub enum CaptureRoute {
    /// The helper's capture is unwound.
    UseHelper,
    /// The request is dropped.
    Skip,
    /// The thread is captured from outside; `drop_helper` where the helper is given up.
    Remote { drop_helper: bool },
}

/// What is done about a request, by what the helper said. Only where there is none, or
/// it fails, the thread is captured from outside.
pub fn capture_route(outcome: HelperOutcome) -> (r: CaptureRoute)
    ensures
        r == (match outcome {
            HelperOutcome::Absent => CaptureRoute::Remote { drop_helper: false },
            HelperOutcome::Captured => CaptureRoute::UseHelper,
            HelperOutcome::Refused => CaptureRoute::Skip,
            HelperOutcome::Failed => CaptureRoute::Remote { drop_helper: true },
        }),
{
    match outcome {
        HelperOutcome::Absent => CaptureRoute::Remote { drop_helper: false },
        HelperOutcome::Captured => CaptureRoute::UseHelper,
        HelperOutcome::Refused => CaptureRoute::Skip,
        HelperOutcome::Failed => CaptureRoute::Remote { drop_helper: true },
    }
}

/// What came of handing a capture on.
#[derive(Clone, Copy, Debug, PartialEq, Eq, Structural)]
pub enum CaptureSent {
    Sent,
    /// Too many wait already.
    Full,
    /// Nobody unwinds any more.
    Disconnected,
}

/// What the capturing thread does next.
#[derive(Clone, Copy, Debug, PartialEq, Eq, Structural)]
pub enum CaptureNext {
    GoOn,
    /// It goes on, with a warning.
    Warn,
    End,
}

/// The thread that captures. Counts stop at what fits.
#[derive(Clone, Copy, Debug, PartialEq, Eq, Structural)]
pub struct CaptureWorker {
    pub batches: u64,
    pub requests_seen: u64,
    pub captures_sent: u64,
    pub helper_captures_sent: u64,
    pub captures_dropped: u64,
    pub images_seeded: bool,
    /// When the helper is sought again.
    pub helper_next_connect: u64,
}

impl CaptureWorker {
    /// A thread that starts at `now`, when the helper has just been sought.
    pub fn new(now: u64) -> (w: Self)
        ensures
            w == (CaptureWorker {
                batches: 0,
                requests_seen: 0,
                captures_sent: 0,
                helper_captures_sent: 0,
                captures_dropped: 0,
                images_seeded: false,
                helper_next_connect: sat_add(now, INFERIOR_HELPER_RECONNECT_INTERVAL),
            }),
    {
        CaptureWorker {
            batches: 0,
            requests_seen: 0,
            captures_sent: 0,
            helper_captures_sent: 0,
            captures_dropped: 0,
            images_seeded: false,
            helper_next_connect: now.saturating_add(INFERIOR_HELPER_RECONNECT_INTERVAL),
        }
    }

    /// Takes in a batch of requests; whether the target's images are to be listed
    /// first, which is tried until it succeeds.
    pub fn on_batch(&mut self) -> (seed: bool)
        ensures
            seed == !old(self).images_seeded,
            *final(self) == (CaptureWorker {
                batches: sat_add(old(self).batches, 1),
                ..*old(self)
            }),
    {
        self.batches = self.batches.saturating_add(1);
        !self.images_seeded
    }

    /// Takes in a request; whether the helper is to be sought first.
    pub fn on_request(&mut self, has_helper: bool, now: u64) -> (connect: bool)
        ensures
            connect == (!has_helper && now >= old(self).helper_next_connect),
            *final(self) == (CaptureWorker {
                requests_seen: sat_add(old(self).requests_seen, 1),
                helper_next_connect: if connect {
                    sat_add(now, INFERIOR_HELPER_RECONNECT_INTERVAL)
                } else {
                    old(self).helper_next_connect
                },
                ..*old(self)
            }),
    {
        self.requests_seen = self.requests_seen.saturating_add(1);
        let connect = !has_helper && now >= self.helper_next_connect;
        if connect {
            self.helper_next_connect = now.saturating_add(INFERIOR_HELPER_RECONNECT_INTERVAL);
        }
        connect
    }

    /// Takes in what came of handing a capture on. Every 1024th that is dropped is
    /// worth a warning.
    pub fn on_sent(&mut self, sent: CaptureSent, via_helper: bool) -> (n: CaptureNext)
        ensures
            *final(self) == (match sent {
                CaptureSent::Sent => CaptureWorker {
                    captures_sent: sat_add(old(self).captures_sent, 1),
                    helper_captures_sent: if via_helper {
                        sat_add(old(self).helper_captures_sent, 1)
                    } else {
                        old(self).helper_captures_sent
                    },
                    ..*old(self)
                },
                CaptureSent::Full => CaptureWorker {
                    captures_dropped: sat_add(old(self).captures_dropped, 1),
                    ..*old(self)
                },
                CaptureSent::Disconnected => *old(self),
            }),
            n == (match sent {
                CaptureSent::Sent => CaptureNext::GoOn,
                CaptureSent::Full => if final(self).captures_dropped % 1024 == 0 {
                    CaptureNext::Warn
                } else {
                    CaptureNext::GoOn
                },
                CaptureSent::Disconnected => CaptureNext::End,
            }),
    {
        match sent {
            CaptureSent::Sent => {
                self.captures_sent = self.captures_sent.saturating_add(1);
                if via_helper {
                    self.helper_captures_sent = self.helper_captures_sent.saturating_add(1);
                }
                CaptureNext::GoOn
            },
            CaptureSent::Full => {
                self.captures_dropped = self.captures_dropped.saturating_add(1);
                if self.captures_dropped % 1024 == 0 {
                    CaptureNext::Warn
                } else {
                    CaptureNext::GoOn
                }
            },
            CaptureSent::Disconnected => CaptureNext::End,
        }
    }
}

/// A capture that was made from outside, put together for unwinding.
pub fn remote_capture(
    tid: u32,
    timing: ProbeTiming,
    capture: Capture,
    queue: ProbeQueueStats,
) -> (c: ProbeCaptureWithKey)
    ensures
        c.tid == tid,
        c.timing == (ProbeTiming {
            thread_lookup_done: capture.thread_lookup_done,
            state_done: capture.state_done,
            resume_done: capture.resume_done,
            ..timing
        }),
        c.queue == queue,
        c.pc == capture.pc,
        c.lr == capture.lr,
        c.fp == capture.fp,
        c.sp == capture.sp,
        c.stack == capture.stack,
{
    let mut timing = timing;
    timing.thread_lookup_done = capture.thread_lookup_done;
    timing.state_done = capture.state_done;
    timing.resume_done = capture.resume_done;
    ProbeCaptureWithKey {
        tid,
        timing,
        queue,
        pc: capture.pc,
        lr: capture.lr,
        fp: capture.fp,
        sp: capture.sp,
        stack: capture.stack,
    }
}

/// How often unwinding failed for the reason of a failure.
pub open spec fn failures_like(s: DwarfFailureStats, error: CapturedUnwindError) -> u64 {
    match error {
        CapturedUnwindError::NoMappings => s.no_mappings,
        CapturedUnwindError::NoMappedRegions => s.no_mapped_regions,
        CapturedUnwindError::MissingStackPointer => s.missing_stack_pointer,
        CapturedUnwindError::MissingInstructionPointer => s.missing_instruction_pointer,
        CapturedUnwindError::EmptyStack => s.empty_stack,
        CapturedUnwindError::OnlyLeafFrame { reason: None } => s.no_caller_frames,
        CapturedUnwindError::OnlyLeafFrame { reason: Some(why) } => match why {
            UnwindFailure::NoBinary => s.no_binary,
            UnwindFailure::NoUnwindInfo => s.no_unwind_info,
            UnwindFailure::NullInstructionPointer => s.null_instruction_pointer,
            UnwindFailure::MissingCfa => s.missing_cfa,
            UnwindFailure::MissingCfaRegister => s.missing_cfa_register,
            UnwindFailure::CfaExpressionFailed => s.cfa_expression_failed,
            UnwindFailure::RegisterMemoryReadFailed => s.register_memory_read_failed,
            UnwindFailure::RegisterExpressionFailed => s.register_expression_failed,
            UnwindFailure::UnsupportedRegisterRule => s.unsupported_register_rule,
            UnwindFailure::MissingReturnAddress => s.missing_return_address,
            UnwindFailure::MissingInstructionPointer => s.missing_instruction_pointer,
            UnwindFailure::Other => s.other,
        },
    }
}

/// The law of reasons: a failure is counted where failures like it are.
pub proof fn failures_are_counted_where_they_belong(s: DwarfFailureStats, error: CapturedUnwindError)
    ensures
        failures_like(s, error) < u64::MAX ==> failures_like(s.plus(error), error) == failures_like(
            s,
            error,
        ) + 1,
        failures_like(s, error) == u64::MAX ==> s.plus(error) == s,
{
}

/// The law of captures: each is counted as unwound or as failed, and as a bridge where one was tried.
pub proof fn captures_are_counted(w: UnwindWorker, walked: Seq<u64>, u: Unwound)
    requires
        w.dwarf_successes < u64::MAX,
        w.dwarf_failures < u64::MAX,
        w.fp_successes < u64::MAX,
        w.dwarf_bridge_attempts < u64::MAX,
        w.dwarf_bridge_successes < u64::MAX,
        w.dwarf_bridge_steps + u32::MAX <= u64::MAX,
    ensures
        ({
            let after = w.plus_capture(walked, u);
            let tried = match u {
                Ok(o) => o.bridge_attempted,
                Err(f) => f.bridge_attempted,
            };
            &&& after.dwarf_successes + after.dwarf_failures == w.dwarf_successes + w.dwarf_failures
                + 1
            &&& after.dwarf_successes == w.dwarf_successes + (if u is Ok {
                1int
            } else {
                0
            })
            &&& after.fp_successes == w.fp_successes + (if walked.len() > 0 {
                1int
            } else {
                0
            })
            &&& after.dwarf_bridge_attempts == w.dwarf_bridge_attempts + (if tried {
                1int
            } else {
                0
            })
            &&& after.dwarf_bridge_successes == w.dwarf_bridge_successes + (if tried && u is Ok {
                1int
            } else {
                0
            })
            &&& !tried ==> after.dwarf_bridge_steps == w.dwarf_bridge_steps
            &&& u is Ok ==> after.failures == w.failures
            &&& u matches Err(f) ==> after.failures == w.failures.plus(f.error)
            &&& after.results_sent == w.results_sent
            &&& after.bits == w.bits
        }),
{
}

} // verus!
