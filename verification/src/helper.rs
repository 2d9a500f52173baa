//! The stack helper: a thread inside the target that captures the stacks of the others
//! on request, and the messages that it exchanges with the companion.
//!
//! A request is 24 bytes: a magic number, an operation, a sequence number and a
//! thread. A reply is a header of 88 bytes and, behind it, the captured stack.
use vstd::bytes::{
    lemma_auto_spec_u32_to_from_le_bytes, lemma_auto_spec_u64_to_from_le_bytes,
    spec_u32_to_le_bytes, spec_u64_to_le_bytes, u32_to_le_bytes, u64_to_le_bytes,
};
use vstd::prelude::*;

use crate::aggregator::ProbeTiming;
use crate::sample_sink::ProbeQueueStats;
use crate::text::{dec, hex_prefixed, push_dec, push_hex_prefixed};
use crate::unwind::{strip_code_pointer, strip_data_pointer, PointerBits};
use crate::wire::{le_u32, le_u64, read_u32, read_u64};

verus! {

/// What every message begins with.
pub const HELPER_MAGIC: u32 = 0x3158_5453;

/// The operation that captures a thread.
pub const HELPER_OP_CAPTURE: u32 = 1;

/// The operation that asks for the helper's own thread.
pub const HELPER_OP_HELLO: u32 = 2;

/// The status of a request that was served.
pub const HELPER_STATUS_OK: u32 = 0;

/// The status of a request that was not.
pub const HELPER_STATUS_ERR: u32 = 1;

/// The length of a request.
pub const REQUEST_BYTES: usize = 24;

/// The length of the header of a reply.
pub const RESPONSE_HEADER_BYTES: usize = 88;

/// The most that is captured of a stack.
pub const STACK_SNAPSHOT_BYTES: usize = 524_288;

/// How much of it is read at once.
pub const STACK_SNAPSHOT_CHUNK: usize = 16_384;

/// A copy of a stack, and the address that it was copied from.
#[derive(Debug)]
pub struct StackSnapshot {
    pub base: u64,
    pub bytes: Vec<u8>,
}

/// A thread that was captured.
#[derive(Debug)]
pub struct ProbeCaptureWithKey {
    pub tid: u32,
    pub timing: ProbeTiming,
    pub queue: ProbeQueueStats,
    pub pc: u64,
    pub lr: u64,
    pub fp: u64,
    pub sp: u64,
    pub stack: StackSnapshot,
}

/// What a helper captured.
#[derive(Debug)]
pub struct Capture {
    pub thread_lookup_done: u64,
    pub state_done: u64,
    pub resume_done: u64,
    pub pc: u64,
    pub lr: u64,
    pub fp: u64,
    pub sp: u64,
    pub stack: StackSnapshot,
}

/// Where the helper of a process listens.
pub fn inferior_helper_socket_path(pid: u32) -> (s: String)
    ensures
        s@ == "/tmp/stax-inferior-helper-"@ + dec(pid as nat) + ".sock"@,
{
    let mut s = "/tmp/stax-inferior-helper-".to_owned();
    push_dec(&mut s, pid as u64);
    s.append(".sock");
    s
}

/// A request.
pub open spec fn request_of(op: u32, seq: u64, tid: u32) -> Seq<u8> {
    spec_u32_to_le_bytes(HELPER_MAGIC) + spec_u32_to_le_bytes(op) + spec_u64_to_le_bytes(seq)
        + spec_u32_to_le_bytes(tid) + spec_u32_to_le_bytes(0)
}

/// A request.
pub fn helper_request(op: u32, seq: u64, tid: u32) -> (r: Vec<u8>)
    ensures
        r@ == request_of(op, seq, tid),
        r@.len() == REQUEST_BYTES,
{
    let mut r = u32_to_le_bytes(HELPER_MAGIC);
    r.append(&mut u32_to_le_bytes(op));
    r.append(&mut u64_to_le_bytes(seq));
    r.append(&mut u32_to_le_bytes(tid));
    r.append(&mut u32_to_le_bytes(0));
    r
}

/// The sequence number after `seq`; none is zero.
pub fn next_seq(seq: u64) -> (n: u64)
    ensures
        n == (if seq == u64::MAX {
            1
        } else {
            (seq + 1) as u64
        }),
{
    if seq == u64::MAX {
        1
    } else {
        seq + 1
    }
}

/// What a helper is asked to do.
#[derive(Clone, Copy, Debug, PartialEq, Eq, Structural)]
pub enum HelperAction {
    /// Say which thread it is.
    Hello,
    /// Capture a thread.
    Capture { tid: u32 },
    /// Nothing that it knows.
    Refuse,
}

/// What a request asks.
pub open spec fn action_of(request: Seq<u8>) -> HelperAction {
    if le_u32(request, 0) != HELPER_MAGIC {
        HelperAction::Refuse
    } else if le_u32(request, 4) == HELPER_OP_HELLO {
        HelperAction::Hello
    } else if le_u32(request, 4) == HELPER_OP_CAPTURE {
        HelperAction::Capture { tid: le_u32(request, 16) }
    } else {
        HelperAction::Refuse
    }
}

/// What a request asks, and its sequence number.
pub fn parse_request(request: &[u8]) -> (r: (u64, HelperAction))
    requires
        request@.len() == REQUEST_BYTES,
    ensures
        r.0 == le_u64(request@, 8),
        r.1 == action_of(request@),
{
    let magic: u32 = read_u32(request, 0);
    let op: u32 = read_u32(request, 4);
    let seq: u64 = read_u64(request, 8);
    let tid: u32 = read_u32(request, 16);
    let action = if magic != HELPER_MAGIC {
        HelperAction::Refuse
    } else if op == HELPER_OP_HELLO {
        HelperAction::Hello
    } else if op == HELPER_OP_CAPTURE {
        HelperAction::Capture { tid }
    } else {
        HelperAction::Refuse
    };
    (seq, action)
}

/// The header of a reply: status, sequence number, three dates, the stack's base, the
/// registers and the length of what follows.
pub open spec fn header_of(status: u32, seq: u64, f: Seq<u64>, payload_len: u32) -> Seq<u8> {
    spec_u32_to_le_bytes(HELPER_MAGIC) + spec_u32_to_le_bytes(status) + spec_u64_to_le_bytes(seq)
        + spec_u64_to_le_bytes(f[0]) + spec_u64_to_le_bytes(f[1]) + spec_u64_to_le_bytes(f[2])
        + spec_u64_to_le_bytes(f[3]) + spec_u64_to_le_bytes(f[4]) + spec_u64_to_le_bytes(f[5])
        + spec_u64_to_le_bytes(f[6]) + spec_u64_to_le_bytes(f[7]) + spec_u32_to_le_bytes(
        payload_len,
    ) + spec_u32_to_le_bytes(0)
}

/// The header of a reply.
fn reply_header(status: u32, seq: u64, f: &[u64; 8], payload_len: u32) -> (h: Vec<u8>)
    ensures
        h@ == header_of(status, seq, f@, payload_len),
        h@.len() == RESPONSE_HEADER_BYTES,
{
    let mut h = u32_to_le_bytes(HELPER_MAGIC);
    h.append(&mut u32_to_le_bytes(status));
    h.append(&mut u64_to_le_bytes(seq));
    h.append(&mut u64_to_le_bytes(f[0]));
    h.append(&mut u64_to_le_bytes(f[1]));
    h.append(&mut u64_to_le_bytes(f[2]));
    h.append(&mut u64_to_le_bytes(f[3]));
    h.append(&mut u64_to_le_bytes(f[4]));
    h.append(&mut u64_to_le_bytes(f[5]));
    h.append(&mut u64_to_le_bytes(f[6]));
    h.append(&mut u64_to_le_bytes(f[7]));
    h.append(&mut u32_to_le_bytes(payload_len));
    h.append(&mut u32_to_le_bytes(0));
    h
}

/// The numbers in the header for a capture.
pub open spec fn capture_fields(c: Capture) -> Seq<u64> {
    seq![
        c.thread_lookup_done,
        c.state_done,
        c.resume_done,
        c.stack.base,
        c.pc,
        c.lr,
        c.fp,
        c.sp,
    ]
}

/// The reply to a request for a capture.
pub open spec fn reply_of(seq: u64, capture: Option<Capture>) -> Seq<u8> {
    match capture {
        Some(c) => header_of(
            HELPER_STATUS_OK,
            seq,
            capture_fields(c),
            c.stack.bytes@.len() as u32,
        ) + c.stack.bytes@,
        None => header_of(HELPER_STATUS_ERR, seq, Seq::new(8, |i: int| 0u64), 0),
    }
}

/// The reply to a request for a capture.
pub fn write_response(seq: u64, capture: &Option<Capture>) -> (r: Vec<u8>)
    ensures
        r@ == reply_of(seq, *capture),
{
    match capture {
        Some(c) => {
            let f: [u64; 8] = [
                c.thread_lookup_done,
                c.state_done,
                c.resume_done,
                c.stack.base,
                c.pc,
                c.lr,
                c.fp,
                c.sp,
            ];
            assert(f@ =~= capture_fields(*c));
            let mut r = reply_header(HELPER_STATUS_OK, seq, &f, c.stack.bytes.len() as u32);
            let ghost head = r@;
            let mut i: usize = 0;
            assert(r@ =~= head + c.stack.bytes@.take(0));
            while i < c.stack.bytes.len()
                invariant
                    i <= c.stack.bytes@.len(),
                    r@ == head + c.stack.bytes@.take(i as int),
                decreases c.stack.bytes@.len() - i,
            {
                r.push(c.stack.bytes[i]);
                i = i + 1;
                assert(r@ =~= head + c.stack.bytes@.take(i as int));
            }
            assert(c.stack.bytes@.take(i as int) =~= c.stack.bytes@);
            r
        },
        None => {
            let f: [u64; 8] = [0, 0, 0, 0, 0, 0, 0, 0];
            assert(f@ =~= Seq::new(8, |i: int| 0u64));
            reply_header(HELPER_STATUS_ERR, seq, &f, 0)
        },
    }
}

/// The numbers in the header that names the helper's thread.
pub open spec fn hello_fields(helper_tid: u32) -> Seq<u64> {
    seq![0u64, 0, 0, 0, helper_tid as u64, 0, 0, 0]
}

/// The reply that names the helper's thread.
pub fn write_hello_response(seq: u64, helper_tid: u32) -> (r: Vec<u8>)
    ensures
        r@ == header_of(HELPER_STATUS_OK, seq, hello_fields(helper_tid), 0),
{
    let f: [u64; 8] = [0, 0, 0, 0, helper_tid as u64, 0, 0, 0];
    assert(f@ =~= hello_fields(helper_tid));
    reply_header(HELPER_STATUS_OK, seq, &f, 0)
}

/// Why a reply was not understood.
#[derive(Clone, Copy, Debug, PartialEq, Eq, Structural)]
pub enum HelperError {
    BadMagic { magic: u32 },
    WrongSeq { got: u64, expected: u64 },
    TooLong { len: u32 },
    HelloStatus { status: u32 },
    TidTooLarge,
}

/// What is said of an error.
pub open spec fn helper_error_text(e: HelperError) -> Seq<char> {
    match e {
        HelperError::BadMagic { magic } => "bad inferior helper magic "@ + hex_prefixed(
            magic as nat,
        ),
        HelperError::WrongSeq { got, expected } => "inferior helper response seq "@ + dec(
            got as nat,
        ) + " != request seq "@ + dec(expected as nat),
        HelperError::TooLong { len } => "inferior helper returned "@ + dec(len as nat)
            + " stack bytes"@,
        HelperError::HelloStatus { status } => "inferior helper hello status "@ + dec(
            status as nat,
        ),
        HelperError::TidTooLarge => "inferior helper tid does not fit u32"@,
    }
}

impl HelperError {
    /// What is said of the error.
    pub fn message(&self) -> (s: String)
        ensures
            s@ == helper_error_text(*self),
    {
        match self {
            HelperError::BadMagic { magic } => {
                let mut s = "bad inferior helper magic ".to_owned();
                push_hex_prefixed(&mut s, *magic as u64);
                s
            },
            HelperError::WrongSeq { got, expected } => {
                let mut s = "inferior helper response seq ".to_owned();
                push_dec(&mut s, *got);
                s.append(" != request seq ");
                push_dec(&mut s, *expected);
                s
            },
            HelperError::TooLong { len } => {
                let mut s = "inferior helper returned ".to_owned();
                push_dec(&mut s, *len as u64);
                s.append(" stack bytes");
                s
            },
            HelperError::HelloStatus { status } => {
                let mut s = "inferior helper hello status ".to_owned();
                push_dec(&mut s, *status as u64);
                s
            },
            HelperError::TidTooLarge => "inferior helper tid does not fit u32".to_owned(),
        }
    }
}

/// What a header says: the status, and how much follows.
#[derive(Clone, Copy, Debug, PartialEq, Eq, Structural)]
pub struct HelperReply {
    pub status: u32,
    pub payload_len: u32,
}

/// What a header says, where it is the one for the request numbered `seq`.
pub open spec fn reply_in(header: Seq<u8>, seq: u64) -> Result<HelperReply, HelperError> {
    if le_u32(header, 0) != HELPER_MAGIC {
        Err(HelperError::BadMagic { magic: le_u32(header, 0) })
    } else if le_u64(header, 8) != seq {
        Err(HelperError::WrongSeq { got: le_u64(header, 8), expected: seq })
    } else if le_u32(header, 80) > STACK_SNAPSHOT_BYTES {
        Err(HelperError::TooLong { len: le_u32(header, 80) })
    } else {
        Ok(HelperReply { status: le_u32(header, 4), payload_len: le_u32(header, 80) })
    }
}

/// What a header says, where it is the one for the request numbered `seq`.
pub fn check_reply(header: &[u8], seq: u64) -> (r: Result<HelperReply, HelperError>)
    requires
        header@.len() == RESPONSE_HEADER_BYTES,
    ensures
        r == reply_in(header@, seq),
{
    let magic: u32 = read_u32(header, 0);
    if magic != HELPER_MAGIC {
        return Err(HelperError::BadMagic { magic });
    }
    let status: u32 = read_u32(header, 4);
    let got: u64 = read_u64(header, 8);
    if got != seq {
        return Err(HelperError::WrongSeq { got, expected: seq });
    }
    let payload_len: u32 = read_u32(header, 80);
    if payload_len > STACK_SNAPSHOT_BYTES as u32 {
        return Err(HelperError::TooLong { len: payload_len });
    }
    Ok(HelperReply { status, payload_len })
}

/// The helper's thread, as a header names it.
pub fn query_helper_tid(header: &[u8], status: u32) -> (r: Result<u32, HelperError>)
    requires
        header@.len() == RESPONSE_HEADER_BYTES,
    ensures
        r == (if status != HELPER_STATUS_OK {
            Err::<u32, HelperError>(HelperError::HelloStatus { status })
        } else if le_u64(header@, 48) > u32::MAX {
            Err(HelperError::TidTooLarge)
        } else {
            Ok(le_u64(header@, 48) as u32)
        }),
{
    if status != HELPER_STATUS_OK {
        return Err(HelperError::HelloStatus { status });
    }
    let tid: u64 = read_u64(header, 48);
    if tid > u32::MAX as u64 {
        return Err(HelperError::TidTooLarge);
    }
    Ok(tid as u32)
}

/// The capture is the one that header and payload hold, without signatures.
pub open spec fn is_capture_in(
    header: Seq<u8>,
    payload: Seq<u8>,
    tid: u32,
    timing: ProbeTiming,
    bits: PointerBits,
    c: ProbeCaptureWithKey,
) -> bool {
    c.tid == tid && c.timing == (ProbeTiming {
        thread_lookup_done: le_u64(header, 16),
        state_done: le_u64(header, 24),
        resume_done: le_u64(header, 32),
        ..timing
    }) && c.queue == (ProbeQueueStats { coalesced_requests: 0, worker_batch_len: 0 }) && c.pc
        == bits.code_of(le_u64(header, 48)) && c.lr == bits.code_of(le_u64(header, 56)) && c.fp
        == bits.data_of(le_u64(header, 64)) && c.sp == bits.data_of(le_u64(header, 72))
        && c.stack.base == bits.data_of(le_u64(header, 72)) && c.stack.bytes@ == payload
}

/// The capture in a reply, where there is one.
pub fn capture_of_reply(
    header: &[u8],
    status: u32,
    payload: Vec<u8>,
    tid: u32,
    timing: ProbeTiming,
    bits: PointerBits,
) -> (r: Option<ProbeCaptureWithKey>)
    requires
        header@.len() == RESPONSE_HEADER_BYTES,
    ensures
        r is Some == (status == HELPER_STATUS_OK),
        r matches Some(c) ==> is_capture_in(header@, payload@, tid, timing, bits, c),
{
    if status != HELPER_STATUS_OK {
        return None;
    }
    let mut timing = timing;
    timing.thread_lookup_done = read_u64(header, 16);
    timing.state_done = read_u64(header, 24);
    timing.resume_done = read_u64(header, 32);
    Some(
        ProbeCaptureWithKey {
            tid,
            timing,
            queue: ProbeQueueStats { coalesced_requests: 0, worker_batch_len: 0 },
            pc: strip_code_pointer(read_u64(header, 48), bits),
            lr: strip_code_pointer(read_u64(header, 56), bits),
            fp: strip_data_pointer(read_u64(header, 64), bits),
            sp: strip_data_pointer(read_u64(header, 72), bits),
            stack: StackSnapshot {
                base: strip_data_pointer(read_u64(header, 72), bits),
                bytes: payload,
            },
        },
    )
}

/// The law of requests: a helper reads what the companion wrote.
pub proof fn requests_are_understood(op: u32, seq: u64, tid: u32)
    ensures
        le_u64(request_of(op, seq, tid), 8) == seq,
        action_of(request_of(op, seq, tid)) == (if op == HELPER_OP_HELLO {
            HelperAction::Hello
        } else if op == HELPER_OP_CAPTURE {
            HelperAction::Capture { tid }
        } else {
            HelperAction::Refuse
        }),
{
    lemma_auto_spec_u32_to_from_le_bytes();
    lemma_auto_spec_u64_to_from_le_bytes();
    let r = request_of(op, seq, tid);
    assert(r.subrange(0, 4) =~= spec_u32_to_le_bytes(HELPER_MAGIC));
    assert(r.subrange(4, 8) =~= spec_u32_to_le_bytes(op));
    assert(r.subrange(8, 16) =~= spec_u64_to_le_bytes(seq));
    assert(r.subrange(16, 20) =~= spec_u32_to_le_bytes(tid));
}

/// What stands in a header.
proof fn lemma_header(status: u32, seq: u64, f: Seq<u64>, n: u32)
    requires
        f.len() == 8,
    ensures
        header_of(status, seq, f, n).len() == RESPONSE_HEADER_BYTES,
        le_u32(header_of(status, seq, f, n), 0) == HELPER_MAGIC,
        le_u32(header_of(status, seq, f, n), 4) == status,
        le_u64(header_of(status, seq, f, n), 8) == seq,
        le_u64(header_of(status, seq, f, n), 16) == f[0],
        le_u64(header_of(status, seq, f, n), 24) == f[1],
        le_u64(header_of(status, seq, f, n), 32) == f[2],
        le_u64(header_of(status, seq, f, n), 40) == f[3],
        le_u64(header_of(status, seq, f, n), 48) == f[4],
        le_u64(header_of(status, seq, f, n), 56) == f[5],
        le_u64(header_of(status, seq, f, n), 64) == f[6],
        le_u64(header_of(status, seq, f, n), 72) == f[7],
        le_u32(header_of(status, seq, f, n), 80) == n,
{
    lemma_auto_spec_u32_to_from_le_bytes();
    lemma_auto_spec_u64_to_from_le_bytes();
    let h = header_of(status, seq, f, n);
    assert(h.subrange(0, 4) =~= spec_u32_to_le_bytes(HELPER_MAGIC));
    assert(h.subrange(4, 8) =~= spec_u32_to_le_bytes(status));
    assert(h.subrange(8, 16) =~= spec_u64_to_le_bytes(seq));
    assert(h.subrange(16, 24) =~= spec_u64_to_le_bytes(f[0]));
    assert(h.subrange(24, 32) =~= spec_u64_to_le_bytes(f[1]));
    assert(h.subrange(32, 40) =~= spec_u64_to_le_bytes(f[2]));
    assert(h.subrange(40, 48) =~= spec_u64_to_le_bytes(f[3]));
    assert(h.subrange(48, 56) =~= spec_u64_to_le_bytes(f[4]));
    assert(h.subrange(56, 64) =~= spec_u64_to_le_bytes(f[5]));
    assert(h.subrange(64, 72) =~= spec_u64_to_le_bytes(f[6]));
    assert(h.subrange(72, 80) =~= spec_u64_to_le_bytes(f[7]));
    assert(h.subrange(80, 84) =~= spec_u32_to_le_bytes(n));
}

/// The law of captures: what the companion reads of a reply is what the helper
/// captured, without signatures, where the stack was captured from the stack pointer on.
pub proof fn captures_come_through(
    seq: u64,
    c: Capture,
    tid: u32,
    timing: ProbeTiming,
    bits: PointerBits,
    got: ProbeCaptureWithKey,
)
    requires
        c.stack.bytes@.len() <= STACK_SNAPSHOT_BYTES,
        c.stack.base == c.sp,
        is_capture_in(
            reply_of(seq, Some(c)).take(RESPONSE_HEADER_BYTES as int),
            reply_of(seq, Some(c)).skip(RESPONSE_HEADER_BYTES as int),
            tid,
            timing,
            bits,
            got,
        ),
    ensures
        reply_in(reply_of(seq, Some(c)).take(RESPONSE_HEADER_BYTES as int), seq) == Ok::<
            HelperReply,
            HelperError,
        >(
            HelperReply {
                status: HELPER_STATUS_OK,
                payload_len: c.stack.bytes@.len() as u32,
            },
        ),
        got.pc == bits.code_of(c.pc),
        got.lr == bits.code_of(c.lr),
        got.fp == bits.data_of(c.fp),
        got.sp == bits.data_of(c.sp),
        got.timing.thread_lookup_done == c.thread_lookup_done,
        got.timing.state_done == c.state_done,
        got.timing.resume_done == c.resume_done,
        got.stack.base == bits.data_of(c.stack.base),
        got.stack.bytes@ == c.stack.bytes@,
{
    let n = c.stack.bytes@.len() as u32;
    let h = header_of(HELPER_STATUS_OK, seq, capture_fields(c), n);
    lemma_header(HELPER_STATUS_OK, seq, capture_fields(c), n);
    let r = reply_of(seq, Some(c));
    assert(r.take(RESPONSE_HEADER_BYTES as int) =~= h);
    assert(r.skip(RESPONSE_HEADER_BYTES as int) =~= c.stack.bytes@);
}

/// The law of the hello: the companion learns the helper's thread.
pub proof fn hello_comes_through(seq: u64, helper_tid: u32)
    ensures
        reply_in(header_of(HELPER_STATUS_OK, seq, hello_fields(helper_tid), 0), seq) == Ok::<
            HelperReply,
            HelperError,
        >(HelperReply { status: HELPER_STATUS_OK, payload_len: 0 }),
        le_u64(header_of(HELPER_STATUS_OK, seq, hello_fields(helper_tid), 0), 48) == helper_tid,
{
    lemma_header(HELPER_STATUS_OK, seq, hello_fields(helper_tid), 0);
}

/// Whether a helper captures a thread: not its own.
pub fn may_capture(helper_tid: u32, tid: u32) -> (r: bool)
    ensures
        r == (tid != helper_tid),
{
    tid != helper_tid
}

/// How much of a stack a helper copies, given where the region that holds it begins
/// and how long it is: up to the end of the region, where that can be read and holds
/// the address, and no more than is captured.
pub fn live_window_len(address: u64, region: Option<(u64, u64)>, readable: bool) -> (n: usize)
    ensures
        n <= STACK_SNAPSHOT_BYTES,
        match region {
            Some((start, size)) => if start > address || !readable {
                n == 0
            } else {
                let end = if start + size > u64::MAX {
                    u64::MAX as int
                } else {
                    start + size
                };
                let rest = if end < address {
                    0int
                } else {
                    end - address
                };
                n == (if rest < STACK_SNAPSHOT_BYTES {
                    rest
                } else {
                    STACK_SNAPSHOT_BYTES as int
                })
            },
            None => n == 0,
        },
{
    match region {
        Some((start, size)) => {
            if start > address || !readable {
                return 0;
            }
            let rest: u64 = start.saturating_add(size).saturating_sub(address);
            if rest < STACK_SNAPSHOT_BYTES as u64 {
                rest as usize
            } else {
                STACK_SNAPSHOT_BYTES
            }
        },
        None => 0,
    }
}

/// A stack that is being read from another process, piece by piece.
#[derive(Clone, Copy, Debug, PartialEq, Eq, Structural)]
pub struct StackWindow {
    pub base: u64,
    pub copied: usize,
    pub done: bool,
}

impl StackWindow {
    /// What is read next: where, and how much.
    pub open spec fn next(self) -> Option<(u64, usize)> {
        if self.done || self.copied >= STACK_SNAPSHOT_BYTES {
            None
        } else {
            Some(
                (
                    if self.base + self.copied > u64::MAX {
                        u64::MAX
                    } else {
                        (self.base + self.copied) as u64
                    },
                    if STACK_SNAPSHOT_BYTES - self.copied < STACK_SNAPSHOT_CHUNK {
                        (STACK_SNAPSHOT_BYTES - self.copied) as usize
                    } else {
                        STACK_SNAPSHOT_CHUNK
                    },
                ),
            )
        }
    }

    /// Nothing read yet, from the stack pointer on.
    pub fn new(sp: u64, bits: PointerBits) -> (w: Self)
        ensures
            w == (StackWindow { base: bits.data_of(sp), copied: 0, done: false }),
    {
        StackWindow { base: strip_data_pointer(sp, bits), copied: 0, done: false }
    }

    /// What is read next.
    pub fn next_read(&self) -> (r: Option<(u64, usize)>)
        ensures
            r == self.next(),
    {
        if self.done || self.copied >= STACK_SNAPSHOT_BYTES {
            return None;
        }
        let rest: usize = STACK_SNAPSHOT_BYTES - self.copied;
        let len: usize = if rest < STACK_SNAPSHOT_CHUNK {
            rest
        } else {
            STACK_SNAPSHOT_CHUNK
        };
        Some((self.base.saturating_add(self.copied as u64), len))
    }

    /// Takes in what came of a read. One that failed or came short is the last.
    pub fn on_read(&mut self, ok: bool, got: usize)
        requires
            old(self).next() is Some,
            got <= (old(self).next()->0).1,
        ensures
            final(self).base == old(self).base,
            if !ok || got == 0 {
                final(self).done && final(self).copied == old(self).copied
            } else {
                final(self).copied == old(self).copied + got && final(self).done == (got
                    != (old(self).next()->0).1)
            },
            final(self).copied <= STACK_SNAPSHOT_BYTES,
    {
        let rest: usize = STACK_SNAPSHOT_BYTES - self.copied;
        let len: usize = if rest < STACK_SNAPSHOT_CHUNK {
            rest
        } else {
            STACK_SNAPSHOT_CHUNK
        };
        if !ok || got == 0 {
            self.done = true;
            return;
        }
        self.copied = self.copied + got;
        if got != len {
            self.done = true;
        }
    }
}

/// A thread, and the port by which it is reached.
#[derive(Clone, Copy, Debug, PartialEq, Eq, Structural)]
pub struct ThreadPort {
    pub tid: u32,
    pub port: u32,
}

/// The ports of the threads that are known.
pub struct ThreadPortCache {
    by_tid: Vec<ThreadPort>,
}

/// The port of a thread, where it is known.
pub open spec fn port_of(s: Seq<ThreadPort>, tid: u32) -> Option<u32>
    decreases s.len(),
{
    if s.len() == 0 {
        None
    } else if s[0].tid == tid {
        Some(s[0].port)
    } else {
        port_of(s.skip(1), tid)
    }
}

/// What becomes of one more port: it is kept for a thread that has none yet.
pub open spec fn absorbed(s: Seq<ThreadPort>, port: u32, tid: Option<u32>) -> Seq<ThreadPort> {
    match tid {
        Some(tid) => if port_of(s, tid) is Some {
            s
        } else {
            s.push(ThreadPort { tid, port })
        },
        None => s,
    }
}

/// What becomes of a list of ports.
pub open spec fn absorbed_all(s: Seq<ThreadPort>, list: Seq<(u32, Option<u32>)>) -> Seq<ThreadPort>
    decreases list.len(),
{
    if list.len() == 0 {
        s
    } else {
        let before = absorbed_all(s, list.drop_last());
        absorbed(before, list.last().0, list.last().1)
    }
}

/// The ports of a list that are not kept, in order.
pub open spec fn released(s: Seq<ThreadPort>, list: Seq<(u32, Option<u32>)>) -> Seq<u32>
    decreases list.len(),
{
    if list.len() == 0 {
        seq![]
    } else {
        let before = absorbed_all(s, list.drop_last());
        let gone = released(s, list.drop_last());
        if absorbed(before, list.last().0, list.last().1) == before {
            gone.push(list.last().0)
        } else {
            gone
        }
    }
}

/// What is left without a thread.
pub open spec fn without_port(s: Seq<ThreadPort>, tid: u32) -> Seq<ThreadPort>
    decreases s.len(),
{
    if s.len() == 0 {
        s
    } else if s[0].tid == tid {
        s.skip(1)
    } else {
        seq![s[0]] + without_port(s.skip(1), tid)
    }
}

/// A list that grows by one more is another list.
proof fn lemma_longer_differs(s: Seq<ThreadPort>, t: ThreadPort)
    ensures
        s.push(t) != s,
{
    assert(s.push(t).len() == s.len() + 1);
}

/// Where a thread first stands, its port stands.
proof fn lemma_port_at(s: Seq<ThreadPort>, tid: u32, i: int)
    requires
        0 <= i <= s.len(),
        forall|j: int| 0 <= j < i ==> (#[trigger] s[j]).tid != tid,
        i < s.len() ==> s[i].tid == tid,
    ensures
        port_of(s, tid) == (if i < s.len() {
            Some(s[i].port)
        } else {
            None
        }),
        without_port(s, tid) == (if i < s.len() {
            s.remove(i)
        } else {
            s
        }),
    decreases i,
{
    if i > 0 {
        let rest = s.skip(1);
        assert forall|j: int| 0 <= j < i - 1 implies (#[trigger] rest[j]).tid != tid by {
            assert(rest[j] == s[j + 1]);
        }
        lemma_port_at(rest, tid, i - 1);
        if i < s.len() {
            assert(seq![s[0]] + rest.remove(i - 1) =~= s.remove(i));
        } else {
            assert(seq![s[0]] + rest =~= s);
        }
    } else if s.len() > 0 {
        assert(s.skip(1) =~= s.remove(0));
    }
}

impl ThreadPortCache {
    /// The ports that are known.
    pub closed spec fn ports(self) -> Seq<ThreadPort> {
        self.by_tid@
    }

    /// No ports.
    pub fn new() -> (c: Self)
        ensures
            c.ports().len() == 0,
    {
        ThreadPortCache { by_tid: Vec::new() }
    }

    /// Where a thread stands, or the end.
    fn find(&self, tid: u32) -> (i: usize)
        ensures
            i <= self.by_tid@.len(),
            forall|j: int| 0 <= j < i ==> (#[trigger] self.by_tid@[j]).tid != tid,
            i < self.by_tid@.len() ==> self.by_tid@[i as int].tid == tid,
    {
        let mut i: usize = 0;
        while i < self.by_tid.len()
            invariant
                i <= self.by_tid@.len(),
                forall|j: int| 0 <= j < i ==> (#[trigger] self.by_tid@[j]).tid != tid,
            decreases self.by_tid@.len() - i,
        {
            if self.by_tid[i].tid == tid {
                return i;
            }
            i = i + 1;
        }
        i
    }

    /// The port of a thread, where it is known.
    pub fn get(&self, tid: u32) -> (p: Option<u32>)
        ensures
            p == port_of(self.ports(), tid),
    {
        let i: usize = self.find(tid);
        proof {
            lemma_port_at(self.by_tid@, tid, i as int);
        }
        if i < self.by_tid.len() {
            Some(self.by_tid[i].port)
        } else {
            None
        }
    }

    /// Forgets a thread; its port is to be released.
    pub fn forget(&mut self, tid: u32) -> (p: Option<u32>)
        ensures
            p == port_of(old(self).ports(), tid),
            final(self).ports() == without_port(old(self).ports(), tid),
    {
        let i: usize = self.find(tid);
        proof {
            lemma_port_at(self.by_tid@, tid, i as int);
        }
        if i < self.by_tid.len() {
            let t = self.by_tid.remove(i);
            Some(t.port)
        } else {
            None
        }
    }

    /// Takes in the ports of all threads, each with its thread where that is known.
    /// Those that are not kept are to be released.
    pub fn refresh(&mut self, list: &Vec<(u32, Option<u32>)>) -> (gone: Vec<u32>)
        ensures
            final(self).ports() == absorbed_all(old(self).ports(), list@),
            gone@ == released(old(self).ports(), list@),
    {
        let ghost given = self.by_tid@;
        let mut gone: Vec<u32> = Vec::new();
        let mut i: usize = 0;
        assert(list@.take(0) =~= seq![]);
        while i < list.len()
            invariant
                i <= list@.len(),
                given == old(self).by_tid@,
                self.by_tid@ == absorbed_all(given, list@.take(i as int)),
                gone@ == released(given, list@.take(i as int)),
            decreases list@.len() - i,
        {
            proof {
                assert(list@.take(i + 1).drop_last() =~= list@.take(i as int));
                assert(list@.take(i + 1).last() == list@[i as int]);
            }
            let ghost before = self.by_tid@;
            let port: u32 = list[i].0;
            match list[i].1 {
                Some(tid) => {
                    match self.get(tid) {
                        Some(_) => {
                            gone.push(port);
                        },
                        None => {
                            self.by_tid.push(ThreadPort { tid, port });
                            proof {
                                lemma_longer_differs(before, ThreadPort { tid, port });
                            }
                        },
                    }
                },
                None => {
                    gone.push(port);
                },
            }
            i = i + 1;
        }
        assert(list@.take(i as int) =~= list@);
        gone
    }

    /// All ports, which are to be released.
    pub fn drain(&mut self) -> (all: Vec<u32>)
        ensures
            final(self).ports().len() == 0,
            all@ == old(self).ports().map_values(|t: ThreadPort| t.port),
    {
        let mut all: Vec<u32> = Vec::new();
        let mut i: usize = 0;
        while i < self.by_tid.len()
            invariant
                i <= self.by_tid@.len(),
                self.by_tid@ == old(self).by_tid@,
                all@.len() == i,
                forall|j: int| 0 <= j < i ==> all@[j] == self.by_tid@[j].port,
            decreases self.by_tid@.len() - i,
        {
            all.push(self.by_tid[i].port);
            i = i + 1;
        }
        assert(all@ =~= self.by_tid@.map_values(|t: ThreadPort| t.port));
        self.by_tid = Vec::new();
        all
    }
}

/// The law of ports: each is either kept or to be released, so none is lost.
pub proof fn no_port_is_lost(s: Seq<ThreadPort>, list: Seq<(u32, Option<u32>)>)
    ensures
        absorbed_all(s, list).len() + released(s, list).len() == s.len() + list.len(),
    decreases list.len(),
{
    if list.len() > 0 {
        no_port_is_lost(s, list.drop_last());
        let before = absorbed_all(s, list.drop_last());
        match list.last().1 {
            Some(tid) => {
                lemma_longer_differs(before, ThreadPort { tid, port: list.last().0 });
            },
            None => {},
        }
    }
}

/// Which step of probing a thread failed.
#[derive(Clone, Copy, Debug, PartialEq, Eq, Structural)]
pub enum ProbeStep {
    Suspend,
    ReadState,
    Resume,
}

/// Why a thread could not be probed.
#[derive(Clone, Copy, Debug, PartialEq, Eq, Structural)]
pub struct ProbeError {
    pub op: ProbeStep,
    pub kr: i32,
}

/// What probing a thread comes to, by what its steps came to: the thread is stopped,
/// read and let go again, and the first step that fails is the error. One whose
/// registers cannot be read is let go all the same, whatever comes of that.
pub fn probe_result(suspend: i32, state: i32, resume: i32) -> (r: Result<(), ProbeError>)
    ensures
        r == (if suspend != 0 {
            Err::<(), ProbeError>(ProbeError { op: ProbeStep::Suspend, kr: suspend })
        } else if state != 0 {
            Err(ProbeError { op: ProbeStep::ReadState, kr: state })
        } else if resume != 0 {
            Err(ProbeError { op: ProbeStep::Resume, kr: resume })
        } else {
            Ok(())
        }),
{
    if suspend != 0 {
        return Err(ProbeError { op: ProbeStep::Suspend, kr: suspend });
    }
    if state != 0 {
        return Err(ProbeError { op: ProbeStep::ReadState, kr: state });
    }
    if resume != 0 {
        return Err(ProbeError { op: ProbeStep::Resume, kr: resume });
    }
    Ok(())
}

/// The law of known threads: the port of a thread is the first that is known for it, and none is known
/// for another one.
pub proof fn known_ports_are_found(s: Seq<ThreadPort>, i: int, tid: u32)
    requires
        0 <= i < s.len(),
        forall|j: int| 0 <= j < i ==> (#[trigger] s[j]).tid != s[i].tid,
    ensures
        port_of(s, s[i].tid) == Some(s[i].port),
        (forall|j: int| 0 <= j < s.len() ==> (#[trigger] s[j]).tid != tid) ==> port_of(s, tid)
            is None,
    decreases s.len(),
{
    let rest = s.skip(1);
    assert(forall|j: int| 0 <= j < rest.len() ==> #[trigger] rest[j] == s[j + 1]);
    if i > 0 {
        assert(s[0].tid != s[i].tid);
        assert(rest[i - 1] == s[i]);
        known_ports_are_found(rest, i - 1, tid);
    } else {
        lemma_no_port(s, tid);
    }
}

proof fn lemma_no_port(s: Seq<ThreadPort>, tid: u32)
    ensures
        (forall|j: int| 0 <= j < s.len() ==> (#[trigger] s[j]).tid != tid) ==> port_of(s, tid)
            is None,
    decreases s.len(),
{
    if s.len() > 0 {
        let rest = s.skip(1);
        lemma_no_port(rest, tid);
        if forall|j: int| 0 <= j < s.len() ==> (#[trigger] s[j]).tid != tid {
            assert forall|j: int| 0 <= j < rest.len() implies (#[trigger] rest[j]).tid != tid by {
                assert(rest[j] == s[j + 1]);
            }
            assert(s[0].tid != tid);
        }
    }
}

/// The law of forgetting: the port of the thread goes, and every other one stays where it was.
pub proof fn forgetting_takes_one_port(s: Seq<ThreadPort>, i: int)
    requires
        0 <= i < s.len(),
        forall|j: int| 0 <= j < i ==> (#[trigger] s[j]).tid != s[i].tid,
    ensures
        without_port(s, s[i].tid) == s.remove(i),
    decreases s.len(),
{
    let rest = s.skip(1);
    if i > 0 {
        assert(forall|j: int| 0 <= j < rest.len() ==> #[trigger] rest[j] == s[j + 1]);
        assert(s[0].tid != s[i].tid);
        forgetting_takes_one_port(rest, i - 1);
        assert(seq![s[0]] + rest.remove(i - 1) =~= s.remove(i));
    } else {
        assert(rest =~= s.remove(0));
    }
}

proof fn lemma_port_behind(s: Seq<ThreadPort>, t: ThreadPort, tid: u32)
    ensures
        port_of(s.push(t), tid) == (if port_of(s, tid) is Some {
            port_of(s, tid)
        } else if t.tid == tid {
            Some(t.port)
        } else {
            None
        }),
    decreases s.len(),
{
    if s.len() > 0 {
        lemma_port_behind(s.skip(1), t, tid);
        assert(s.push(t).skip(1) =~= s.skip(1).push(t));
    } else {
        assert(s.push(t).skip(1) =~= s);
    }
}

/// The law of looking again: a thread that was known keeps its port, and of one that was not the first
/// port that the list gives it is known then.
pub proof fn looking_again_learns_ports(
    s: Seq<ThreadPort>,
    list: Seq<(u32, Option<u32>)>,
    tid: u32,
    i: int,
)
    ensures
        port_of(s, tid) is Some ==> port_of(absorbed_all(s, list), tid) == port_of(s, tid),
        port_of(s, tid) is None && 0 <= i < list.len() && list[i].1 == Some(tid) && (forall|j: int|
            0 <= j < i ==> (#[trigger] list[j]).1 != Some(tid)) ==> port_of(
            absorbed_all(s, list),
            tid,
        ) == Some(list[i].0),
        port_of(s, tid) is None && (forall|j: int|
            0 <= j < list.len() ==> (#[trigger] list[j]).1 != Some(tid)) ==> port_of(
            absorbed_all(s, list),
            tid,
        ) is None,
    decreases list.len(),
{
    if list.len() > 0 {
        let init = list.drop_last();
        let last = list.last();
        assert(forall|j: int| 0 <= j < init.len() ==> #[trigger] init[j] == list[j]);
        assert(list[list.len() - 1] == last);
        let before = absorbed_all(s, init);
        looking_again_learns_ports(s, init, tid, i);
        match last.1 {
            Some(new) => {
                lemma_port_behind(before, ThreadPort { tid: new, port: last.0 }, tid);
            },
            None => {},
        }
        if forall|j: int| 0 <= j < list.len() ==> (#[trigger] list[j]).1 != Some(tid) {
            assert(forall|j: int| 0 <= j < init.len() ==> (#[trigger] init[j]).1 != Some(tid));
        }
        if 0 <= i < list.len() && (forall|j: int|
            0 <= j < i ==> (#[trigger] list[j]).1 != Some(tid)) {
            if i < init.len() {
                assert(forall|j: int| 0 <= j < i ==> (#[trigger] init[j]).1 != Some(tid));
            } else {
                assert(forall|j: int| 0 <= j < init.len() ==> (#[trigger] init[j]).1 != Some(tid));
            }
        }
    }
}

/// The law of stack reads: each begins where the last one ended, and all of them together take half a
/// mebibyte at most.
pub proof fn stack_reads_meet(w: StackWindow)
    requires
        w.base + 512 * 1024 <= u64::MAX,
    ensures
        !w.done && w.copied < 512 * 1024 ==> w.next() is Some && (w.next()->0).0 == w.base + w.copied
            && 0 < (w.next()->0).1 <= 16 * 1024 && w.copied + (w.next()->0).1 <= 512 * 1024,
        !w.done && w.copied + 16 * 1024 <= 512 * 1024 ==> (w.next()->0).1 == 16 * 1024,
        w.done || w.copied >= 512 * 1024 ==> w.next() is None,
{
}

/// The law of replies: one is taken where it bears the mark and the number of its request and brings no
/// more of the stack than is taken of it.
pub proof fn replies_are_checked(header: Seq<u8>, seq: u64)
    ensures
        reply_in(header, seq) is Ok == (le_u32(header, 0) == 0x3158_5453 && le_u64(header, 8) == seq
            && le_u32(header, 80) <= 512 * 1024),
        reply_in(header, seq) matches Ok(r) ==> r.status == le_u32(header, 4) && r.payload_len
            == le_u32(header, 80),
{
}

/// The law of ports that are known: looking again learns no thread twice, and a thread that is known adds
/// nothing.
pub proof fn known_threads_are_learned_once(s: Seq<ThreadPort>, port: u32, tid: u32)
    ensures
        port_of(s, tid) is Some ==> absorbed(s, port, Some(tid)) == s,
        port_of(s, tid) is None ==> absorbed(s, port, Some(tid)) == s.push(ThreadPort { tid, port }),
        absorbed(s, port, None) == s,
{
}

} // verus!
