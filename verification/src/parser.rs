//! Samples put together from trace records.
//!
//! A sample of a thread comes as a run of records: one that opens it, headers that
//! say how many frames follow, records of four frames each, counters, and one that
//! closes it.
use vstd::prelude::*;

use crate::kdebug::{
    class_of, code_of, func_of, kdbg_class, kdbg_code, kdbg_func, kdbg_subclass, subclass_of,
    KdBuf, CS_ERROR, CS_KDATA, CS_KHDR, CS_KSAMPLE, CS_UDATA, CS_UHDR, DBG_FUNC_END,
    DBG_FUNC_START, DBG_PERF, KDBG_TIMESTAMP_MASK, KPC_DATA_THREAD, PERF_CALLSTACK, PERF_GENERIC,
    PERF_KPC,
};
use crate::probe_timing::sat_add;

verus! {

/// One completed sample, callee first.
pub struct Sample {
    pub timestamp_ns: u64,
    pub tid: u32,
    pub user_backtrace: Vec<u64>,
    /// Empty where no kernel walk was attempted or it failed.
    pub kernel_backtrace: Vec<u64>,
    /// Hardware counters: cycles, instructions, then those that were configured.
    pub pmc: Vec<u64>,
}

/// The model of a [`Sample`].
pub struct SampleView {
    pub timestamp_ns: u64,
    pub tid: u32,
    pub user_backtrace: Seq<u64>,
    pub kernel_backtrace: Seq<u64>,
    pub pmc: Seq<u64>,
}

impl View for Sample {
    type V = SampleView;

    open spec fn view(&self) -> SampleView {
        SampleView {
            timestamp_ns: self.timestamp_ns,
            tid: self.tid,
            user_backtrace: self.user_backtrace@,
            kernel_backtrace: self.kernel_backtrace@,
            pmc: self.pmc@,
        }
    }
}

/// The model of an optional sample.
pub open spec fn opt_sample(s: Option<Sample>) -> Option<SampleView> {
    match s {
        Some(s) => Some(s@),
        None => None,
    }
}

/// What the parser has seen. Counts stop at what fits.
#[derive(Clone, Copy, Debug, PartialEq, Eq, Structural)]
pub struct ParserStats {
    pub samples_emitted: u64,
    pub samples_started: u64,
    pub samples_orphaned: u64,
    pub user_walk_errors: u64,
    pub kernel_walk_errors: u64,
}

impl Default for ParserStats {
    fn default() -> (r: Self)
        ensures
            r == ParserStats::none(),
    {
        ParserStats {
            samples_emitted: 0,
            samples_started: 0,
            samples_orphaned: 0,
            user_walk_errors: 0,
            kernel_walk_errors: 0,
        }
    }
}

impl ParserStats {
    /// Nothing seen.
    pub open spec fn none() -> ParserStats {
        ParserStats {
            samples_emitted: 0,
            samples_started: 0,
            samples_orphaned: 0,
            user_walk_errors: 0,
            kernel_walk_errors: 0,
        }
    }
}

/// The sample that is being put together.
#[derive(Clone, Copy, Debug, PartialEq, Eq, Structural)]
pub enum ParserState {
    Idle,
    InSample { tid: u32, timestamp_ns: u64 },
}

/// Puts samples together from trace records.
pub struct Parser {
    state: ParserState,
    user_frames: Vec<u64>,
    kernel_frames: Vec<u64>,
    pmc: Vec<u64>,
    user_remaining: u32,
    kernel_remaining: u32,
    pub stats: ParserStats,
}

/// The model of a [`Parser`].
pub struct ParserView {
    pub state: ParserState,
    pub user_frames: Seq<u64>,
    pub kernel_frames: Seq<u64>,
    pub pmc: Seq<u64>,
    pub user_remaining: u32,
    pub kernel_remaining: u32,
    pub stats: ParserStats,
}

impl View for Parser {
    type V = ParserView;

    closed spec fn view(&self) -> ParserView {
        ParserView {
            state: self.state,
            user_frames: self.user_frames@,
            kernel_frames: self.kernel_frames@,
            pmc: self.pmc@,
            user_remaining: self.user_remaining,
            kernel_remaining: self.kernel_remaining,
            stats: self.stats,
        }
    }
}

/// The frames in front of the first null, which ends a walk.
pub open spec fn until_null(s: Seq<u64>) -> Seq<u64>
    decreases s.len(),
{
    if s.len() == 0 {
        s
    } else if until_null(s.drop_last()).len() < s.len() - 1 || s.last() == 0 {
        until_null(s.drop_last())
    } else {
        s
    }
}

/// The counters up to the last that is not zero; what follows is padding.
pub open spec fn without_padding(s: Seq<u64>) -> Seq<u64>
    decreases s.len(),
{
    if s.len() > 0 && s.last() == 0 {
        without_padding(s.drop_last())
    } else {
        s
    }
}

/// The sum of two counts, at most what fits.
pub open spec fn sat_add32(a: u32, b: u32) -> u32 {
    if a + b > u32::MAX {
        u32::MAX
    } else {
        (a + b) as u32
    }
}

/// The four numbers that a record carries.
pub open spec fn args_of(rec: KdBuf) -> Seq<u64> {
    seq![rec.arg1, rec.arg2, rec.arg3, rec.arg4]
}

/// The frames of one more record, of which `remaining` still belong to the stack.
pub open spec fn with_chunk(frames: Seq<u64>, remaining: u32, rec: KdBuf) -> Seq<u64> {
    frames + args_of(rec).take(if remaining < 4 {
        remaining as int
    } else {
        4
    })
}

/// What is left of a count of frames after one more record.
pub open spec fn less_chunk(remaining: u32) -> u32 {
    if remaining < 4 {
        0
    } else {
        (remaining - 4) as u32
    }
}

/// What a record means to the parser.
pub enum RecordKind {
    Start,
    End,
    UserHeader,
    UserFrames,
    KernelHeader,
    KernelFrames,
    Counters,
    WalkError,
    Other,
}

/// What a record means to the parser.
pub open spec fn kind_of(rec: KdBuf) -> RecordKind {
    let subclass = subclass_of(rec.debugid);
    let code = code_of(rec.debugid);
    let func = func_of(rec.debugid);
    if class_of(rec.debugid) != DBG_PERF {
        RecordKind::Other
    } else if subclass == PERF_GENERIC && code == 0 && func == DBG_FUNC_START {
        RecordKind::Start
    } else if subclass == PERF_GENERIC && code == 0 && func == DBG_FUNC_END {
        RecordKind::End
    } else if subclass == PERF_CALLSTACK && code == CS_UHDR {
        RecordKind::UserHeader
    } else if subclass == PERF_CALLSTACK && code == CS_UDATA {
        RecordKind::UserFrames
    } else if subclass == PERF_CALLSTACK && code == CS_KHDR {
        RecordKind::KernelHeader
    } else if subclass == PERF_CALLSTACK && code == CS_KDATA {
        RecordKind::KernelFrames
    } else if subclass == PERF_KPC && code == KPC_DATA_THREAD {
        RecordKind::Counters
    } else if subclass == PERF_CALLSTACK && code == CS_ERROR {
        RecordKind::WalkError
    } else {
        RecordKind::Other
    }
}

/// What a record means to the parser.
fn classify_record(rec: &KdBuf) -> (k: RecordKind)
    ensures
        k == kind_of(*rec),
{
    if kdbg_class(rec.debugid) != DBG_PERF {
        return RecordKind::Other;
    }
    let subclass: u8 = kdbg_subclass(rec.debugid);
    let code: u16 = kdbg_code(rec.debugid);
    let func: u32 = kdbg_func(rec.debugid);
    if subclass == PERF_GENERIC && code == 0 && func == DBG_FUNC_START {
        RecordKind::Start
    } else if subclass == PERF_GENERIC && code == 0 && func == DBG_FUNC_END {
        RecordKind::End
    } else if subclass == PERF_CALLSTACK && code == CS_UHDR {
        RecordKind::UserHeader
    } else if subclass == PERF_CALLSTACK && code == CS_UDATA {
        RecordKind::UserFrames
    } else if subclass == PERF_CALLSTACK && code == CS_KHDR {
        RecordKind::KernelHeader
    } else if subclass == PERF_CALLSTACK && code == CS_KDATA {
        RecordKind::KernelFrames
    } else if subclass == PERF_KPC && code == KPC_DATA_THREAD {
        RecordKind::Counters
    } else if subclass == PERF_CALLSTACK && code == CS_ERROR {
        RecordKind::WalkError
    } else {
        RecordKind::Other
    }
}

impl ParserView {
    /// A parser that has seen nothing.
    pub open spec fn fresh() -> ParserView {
        ParserView {
            state: ParserState::Idle,
            user_frames: seq![],
            kernel_frames: seq![],
            pmc: seq![],
            user_remaining: 0,
            kernel_remaining: 0,
            stats: ParserStats::none(),
        }
    }

    /// The parser after one more record. Frames and counters outside of a sample
    /// are dropped; a sample that is opened over another one orphans it.
    pub open spec fn fed(self, rec: KdBuf) -> ParserView {
        let inside = self.state is InSample;
        match kind_of(rec) {
            RecordKind::Start => ParserView {
                state: ParserState::InSample {
                    tid: rec.arg5 as u32,
                    timestamp_ns: rec.timestamp & KDBG_TIMESTAMP_MASK,
                },
                user_frames: seq![],
                kernel_frames: seq![],
                pmc: seq![],
                user_remaining: 0,
                kernel_remaining: 0,
                stats: ParserStats {
                    samples_started: sat_add(self.stats.samples_started, 1),
                    samples_orphaned: if inside {
                        sat_add(self.stats.samples_orphaned, 1)
                    } else {
                        self.stats.samples_orphaned
                    },
                    ..self.stats
                },
            },
            RecordKind::End => ParserView {
                state: ParserState::Idle,
                stats: ParserStats {
                    samples_emitted: if inside {
                        sat_add(self.stats.samples_emitted, 1)
                    } else {
                        self.stats.samples_emitted
                    },
                    ..self.stats
                },
                ..self
            },
            RecordKind::UserHeader => if inside {
                ParserView {
                    user_remaining: sat_add32(rec.arg2 as u32, rec.arg4 as u32),
                    ..self
                }
            } else {
                self
            },
            RecordKind::UserFrames => if inside {
                ParserView {
                    user_frames: with_chunk(self.user_frames, self.user_remaining, rec),
                    user_remaining: less_chunk(self.user_remaining),
                    ..self
                }
            } else {
                self
            },
            RecordKind::KernelHeader => if inside {
                ParserView {
                    kernel_remaining: sat_add32(rec.arg2 as u32, rec.arg4 as u32),
                    ..self
                }
            } else {
                self
            },
            RecordKind::KernelFrames => if inside {
                ParserView {
                    kernel_frames: with_chunk(self.kernel_frames, self.kernel_remaining, rec),
                    kernel_remaining: less_chunk(self.kernel_remaining),
                    ..self
                }
            } else {
                self
            },
            RecordKind::Counters => if inside {
                ParserView { pmc: self.pmc + args_of(rec), ..self }
            } else {
                self
            },
            RecordKind::WalkError => if rec.arg1 == CS_KSAMPLE as u64 {
                ParserView {
                    stats: ParserStats {
                        kernel_walk_errors: sat_add(self.stats.kernel_walk_errors, 1),
                        ..self.stats
                    },
                    ..self
                }
            } else {
                ParserView {
                    stats: ParserStats {
                        user_walk_errors: sat_add(self.stats.user_walk_errors, 1),
                        ..self.stats
                    },
                    ..self
                }
            },
            RecordKind::Other => self,
        }
    }

    /// The sample that a record completes.
    pub open spec fn completed(self, rec: KdBuf) -> Option<SampleView> {
        match (kind_of(rec), self.state) {
            (RecordKind::End, ParserState::InSample { tid, timestamp_ns }) => Some(
                SampleView {
                    timestamp_ns,
                    tid,
                    user_backtrace: until_null(self.user_frames),
                    kernel_backtrace: until_null(self.kernel_frames),
                    pmc: without_padding(self.pmc),
                },
            ),
            _ => None,
        }
    }
}

/// The frames in front of the first null are no nulls, and the next one is.
pub proof fn until_null_has_no_null(s: Seq<u64>)
    ensures
        until_null(s).len() <= s.len(),
        until_null(s) == s.take(until_null(s).len() as int),
        forall|i: int| 0 <= i < until_null(s).len() ==> #[trigger] until_null(s)[i] != 0,
        until_null(s).len() < s.len() ==> s[until_null(s).len() as int] == 0,
    decreases s.len(),
{
    if s.len() > 0 {
        until_null_has_no_null(s.drop_last());
        let u = until_null(s.drop_last());
        if u.len() < s.len() - 1 || s.last() == 0 {
            assert(s.take(u.len() as int) =~= s.drop_last().take(u.len() as int));
        } else {
            assert(u =~= s.drop_last());
            assert(s.take(s.len() as int) =~= s);
            assert forall|i: int| 0 <= i < s.len() implies #[trigger] s[i] != 0 by {
                if i < s.len() - 1 {
                    assert(u[i] != 0);
                }
            }
        }
    } else {
        assert(s.take(0) =~= s);
    }
}

/// The frames in front of the first null.
fn take_until_null(s: &Vec<u64>) -> (r: Vec<u64>)
    ensures
        r@ == until_null(s@),
{
    let mut r: Vec<u64> = Vec::new();
    let mut i: usize = 0;
    assert(s@.take(0) =~= seq![]);
    while i < s.len() && s[i] != 0
        invariant
            i <= s@.len(),
            r@ == s@.take(i as int),
            forall|k: int| 0 <= k < i ==> s@[k] != 0,
        decreases s@.len() - i,
    {
        r.push(s[i]);
        i = i + 1;
        assert(r@ =~= s@.take(i as int));
    }
    proof {
        until_null_has_no_null(s@);
        let n = until_null(s@).len() as int;
        if n < i {
            assert(s@[n] != 0);
        }
        if i < n {
            assert(until_null(s@)[i as int] == s@.take(n)[i as int]);
        }
    }
    r
}

/// The counters without their padding.
fn take_without_padding(s: &Vec<u64>) -> (r: Vec<u64>)
    ensures
        r@ == without_padding(s@),
{
    let mut n: usize = s.len();
    assert(s@.take(n as int) =~= s@);
    while n > 0 && s[n - 1] == 0
        invariant
            n <= s@.len(),
            without_padding(s@) == without_padding(s@.take(n as int)),
        decreases n,
    {
        assert(s@.take(n as int).drop_last() =~= s@.take(n - 1));
        n = n - 1;
    }
    let r = vstd::slice::slice_to_vec(vstd::slice::slice_subrange(s.as_slice(), 0, n));
    assert(r@ =~= s@.take(n as int));
    r
}

/// The sum of two counts, at most what fits.
fn add_counts(a: u32, b: u32) -> (r: u32)
    ensures
        r == sat_add32(a, b),
{
    a.saturating_add(b)
}

impl Parser {
    /// A parser that has seen nothing.
    pub fn new() -> (p: Self)
        ensures
            p@ == ParserView::fresh(),
    {
        Parser {
            state: ParserState::Idle,
            user_frames: Vec::new(),
            kernel_frames: Vec::new(),
            pmc: Vec::new(),
            user_remaining: 0,
            kernel_remaining: 0,
            stats: ParserStats::default(),
        }
    }

    /// What has been counted so far.
    pub fn stats(&self) -> (s: ParserStats)
        ensures
            s == self@.stats,
    {
        self.stats
    }

    /// Takes one record in, and hands out the sample that it completes.
    pub fn feed(&mut self, rec: &KdBuf) -> (out: Option<Sample>)
        ensures
            final(self)@ == old(self)@.fed(*rec),
            opt_sample(out) == old(self)@.completed(*rec),
    {
        let inside = match self.state {
            ParserState::InSample { .. } => true,
            ParserState::Idle => false,
        };
        match classify_record(rec) {
            RecordKind::Start => {
                if inside {
                    self.stats.samples_orphaned = self.stats.samples_orphaned.saturating_add(1);
                }
                self.user_frames.clear();
                self.kernel_frames.clear();
                self.pmc.clear();
                self.user_remaining = 0;
                self.kernel_remaining = 0;
                self.state = ParserState::InSample {
                    tid: rec.arg5 as u32,
                    timestamp_ns: rec.timestamp & KDBG_TIMESTAMP_MASK,
                };
                self.stats.samples_started = self.stats.samples_started.saturating_add(1);
                None
            },
            RecordKind::End => {
                let out = match self.state {
                    ParserState::InSample { tid, timestamp_ns } => {
                        let sample = Sample {
                            timestamp_ns,
                            tid,
                            user_backtrace: take_until_null(&self.user_frames),
                            kernel_backtrace: take_until_null(&self.kernel_frames),
                            pmc: take_without_padding(&self.pmc),
                        };
                        self.stats.samples_emitted = self.stats.samples_emitted.saturating_add(1);
                        Some(sample)
                    },
                    ParserState::Idle => None,
                };
                self.state = ParserState::Idle;
                out
            },
            RecordKind::UserHeader => {
                if inside {
                    self.user_remaining = add_counts(rec.arg2 as u32, rec.arg4 as u32);
                }
                None
            },
            RecordKind::UserFrames => {
                if inside {
                    self.append_chunk(rec, true);
                }
                None
            },
            RecordKind::KernelHeader => {
                if inside {
                    self.kernel_remaining = add_counts(rec.arg2 as u32, rec.arg4 as u32);
                }
                None
            },
            RecordKind::KernelFrames => {
                if inside {
                    self.append_chunk(rec, false);
                }
                None
            },
            RecordKind::Counters => {
                if inside {
                    let ghost before = self.pmc@;
                    self.pmc.push(rec.arg1);
                    self.pmc.push(rec.arg2);
                    self.pmc.push(rec.arg3);
                    self.pmc.push(rec.arg4);
                    assert(self.pmc@ =~= before + args_of(*rec));
                }
                None
            },
            RecordKind::WalkError => {
                if rec.arg1 == CS_KSAMPLE as u64 {
                    self.stats.kernel_walk_errors = self.stats.kernel_walk_errors.saturating_add(1);
                } else {
                    self.stats.user_walk_errors = self.stats.user_walk_errors.saturating_add(1);
                }
                None
            },
            RecordKind::Other => None,
        }
    }

    /// Appends the frames of one record to the user or the kernel stack.
    fn append_chunk(&mut self, rec: &KdBuf, user: bool)
        ensures
            final(self)@ == (if user {
                ParserView {
                    user_frames: with_chunk(
                        old(self)@.user_frames,
                        old(self)@.user_remaining,
                        *rec,
                    ),
                    user_remaining: less_chunk(old(self)@.user_remaining),
                    ..old(self)@
                }
            } else {
                ParserView {
                    kernel_frames: with_chunk(
                        old(self)@.kernel_frames,
                        old(self)@.kernel_remaining,
                        *rec,
                    ),
                    kernel_remaining: less_chunk(old(self)@.kernel_remaining),
                    ..old(self)@
                }
            }),
    {
        if user {
            push_chunk(&mut self.user_frames, rec, self.user_remaining);
            self.user_remaining = self.user_remaining.saturating_sub(4);
        } else {
            push_chunk(&mut self.kernel_frames, rec, self.kernel_remaining);
            self.kernel_remaining = self.kernel_remaining.saturating_sub(4);
        }
    }
}

/// Appends the first `remaining` of the four numbers that a record carries.
fn push_chunk(frames: &mut Vec<u64>, rec: &KdBuf, remaining: u32)
    ensures
        final(frames)@ == with_chunk(old(frames)@, remaining, *rec),
{
    if remaining > 0 {
        frames.push(rec.arg1);
    }
    if remaining > 1 {
        frames.push(rec.arg2);
    }
    if remaining > 2 {
        frames.push(rec.arg3);
    }
    if remaining > 3 {
        frames.push(rec.arg4);
    }
    assert(frames@ =~= with_chunk(old(frames)@, remaining, *rec));
}

impl Default for Parser {
    fn default() -> (p: Self)
        ensures
            p@ == ParserView::fresh(),
    {
        Parser::new()
    }
}

/// Every sample that was opened has been handed out, was orphaned, or is still open.
pub open spec fn samples_balance(p: ParserView) -> bool {
    p.stats.samples_started == p.stats.samples_emitted + p.stats.samples_orphaned + (if p.state is InSample {
        1int
    } else {
        0
    })
}

/// The balance of samples holds at first and is kept by every record, as long as the
/// counts have room.
pub proof fn records_keep_the_balance(p: ParserView, rec: KdBuf)
    requires
        samples_balance(p),
        p.stats.samples_started < u64::MAX,
    ensures
        samples_balance(ParserView::fresh()),
        samples_balance(p.fed(rec)),
{
}

/// No frame of a completed sample is null, and its counters do not end in padding.
pub proof fn completed_samples_are_trimmed(p: ParserView, rec: KdBuf)
    ensures
        p.completed(rec) matches Some(s) ==> {
            &&& forall|i: int| 0 <= i < s.user_backtrace.len() ==> #[trigger] s.user_backtrace[i] != 0
            &&& forall|i: int|
                0 <= i < s.kernel_backtrace.len() ==> #[trigger] s.kernel_backtrace[i] != 0
            &&& s.pmc.len() > 0 ==> s.pmc.last() != 0
        },
{
    until_null_has_no_null(p.user_frames);
    until_null_has_no_null(p.kernel_frames);
    lemma_without_padding(p.pmc);
}

/// What is left of the counters does not end in zero.
proof fn lemma_without_padding(s: Seq<u64>)
    ensures
        without_padding(s).len() > 0 ==> without_padding(s).last() != 0,
    decreases s.len(),
{
    if s.len() > 0 && s.last() == 0 {
        lemma_without_padding(s.drop_last());
    }
}

/// The parser after some records, one behind the other.
pub open spec fn after_all(p: ParserView, recs: Seq<KdBuf>) -> ParserView
    decreases recs.len(),
{
    if recs.len() == 0 {
        p
    } else {
        after_all(p, recs.drop_last()).fed(recs.last())
    }
}

/// No record of these completes a sample.
pub open spec fn completes_nothing(p: ParserView, recs: Seq<KdBuf>) -> bool
    decreases recs.len(),
{
    recs.len() == 0 || (completes_nothing(p, recs.drop_last()) && after_all(
        p,
        recs.drop_last(),
    ).completed(recs.last()) is None)
}

/// The number in one of the four places of a record.
pub open spec fn number_in(rec: KdBuf, place: int) -> u64 {
    if place == 0 {
        rec.arg1
    } else if place == 1 {
        rec.arg2
    } else if place == 2 {
        rec.arg3
    } else {
        rec.arg4
    }
}

/// The records carry the numbers in their order, four each; what stands behind the last number
/// does not matter.
pub open spec fn carry(recs: Seq<KdBuf>, numbers: Seq<u64>) -> bool {
    &&& 4 * recs.len() >= numbers.len() > 4 * recs.len() - 4
    &&& forall|i: int|
        0 <= i < numbers.len() ==> #[trigger] numbers[i] == number_in(recs[i / 4], i % 4)
}

/// The record has the identifier, whatever its function is.
pub open spec fn has_id(rec: KdBuf, id: u32) -> bool {
    rec.debugid & 0xffff_fffc == id
}

/// All records have the identifier.
pub open spec fn all_have_id(recs: Seq<KdBuf>, id: u32) -> bool {
    forall|i: int| 0 <= i < recs.len() ==> has_id(#[trigger] recs[i], id)
}

/// The header announces a number of frames.
pub open spec fn announces(rec: KdBuf, n: nat) -> bool {
    rec.arg2 + rec.arg4 == n && n <= u32::MAX
}

/// What an identifier says, read off its bits.
proof fn lemma_kinds(rec: KdBuf)
    ensures
        rec.debugid == 0x2500_0001 ==> kind_of(rec) is Start,
        rec.debugid == 0x2500_0002 ==> kind_of(rec) is End,
        has_id(rec, 0x2502_0018) ==> kind_of(rec) is UserHeader,
        has_id(rec, 0x2502_0010) ==> kind_of(rec) is UserFrames,
        has_id(rec, 0x2502_0014) ==> kind_of(rec) is KernelHeader,
        has_id(rec, 0x2502_000c) ==> kind_of(rec) is KernelFrames,
        has_id(rec, 0x2506_0020) ==> kind_of(rec) is Counters,
        has_id(rec, 0x2502_001c) ==> kind_of(rec) is WalkError,
        rec.debugid >> 24 != 0x25 ==> kind_of(rec) is Other,
{
    let id = rec.debugid;
    assert(id & 0xffff_fffc == 0x2502_0018u32 || id & 0xffff_fffc == 0x2502_0010u32 || id
        & 0xffff_fffc == 0x2502_0014u32 || id & 0xffff_fffc == 0x2502_000cu32 || id & 0xffff_fffc
        == 0x2502_001cu32 || id & 0xffff_fffc == 0x2506_0020u32 || id & 0xffff_fffc
        == 0x2500_0000u32 ==> ((id >> 24) & 0xff) as u8 == 37u8 && ((id >> 16) & 0xff) as u8 == (((
    id & 0xffff_fffc) >> 16) & 0xff) as u8 && ((id >> 2) & 0x3fff) as u16 == (((id & 0xffff_fffc)
        >> 2) & 0x3fff) as u16) by (bit_vector);
    assert(((0x2502_0018u32 >> 16) & 0xff) as u8 == 2u8 && ((0x2502_0018u32 >> 2) & 0x3fff) as u16
        == 6u16 && ((0x2502_0010u32 >> 16) & 0xff) as u8 == 2u8 && ((0x2502_0010u32 >> 2) & 0x3fff)
        as u16 == 4u16 && ((0x2502_0014u32 >> 16) & 0xff) as u8 == 2u8 && ((0x2502_0014u32 >> 2)
        & 0x3fff) as u16 == 5u16 && ((0x2502_000cu32 >> 16) & 0xff) as u8 == 2u8 && ((
    0x2502_000cu32 >> 2) & 0x3fff) as u16 == 3u16 && ((0x2502_001cu32 >> 16) & 0xff) as u8 == 2u8
        && ((0x2502_001cu32 >> 2) & 0x3fff) as u16 == 7u16 && ((0x2506_0020u32 >> 16) & 0xff) as u8
        == 6u8 && ((0x2506_0020u32 >> 2) & 0x3fff) as u16 == 8u16 && ((0x2500_0000u32 >> 16) & 0xff)
        as u8 == 0u8 && ((0x2500_0000u32 >> 2) & 0x3fff) as u16 == 0u16) by (bit_vector);
    assert(id == 0x2500_0001u32 || id == 0x2500_0002u32 ==> id & 0xffff_fffc == 0x2500_0000u32 && (
    id & 0x3) == id - 0x2500_0000u32) by (bit_vector);
    assert(id >> 24 != 0x25u32 ==> ((id >> 24) & 0xff) as u8 != 37u8) by (bit_vector);
}

/// Going on with more records.
proof fn lemma_after_more(p: ParserView, recs: Seq<KdBuf>, more: Seq<KdBuf>)
    ensures
        after_all(after_all(p, recs), more) == after_all(p, recs + more),
    decreases more.len(),
{
    if more.len() == 0 {
        assert(recs + more =~= recs);
    } else {
        lemma_after_more(p, recs, more.drop_last());
        assert((recs + more).drop_last() =~= recs + more.drop_last());
    }
}

/// The frames of a record, as far as they belong to the stack, go behind those before.
proof fn lemma_carried_chunk(recs: Seq<KdBuf>, frames: Seq<u64>, k: int)
    requires
        carry(recs, frames),
        0 <= k < recs.len(),
        frames.len() <= u32::MAX,
    ensures
        with_chunk(frames.take(4 * k), (frames.len() - 4 * k) as u32, recs[k]) == frames.take(
            if 4 * k + 4 < frames.len() {
                4 * k + 4
            } else {
                frames.len() as int
            },
        ),
{
    let end = if 4 * k + 4 < frames.len() {
        4 * k + 4
    } else {
        frames.len() as int
    };
    let chunk = with_chunk(frames.take(4 * k), (frames.len() - 4 * k) as u32, recs[k]);
    assert forall|i: int| 4 * k <= i < end implies chunk[i] == #[trigger] frames[i] by {
        assert(i / 4 == k && i % 4 == i - 4 * k);
    }
    assert(chunk =~= frames.take(end));
}

/// The user frames of some records come in one behind the other.
#[verifier::rlimit(40)]
#[verifier::spinoff_prover]
proof fn lemma_user_frames(p: ParserView, recs: Seq<KdBuf>, frames: Seq<u64>, k: int)
    requires
        p.state is InSample,
        p.user_frames == Seq::<u64>::empty(),
        p.user_remaining == frames.len(),
        all_have_id(recs, 0x2502_0010),
        carry(recs, frames),
        0 <= k <= recs.len(),
    ensures
        ({
            let n = if 4 * k < frames.len() {
                4 * k
            } else {
                frames.len() as int
            };
            after_all(p, recs.take(k)) == (ParserView {
                user_frames: frames.take(n),
                user_remaining: (frames.len() - n) as u32,
                ..p
            })
        }),
        completes_nothing(p, recs.take(k)),
    decreases k,
{
    if k == 0 {
        assert(frames.take(0) =~= p.user_frames);
        assert(recs.take(0) =~= seq![]);
    } else {
        lemma_user_frames(p, recs, frames, k - 1);
        assert(recs.take(k).drop_last() =~= recs.take(k - 1));
        assert(has_id(recs[k - 1], 0x2502_0010));
        lemma_kinds(recs[k - 1]);
        let q = after_all(p, recs.take(k - 1));
        assert(4 * (k - 1) < frames.len());
        assert(q.user_frames == frames.take(4 * (k - 1)));
        assert(q.user_remaining == (frames.len() - 4 * (k - 1)) as u32);
        lemma_carried_chunk(recs, frames, k - 1);
        assert(after_all(p, recs.take(k)) == q.fed(recs[k - 1]));
        assert(q.completed(recs[k - 1]) is None);
    }
}

/// The kernel frames of some records come in one behind the other.
#[verifier::rlimit(40)]
#[verifier::spinoff_prover]
proof fn lemma_kernel_frames(p: ParserView, recs: Seq<KdBuf>, frames: Seq<u64>, k: int)
    requires
        p.state is InSample,
        p.kernel_frames == Seq::<u64>::empty(),
        p.kernel_remaining == frames.len(),
        all_have_id(recs, 0x2502_000c),
        carry(recs, frames),
        0 <= k <= recs.len(),
    ensures
        ({
            let n = if 4 * k < frames.len() {
                4 * k
            } else {
                frames.len() as int
            };
            after_all(p, recs.take(k)) == (ParserView {
                kernel_frames: frames.take(n),
                kernel_remaining: (frames.len() - n) as u32,
                ..p
            })
        }),
        completes_nothing(p, recs.take(k)),
    decreases k,
{
    if k == 0 {
        assert(frames.take(0) =~= p.kernel_frames);
        assert(recs.take(0) =~= seq![]);
    } else {
        lemma_kernel_frames(p, recs, frames, k - 1);
        assert(recs.take(k).drop_last() =~= recs.take(k - 1));
        assert(has_id(recs[k - 1], 0x2502_000c));
        lemma_kinds(recs[k - 1]);
        let q = after_all(p, recs.take(k - 1));
        assert(4 * (k - 1) < frames.len());
        assert(q.kernel_frames == frames.take(4 * (k - 1)));
        assert(q.kernel_remaining == (frames.len() - 4 * (k - 1)) as u32);
        lemma_carried_chunk(recs, frames, k - 1);
        assert(after_all(p, recs.take(k)) == q.fed(recs[k - 1]));
        assert(q.completed(recs[k - 1]) is None);
    }
}

/// Records that complete nothing, behind others that complete nothing.
proof fn lemma_both_complete_nothing(p: ParserView, recs: Seq<KdBuf>, more: Seq<KdBuf>)
    requires
        completes_nothing(p, recs),
        completes_nothing(after_all(p, recs), more),
    ensures
        completes_nothing(p, recs + more),
    decreases more.len(),
{
    if more.len() == 0 {
        assert(recs + more =~= recs);
    } else {
        lemma_both_complete_nothing(p, recs, more.drop_last());
        lemma_after_more(p, recs, more.drop_last());
        assert((recs + more).drop_last() =~= recs + more.drop_last());
    }
}

/// A single record.
proof fn lemma_after_one(p: ParserView, rec: KdBuf)
    ensures
        after_all(p, seq![rec]) == p.fed(rec),
        completes_nothing(p, seq![rec]) == (p.completed(rec) is None),
{
    assert(seq![rec].drop_last() =~= seq![]);
    assert(after_all(p, seq![rec].drop_last()) == p);
    assert(completes_nothing(p, seq![rec].drop_last()));
}

/// A header and its frames give the user side of a stack.
proof fn lemma_user_side(p: ParserView, header: KdBuf, recs: Seq<KdBuf>, frames: Seq<u64>)
    requires
        p.state is InSample,
        p.user_frames == Seq::<u64>::empty(),
        has_id(header, 0x2502_0018),
        announces(header, frames.len()),
        all_have_id(recs, 0x2502_0010),
        carry(recs, frames),
    ensures
        after_all(p, seq![header] + recs) == (ParserView {
            user_frames: frames,
            user_remaining: 0,
            ..p
        }),
        completes_nothing(p, seq![header] + recs),
{
    lemma_kinds(header);
    lemma_after_one(p, header);
    lemma_user_frames(p.fed(header), recs, frames, recs.len() as int);
    assert(recs.take(recs.len() as int) =~= recs);
    assert(frames.take(frames.len() as int) =~= frames);
    lemma_after_more(p, seq![header], recs);
    lemma_both_complete_nothing(p, seq![header], recs);
}

/// A header and its frames give the kernel side of a stack.
proof fn lemma_kernel_side(p: ParserView, header: KdBuf, recs: Seq<KdBuf>, frames: Seq<u64>)
    requires
        p.state is InSample,
        p.kernel_frames == Seq::<u64>::empty(),
        has_id(header, 0x2502_0014),
        announces(header, frames.len()),
        all_have_id(recs, 0x2502_000c),
        carry(recs, frames),
    ensures
        after_all(p, seq![header] + recs) == (ParserView {
            kernel_frames: frames,
            kernel_remaining: 0,
            ..p
        }),
        completes_nothing(p, seq![header] + recs),
{
    lemma_kinds(header);
    lemma_after_one(p, header);
    lemma_kernel_frames(p.fed(header), recs, frames, recs.len() as int);
    assert(recs.take(recs.len() as int) =~= recs);
    assert(frames.take(frames.len() as int) =~= frames);
    lemma_after_more(p, seq![header], recs);
    lemma_both_complete_nothing(p, seq![header], recs);
}

/// The counters of some records come in one behind the other.
proof fn lemma_counters(p: ParserView, recs: Seq<KdBuf>, k: int)
    requires
        p.state is InSample,
        p.pmc == Seq::<u64>::empty(),
        all_have_id(recs, 0x2506_0020),
        0 <= k <= recs.len(),
    ensures
        ({
            let q = after_all(p, recs.take(k));
            &&& q == ParserView { pmc: q.pmc, ..p }
            &&& q.pmc.len() == 4 * k
            &&& forall|i: int|
                0 <= i < 4 * k ==> #[trigger] q.pmc[i] == number_in(recs[i / 4], i % 4)
        }),
        completes_nothing(p, recs.take(k)),
    decreases k,
{
    if k == 0 {
        assert(recs.take(0) =~= seq![]);
    } else {
        lemma_counters(p, recs, k - 1);
        assert(recs.take(k).drop_last() =~= recs.take(k - 1));
        assert(has_id(recs[k - 1], 0x2506_0020));
        lemma_kinds(recs[k - 1]);
        let q = after_all(p, recs.take(k));
        assert forall|i: int| 0 <= i < 4 * k implies #[trigger] q.pmc[i] == number_in(
            recs[i / 4],
            i % 4,
        ) by {
            if i >= 4 * (k - 1) {
                assert(i / 4 == k - 1 && i % 4 == i - 4 * (k - 1));
            } else {
                assert(after_all(p, recs.take(k - 1)).pmc[i] == q.pmc[i]);
            }
        }
    }
}

/// What is in front of padding is left of it.
proof fn lemma_padding_comes_off(s: Seq<u64>, n: int)
    requires
        0 <= n <= s.len(),
        n > 0 ==> s[n - 1] != 0,
        forall|i: int| n <= i < s.len() ==> #[trigger] s[i] == 0,
    ensures
        without_padding(s) == s.take(n),
    decreases s.len(),
{
    if s.len() > n {
        assert(s[s.len() - 1] == 0);
        lemma_padding_comes_off(s.drop_last(), n);
        assert(s.drop_last().take(n) =~= s.take(n));
    } else {
        assert(s.take(n) =~= s);
    }
}

/// A walk without a null is left as it is.
proof fn lemma_no_null(s: Seq<u64>)
    requires
        forall|i: int| 0 <= i < s.len() ==> #[trigger] s[i] != 0,
    ensures
        until_null(s) == s,
{
    until_null_has_no_null(s);
    if until_null(s).len() < s.len() {
        assert(s[until_null(s).len() as int] != 0);
    }
    assert(s.take(s.len() as int) =~= s);
}

/// The records of one sample.
pub struct SampleRecords {
    pub start: KdBuf,
    pub user_header: KdBuf,
    pub user: Seq<KdBuf>,
    pub kernel_header: KdBuf,
    pub kernel: Seq<KdBuf>,
    pub counters: Seq<KdBuf>,
    pub end: KdBuf,
}

impl SampleRecords {
    /// The records in front of the one that closes the sample.
    pub open spec fn opened(self) -> Seq<KdBuf> {
        seq![self.start] + (seq![self.user_header] + self.user) + (seq![self.kernel_header]
            + self.kernel) + self.counters
    }

    /// The records tell of the sample: its frames and its counters are spread over them, four
    /// to a record, and the last record of counters is filled up with zeros.
    pub open spec fn tell(self, s: SampleView) -> bool {
        &&& self.start.debugid == 0x2500_0001
        &&& self.start.arg5 == s.tid
        &&& self.start.timestamp & 0x00ff_ffff_ffff_ffff == s.timestamp_ns
        &&& has_id(self.user_header, 0x2502_0018)
        &&& announces(self.user_header, s.user_backtrace.len())
        &&& all_have_id(self.user, 0x2502_0010)
        &&& carry(self.user, s.user_backtrace)
        &&& has_id(self.kernel_header, 0x2502_0014)
        &&& announces(self.kernel_header, s.kernel_backtrace.len())
        &&& all_have_id(self.kernel, 0x2502_000c)
        &&& carry(self.kernel, s.kernel_backtrace)
        &&& all_have_id(self.counters, 0x2506_0020)
        &&& carry(self.counters, s.pmc)
        &&& forall|i: int|
            s.pmc.len() <= i < 4 * self.counters.len() ==> #[trigger] number_in(
                self.counters[i / 4],
                i % 4,
            ) == 0
        &&& self.end.debugid == 0x2500_0002
    }
}

/// The law of samples: whatever the parser has seen before, the records of a sample give back the
/// sample, with all of its frames and counters in their order, however many there are; and they
/// give nothing before the last of them. Frames are not null, and the last counter is not zero.
pub proof fn samples_come_through_whole(p: ParserView, r: SampleRecords, s: SampleView)
    requires
        r.tell(s),
        forall|i: int| 0 <= i < s.user_backtrace.len() ==> #[trigger] s.user_backtrace[i] != 0,
        forall|i: int| 0 <= i < s.kernel_backtrace.len() ==> #[trigger] s.kernel_backtrace[i] != 0,
        s.pmc.len() > 0 ==> s.pmc.last() != 0,
    ensures
        completes_nothing(p, r.opened()),
        after_all(p, r.opened()).completed(r.end) == Some(s),
        after_all(p, r.opened().push(r.end)).state is Idle,
{
    let user = s.user_backtrace;
    let kernel = s.kernel_backtrace;
    let head = seq![r.start];
    let user_recs = seq![r.user_header] + r.user;
    let kernel_recs = seq![r.kernel_header] + r.kernel;
    lemma_kinds(r.start);
    lemma_kinds(r.end);
    let p1 = p.fed(r.start);
    lemma_after_one(p, r.start);
    lemma_user_side(p1, r.user_header, r.user, user);
    lemma_after_more(p, head, user_recs);
    lemma_both_complete_nothing(p, head, user_recs);
    let p2 = after_all(p, head + user_recs);
    lemma_kernel_side(p2, r.kernel_header, r.kernel, kernel);
    lemma_after_more(p, head + user_recs, kernel_recs);
    lemma_both_complete_nothing(p, head + user_recs, kernel_recs);
    let p3 = after_all(p, head + user_recs + kernel_recs);
    lemma_counters(p3, r.counters, r.counters.len() as int);
    assert(r.counters.take(r.counters.len() as int) =~= r.counters);
    lemma_after_more(p, head + user_recs + kernel_recs, r.counters);
    lemma_both_complete_nothing(p, head + user_recs + kernel_recs, r.counters);
    let p5 = after_all(p, r.opened());
    lemma_no_null(user);
    lemma_no_null(kernel);
    assert forall|i: int| s.pmc.len() <= i < p5.pmc.len() implies #[trigger] p5.pmc[i] == 0 by {
        assert(number_in(r.counters[i / 4], i % 4) == 0);
    }
    assert forall|i: int| 0 <= i < s.pmc.len() implies #[trigger] p5.pmc[i] == s.pmc[i] by {}
    lemma_padding_comes_off(p5.pmc, s.pmc.len() as int);
    assert(p5.pmc.take(s.pmc.len() as int) =~= s.pmc);
    assert(r.opened().push(r.end).drop_last() =~= r.opened());
}

/// The law of other records: records of other classes change nothing and complete nothing, so it
/// does not matter where they stand.
pub proof fn other_records_are_passed_over(p: ParserView, rec: KdBuf)
    requires
        rec.debugid >> 24 != 0x25,
    ensures
        p.fed(rec) == p,
        p.completed(rec) is None,
{
    lemma_kinds(rec);
}

/// The law of the two sides: records of one side of a stack leave the other side and the counters
/// as they are, counters leave both sides, and a walk that failed leaves all three. So it does
/// not matter in which order the sides come.
pub proof fn sides_do_not_mix(p: ParserView, rec: KdBuf)
    ensures
        has_id(rec, 0x2502_0018) || has_id(rec, 0x2502_0010) ==> p.fed(rec) == (ParserView {
            user_frames: p.fed(rec).user_frames,
            user_remaining: p.fed(rec).user_remaining,
            ..p
        }),
        has_id(rec, 0x2502_0014) || has_id(rec, 0x2502_000c) ==> p.fed(rec) == (ParserView {
            kernel_frames: p.fed(rec).kernel_frames,
            kernel_remaining: p.fed(rec).kernel_remaining,
            ..p
        }),
        has_id(rec, 0x2506_0020) ==> p.fed(rec) == (ParserView { pmc: p.fed(rec).pmc, ..p }),
        has_id(rec, 0x2502_001c) ==> p.fed(rec) == (ParserView { stats: p.fed(rec).stats, ..p }),
{
    lemma_kinds(rec);
}

/// The law of walks that failed: each is counted on its side, and nothing else is.
pub proof fn failed_walks_are_counted(p: ParserView, rec: KdBuf)
    requires
        has_id(rec, 0x2502_001c),
        p.stats.kernel_walk_errors < u64::MAX,
        p.stats.user_walk_errors < u64::MAX,
    ensures
        p.fed(rec).stats.kernel_walk_errors == p.stats.kernel_walk_errors + (if rec.arg1 == 0 {
            1int
        } else {
            0
        }),
        p.fed(rec).stats.user_walk_errors == p.stats.user_walk_errors + (if rec.arg1 == 0 {
            0int
        } else {
            1
        }),
        p.fed(rec).stats.samples_started == p.stats.samples_started,
        p.fed(rec).stats.samples_emitted == p.stats.samples_emitted,
        p.fed(rec).stats.samples_orphaned == p.stats.samples_orphaned,
{
    lemma_kinds(rec);
}

/// The law of truncated walks: a null ends the stack, whatever stands behind it.
pub proof fn nulls_end_stacks(p: ParserView, rec: KdBuf, n: int)
    requires
        p.completed(rec) is Some,
        0 <= n < p.user_frames.len(),
        p.user_frames[n] == 0,
        forall|i: int| 0 <= i < n ==> #[trigger] p.user_frames[i] != 0,
    ensures
        p.completed(rec)->0.user_backtrace == p.user_frames.take(n),
{
    until_null_has_no_null(p.user_frames);
    let m = until_null(p.user_frames).len() as int;
    if m < n {
        assert(p.user_frames[m] != 0);
    } else if n < m {
        assert(until_null(p.user_frames)[n] != 0);
    }
}

/// The same law of the kernel's side.
pub proof fn nulls_end_kernel_stacks(p: ParserView, rec: KdBuf, n: int)
    requires
        p.completed(rec) is Some,
        0 <= n < p.kernel_frames.len(),
        p.kernel_frames[n] == 0,
        forall|i: int| 0 <= i < n ==> #[trigger] p.kernel_frames[i] != 0,
    ensures
        p.completed(rec)->0.kernel_backtrace == p.kernel_frames.take(n),
{
    until_null_has_no_null(p.kernel_frames);
    let m = until_null(p.kernel_frames).len() as int;
    if m < n {
        assert(p.kernel_frames[m] != 0);
    } else if n < m {
        assert(until_null(p.kernel_frames)[n] != 0);
    }
}

/// The law of counting samples: each that starts is counted, one that never ended is counted as lost
/// when the next one starts, and one that ends is counted and handed on.
pub proof fn samples_are_counted(p: ParserView, rec: KdBuf)
    requires
        p.stats.samples_started < u64::MAX,
        p.stats.samples_orphaned < u64::MAX,
        p.stats.samples_emitted < u64::MAX,
    ensures
        rec.debugid == 0x2500_0001 ==> {
            let after = p.fed(rec);
            &&& after.stats.samples_started == p.stats.samples_started + 1
            &&& after.stats.samples_orphaned == p.stats.samples_orphaned + (if p.state
                is InSample {
                1int
            } else {
                0
            })
            &&& after.stats.samples_emitted == p.stats.samples_emitted
            &&& after.state is InSample
            &&& after.user_frames.len() == 0 && after.kernel_frames.len() == 0 && after.pmc.len()
                == 0
            &&& p.completed(rec) is None
        },
        rec.debugid == 0x2500_0002 ==> {
            let after = p.fed(rec);
            &&& after.stats.samples_emitted == p.stats.samples_emitted + (if p.state is InSample {
                1int
            } else {
                0
            })
            &&& after.stats.samples_started == p.stats.samples_started
            &&& after.stats.samples_orphaned == p.stats.samples_orphaned
            &&& after.state is Idle
            &&& p.completed(rec) is Some == p.state is InSample
        },
{
    lemma_kinds(rec);
}

/// The law of counters: the zeros behind the last counter of a sample are padding, and no other
/// counter is lost.
pub proof fn counters_lose_their_padding(s: Seq<u64>, n: int)
    requires
        0 <= n <= s.len(),
        n > 0 ==> s[n - 1] != 0,
        forall|i: int| n <= i < s.len() ==> #[trigger] s[i] == 0,
    ensures
        without_padding(s) == s.take(n),
    decreases s.len(),
{
    if s.len() > n {
        assert(s[s.len() - 1] == 0);
        let init = s.drop_last();
        assert forall|i: int| n <= i < init.len() implies #[trigger] init[i] == 0 by {
            assert(init[i] == s[i]);
        }
        counters_lose_their_padding(init, n);
        assert(init.take(n) =~= s.take(n));
    } else {
        assert(s.take(n) =~= s);
        if s.len() > 0 {
            assert(s.last() == s[n - 1]);
        }
    }
}

} // verus!
