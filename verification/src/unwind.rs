//! Stacks that were captured, and what can be told of them.
//!
//! A capture is the registers of a thread and a copy of its stack. The chain of frame
//! pointers is walked here. Walking by unwind tables is done elsewhere; where that
//! gets no further than the innermost frame, a step along the chain is made here, and
//! it is tried again from there.
use vstd::prelude::*;

use crate::probe_timing::sat_add;
use crate::wire::{le_u64, read_u64};

verus! {

/// A part of a file that is mapped into the target.
#[derive(Debug)]
pub struct CapturedImageMapping {
    pub start: u64,
    pub end: u64,
    pub file_offset: u64,
    pub is_read: bool,
    pub is_write: bool,
    pub is_executable: bool,
    pub path: String,
}

/// The model of a [`CapturedImageMapping`].
pub struct MappingView {
    pub start: u64,
    pub end: u64,
    pub file_offset: u64,
    pub is_read: bool,
    pub is_write: bool,
    pub is_executable: bool,
    pub path: Seq<char>,
}

impl View for CapturedImageMapping {
    type V = MappingView;

    open spec fn view(&self) -> MappingView {
        MappingView {
            start: self.start,
            end: self.end,
            file_offset: self.file_offset,
            is_read: self.is_read,
            is_write: self.is_write,
            is_executable: self.is_executable,
            path: self.path@,
        }
    }
}

/// The models of mappings.
pub open spec fn mapping_views(s: Seq<CapturedImageMapping>) -> Seq<MappingView> {
    s.map_values(|m: CapturedImageMapping| m@)
}

/// The code of a file.
pub open spec fn text_mapping(path: Seq<char>, start: u64, size: u64, offset: u64) -> MappingView {
    MappingView {
        start,
        end: sat_add(start, size),
        file_offset: offset,
        is_read: true,
        is_write: false,
        is_executable: true,
        path,
    }
}

impl CapturedImageMapping {
    /// The code of a file.
    pub fn executable_text(path: String, start: u64, size: u64, file_offset: u64) -> (m: Self)
        ensures
            m@ == text_mapping(path@, start, size, file_offset),
    {
        CapturedImageMapping {
            start,
            end: start.saturating_add(size),
            file_offset,
            is_read: true,
            is_write: false,
            is_executable: true,
            path,
        }
    }
}

/// A mapping as an unwinder takes it.
#[derive(Debug)]
pub struct CapturedRegion {
    pub start: u64,
    pub end: u64,
    pub is_read: bool,
    pub is_write: bool,
    pub is_executable: bool,
    pub is_shared: bool,
    pub file_offset: u64,
    pub major: u32,
    pub minor: u32,
    /// Not zero: a region without one is passed over.
    pub inode: u64,
    pub name: String,
}

/// The region for a mapping.
pub open spec fn is_region(m: MappingView, r: CapturedRegion) -> bool {
    r.start == m.start && r.end == m.end && r.is_read == m.is_read && r.is_write == m.is_write
        && r.is_executable == m.is_executable && !r.is_shared && r.file_offset == m.file_offset
        && r.major == 0 && r.minor == 0 && r.inode == 1 && r.name@ == m.path
}

impl CapturedImageMapping {
    /// The region for the mapping.
    pub fn to_region(&self) -> (r: CapturedRegion)
        ensures
            is_region(self@, r),
    {
        CapturedRegion {
            start: self.start,
            end: self.end,
            is_read: self.is_read,
            is_write: self.is_write,
            is_executable: self.is_executable,
            is_shared: false,
            file_offset: self.file_offset,
            major: 0,
            minor: 0,
            inode: 1,
            name: self.path.clone(),
        }
    }
}

/// A file that could not be loaded.
#[derive(Debug)]
pub struct CapturedLoadFailure {
    pub path: String,
    pub error: String,
}

/// What came of loading the mapped files.
#[derive(Debug)]
pub struct CapturedReload {
    pub mapped_regions: usize,
    pub loaded_binaries: usize,
    pub load_failures: Vec<CapturedLoadFailure>,
}

/// Why an unwinder stopped.
#[derive(Clone, Copy, Debug, PartialEq, Eq, Structural)]
pub enum UnwindFailure {
    NoBinary,
    NoUnwindInfo,
    NullInstructionPointer,
    MissingCfa,
    MissingCfaRegister,
    CfaExpressionFailed,
    RegisterMemoryReadFailed,
    RegisterExpressionFailed,
    UnsupportedRegisterRule,
    MissingReturnAddress,
    MissingInstructionPointer,
    Other,
}

/// Why a capture could not be unwound.
#[derive(Clone, Copy, Debug, PartialEq, Eq, Structural)]
pub enum CapturedUnwindError {
    NoMappings,
    NoMappedRegions,
    MissingStackPointer,
    MissingInstructionPointer,
    EmptyStack,
    OnlyLeafFrame { reason: Option<UnwindFailure> },
}

/// The bit of a pointer that tells the two halves of the address space apart.
pub const HALF_BIT: u64 = 0x0080_0000_0000_0000;

/// Which bits of a pointer to code, and of one to data, are its address. The others may
/// hold a signature. Without it they are all clear in the lower half of the address space,
/// all set in the upper.
#[derive(Clone, Copy, Debug, PartialEq, Eq, Structural)]
pub struct PointerBits {
    pub code: u64,
    pub data: u64,
}

/// What a pointer is without its signature.
pub open spec fn address_in(bits: u64, ptr: u64) -> u64 {
    if ptr & HALF_BIT == 0 {
        ptr & bits
    } else {
        ptr | !bits
    }
}

/// What a pointer is without its signature.
fn address_of(bits: u64, ptr: u64) -> (a: u64)
    ensures
        a == address_in(bits, ptr),
{
    if ptr & HALF_BIT == 0 {
        ptr & bits
    } else {
        ptr | !bits
    }
}

impl PointerBits {
    /// Pointers without signatures.
    pub open spec fn all() -> PointerBits {
        PointerBits { code: u64::MAX, data: u64::MAX }
    }

    /// What a pointer to code is without its signature.
    pub open spec fn code_of(self, ptr: u64) -> u64 {
        address_in(self.code, ptr)
    }

    /// What a pointer to data is without its signature.
    pub open spec fn data_of(self, ptr: u64) -> u64 {
        address_in(self.data, ptr)
    }

    /// Pointers without signatures.
    pub fn unsigned() -> (b: Self)
        ensures
            b == PointerBits::all(),
    {
        PointerBits { code: u64::MAX, data: u64::MAX }
    }
}

/// A signature is taken off once: what is left has none.
pub proof fn stripped_pointers_stay(bits: u64, ptr: u64)
    ensures
        address_in(bits, address_in(bits, ptr)) == address_in(bits, ptr),
{
    assert(ptr & 0x0080_0000_0000_0000u64 == 0 ==> (ptr & bits) & 0x0080_0000_0000_0000u64 == 0
        && (ptr & bits) & bits == ptr & bits) by (bit_vector);
    assert(ptr & 0x0080_0000_0000_0000u64 != 0 ==> (ptr | !bits) & 0x0080_0000_0000_0000u64 != 0
        && (ptr | !bits) | !bits == ptr | !bits) by (bit_vector);
}

/// A pointer without a signature is its address.
pub proof fn unsigned_pointers_stay(ptr: u64)
    ensures
        PointerBits::all().code_of(ptr) == ptr,
        PointerBits::all().data_of(ptr) == ptr,
{
    assert(ptr & u64::MAX == ptr && ptr | !u64::MAX == ptr) by (bit_vector);
}

/// A pointer to code, without its signature.
pub fn strip_code_pointer(ptr: u64, bits: PointerBits) -> (p: u64)
    ensures
        p == bits.code_of(ptr),
{
    address_of(bits.code, ptr)
}

/// A pointer to data, without its signature.
pub fn strip_data_pointer(ptr: u64, bits: PointerBits) -> (p: u64)
    ensures
        p == bits.data_of(ptr),
{
    address_of(bits.data, ptr)
}

/// The registers of a thread.
#[derive(Clone, Copy, Debug, PartialEq, Eq, Structural)]
pub struct CapturedThreadState {
    pub pc: u64,
    pub lr: u64,
    pub fp: u64,
    pub sp: u64,
}

impl CapturedThreadState {
    /// The registers of a thread, without signatures.
    pub fn new(pc: u64, lr: u64, fp: u64, sp: u64, bits: PointerBits) -> (s: Self)
        ensures
            s == (CapturedThreadState {
                pc: bits.code_of(pc),
                lr: bits.code_of(lr),
                fp: bits.data_of(fp),
                sp: bits.data_of(sp),
            }),
    {
        CapturedThreadState {
            pc: strip_code_pointer(pc, bits),
            lr: strip_code_pointer(lr, bits),
            fp: strip_data_pointer(fp, bits),
            sp: strip_data_pointer(sp, bits),
        }
    }
}

/// A copy of a stack, and the address that it was copied from.
#[derive(Clone, Copy, Debug)]
pub struct CapturedStack<'a> {
    pub base: u64,
    pub bytes: &'a [u8],
    /// How the pointers in it are signed.
    pub bits: PointerBits,
}

/// The word at an address, where the copy holds all of it.
pub open spec fn word_at(base: u64, bytes: Seq<u8>, address: u64) -> Option<u64> {
    if base <= address && address - base + 8 <= bytes.len() {
        Some(le_u64(bytes, address - base))
    } else {
        None
    }
}

impl<'a> CapturedStack<'a> {
    /// A copy of a stack, the pointers in which may be signed.
    pub fn new(base: u64, bytes: &'a [u8], bits: PointerBits) -> (s: Self)
        ensures
            s.base == bits.data_of(base),
            s.bytes@ == bytes@,
            s.bits == bits,
    {
        CapturedStack { base: strip_data_pointer(base, bits), bytes, bits }
    }

    /// The word at an address, where the copy holds all of it.
    pub fn read_u64(&self, address: u64) -> (w: Option<u64>)
        ensures
            w == word_at(self.base, self.bytes@, address),
    {
        if address < self.base {
            return None;
        }
        let offset: u64 = address - self.base;
        let len: usize = self.bytes.len();
        if len < 8 || offset > (len - 8) as u64 {
            return None;
        }
        Some(read_u64(self.bytes, offset as usize))
    }
}

/// The return addresses along the chain of frame pointers from `fp` on, over at most
/// `n` frames. A frame holds the pointer to the next and, behind it, the return
/// address; the chain ends where a frame cannot be read or does not lead upwards.
pub open spec fn fp_chain(
    bits: PointerBits,
    base: u64,
    bytes: Seq<u8>,
    fp: u64,
    n: nat,
) -> Seq<u64>
    decreases n,
{
    if n == 0 {
        seq![]
    } else {
        match (word_at(base, bytes, fp), word_at(base, bytes, sat_add(fp, 8))) {
            (Some(next), Some(lr)) => {
                let next = bits.data_of(next);
                let lr = bits.code_of(lr);
                let here = if lr != 0 {
                    seq![lr]
                } else {
                    seq![]
                };
                if next <= fp {
                    here
                } else {
                    here + fp_chain(bits, base, bytes, next, (n - 1) as nat)
                }
            },
            _ => seq![],
        }
    }
}

/// The return addresses along the chain of frame pointers, over at most `max_frames`
/// frames.
pub fn captured_frame_pointer_walk(
    state: CapturedThreadState,
    stack: CapturedStack<'_>,
    max_frames: usize,
) -> (walked: Vec<u64>)
    ensures
        walked@ == fp_chain(
            stack.bits,
            stack.base,
            stack.bytes@,
            stack.bits.data_of(state.fp),
            max_frames as nat,
        ),
{
    let mut walked: Vec<u64> = Vec::new();
    let mut fp: u64 = strip_data_pointer(state.fp, stack.bits);
    let mut n: usize = 0;
    let ghost whole = fp_chain(stack.bits, stack.base, stack.bytes@, fp, max_frames as nat);
    assert(whole =~= walked@ + whole);
    while n < max_frames
        invariant_except_break
            n <= max_frames,
            whole == walked@ + fp_chain(
                stack.bits,
                stack.base,
                stack.bytes@,
                fp,
                (max_frames - n) as nat,
            ),
        ensures
            walked@ == whole,
        decreases max_frames - n,
    {
        let ghost rest = fp_chain(
            stack.bits,
            stack.base,
            stack.bytes@,
            fp,
            (max_frames - n) as nat,
        );
        let next_fp: u64 = match stack.read_u64(fp) {
            Some(w) => strip_data_pointer(w, stack.bits),
            None => {
                assert(rest =~= seq![]);
                assert(walked@ =~= whole);
                break;
            },
        };
        let saved_lr: u64 = match stack.read_u64(fp.saturating_add(8)) {
            Some(w) => strip_code_pointer(w, stack.bits),
            None => {
                assert(rest =~= seq![]);
                assert(walked@ =~= whole);
                break;
            },
        };
        let ghost before = walked@;
        if saved_lr != 0 {
            walked.push(saved_lr);
        }
        if next_fp <= fp {
            assert(walked@ =~= before + rest);
            break;
        }
        proof {
            let tail = fp_chain(
                stack.bits,
                stack.base,
                stack.bytes@,
                next_fp,
                (max_frames - n - 1) as nat,
            );
            assert(before + rest =~= walked@ + tail);
        }
        fp = next_fp;
        n = n + 1;
        proof {
            if n == max_frames {
                assert(walked@ =~= whole);
            }
        }
    }
    walked
}

/// The law of the walk: it is as short as asked, and holds no null.
pub proof fn walks_are_bounded(
    bits: PointerBits,
    base: u64,
    bytes: Seq<u8>,
    fp: u64,
    n: nat,
)
    ensures
        fp_chain(bits, base, bytes, fp, n).len() <= n,
        forall|i: int|
            0 <= i < fp_chain(bits, base, bytes, fp, n).len() ==> #[trigger] fp_chain(
                bits,
                base,
                bytes,
                fp,
                n,
            )[i] != 0,
    decreases n,
{
    if n > 0 {
        match word_at(base, bytes, fp) {
            Some(next) => {
                walks_are_bounded(bits, base, bytes, bits.data_of(next), (n - 1) as nat);
            },
            None => {},
        }
    }
}

/// The state of the caller, read off the chain of frame pointers: nothing where the
/// chain ends, does not lead upwards, or leads below the stack pointer.
pub open spec fn bridge_state(
    bits: PointerBits,
    base: u64,
    bytes: Seq<u8>,
    fp: u64,
    sp: u64,
) -> Option<CapturedThreadState> {
    let fp = bits.data_of(fp);
    let sp = bits.data_of(sp);
    if fp == 0 || fp < sp || fp + 16 > u64::MAX {
        None
    } else {
        match (word_at(base, bytes, fp), word_at(base, bytes, (fp + 8) as u64)) {
            (Some(next), Some(pc)) => {
                let next = bits.data_of(next);
                let pc = bits.code_of(pc);
                if next == 0 || next <= fp || pc == 0 || next + 8 > u64::MAX {
                    None
                } else {
                    Some(
                        CapturedThreadState {
                            pc,
                            lr: match word_at(base, bytes, (next + 8) as u64) {
                                Some(lr) => bits.code_of(lr),
                                None => 0,
                            },
                            fp: next,
                            sp: (fp + 16) as u64,
                        },
                    )
                }
            },
            _ => None,
        }
    }
}

/// A step along the chain of frame pointers.
pub fn fp_bridge_step(stack: CapturedStack<'_>, fp: u64, sp: u64) -> (s: Option<
    CapturedThreadState,
>)
    ensures
        s == bridge_state(stack.bits, stack.base, stack.bytes@, fp, sp),
{
    let fp: u64 = strip_data_pointer(fp, stack.bits);
    if fp == 0 || fp < strip_data_pointer(sp, stack.bits) {
        return None;
    }
    let caller_sp: u64 = match fp.checked_add(16) {
        Some(sp) => sp,
        None => {
            return None;
        },
    };
    let next_fp: u64 = match stack.read_u64(fp) {
        Some(w) => strip_data_pointer(w, stack.bits),
        None => {
            return None;
        },
    };
    let pc: u64 = match stack.read_u64(fp + 8) {
        Some(w) => strip_code_pointer(w, stack.bits),
        None => {
            return None;
        },
    };
    if next_fp == 0 || next_fp <= fp || pc == 0 {
        return None;
    }
    let lr_at: u64 = match next_fp.checked_add(8) {
        Some(a) => a,
        None => {
            return None;
        },
    };
    let lr: u64 = match stack.read_u64(lr_at) {
        Some(w) => strip_code_pointer(w, stack.bits),
        None => 0,
    };
    Some(CapturedThreadState { pc, lr, fp: next_fp, sp: caller_sp })
}

/// The law of the step: it leads up the stack.
pub proof fn bridging_leads_upwards(
    bits: PointerBits,
    base: u64,
    bytes: Seq<u8>,
    fp: u64,
    sp: u64,
)
    ensures
        bridge_state(bits, base, bytes, fp, sp) matches Some(s) ==> s.fp > bits.data_of(fp)
            && s.sp > bits.data_of(sp) && s.pc != 0,
{
}

/// Whether a step along the chain is made where unwinding failed.
#[derive(Clone, Copy, Debug, PartialEq, Eq, Structural)]
pub enum CapturedBridgePolicy {
    Never,
    AnyOnlyLeaf,
    OnlyNoBinaryOrNoUnwindInfo,
}

impl CapturedBridgePolicy {
    /// A step is made where unwinding failed so.
    pub open spec fn bridges(self, error: CapturedUnwindError) -> bool {
        match self {
            CapturedBridgePolicy::Never => false,
            CapturedBridgePolicy::AnyOnlyLeaf => error is OnlyLeafFrame,
            CapturedBridgePolicy::OnlyNoBinaryOrNoUnwindInfo => error
                == (CapturedUnwindError::OnlyLeafFrame { reason: Some(UnwindFailure::NoBinary) })
                || error == (CapturedUnwindError::OnlyLeafFrame {
                reason: Some(UnwindFailure::NoUnwindInfo),
            }),
        }
    }

    /// Whether a step is made where unwinding failed so.
    pub fn should_bridge(self, error: &CapturedUnwindError) -> (r: bool)
        ensures
            r == self.bridges(*error),
    {
        match self {
            CapturedBridgePolicy::Never => false,
            CapturedBridgePolicy::AnyOnlyLeaf => match error {
                CapturedUnwindError::OnlyLeafFrame { .. } => true,
                _ => false,
            },
            CapturedBridgePolicy::OnlyNoBinaryOrNoUnwindInfo => match error {
                CapturedUnwindError::OnlyLeafFrame { reason: Some(UnwindFailure::NoBinary) } => true,
                CapturedUnwindError::OnlyLeafFrame {
                    reason: Some(UnwindFailure::NoUnwindInfo),
                } => true,
                _ => false,
            },
        }
    }
}

/// Which unwind tables are used.
#[derive(Clone, Copy, Debug, PartialEq, Eq, Structural)]
pub enum UnwindMode {
    Default,
    CompactOnly,
    CompactWithDwarfRefs,
}

/// How many frames are walked unless something else is asked for.
pub const DEFAULT_MAX_FRAMES: usize = 64;

/// How a capture is unwound.
#[derive(Clone, Copy, Debug, PartialEq, Eq, Structural)]
pub struct CapturedUnwindOptions {
    pub mode: UnwindMode,
    pub bridge: CapturedBridgePolicy,
    pub max_frames: usize,
}

impl CapturedUnwindOptions {
    /// By certain tables, stepping along the chain wherever they lead nowhere.
    pub fn metadata(mode: UnwindMode) -> (o: Self)
        ensures
            o == (CapturedUnwindOptions {
                mode,
                bridge: CapturedBridgePolicy::AnyOnlyLeaf,
                max_frames: DEFAULT_MAX_FRAMES,
            }),
    {
        CapturedUnwindOptions {
            mode,
            bridge: CapturedBridgePolicy::AnyOnlyLeaf,
            max_frames: DEFAULT_MAX_FRAMES,
        }
    }

    /// By all tables, stepping along the chain where code has none.
    pub fn dwarf_with_fp_bridge() -> (o: Self)
        ensures
            o == (CapturedUnwindOptions {
                mode: UnwindMode::Default,
                bridge: CapturedBridgePolicy::OnlyNoBinaryOrNoUnwindInfo,
                max_frames: DEFAULT_MAX_FRAMES,
            }),
    {
        CapturedUnwindOptions {
            mode: UnwindMode::Default,
            bridge: CapturedBridgePolicy::OnlyNoBinaryOrNoUnwindInfo,
            max_frames: DEFAULT_MAX_FRAMES,
        }
    }
}

impl Default for CapturedUnwindOptions {
    fn default() -> (o: Self)
        ensures
            o == (CapturedUnwindOptions {
                mode: UnwindMode::Default,
                bridge: CapturedBridgePolicy::Never,
                max_frames: DEFAULT_MAX_FRAMES,
            }),
    {
        CapturedUnwindOptions {
            mode: UnwindMode::Default,
            bridge: CapturedBridgePolicy::Never,
            max_frames: DEFAULT_MAX_FRAMES,
        }
    }
}

/// A capture that was unwound.
#[derive(Debug)]
pub struct CapturedUnwindOutcome {
    pub callers: Vec<u64>,
    pub bridge_attempted: bool,
    pub bridge_steps: usize,
}

/// A capture that was not.
#[derive(Clone, Copy, Debug, PartialEq, Eq, Structural)]
pub struct CapturedUnwindFailure {
    pub error: CapturedUnwindError,
    pub bridge_attempted: bool,
    pub bridge_steps: usize,
}

/// Addresses of code, without their signatures.
pub open spec fn stripped(bits: PointerBits, frames: Seq<u64>) -> Seq<u64> {
    frames.map_values(|f: u64| bits.code_of(f))
}

/// What is left of the frames behind the first: at most `n`, without signatures, without
/// nulls.
pub open spec fn callers_in(bits: PointerBits, frames: Seq<u64>, n: nat) -> Seq<u64> {
    without_nulls(
        stripped(bits, frames).skip(1).take(
            if n < frames.len() - 1 {
                n as int
            } else {
                frames.len() - 1
            },
        ),
    )
}

/// What is left without nulls.
pub open spec fn without_nulls(s: Seq<u64>) -> Seq<u64>
    decreases s.len(),
{
    if s.len() == 0 {
        s
    } else if s.last() == 0 {
        without_nulls(s.drop_last())
    } else {
        without_nulls(s.drop_last()).push(s.last())
    }
}

/// The callers of the innermost of the frames that an unwinder found, or its reason
/// for finding no more than that one.
pub fn callers_of_frames(
    frames: &Vec<u64>,
    reason: Option<UnwindFailure>,
    max_frames: usize,
    bits: PointerBits,
) -> (r: Result<Vec<u64>, CapturedUnwindError>)
    ensures
        match r {
            Ok(callers) => frames@.len() > 1 && callers@ == callers_in(
                bits,
                frames@,
                max_frames as nat,
            )
                && callers@.len() > 0,
            Err(e) => if frames@.len() <= 1 {
                e == (CapturedUnwindError::OnlyLeafFrame { reason })
            } else {
                e == (CapturedUnwindError::OnlyLeafFrame { reason: None }) && callers_in(
                    bits,
                    frames@,
                    max_frames as nat,
                ).len() == 0
            },
        },
{
    if frames.len() <= 1 {
        return Err(CapturedUnwindError::OnlyLeafFrame { reason });
    }
    let n: usize = if max_frames < frames.len() - 1 {
        max_frames
    } else {
        frames.len() - 1
    };
    let ghost taken = stripped(bits, frames@).skip(1).take(n as int);
    let mut callers: Vec<u64> = Vec::new();
    let mut i: usize = 0;
    assert(taken.take(0) =~= seq![]);
    while i < n
        invariant
            frames@.len() > 1,
            n <= frames@.len() - 1,
            i <= n,
            taken == stripped(bits, frames@).skip(1).take(n as int),
            callers@ == without_nulls(taken.take(i as int)),
        decreases n - i,
    {
        assert(taken.take(i + 1).drop_last() =~= taken.take(i as int));
        assert(taken.take(i + 1).last() == bits.code_of(frames@[i + 1]));
        let pc: u64 = strip_code_pointer(frames[i + 1], bits);
        if pc != 0 {
            callers.push(pc);
        }
        i = i + 1;
    }
    assert(taken.take(n as int) =~= taken);
    if callers.len() == 0 {
        return Err(CapturedUnwindError::OnlyLeafFrame { reason: None });
    }
    Ok(callers)
}

/// What has to hold before a capture is unwound: there are mappings, a stack, the two
/// registers, and something that could be loaded. The first of these that is missing
/// is the error.
pub fn check_capture(
    has_mappings: bool,
    stack_is_empty: bool,
    has_sp: bool,
    has_pc: bool,
    mapped_regions: usize,
) -> (r: Result<(), CapturedUnwindError>)
    ensures
        r == (if !has_mappings {
            Err::<(), CapturedUnwindError>(CapturedUnwindError::NoMappings)
        } else if stack_is_empty {
            Err(CapturedUnwindError::EmptyStack)
        } else if !has_sp {
            Err(CapturedUnwindError::MissingStackPointer)
        } else if !has_pc {
            Err(CapturedUnwindError::MissingInstructionPointer)
        } else if mapped_regions == 0 {
            Err(CapturedUnwindError::NoMappedRegions)
        } else {
            Ok(())
        }),
{
    if !has_mappings {
        return Err(CapturedUnwindError::NoMappings);
    }
    if stack_is_empty {
        return Err(CapturedUnwindError::EmptyStack);
    }
    if !has_sp {
        return Err(CapturedUnwindError::MissingStackPointer);
    }
    if !has_pc {
        return Err(CapturedUnwindError::MissingInstructionPointer);
    }
    if mapped_regions == 0 {
        return Err(CapturedUnwindError::NoMappedRegions);
    }
    Ok(())
}

/// What is to be done next in unwinding a capture.
pub enum BridgeStep {
    /// Unwind from this state.
    Unwind(CapturedThreadState),
    /// That was it.
    Finished(Result<CapturedUnwindOutcome, CapturedUnwindFailure>),
}

/// A capture that is being unwound.
pub struct BridgeWalk {
    options: CapturedUnwindOptions,
    fp: u64,
    sp: u64,
    bridging: bool,
    prefix: Vec<u64>,
}

/// The model of a [`BridgeWalk`].
pub struct BridgeView {
    pub options: CapturedUnwindOptions,
    /// The frame and stack pointer from which it was last unwound.
    pub fp: u64,
    pub sp: u64,
    /// Whether a step along the chain was tried.
    pub bridging: bool,
    /// The return addresses of the steps so far.
    pub prefix: Seq<u64>,
}

impl View for BridgeWalk {
    type V = BridgeView;

    closed spec fn view(&self) -> BridgeView {
        BridgeView {
            options: self.options,
            fp: self.fp,
            sp: self.sp,
            bridging: self.bridging,
            prefix: self.prefix@,
        }
    }
}

impl BridgeView {
    /// What an error leads to: a step along the chain, where the policy makes one, one
    /// is left, and the chain leads on.
    pub open spec fn bridged(self, stack: CapturedStack<'_>, error: CapturedUnwindError) -> Option<
        CapturedThreadState,
    > {
        if self.options.bridge.bridges(error) && self.prefix.len() < self.options.max_frames {
            bridge_state(stack.bits, stack.base, stack.bytes@, self.fp, self.sp)
        } else {
            None
        }
    }

    /// The walk after a step to `next`.
    pub open spec fn stepped(self, next: CapturedThreadState) -> BridgeView {
        BridgeView {
            fp: next.fp,
            sp: next.sp,
            bridging: true,
            prefix: self.prefix.push(next.pc),
            ..self
        }
    }
}

impl BridgeWalk {
    /// Begins to unwind a capture, which is first unwound from `state` itself.
    pub fn start(
        state: CapturedThreadState,
        options: CapturedUnwindOptions,
        bits: PointerBits,
    ) -> (w: Self)
        ensures
            w@ == (BridgeView {
                options,
                fp: bits.data_of(state.fp),
                sp: bits.data_of(state.sp),
                bridging: false,
                prefix: seq![],
            }),
    {
        BridgeWalk {
            options,
            fp: strip_data_pointer(state.fp, bits),
            sp: strip_data_pointer(state.sp, bits),
            bridging: false,
            prefix: Vec::new(),
        }
    }

    /// Takes in what came of unwinding. Success ends the walk, with the steps in front
    /// of what was found; an error leads to a step along the chain or is the end.
    pub fn on_unwound(
        &mut self,
        stack: CapturedStack<'_>,
        result: Result<Vec<u64>, CapturedUnwindError>,
    ) -> (s: BridgeStep)
        ensures
            match result {
                Ok(callers) => s matches BridgeStep::Finished(Ok(o)) && o.callers@ == old(
                    self,
                )@.prefix + callers@ && o.bridge_attempted == old(self)@.bridging
                    && o.bridge_steps == old(self)@.prefix.len(),
                Err(error) => match old(self)@.bridged(stack, error) {
                    Some(next) => s == BridgeStep::Unwind(next) && final(self)@ == old(
                        self,
                    )@.stepped(next),
                    None => s matches BridgeStep::Finished(Err(f)) && f == (
                    CapturedUnwindFailure {
                        error,
                        bridge_attempted: old(self)@.bridging || old(self)@.options.bridge.bridges(
                            error,
                        ),
                        bridge_steps: old(self)@.prefix.len() as usize,
                    }),
                },
            },
            s is Finished && result is Err ==> final(self)@ == old(self)@,
            s is Finished && result is Ok ==> final(self)@ == (BridgeView {
                prefix: seq![],
                ..old(self)@
            }),
            final(self)@.options == old(self)@.options,
    {
        let steps: usize = self.prefix.len();
        match result {
            Ok(callers) => {
                let mut callers = callers;
                let mut all: Vec<u64> = Vec::new();
                std::mem::swap(&mut all, &mut self.prefix);
                all.append(&mut callers);
                BridgeStep::Finished(
                    Ok(
                        CapturedUnwindOutcome {
                            callers: all,
                            bridge_attempted: self.bridging,
                            bridge_steps: steps,
                        },
                    ),
                )
            },
            Err(error) => {
                if !self.options.bridge.should_bridge(&error) {
                    return BridgeStep::Finished(
                        Err(
                            CapturedUnwindFailure {
                                error,
                                bridge_attempted: self.bridging,
                                bridge_steps: steps,
                            },
                        ),
                    );
                }
                if steps < self.options.max_frames {
                    match fp_bridge_step(stack, self.fp, self.sp) {
                        Some(next) => {
                            self.prefix.push(next.pc);
                            self.fp = next.fp;
                            self.sp = next.sp;
                            self.bridging = true;
                            return BridgeStep::Unwind(next);
                        },
                        None => {},
                    }
                }
                BridgeStep::Finished(
                    Err(
                        CapturedUnwindFailure {
                            error,
                            bridge_attempted: true,
                            bridge_steps: steps,
                        },
                    ),
                )
            },
        }
    }
}

/// The walk after a series of errors, each of which led to a step.
pub open spec fn walk_after(w: BridgeView, stack: CapturedStack<'_>, errors: Seq<
    CapturedUnwindError,
>) -> Option<BridgeView>
    decreases errors.len(),
{
    if errors.len() == 0 {
        Some(w)
    } else {
        match walk_after(w, stack, errors.drop_last()) {
            Some(v) => match v.bridged(stack, errors.last()) {
                Some(next) => Some(v.stepped(next)),
                None => None,
            },
            None => None,
        }
    }
}

/// The law of the walk over errors: it makes no more steps than were allowed, so it
/// ends, and each step leads further up the stack.
pub proof fn bridging_ends(w: BridgeView, stack: CapturedStack<'_>, errors: Seq<
    CapturedUnwindError,
>)
    requires
        w.prefix.len() == 0,
    ensures
        walk_after(w, stack, errors) matches Some(v) ==> v.prefix.len() == errors.len()
            && errors.len() <= w.options.max_frames && stack.bits.data_of(v.fp)
            >= stack.bits.data_of(w.fp) + errors.len() && v.options == w.options,
    decreases errors.len(),
{
    if errors.len() > 0 {
        bridging_ends(w, stack, errors.drop_last());
        match walk_after(w, stack, errors.drop_last()) {
            Some(v) => match word_at(stack.base, stack.bytes@, stack.bits.data_of(v.fp)) {
                Some(next) => stripped_pointers_stay(stack.bits.data, next),
                None => {},
            },
            None => {},
        }
    }
}

/// The mappings of a target, and what came of loading them.
pub struct CapturedStackUnwinder {
    mappings: Vec<CapturedImageMapping>,
    dirty: bool,
    last_reload: CapturedReload,
}

/// What is left without the mappings of `path` at `start`.
pub open spec fn without_mapping(s: Seq<MappingView>, start: u64, path: Seq<char>) -> Seq<
    MappingView,
>
    decreases s.len(),
{
    if s.len() == 0 {
        s
    } else if s.last().start == start && s.last().path == path {
        without_mapping(s.drop_last(), start, path)
    } else {
        without_mapping(s.drop_last(), start, path).push(s.last())
    }
}

/// What is left without the mappings at `start`.
pub open spec fn without_start(s: Seq<MappingView>, start: u64) -> Seq<MappingView>
    decreases s.len(),
{
    if s.len() == 0 {
        s
    } else if s.last().start == start {
        without_start(s.drop_last(), start)
    } else {
        without_start(s.drop_last(), start).push(s.last())
    }
}

/// The mappings that can be loaded: those with something in them and a file behind
/// them.
pub open spec fn loadable(s: Seq<MappingView>) -> Seq<MappingView>
    decreases s.len(),
{
    if s.len() == 0 {
        s
    } else if s.last().start < s.last().end && s.last().path.len() > 0 {
        loadable(s.drop_last()).push(s.last())
    } else {
        loadable(s.drop_last())
    }
}

/// Each region stands for the mapping at its place.
pub open spec fn are_regions(s: Seq<MappingView>, r: Seq<CapturedRegion>) -> bool {
    r.len() == s.len() && forall|i: int| 0 <= i < s.len() ==> is_region(s[i], #[trigger] r[i])
}

impl CapturedStackUnwinder {
    /// The mappings, oldest first.
    pub closed spec fn mappings(self) -> Seq<MappingView> {
        mapping_views(self.mappings@)
    }

    /// Whether they have changed since they were loaded.
    pub closed spec fn dirty(self) -> bool {
        self.dirty
    }

    /// What came of loading them.
    pub closed spec fn reload(self) -> CapturedReload {
        self.last_reload
    }

    /// No mappings.
    pub fn new() -> (u: Self)
        ensures
            u.mappings() == Seq::<MappingView>::empty(),
            !u.dirty(),
            u.reload().mapped_regions == 0,
            u.reload().loaded_binaries == 0,
            u.reload().load_failures@.len() == 0,
    {
        let u = CapturedStackUnwinder {
            mappings: Vec::new(),
            dirty: false,
            last_reload: CapturedReload {
                mapped_regions: 0,
                loaded_binaries: 0,
                load_failures: Vec::new(),
            },
        };
        assert(u.mappings() =~= Seq::<MappingView>::empty());
        u
    }

    /// Takes other mappings.
    pub fn set_mappings(&mut self, mappings: Vec<CapturedImageMapping>)
        ensures
            final(self).mappings() == mapping_views(mappings@),
            final(self).dirty(),
            final(self).reload() == old(self).reload(),
    {
        self.mappings = mappings;
        self.dirty = true;
    }

    /// Adds a mapping, in place of one of the same file at the same address.
    pub fn add_mapping(&mut self, mapping: CapturedImageMapping)
        ensures
            final(self).mappings() == without_mapping(
                old(self).mappings(),
                mapping.start,
                mapping.path@,
            ).push(mapping@),
            final(self).dirty(),
            final(self).reload() == old(self).reload(),
    {
        let ghost given = self.mappings();
        let ghost mut k: int = 0;
        let mut i: usize = 0;
        assert(given.take(0) =~= seq![]);
        assert(mapping_views(self.mappings@) =~= without_mapping(
            given.take(0),
            mapping.start,
            mapping.path@,
        ) + given.skip(0));
        while i < self.mappings.len()
            invariant
                0 <= k <= given.len(),
                i == without_mapping(given.take(k), mapping.start, mapping.path@).len(),
                mapping_views(self.mappings@) == without_mapping(
                    given.take(k),
                    mapping.start,
                    mapping.path@,
                ) + given.skip(k),
                given == old(self).mappings(),
                self.last_reload == old(self).last_reload,
            decreases given.len() - k,
        {
            let ghost views = mapping_views(self.mappings@);
            proof {
                assert(views[i as int] == given[k]);
                assert(views[i as int] == self.mappings@[i as int]@);
                assert(given.take(k + 1).drop_last() =~= given.take(k));
                assert(given.take(k + 1).last() == given[k]);
            }
            let same = self.mappings[i].start == mapping.start && crate::text::same_text(
                self.mappings[i].path.as_str(),
                mapping.path.as_str(),
            );
            if same {
                let _ = self.mappings.remove(i);
                assert(mapping_views(self.mappings@) =~= views.remove(i as int));
            } else {
                i = i + 1;
            }
            proof {
                assert(mapping_views(self.mappings@) =~= without_mapping(
                    given.take(k + 1),
                    mapping.start,
                    mapping.path@,
                ) + given.skip(k + 1));
                k = k + 1;
            }
        }
        assert(given.skip(k).len() == 0);
        assert(given.take(k) =~= given);
        let ghost kept = mapping_views(self.mappings@);
        assert(kept =~= without_mapping(given, mapping.start, mapping.path@));
        let ghost added = mapping@;
        self.mappings.push(mapping);
        assert(mapping_views(self.mappings@) =~= kept.push(added));
        self.dirty = true;
    }

    /// Removes the mappings at an address.
    pub fn remove_mapping_by_start(&mut self, start: u64)
        ensures
            final(self).mappings() == without_start(old(self).mappings(), start),
            final(self).dirty() == (old(self).dirty() || without_start(
                old(self).mappings(),
                start,
            ).len() != old(self).mappings().len()),
            final(self).reload() == old(self).reload(),
    {
        let ghost given = self.mappings();
        let old_len: usize = self.mappings.len();
        let ghost mut k: int = 0;
        let mut i: usize = 0;
        assert(given.take(0) =~= seq![]);
        assert(mapping_views(self.mappings@) =~= without_start(given.take(0), start)
            + given.skip(0));
        while i < self.mappings.len()
            invariant
                0 <= k <= given.len(),
                i == without_start(given.take(k), start).len(),
                mapping_views(self.mappings@) == without_start(given.take(k), start) + given.skip(
                    k,
                ),
                given == old(self).mappings(),
                self.last_reload == old(self).last_reload,
                self.dirty == old(self).dirty,
            decreases given.len() - k,
        {
            let ghost views = mapping_views(self.mappings@);
            proof {
                assert(views[i as int] == given[k]);
                assert(views[i as int] == self.mappings@[i as int]@);
                assert(given.take(k + 1).drop_last() =~= given.take(k));
                assert(given.take(k + 1).last() == given[k]);
            }
            if self.mappings[i].start == start {
                let _ = self.mappings.remove(i);
                assert(mapping_views(self.mappings@) =~= views.remove(i as int));
            } else {
                i = i + 1;
            }
            proof {
                assert(mapping_views(self.mappings@) =~= without_start(given.take(k + 1), start)
                    + given.skip(k + 1));
                k = k + 1;
            }
        }
        assert(given.skip(k).len() == 0);
        assert(given.take(k) =~= given);
        assert(mapping_views(self.mappings@) =~= without_start(given, start));
        if self.mappings.len() != old_len {
            self.dirty = true;
        }
    }

    /// What came of loading the mappings.
    pub fn last_reload(&self) -> (r: &CapturedReload)
        ensures
            *r == self.reload(),
    {
        &self.last_reload
    }

    /// Whether there are mappings.
    pub fn has_mappings(&self) -> (r: bool)
        ensures
            r == (self.mappings().len() > 0),
    {
        self.mappings.len() > 0
    }

    /// The regions to load, where the mappings have changed since they were loaded.
    pub fn regions_to_load(&self) -> (r: Option<Vec<CapturedRegion>>)
        ensures
            r is Some == self.dirty(),
            r matches Some(regions) ==> are_regions(loadable(self.mappings()), regions@),
    {
        if !self.dirty {
            return None;
        }
        let ghost given = self.mappings();
        let mut out: Vec<CapturedRegion> = Vec::new();
        let mut i: usize = 0;
        assert(given.take(0) =~= seq![]);
        while i < self.mappings.len()
            invariant
                i <= self.mappings@.len(),
                given == mapping_views(self.mappings@),
                are_regions(loadable(given.take(i as int)), out@),
            decreases self.mappings@.len() - i,
        {
            proof {
                assert(given[i as int] == self.mappings@[i as int]@);
                assert(given.take(i + 1).drop_last() =~= given.take(i as int));
                assert(given.take(i + 1).last() == given[i as int]);
            }
            let m = &self.mappings[i];
            if m.start < m.end && m.path.as_str().unicode_len() > 0 {
                out.push(m.to_region());
            }
            i = i + 1;
        }
        assert(given.take(i as int) =~= given);
        Some(out)
    }

    /// Takes in what came of loading the mappings.
    pub fn reloaded(&mut self, reload: CapturedReload)
        ensures
            final(self).mappings() == old(self).mappings(),
            !final(self).dirty(),
            final(self).reload() == reload,
    {
        self.last_reload = reload;
        self.dirty = false;
    }
}

/// The law of mappings: after one was added, there is exactly one of its file at its
/// address, and it is the one that was added.
pub proof fn added_mapping_is_the_only_one(s: Seq<MappingView>, m: MappingView)
    ensures
        ({
            let after = without_mapping(s, m.start, m.path).push(m);
            &&& after.last() == m
            &&& forall|i: int|
                0 <= i < after.len() - 1 ==> !((#[trigger] after[i]).start == m.start
                    && after[i].path == m.path)
        }),
    decreases s.len(),
{
    if s.len() > 0 {
        added_mapping_is_the_only_one(s.drop_last(), m);
        let before = without_mapping(s.drop_last(), m.start, m.path).push(m);
        let after = without_mapping(s, m.start, m.path).push(m);
        assert forall|i: int| 0 <= i < after.len() - 1 implies !((#[trigger] after[i]).start
            == m.start && after[i].path == m.path) by {
            if i < before.len() - 1 {
                assert(before[i] == after[i]);
            }
        }
    }
}

/// The copy holds the two words of a frame.
pub open spec fn holds_frame(base: u64, bytes: Seq<u8>, fp: u64) -> bool {
    base <= fp && fp - base + 16 <= bytes.len()
}

/// The copy ends where the address space ends at the latest.
pub open spec fn is_copy_of_memory(base: u64, bytes: Seq<u8>) -> bool {
    base + bytes.len() <= 0x1_0000_0000_0000_0000
}

/// The pointer to the next frame that is saved in a frame.
pub open spec fn saved_fp(bits: PointerBits, base: u64, bytes: Seq<u8>, fp: u64) -> u64 {
    bits.data_of(le_u64(bytes, fp - base))
}

/// The return address that is saved in a frame.
pub open spec fn saved_lr(bits: PointerBits, base: u64, bytes: Seq<u8>, fp: u64) -> u64 {
    bits.code_of(le_u64(bytes, fp - base + 8))
}

/// The frames hang together: the copy holds each of them, and each leads up to the next.
pub open spec fn hang_together(bits: PointerBits, base: u64, bytes: Seq<u8>, fps: Seq<u64>) -> bool {
    &&& forall|i: int| 0 <= i < fps.len() ==> holds_frame(base, bytes, #[trigger] fps[i])
    &&& forall|i: int, j: int|
        0 <= i < fps.len() && j == i + 1 && j < fps.len() ==> (#[trigger] fps[i]) < (
        #[trigger] fps[j]) && saved_fp(bits, base, bytes, fps[i]) == fps[j]
}

/// Nothing hangs on the frame: it does not lead upwards, or what it leads to is not in the copy.
pub open spec fn is_last_frame(bits: PointerBits, base: u64, bytes: Seq<u8>, fp: u64) -> bool {
    let next = saved_fp(bits, base, bytes, fp);
    next <= fp || next < base || next - base + 16 > bytes.len()
}

/// The return addresses of some frames, without nulls.
pub open spec fn return_addresses(
    bits: PointerBits,
    base: u64,
    bytes: Seq<u8>,
    fps: Seq<u64>,
) -> Seq<u64> {
    fps.map_values(|fp: u64| saved_lr(bits, base, bytes, fp)).filter(|lr: u64| lr != 0)
}

/// Without its first frame, a chain still hangs together.
proof fn lemma_rest_hangs_together(bits: PointerBits, base: u64, bytes: Seq<u8>, fps: Seq<u64>)
    requires
        fps.len() > 0,
        hang_together(bits, base, bytes, fps),
    ensures
        hang_together(bits, base, bytes, fps.drop_first()),
{
    let rest = fps.drop_first();
    assert forall|i: int| 0 <= i < rest.len() implies holds_frame(base, bytes, #[trigger] rest[i]) by {
        assert(holds_frame(base, bytes, fps[i + 1]));
    }
    assert forall|i: int, j: int| 0 <= i < rest.len() && j == i + 1 && j < rest.len() implies (
    #[trigger] rest[i]) < (#[trigger] rest[j]) && saved_fp(bits, base, bytes, rest[i]) == rest[j] by {
        assert(fps[i + 1] < fps[j + 1]);
    }
}

/// Filtering goes on from the first.
proof fn lemma_filter_first(s: Seq<u64>, p: spec_fn(u64) -> bool)
    requires
        s.len() > 0,
    ensures
        s.filter(p) == (if p(s[0]) {
            seq![s[0]]
        } else {
            seq![]
        }) + s.drop_first().filter(p),
    decreases s.len(),
{
    reveal(Seq::filter);
    let rest = s.drop_first();
    if s.len() == 1 {
        assert(rest =~= seq![]);
        assert(s.drop_last() =~= seq![]);
        assert(s.drop_last().filter(p) =~= seq![]);
        assert(s.filter(p) =~= (if p(s[0]) {
            seq![s[0]]
        } else {
            seq![]
        }) + rest.filter(p));
    } else {
        lemma_filter_first(s.drop_last(), p);
        assert(s.drop_last().drop_first() =~= rest.drop_last());
        assert(s.filter(p) =~= (if p(s[0]) {
            seq![s[0]]
        } else {
            seq![]
        }) + rest.filter(p));
    }
}

/// The words of a frame that the copy holds.
proof fn lemma_frame_words(base: u64, bytes: Seq<u8>, fp: u64)
    requires
        is_copy_of_memory(base, bytes),
        holds_frame(base, bytes, fp),
    ensures
        word_at(base, bytes, fp) == Some(le_u64(bytes, fp - base)),
        word_at(base, bytes, sat_add(fp, 8)) == Some(le_u64(bytes, fp - base + 8)),
{
}

/// The law of the walk: it goes along every frame that hangs on the one before it, however far
/// away that is, and gives their return addresses in their order, up to the number of frames
/// that was asked for.
pub proof fn walks_are_complete(
    bits: PointerBits,
    base: u64,
    bytes: Seq<u8>,
    fps: Seq<u64>,
    n: nat,
)
    requires
        is_copy_of_memory(base, bytes),
        hang_together(bits, base, bytes, fps),
        0 < fps.len() <= n,
    ensures
        return_addresses(bits, base, bytes, fps).is_prefix_of(
            fp_chain(bits, base, bytes, fps[0], n),
        ),
        fps.len() == n || is_last_frame(bits, base, bytes, fps.last()) ==> fp_chain(
            bits,
            base,
            bytes,
            fps[0],
            n,
        ) == return_addresses(bits, base, bytes, fps),
    decreases fps.len(),
{
    let fp = fps[0];
    let lrs = fps.map_values(|fp: u64| saved_lr(bits, base, bytes, fp));
    let wanted = return_addresses(bits, base, bytes, fps);
    let got = fp_chain(bits, base, bytes, fp, n);
    let kept = |lr: u64| lr != 0;
    assert(holds_frame(base, bytes, fp));
    lemma_frame_words(base, bytes, fp);
    lemma_filter_first(lrs, kept);
    let lr = saved_lr(bits, base, bytes, fp);
    assert(lrs[0] == lr);
    let here = if lr != 0 {
        seq![lr]
    } else {
        seq![]
    };
    if fps.len() == 1 {
        assert(lrs.drop_first() =~= seq![]);
        assert(lrs.drop_first().filter(kept) =~= seq![]) by {
            reveal(Seq::filter);
        }
        assert(wanted =~= here);
        let next = saved_fp(bits, base, bytes, fp);
        if next > fp {
            let rest = fp_chain(bits, base, bytes, next, (n - 1) as nat);
            assert(got == here + rest);
            if n == 1 || is_last_frame(bits, base, bytes, fp) {
                lemma_no_frame(bits, base, bytes, next, (n - 1) as nat);
                assert(here + rest =~= here);
            }
        }
        assert(wanted =~= got.subrange(0, wanted.len() as int));
    } else {
        let rest = fps.drop_first();
        lemma_rest_hangs_together(bits, base, bytes, fps);
        assert(fps[0] < fps[1] && saved_fp(bits, base, bytes, fps[0]) == fps[1]);
        walks_are_complete(bits, base, bytes, rest, (n - 1) as nat);
        assert(rest.last() == fps.last());
        let tail = fp_chain(bits, base, bytes, fps[1], (n - 1) as nat);
        assert(got == here + tail);
        assert(lrs.drop_first() =~= rest.map_values(|fp: u64| saved_lr(bits, base, bytes, fp)));
        let more = return_addresses(bits, base, bytes, rest);
        assert(wanted == here + more);
        assert(more =~= tail.subrange(0, more.len() as int));
        assert(wanted =~= got.subrange(0, wanted.len() as int));
    }
}

/// Where the copy holds no frame, there is nothing to walk.
proof fn lemma_no_frame(bits: PointerBits, base: u64, bytes: Seq<u8>, fp: u64, n: nat)
    requires
        is_copy_of_memory(base, bytes),
        n == 0 || fp < base || fp - base + 16 > bytes.len(),
    ensures
        fp_chain(bits, base, bytes, fp, n) =~= seq![],
{
}

/// The law of the empty walk: where the first frame is not in the copy, or none is asked for,
/// there are no return addresses.
pub proof fn walks_need_a_frame(bits: PointerBits, base: u64, bytes: Seq<u8>, fp: u64, n: nat)
    requires
        is_copy_of_memory(base, bytes),
        n == 0 || fp < base || fp - base + 16 > bytes.len(),
    ensures
        fp_chain(bits, base, bytes, fp, n).len() == 0,
{
    lemma_no_frame(bits, base, bytes, fp, n);
}

/// The law of signatures: whatever signature stands in the bits that are no part of the address,
/// it comes off. In the lower half of the address space those bits are clear in an address, in
/// the upper half they are set.
pub proof fn signatures_come_off(bits: u64, address: u64, signature: u64)
    ensures
        address & !bits == 0 && address & 0x0080_0000_0000_0000 == 0 ==> address_in(
            bits,
            address | (signature & !bits & !0x0080_0000_0000_0000u64),
        ) == address,
        address | bits == 0xffff_ffff_ffff_ffff && address & 0x0080_0000_0000_0000 != 0
            ==> address_in(bits, address & (signature | bits | 0x0080_0000_0000_0000u64))
            == address,
{
    assert(address & !bits == 0 && address & 0x0080_0000_0000_0000u64 == 0 ==> {
        let p = address | (signature & !bits & !0x0080_0000_0000_0000u64);
        p & 0x0080_0000_0000_0000u64 == 0 && p & bits == address
    }) by (bit_vector);
    assert(address | bits == 0xffff_ffff_ffff_ffffu64 && address & 0x0080_0000_0000_0000u64 != 0
        ==> {
        let p = address & (signature | bits | 0x0080_0000_0000_0000u64);
        p & 0x0080_0000_0000_0000u64 != 0 && p | !bits == address
    }) by (bit_vector);
}

/// The law of the step: from a frame that the copy holds, is not below the stack pointer and leads
/// upwards, it goes to the caller, with the return address that the frame holds, the frame that
/// it leads to, and the stack pointer right above it.
pub proof fn steps_go_to_the_caller(
    bits: PointerBits,
    base: u64,
    bytes: Seq<u8>,
    fp: u64,
    sp: u64,
)
    requires
        is_copy_of_memory(base, bytes),
        bits.data_of(fp) == fp,
        bits.data_of(sp) == sp,
        holds_frame(base, bytes, fp),
        0 < fp < u64::MAX - 15,
        sp <= fp,
        fp < saved_fp(bits, base, bytes, fp) < u64::MAX - 7,
        saved_lr(bits, base, bytes, fp) != 0,
    ensures
        bridge_state(bits, base, bytes, fp, sp) matches Some(s) && {
            &&& s.pc == saved_lr(bits, base, bytes, fp)
            &&& s.fp == saved_fp(bits, base, bytes, fp)
            &&& s.sp == fp + 16
            &&& holds_frame(base, bytes, s.fp) ==> s.lr == saved_lr(bits, base, bytes, s.fp)
        },
{
    lemma_frame_words(base, bytes, fp);
}

/// The law of steps and walks: steps along the chain find what a walk along it finds. A walk from a
/// frame gives the return address that a step from there leads to, and then what a walk from the
/// frame gives that the step leads to.
pub proof fn steps_follow_the_walk(
    bits: PointerBits,
    base: u64,
    bytes: Seq<u8>,
    fp: u64,
    sp: u64,
    n: nat,
)
    requires
        bits.data_of(fp) == fp,
    ensures
        bridge_state(bits, base, bytes, fp, sp) matches Some(s) ==> fp_chain(
            bits,
            base,
            bytes,
            fp,
            n + 1,
        ) == seq![s.pc] + fp_chain(bits, base, bytes, s.fp, n),
{
}

/// What is left without nulls.
proof fn lemma_without_nulls(s: Seq<u64>)
    ensures
        without_nulls(s) == s.filter(|a: u64| a != 0),
    decreases s.len(),
{
    reveal(Seq::filter);
    if s.len() > 0 {
        lemma_without_nulls(s.drop_last());
    }
}

/// The law of callers: of the frames that an unwinder found, the callers are all but the innermost,
/// in their order, without signatures and nulls, and no more of them than were asked for.
pub proof fn callers_are_the_other_frames(bits: PointerBits, frames: Seq<u64>, n: nat)
    requires
        frames.len() > 1,
    ensures
        n >= frames.len() - 1 ==> callers_in(bits, frames, n) == frames.drop_first().map_values(
            |f: u64| bits.code_of(f),
        ).filter(|a: u64| a != 0),
        n < frames.len() - 1 ==> callers_in(bits, frames, n) == frames.subrange(
            1,
            n as int + 1,
        ).map_values(|f: u64| bits.code_of(f)).filter(|a: u64| a != 0),
{
    if n < frames.len() - 1 {
        let s = stripped(bits, frames).skip(1).take(n as int);
        assert(s =~= frames.subrange(1, n as int + 1).map_values(|f: u64| bits.code_of(f)));
        lemma_without_nulls(s);
    } else {
        let s = stripped(bits, frames).skip(1).take(frames.len() - 1);
        assert(s =~= frames.drop_first().map_values(|f: u64| bits.code_of(f)));
        lemma_without_nulls(s);
    }
}

/// The law of policies: one that never steps does not, the narrow one steps where code has no
/// tables, and the wide one steps wherever only the innermost frame was found.
pub proof fn policies_widen(reason: Option<UnwindFailure>)
    ensures
        !CapturedBridgePolicy::Never.bridges(CapturedUnwindError::OnlyLeafFrame { reason }),
        CapturedBridgePolicy::AnyOnlyLeaf.bridges(CapturedUnwindError::OnlyLeafFrame { reason }),
        CapturedBridgePolicy::OnlyNoBinaryOrNoUnwindInfo.bridges(
            CapturedUnwindError::OnlyLeafFrame { reason },
        ) == (reason == Some(UnwindFailure::NoBinary) || reason == Some(
            UnwindFailure::NoUnwindInfo,
        )),
{
}

/// The law of removed mappings: those that begin there go, and every other one stays.
pub proof fn only_mappings_there_go(s: Seq<MappingView>, start: u64)
    ensures
        without_start(s, start) == s.filter(|m: MappingView| m.start != start),
    decreases s.len(),
{
    reveal(Seq::filter);
    if s.len() > 0 {
        only_mappings_there_go(s.drop_last(), start);
    }
}

/// The law of loadable mappings: those with something in them and a file behind them are loaded, in
/// their order.
pub proof fn mappings_of_files_are_loaded(s: Seq<MappingView>)
    ensures
        loadable(s) == s.filter(|m: MappingView| m.start < m.end && m.path.len() > 0),
    decreases s.len(),
{
    reveal(Seq::filter);
    if s.len() > 0 {
        mappings_of_files_are_loaded(s.drop_last());
    }
}

/// The law of regions: each has the range, the rights, the place in the file and the path of its
/// mapping.
pub proof fn regions_keep_their_mapping(s: Seq<MappingView>, r: Seq<CapturedRegion>, i: int)
    requires
        are_regions(s, r),
        0 <= i < s.len(),
    ensures
        r.len() == s.len(),
        r[i].start == s[i].start,
        r[i].end == s[i].end,
        r[i].is_read == s[i].is_read,
        r[i].is_write == s[i].is_write,
        r[i].is_executable == s[i].is_executable,
        r[i].file_offset == s[i].file_offset,
        r[i].name@ == s[i].path,
{
    assert(is_region(s[i], r[i]));
}

/// The law of mapped code: it begins and ends where the file is mapped, and may be read and executed
/// but not written.
pub proof fn text_is_mapped_to_execute(path: Seq<char>, start: u64, size: u64, offset: u64)
    requires
        start + size <= u64::MAX,
    ensures
        text_mapping(path, start, size, offset) == (MappingView {
            start,
            end: (start + size) as u64,
            file_offset: offset,
            is_read: true,
            is_write: false,
            is_executable: true,
            path,
        }),
{
}

/// The law of bridges: a step along the chain is tried after an error that the policy names, as long as
/// fewer frames than the limit were found by such steps, and it is the step that the chain gives.
pub proof fn bridges_are_tried_below_the_limit(
    v: BridgeView,
    stack: CapturedStack<'_>,
    error: CapturedUnwindError,
)
    ensures
        v.prefix.len() >= v.options.max_frames ==> v.bridged(stack, error) is None,
        v.options.bridge is Never ==> v.bridged(stack, error) is None,
        !(error is OnlyLeafFrame) ==> v.bridged(stack, error) is None,
        v.prefix.len() < v.options.max_frames && v.options.bridge is AnyOnlyLeaf
            && error is OnlyLeafFrame ==> v.bridged(stack, error) == bridge_state(
            stack.bits,
            stack.base,
            stack.bytes@,
            v.fp,
            v.sp,
        ),
        v.prefix.len() < v.options.max_frames && v.options.bridge is OnlyNoBinaryOrNoUnwindInfo
            && error is OnlyLeafFrame ==> v.bridged(stack, error) == (
        if error->reason == Some(UnwindFailure::NoBinary) || error->reason == Some(
            UnwindFailure::NoUnwindInfo,
        ) {
            bridge_state(stack.bits, stack.base, stack.bytes@, v.fp, v.sp)
        } else {
            None
        }),
{
}

/// The law of steps along the chain: the address that was found is kept behind those before it, and
/// unwinding goes on from the frame that was found.
pub proof fn steps_along_the_chain_are_kept(v: BridgeView, next: CapturedThreadState)
    ensures
        v.stepped(next).prefix == v.prefix.push(next.pc),
        v.stepped(next).fp == next.fp,
        v.stepped(next).sp == next.sp,
        v.stepped(next).bridging,
        v.stepped(next).options == v.options,
{
}

} // verus!
