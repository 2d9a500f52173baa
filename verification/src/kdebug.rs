//! The layout of the kernel's trace records.
use vstd::prelude::*;

verus! {

/// One trace record.
#[derive(Clone, Copy, Debug, PartialEq, Eq, Structural)]
pub struct KdBuf {
    pub timestamp: u64,
    pub arg1: u64,
    pub arg2: u64,
    pub arg3: u64,
    pub arg4: u64,
    /// The thread that the record is about.
    pub arg5: u64,
    /// Class, subclass, code and function of the record.
    pub debugid: u32,
    pub cpuid: u32,
}

/// Records of the Mach subsystems.
pub const DBG_MACH: u8 = 1;

/// Records of the profiler.
pub const DBG_PERF: u8 = 37;

/// Records of the scheduler, a subclass of [`DBG_MACH`].
pub const DBG_MACH_SCHED: u8 = 0x40;

/// The record opens something.
pub const DBG_FUNC_START: u32 = 1;

/// The record closes something.
pub const DBG_FUNC_END: u32 = 2;

/// The bits of a timestamp; those above hold the processor.
pub const KDBG_TIMESTAMP_MASK: u64 = 0x00ff_ffff_ffff_ffff;

/// Profiler records: the bounds of a sample.
pub const PERF_GENERIC: u8 = 0;

/// Profiler records: call stacks.
pub const PERF_CALLSTACK: u8 = 2;

/// Profiler records: hardware counters.
pub const PERF_KPC: u8 = 6;

/// Call stacks: the walk of the kernel side.
pub const CS_KSAMPLE: u16 = 0;

/// Call stacks: frames of the kernel side.
pub const CS_KDATA: u16 = 3;

/// Call stacks: frames of the user side.
pub const CS_UDATA: u16 = 4;

/// Call stacks: how many frames of the kernel side follow.
pub const CS_KHDR: u16 = 5;

/// Call stacks: how many frames of the user side follow.
pub const CS_UHDR: u16 = 6;

/// Call stacks: a walk that failed.
pub const CS_ERROR: u16 = 7;

/// Hardware counters: those of the sampled thread.
pub const KPC_DATA_THREAD: u16 = 8;

/// The class of a record.
pub open spec fn class_of(debugid: u32) -> u8 {
    ((debugid >> 24) & 0xff) as u8
}

/// The subclass of a record.
pub open spec fn subclass_of(debugid: u32) -> u8 {
    ((debugid >> 16) & 0xff) as u8
}

/// The code of a record.
pub open spec fn code_of(debugid: u32) -> u16 {
    ((debugid >> 2) & 0x3fff) as u16
}

/// The function of a record.
pub open spec fn func_of(debugid: u32) -> u32 {
    debugid & 0x3
}

/// The class of a record.
pub fn kdbg_class(debugid: u32) -> (c: u8)
    ensures
        c == class_of(debugid),
{
    ((debugid >> 24) & 0xff) as u8
}

/// The subclass of a record.
pub fn kdbg_subclass(debugid: u32) -> (c: u8)
    ensures
        c == subclass_of(debugid),
{
    ((debugid >> 16) & 0xff) as u8
}

/// The code of a record.
pub fn kdbg_code(debugid: u32) -> (c: u16)
    ensures
        c == code_of(debugid),
{
    ((debugid >> 2) & 0x3fff) as u16
}

/// The function of a record.
pub fn kdbg_func(debugid: u32) -> (f: u32)
    ensures
        f == func_of(debugid),
{
    debugid & 0x3
}

/// The identifier of records of a class, subclass and code, without a function.
pub open spec fn eventid_of(class: u8, subclass: u8, code: u16) -> u32 {
    ((class as u32) << 24) | ((subclass as u32) << 16) | ((code as u32) << 2)
}

/// The identifier of records of a class, subclass and code, without a function.
pub fn kdbg_eventid(class: u8, subclass: u8, code: u16) -> (id: u32)
    ensures
        id == eventid_of(class, subclass, code),
{
    ((class as u32) << 24) | ((subclass as u32) << 16) | ((code as u32) << 2)
}

/// The law of record identifiers: what one was made of can be read off it.
pub proof fn eventid_round_trip(class: u8, subclass: u8, code: u16)
    requires
        code <= 0x3fff,
    ensures
        class_of(eventid_of(class, subclass, code)) == class,
        subclass_of(eventid_of(class, subclass, code)) == subclass,
        code_of(eventid_of(class, subclass, code)) == code,
        func_of(eventid_of(class, subclass, code)) == 0,
{
    assert(code <= 0x3fff ==> {
        let id: u32 = ((class as u32) << 24) | ((subclass as u32) << 16) | ((code as u32) << 2);
        &&& ((id >> 24) & 0xff) as u8 == class
        &&& ((id >> 16) & 0xff) as u8 == subclass
        &&& ((id >> 2) & 0x3fff) as u16 == code
        &&& id & 0x3 == 0
    }) by (bit_vector);
}

} // verus!
