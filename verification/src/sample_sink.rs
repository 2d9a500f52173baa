//! The events of a recording and the interface that receives them.
use std::sync::Arc;
use vstd::prelude::*;

verus! {

/// The instants of one probe, in clock ticks. Zero stands for "not taken".
#[derive(Clone, Copy, Debug, PartialEq, Eq, Structural)]
pub struct ProbeTiming {
    /// The sample that the probe belongs to.
    pub kperf_ts: u64,
    /// When the request was put in line.
    pub enqueued: u64,
    /// When a worker took the request up.
    pub worker_started: u64,
    /// When the thread had been found.
    pub thread_lookup_done: u64,
    /// When the registers had been read.
    pub state_done: u64,
    /// When the thread ran again.
    pub resume_done: u64,
    /// When the stack had been walked.
    pub walk_done: u64,
}

impl Default for ProbeTiming {
    fn default() -> (r: Self)
        ensures
            r == (ProbeTiming {
                kperf_ts: 0,
                enqueued: 0,
                worker_started: 0,
                thread_lookup_done: 0,
                state_done: 0,
                resume_done: 0,
                walk_done: 0,
            }),
    {
        ProbeTiming {
            kperf_ts: 0,
            enqueued: 0,
            worker_started: 0,
            thread_lookup_done: 0,
            state_done: 0,
            resume_done: 0,
            walk_done: 0,
        }
    }
}

/// What became of the requests in front of a probe.
#[derive(Clone, Copy, Debug, PartialEq, Eq, Structural)]
pub struct ProbeQueueStats {
    pub coalesced_requests: u64,
    pub worker_batch_len: u32,
}

impl Default for ProbeQueueStats {
    fn default() -> (r: Self)
        ensures
            r == (ProbeQueueStats { coalesced_requests: 0, worker_batch_len: 0 }),
    {
        ProbeQueueStats { coalesced_requests: 0, worker_batch_len: 0 }
    }
}

/// What a probe saw of the thread that a sample was taken of.
pub struct ProbeResultEvent<'a> {
    pub tid: u32,
    pub timing: ProbeTiming,
    pub queue: ProbeQueueStats,
    pub mach_pc: u64,
    pub mach_lr: u64,
    pub mach_fp: u64,
    pub mach_sp: u64,
    pub mach_walked: &'a [u64],
    pub used_framehop: bool,
}

/// One stack sample, callee first. Time is accounted for by [`CpuIntervalEvent`].
pub struct SampleEvent<'a> {
    pub timestamp_ns: u64,
    pub pid: u32,
    pub tid: u32,
    pub backtrace: &'a [u64],
    pub kernel_backtrace: &'a [u64],
    /// Counters since the thread's last sample; zero where they are not available.
    pub cycles: u64,
    pub instructions: u64,
    pub l1d_misses: u64,
    pub branch_mispreds: u64,
}

/// One symbol of an image.
pub struct MachOSymbol {
    pub start_svma: u64,
    pub end_svma: u64,
    pub name: Vec<u8>,
}

/// An image was loaded.
pub struct BinaryLoadedEvent<'a> {
    pub pid: u32,
    pub base_avma: u64,
    pub vmsize: u64,
    /// The address that the linker laid the code out at.
    pub text_svma: u64,
    pub path: &'a str,
    pub uuid: Option<[u8; 16]>,
    pub arch: Option<&'static str>,
    pub is_executable: bool,
    pub symbols: &'a [MachOSymbol],
    /// The bytes of the code, where no file has them.
    pub text_bytes: Option<&'a [u8]>,
}

/// An image was unloaded.
pub struct BinaryUnloadedEvent<'a> {
    pub pid: u32,
    pub base_avma: u64,
    pub path: &'a str,
}

/// One thread made another one runnable. The stacks are those of the waker's last
/// sample.
pub struct WakeupEvent<'a> {
    pub timestamp_ns: u64,
    pub pid: u32,
    pub waker_tid: u32,
    pub wakee_tid: u32,
    pub waker_user_stack: &'a [u64],
    pub waker_kernel_stack: &'a [u64],
}

/// A source of code bytes that are on no disk.
pub trait MachOByteSource: Send + Sync {
    /// The `len` bytes at `avma`, where the source has them.
    fn fetch<'a>(&'a self, avma: u64, len: usize) -> Option<&'a [u8]>;
}

/// One stretch of time that a thread spent on or off the CPU.
pub struct CpuIntervalEvent<'a> {
    pub pid: u32,
    pub tid: u32,
    pub start_ns: u64,
    pub end_ns: u64,
    pub kind: CpuIntervalKind<'a>,
}

/// Where a thread spent a stretch of time.
pub enum CpuIntervalKind<'a> {
    OnCpu,
    OffCpu {
        /// The stack that the thread ran before it was parked.
        stack: &'a [u64],
        /// Who woke it, where that was seen.
        waker_tid: Option<u32>,
        waker_user_stack: Option<&'a [u64]>,
    },
}

/// A thread has a name.
pub struct ThreadNameEvent<'a> {
    pub pid: u32,
    pub tid: u32,
    pub name: &'a str,
}

/// The target writes its generated code to a file.
pub struct JitdumpEvent<'a> {
    pub pid: u32,
    pub path: &'a str,
}

/// Receives the events of a recording.
pub trait SampleSink {
    fn on_sample(&mut self, sample: SampleEvent<'_>);

    fn on_binary_loaded(&mut self, ev: BinaryLoadedEvent<'_>);

    fn on_binary_unloaded(&mut self, ev: BinaryUnloadedEvent<'_>);

    fn on_thread_name(&mut self, ev: ThreadNameEvent<'_>);

    fn on_jitdump(&mut self, ev: JitdumpEvent<'_>) {
    }

    /// Kernel symbols, one per line: address, type, name.
    fn on_kallsyms(&mut self, data: &[u8]) {
    }

    fn on_wakeup(&mut self, event: WakeupEvent<'_>) {
    }

    fn on_cpu_interval(&mut self, event: CpuIntervalEvent<'_>) {
    }

    /// A source of code bytes that are on no disk.
    fn on_macho_byte_source(&mut self, source: Arc<dyn MachOByteSource>) {
    }

    fn on_probe_result(&mut self, ev: ProbeResultEvent<'_>) {
    }
}

} // verus!
