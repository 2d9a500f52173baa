//! The server: what becomes of the events of a run, how runs are waited for, and how
//! companions are started.
use vstd::prelude::*;

use crate::aggregator::{
    earliest, latest, only_the_thread_changes, thread_updated, Aggregator, IntervalKind, IntervalView,
    KindView, PetView, PmuSample, ProbeResultRecord, ThreadView,
};
use crate::binaries::{
    is_stored_form, only_the_image_at_the_base_goes, without_base, BinaryRegistry, LiveSymbolOwned, LoadedBinary,
};
use crate::runs::{
    busy_text, counted_run, mismatch_text, new_run, no_active_run_text, BegunRun, RegistryView,
    RunRegistry, RunState, RunSummary, RunView,
};
use crate::shade::TerminalSize;
use crate::text::{dec, dec_string, opt_text, push_dec};

verus! {

/// A sample as it comes in.
pub struct WireSample {
    pub tid: u32,
    pub timestamp_ns: u64,
    pub user_backtrace: Vec<u64>,
    pub kernel_backtrace: Vec<u64>,
    pub cycles: u64,
    pub instructions: u64,
    pub l1d_misses: u64,
    pub branch_mispreds: u64,
}

/// An image as it comes in.
pub struct WireBinaryLoaded {
    pub path: String,
    pub base_avma: u64,
    pub vmsize: u64,
    pub text_svma: u64,
    pub arch: Option<String>,
    pub is_executable: bool,
    pub symbols: Vec<LiveSymbolOwned>,
    pub text_bytes: Option<Vec<u8>>,
}

/// A thread that woke another.
pub struct WakeupRecord {
    pub timestamp_ns: u64,
    pub waker_tid: u32,
    pub wakee_tid: u32,
    pub waker_user_stack: Vec<u64>,
    pub waker_kernel_stack: Vec<u64>,
}

/// An event of a run.
pub enum IngestEvent {
    Sample(WireSample),
    ProbeResult(ProbeResultRecord),
    OnCpuInterval { tid: u32, start_ns: u64, end_ns: u64 },
    OffCpuInterval {
        tid: u32,
        start_ns: u64,
        end_ns: u64,
        stack: Vec<u64>,
        waker_tid: Option<u32>,
        waker_user_stack: Option<Vec<u64>>,
    },
    BinaryLoaded(WireBinaryLoaded),
    BinaryUnloaded { base_avma: u64 },
    TargetAttached { pid: u32, task_port: u64 },
    ThreadName { tid: u32, name: String },
    Wakeup(WakeupRecord),
}

/// The word for an event.
pub open spec fn kind_text(event: IngestEvent) -> Seq<char> {
    match event {
        IngestEvent::Sample(_) => "sample"@,
        IngestEvent::ProbeResult(_) => "probe_result"@,
        IngestEvent::OnCpuInterval { .. } => "on_cpu"@,
        IngestEvent::OffCpuInterval { .. } => "off_cpu"@,
        IngestEvent::BinaryLoaded(_) => "binary_loaded"@,
        IngestEvent::BinaryUnloaded { .. } => "binary_unloaded"@,
        IngestEvent::TargetAttached { .. } => "target_attached"@,
        IngestEvent::ThreadName { .. } => "thread_name"@,
        IngestEvent::Wakeup(_) => "wakeup"@,
    }
}

/// The word for an event.
pub fn ingest_event_kind(event: &IngestEvent) -> (s: &'static str)
    ensures
        s@ == kind_text(*event),
{
    match event {
        IngestEvent::Sample(_) => "sample",
        IngestEvent::ProbeResult(_) => "probe_result",
        IngestEvent::OnCpuInterval { .. } => "on_cpu",
        IngestEvent::OffCpuInterval { .. } => "off_cpu",
        IngestEvent::BinaryLoaded(_) => "binary_loaded",
        IngestEvent::BinaryUnloaded { .. } => "binary_unloaded",
        IngestEvent::TargetAttached { .. } => "target_attached",
        IngestEvent::ThreadName { .. } => "thread_name",
        IngestEvent::Wakeup(_) => "wakeup",
    }
}

/// The events that came in, by kind. Counts stop at what fits.
#[derive(Clone, Copy, Debug, PartialEq, Eq, Structural)]
pub struct IngestDrainCounts {
    pub samples: u64,
    pub probe_results: u64,
    pub on_cpu: u64,
    pub off_cpu: u64,
    pub binaries_loaded: u64,
    pub binaries_unloaded: u64,
    pub target_attached: u64,
    pub thread_names: u64,
    pub wakeups: u64,
}

impl IngestDrainCounts {
    /// With one more event.
    pub open spec fn plus(self, event: IngestEvent) -> IngestDrainCounts {
        match event {
            IngestEvent::Sample(_) => IngestDrainCounts {
                samples: crate::probe_timing::sat_add(self.samples, 1),
                ..self
            },
            IngestEvent::ProbeResult(_) => IngestDrainCounts {
                probe_results: crate::probe_timing::sat_add(self.probe_results, 1),
                ..self
            },
            IngestEvent::OnCpuInterval { .. } => IngestDrainCounts {
                on_cpu: crate::probe_timing::sat_add(self.on_cpu, 1),
                ..self
            },
            IngestEvent::OffCpuInterval { .. } => IngestDrainCounts {
                off_cpu: crate::probe_timing::sat_add(self.off_cpu, 1),
                ..self
            },
            IngestEvent::BinaryLoaded(_) => IngestDrainCounts {
                binaries_loaded: crate::probe_timing::sat_add(self.binaries_loaded, 1),
                ..self
            },
            IngestEvent::BinaryUnloaded { .. } => IngestDrainCounts {
                binaries_unloaded: crate::probe_timing::sat_add(self.binaries_unloaded, 1),
                ..self
            },
            IngestEvent::TargetAttached { .. } => IngestDrainCounts {
                target_attached: crate::probe_timing::sat_add(self.target_attached, 1),
                ..self
            },
            IngestEvent::ThreadName { .. } => IngestDrainCounts {
                thread_names: crate::probe_timing::sat_add(self.thread_names, 1),
                ..self
            },
            IngestEvent::Wakeup(_) => IngestDrainCounts {
                wakeups: crate::probe_timing::sat_add(self.wakeups, 1),
                ..self
            },
        }
    }

    /// No events.
    pub fn new() -> (c: Self)
        ensures
            c == (IngestDrainCounts {
                samples: 0,
                probe_results: 0,
                on_cpu: 0,
                off_cpu: 0,
                binaries_loaded: 0,
                binaries_unloaded: 0,
                target_attached: 0,
                thread_names: 0,
                wakeups: 0,
            }),
    {
        IngestDrainCounts {
            samples: 0,
            probe_results: 0,
            on_cpu: 0,
            off_cpu: 0,
            binaries_loaded: 0,
            binaries_unloaded: 0,
            target_attached: 0,
            thread_names: 0,
            wakeups: 0,
        }
    }

    /// Counts an event.
    pub fn record(&mut self, event: &IngestEvent)
        ensures
            *final(self) == old(self).plus(*event),
    {
        match event {
            IngestEvent::Sample(_) => {
                self.samples = self.samples.saturating_add(1);
            },
            IngestEvent::ProbeResult(_) => {
                self.probe_results = self.probe_results.saturating_add(1);
            },
            IngestEvent::OnCpuInterval { .. } => {
                self.on_cpu = self.on_cpu.saturating_add(1);
            },
            IngestEvent::OffCpuInterval { .. } => {
                self.off_cpu = self.off_cpu.saturating_add(1);
            },
            IngestEvent::BinaryLoaded(_) => {
                self.binaries_loaded = self.binaries_loaded.saturating_add(1);
            },
            IngestEvent::BinaryUnloaded { .. } => {
                self.binaries_unloaded = self.binaries_unloaded.saturating_add(1);
            },
            IngestEvent::TargetAttached { .. } => {
                self.target_attached = self.target_attached.saturating_add(1);
            },
            IngestEvent::ThreadName { .. } => {
                self.thread_names = self.thread_names.saturating_add(1);
            },
            IngestEvent::Wakeup(_) => {
                self.wakeups = self.wakeups.saturating_add(1);
            },
        }
    }

    /// The counts in one line.
    pub open spec fn summary_text(self) -> Seq<char> {
        "samples="@ + dec(self.samples as nat) + " probes="@ + dec(self.probe_results as nat)
            + " on_cpu="@ + dec(self.on_cpu as nat) + " off_cpu="@ + dec(self.off_cpu as nat)
            + " bin_load="@ + dec(self.binaries_loaded as nat) + " bin_unload="@
            + dec(self.binaries_unloaded as nat) + " target="@ + dec(self.target_attached as nat)
            + " threads="@ + dec(self.thread_names as nat) + " wakeups="@
            + dec(self.wakeups as nat)
    }

    /// The counts in one line.
    pub fn summary(&self) -> (s: String)
        ensures
            s@ == self.summary_text(),
    {
        let mut s = "samples=".to_owned();
        push_dec(&mut s, self.samples);
        s.append(" probes=");
        push_dec(&mut s, self.probe_results);
        s.append(" on_cpu=");
        push_dec(&mut s, self.on_cpu);
        s.append(" off_cpu=");
        push_dec(&mut s, self.off_cpu);
        s.append(" bin_load=");
        push_dec(&mut s, self.binaries_loaded);
        s.append(" bin_unload=");
        push_dec(&mut s, self.binaries_unloaded);
        s.append(" target=");
        push_dec(&mut s, self.target_attached);
        s.append(" threads=");
        push_dec(&mut s, self.thread_names);
        s.append(" wakeups=");
        push_dec(&mut s, self.wakeups);
        s
    }
}

/// A number that may be too large for a gauge.
pub fn saturating_i64(value: u64) -> (r: i64)
    ensures
        r == (if value > i64::MAX {
            i64::MAX as int
        } else {
            value as int
        }),
{
    if value > i64::MAX as u64 {
        i64::MAX
    } else {
        value as i64
    }
}

/// What the server holds.
pub struct ServerState {
    pub runs: RunRegistry,
    pub aggregator: Aggregator,
    pub binaries: BinaryRegistry,
    pub wakeups: Vec<WakeupRecord>,
    /// Goes up with every change, for those who watch.
    pub revision: u64,
}

/// Nothing is recorded.
pub open spec fn is_blank(s: ServerState) -> bool {
    &&& s.aggregator.threads() == Seq::<ThreadView>::empty()
    &&& s.aggregator.start() is None
    &&& s.aggregator.last() is None
    &&& s.binaries.binaries() == Seq::<LoadedBinary>::empty()
    &&& s.binaries.arch() is None
    &&& s.binaries.target() == (None::<u32>, None::<u64>)
    &&& s.binaries.cache() is None
    &&& s.wakeups@ == Seq::<WakeupRecord>::empty()
}

/// The target was noted, and nothing else of the images.
pub open spec fn is_targeted(
    before: BinaryRegistry,
    pid: u32,
    task_port: u64,
    after: BinaryRegistry,
) -> bool {
    &&& after.target() == target_after(before, pid, task_port)
    &&& after.binaries() == before.binaries()
    &&& after.arch() == before.arch()
    &&& after.cache() == before.cache()
}

impl ServerState {
    /// What the server relies on.
    pub open spec fn wf(self) -> bool {
        self.runs@.wf() && self.aggregator.wf() && self.binaries.wf()
    }

    /// Nothing recorded yet.
    pub fn new() -> (s: Self)
        ensures
            s.wf(),
            s.runs@ == RegistryView::empty(),
            is_blank(s),
            s.revision == 1,
    {
        ServerState {
            runs: RunRegistry::new(),
            aggregator: Aggregator::default(),
            binaries: BinaryRegistry::new(),
            wakeups: Vec::new(),
            revision: 1,
        }
    }

    /// Forgets what was recorded, as a run begins.
    pub fn reset(&mut self)
        requires
            old(self).wf(),
        ensures
            final(self).wf(),
            final(self).runs == old(self).runs,
            is_blank(*final(self)),
            final(self).revision == old(self).revision.wrapping_add(1),
    {
        self.aggregator = Aggregator::default();
        self.binaries = BinaryRegistry::new();
        self.wakeups = Vec::new();
        self.revision = self.revision.wrapping_add(1);
    }

    /// Begins a run, where none is going on that has not stopped, and forgets what was
    /// recorded before. Where one is going on, nothing that was recorded changes.
    pub fn begin_run(&mut self, label: String, now: u64) -> (r: Result<BegunRun, String>)
        requires
            old(self).wf(),
            old(self).runs@.next_run_id < u64::MAX,
        ensures
            final(self).wf(),
            final(self).runs@ == old(self).runs@.begun(label@, now),
            r is Ok == old(self).runs@.has_room(),
            r matches Ok(b) ==> {
                &&& b.id == old(self).runs@.next_run_id
                &&& b.stale_child == old(self).runs@.stale_child()
                &&& final(self).runs@.active == Some(new_run(b.id, label@, now))
                &&& is_blank(*final(self))
                &&& final(self).revision == old(self).revision.wrapping_add(1)
            },
            r matches Err(m) ==> {
                &&& m@ == busy_text()
                &&& final(self).runs@.active == old(self).runs@.active
                &&& final(self).runs@.history == old(self).runs@.history
                &&& final(self).aggregator == old(self).aggregator
                &&& final(self).binaries == old(self).binaries
                &&& final(self).wakeups == old(self).wakeups
                &&& final(self).revision == old(self).revision
            },
    {
        match self.runs.begin_run(label, now) {
            Ok(b) => {
                self.reset();
                Ok(b)
            },
            Err(m) => Err(m),
        }
    }

    /// Takes note of the target of a run.
    pub fn apply_target_attached(&mut self, run_id: u64, pid: u32, task_port: u64) -> (r: Result<
        (),
        String,
    >)
        requires
            old(self).wf(),
        ensures
            final(self).wf(),
            r is Ok == old(self).runs@.is_active(run_id),
            r matches Err(m) ==> *final(self) == *old(self) && m@ == refusal_text(
                old(self).runs@,
                run_id,
            ),
            r is Ok ==> final(self).runs@ == (RegistryView {
                active: Some(counted_run(old(self).runs@.active->0, false, false, Some(pid))),
                ..old(self).runs@
            }) && is_targeted(old(self).binaries, pid, task_port, final(self).binaries)
                && final(self).aggregator == old(self).aggregator && final(self).wakeups == old(
                self,
            ).wakeups && final(self).revision == old(self).revision.wrapping_add(1),
    {
        match self.runs.ensure_active_run(run_id) {
            Err(m) => {
                return Err(m);
            },
            Ok(()) => {},
        }
        self.runs.count(false, false, Some(pid));
        self.binaries.set_target(pid, task_port);
        self.revision = self.revision.wrapping_add(1);
        Ok(())
    }

    /// Takes in an image of the target.
    pub fn apply_binary_loaded(&mut self, run_id: u64, b: WireBinaryLoaded) -> (r: Result<
        (),
        String,
    >)
        requires
            old(self).wf(),
        ensures
            final(self).wf(),
            r is Ok == old(self).runs@.is_active(run_id),
            r matches Err(m) ==> *final(self) == *old(self) && m@ == refusal_text(
                old(self).runs@,
                run_id,
            ),
            r is Ok ==> is_loaded(*old(self), b, *final(self)) && final(self).revision == old(
                self,
            ).revision.wrapping_add(1),
    {
        match self.runs.ensure_active_run(run_id) {
            Err(m) => {
                return Err(m);
            },
            Ok(()) => {},
        }
        let ghost given = loaded_form(b);
        let binary = LoadedBinary {
            path: b.path,
            base_avma: b.base_avma,
            avma_end: b.base_avma.saturating_add(b.vmsize),
            text_svma: b.text_svma,
            arch: b.arch,
            is_executable: b.is_executable,
            symbols: b.symbols,
            text_bytes: b.text_bytes,
        };
        assert(binary == given);
        self.binaries.insert(binary);
        self.revision = self.revision.wrapping_add(1);
        Ok(())
    }

    /// Takes note that an image was unloaded. It is kept for what was recorded of it.
    pub fn apply_binary_unloaded(&mut self, run_id: u64, _base_avma: u64) -> (r: Result<(), String>)
        requires
            old(self).wf(),
        ensures
            final(self).wf(),
            r is Ok == old(self).runs@.is_active(run_id),
            r matches Err(m) ==> *final(self) == *old(self) && m@ == refusal_text(
                old(self).runs@,
                run_id,
            ),
            r is Ok ==> *final(self) == (ServerState {
                revision: old(self).revision.wrapping_add(1),
                ..*old(self)
            }),
    {
        match self.runs.ensure_active_run(run_id) {
            Err(m) => {
                return Err(m);
            },
            Ok(()) => {},
        }
        self.revision = self.revision.wrapping_add(1);
        Ok(())
    }

    /// Takes in an event of a run. One for another run than that which is going on is
    /// dropped.
    pub fn apply_event(&mut self, run_id: u64, event: IngestEvent)
        requires
            old(self).wf(),
        ensures
            final(self).wf(),
            if old(self).runs@.is_active(run_id) {
                is_applied(*old(self), event, *final(self))
            } else {
                *final(self) == *old(self)
            },
    {
        let ours = match self.runs.active() {
            Some(a) => a.id == run_id,
            None => false,
        };
        if !ours {
            return;
        }
        let ghost start = *self;
        match event {
            IngestEvent::Sample(s) => {
                self.runs.count(true, false, None);
                self.aggregator.record_pet_sample(
                    s.tid,
                    s.timestamp_ns,
                    s.user_backtrace.as_slice(),
                    s.kernel_backtrace.as_slice(),
                    PmuSample {
                        cycles: s.cycles,
                        instructions: s.instructions,
                        l1d_misses: s.l1d_misses,
                        branch_mispreds: s.branch_mispreds,
                    },
                );
                self.revision = self.revision.wrapping_add(1);
            },
            IngestEvent::OnCpuInterval { tid, start_ns, end_ns } => {
                self.aggregator.record_interval(tid, start_ns, end_ns, IntervalKind::OnCpu);
                self.revision = self.revision.wrapping_add(1);
            },
            IngestEvent::OffCpuInterval {
                tid,
                start_ns,
                end_ns,
                stack,
                waker_tid,
                waker_user_stack,
            } => {
                self.runs.count(false, true, None);
                self.aggregator.record_interval(
                    tid,
                    start_ns,
                    end_ns,
                    IntervalKind::OffCpu { stack, waker_tid, waker_user_stack },
                );
                self.revision = self.revision.wrapping_add(1);
            },
            IngestEvent::Wakeup(w) => {
                self.wakeups.push(w);
                self.revision = self.revision.wrapping_add(1);
            },
            IngestEvent::ThreadName { tid, name } => {
                self.aggregator.set_thread_name(tid, name);
                self.revision = self.revision.wrapping_add(1);
            },
            IngestEvent::BinaryLoaded(b) => {
                let _ = self.apply_binary_loaded(run_id, b);
            },
            IngestEvent::BinaryUnloaded { base_avma } => {
                let _ = self.apply_binary_unloaded(run_id, base_avma);
            },
            IngestEvent::TargetAttached { pid, task_port } => {
                let _ = self.apply_target_attached(run_id, pid, task_port);
            },
            IngestEvent::ProbeResult(p) => {
                self.aggregator.record_probe_result(p);
                self.revision = self.revision.wrapping_add(1);
            },
        }
    }
}

/// What is said where something is for another run.
pub open spec fn refusal_text(v: RegistryView, run_id: u64) -> Seq<char> {
    match v.active {
        None => no_active_run_text(),
        Some(a) => mismatch_text(run_id, a.id),
    }
}

/// An image as it is kept.
pub open spec fn loaded_form(b: WireBinaryLoaded) -> LoadedBinary {
    LoadedBinary {
        path: b.path,
        base_avma: b.base_avma,
        avma_end: crate::probe_timing::sat_add(b.base_avma, b.vmsize),
        text_svma: b.text_svma,
        arch: b.arch,
        is_executable: b.is_executable,
        symbols: b.symbols,
        text_bytes: b.text_bytes,
    }
}

/// The target after one was attached to: a port of zero is none, and keeps the last.
pub open spec fn target_after(b: BinaryRegistry, pid: u32, task_port: u64) -> (
    Option<u32>,
    Option<u64>,
) {
    (
        Some(pid),
        if task_port != 0 {
            Some(task_port)
        } else {
            b.target().1
        },
    )
}

/// The image was added, in place of one at the same address.
pub open spec fn is_loaded(before: ServerState, b: WireBinaryLoaded, after: ServerState) -> bool {
    &&& exists|stored: LoadedBinary| #[trigger]
        is_stored_form(loaded_form(b), stored) && after.binaries.binaries() == without_base(
            before.binaries.binaries(),
            b.base_avma,
        ).push(stored)
    &&& after.binaries.arch() == (if before.binaries.arch() is Some {
        before.binaries.arch()
    } else {
        opt_text(b.arch)
    })
    &&& after.binaries.target() == before.binaries.target()
    &&& after.binaries.cache() == before.binaries.cache()
    &&& after.runs == before.runs
    &&& after.aggregator == before.aggregator
    &&& after.wakeups == before.wakeups
}

/// The run after an event.
pub open spec fn run_after(v: RegistryView, event: IngestEvent) -> RegistryView {
    RegistryView {
        active: Some(
            counted_run(
                v.active->0,
                event is Sample,
                event is OffCpuInterval,
                match event {
                    IngestEvent::TargetAttached { pid, .. } => Some(pid),
                    _ => None,
                },
            ),
        ),
        ..v
    }
}

/// Something was recorded of a thread, and nothing of the others.
pub open spec fn is_recorded(
    before: ServerState,
    tid: u32,
    f: spec_fn(ThreadView) -> ThreadView,
    after: ServerState,
) -> bool {
    thread_updated(before.aggregator.threads(), after.aggregator.threads(), tid, f)
}

/// What becomes of an event of the run that is going on.
pub open spec fn is_applied(before: ServerState, event: IngestEvent, after: ServerState) -> bool {
    &&& after.runs@ == run_after(before.runs@, event)
    &&& after.revision == before.revision.wrapping_add(1)
    &&& match event {
        IngestEvent::Sample(s) => is_recorded(
            before,
            s.tid,
            |t: ThreadView|
                ThreadView {
                    pets: t.pets.push(
                        PetView {
                            timestamp_ns: s.timestamp_ns,
                            stack: s.user_backtrace@,
                            kernel_stack: s.kernel_backtrace@,
                            pmc: PmuSample {
                                cycles: s.cycles,
                                instructions: s.instructions,
                                l1d_misses: s.l1d_misses,
                                branch_mispreds: s.branch_mispreds,
                            },
                        },
                    ),
                    ..t
                },
            after,
        ) && after.aggregator.start() == earliest(before.aggregator.start(), s.timestamp_ns)
            && after.aggregator.last() == latest(before.aggregator.last(), s.timestamp_ns),
        IngestEvent::ProbeResult(p) => is_recorded(
            before,
            p.tid,
            |t: ThreadView| ThreadView { probes: t.probes.push(p@), ..t },
            after,
        ) && after.aggregator.start() == before.aggregator.start() && after.aggregator.last()
            == before.aggregator.last(),
        IngestEvent::OnCpuInterval { tid, start_ns, end_ns } => is_recorded(
            before,
            tid,
            |t: ThreadView|
                ThreadView {
                    intervals: t.intervals.push(
                        IntervalView { start_ns, end_ns, kind: KindView::OnCpu },
                    ),
                    ..t
                },
            after,
        ) && after.aggregator.start() == earliest(before.aggregator.start(), start_ns)
            && after.aggregator.last() == latest(
            latest(before.aggregator.last(), start_ns),
            end_ns,
        ),
        IngestEvent::OffCpuInterval {
            tid,
            start_ns,
            end_ns,
            stack,
            waker_tid,
            waker_user_stack,
        } => is_recorded(
            before,
            tid,
            |t: ThreadView|
                ThreadView {
                    intervals: t.intervals.push(
                        IntervalView {
                            start_ns,
                            end_ns,
                            kind: (IntervalKind::OffCpu {
                                stack,
                                waker_tid,
                                waker_user_stack,
                            })@,
                        },
                    ),
                    ..t
                },
            after,
        ) && after.aggregator.start() == earliest(before.aggregator.start(), start_ns)
            && after.aggregator.last() == latest(
            latest(before.aggregator.last(), start_ns),
            end_ns,
        ),
        IngestEvent::ThreadName { tid, name } => is_recorded(
            before,
            tid,
            |t: ThreadView| ThreadView { name: Some(name@), ..t },
            after,
        ) && after.aggregator.start() == before.aggregator.start() && after.aggregator.last()
            == before.aggregator.last(),
        _ => after.aggregator == before.aggregator,
    }
    &&& match event {
        IngestEvent::BinaryLoaded(b) => is_loaded(before, b, after),
        IngestEvent::TargetAttached { pid, task_port } => is_targeted(
            before.binaries,
            pid,
            task_port,
            after.binaries,
        ),
        _ => after.binaries == before.binaries,
    }
    &&& match event {
        IngestEvent::Wakeup(w) => after.wakeups@ == before.wakeups@.push(w),
        _ => after.wakeups == before.wakeups,
    }
}

/// What a run is waited for.
#[derive(Debug)]
pub enum WaitCondition {
    UntilStopped,
    ForSamples { count: u64 },
    ForSeconds { seconds: u64 },
    UntilSymbolSeen { needle: String },
}

/// What waiting came to.
#[derive(Clone, Copy, Debug, PartialEq, Eq, Structural)]
pub enum WaitOutcome {
    NoActiveRun,
    Stopped,
    ConditionMet,
    TimedOut,
    /// Look again in a moment.
    Wait,
}

/// The condition is met.
pub open spec fn is_met(
    c: WaitCondition,
    run: RunView,
    now: u64,
    condition_deadline: u64,
    symbol_seen: bool,
) -> bool {
    match c {
        WaitCondition::UntilStopped => false,
        WaitCondition::ForSamples { count } => run.pet_samples >= count,
        WaitCondition::ForSeconds { .. } => now >= condition_deadline,
        WaitCondition::UntilSymbolSeen { .. } => symbol_seen,
    }
}

/// When a condition is met that is one of time, given when waiting began; dates are in
/// nanoseconds, and there is none past the last.
pub fn condition_deadline(c: &WaitCondition, started: u64) -> (d: u64)
    ensures
        d == (match *c {
            WaitCondition::ForSeconds { seconds } => if started + seconds * 1_000_000_000
                > u64::MAX {
                u64::MAX as int
            } else {
                started + seconds * 1_000_000_000
            },
            _ => u64::MAX as int,
        }),
{
    match c {
        WaitCondition::ForSeconds { seconds } => {
            if *seconds > u64::MAX / 1_000_000_000 {
                return u64::MAX;
            }
            started.saturating_add(*seconds * 1_000_000_000)
        },
        _ => u64::MAX,
    }
}

/// What waiting comes to at `now`. A run that stopped is told before a condition that
/// is met, and that before the end of the time.
pub fn wait_active(
    active: Option<&RunSummary>,
    condition: &WaitCondition,
    now: u64,
    condition_deadline: u64,
    deadline: Option<u64>,
    symbol_seen: bool,
) -> (o: WaitOutcome)
    ensures
        o == (match active {
            None => WaitOutcome::NoActiveRun,
            Some(r) => if r.state == RunState::Stopped {
                WaitOutcome::Stopped
            } else if is_met(*condition, r@, now, condition_deadline, symbol_seen) {
                WaitOutcome::ConditionMet
            } else if deadline is Some && now >= deadline->0 {
                WaitOutcome::TimedOut
            } else {
                WaitOutcome::Wait
            },
        }),
{
    match active {
        None => WaitOutcome::NoActiveRun,
        Some(r) => {
            if r.state == RunState::Stopped {
                return WaitOutcome::Stopped;
            }
            let met = match condition {
                WaitCondition::UntilStopped => false,
                WaitCondition::ForSamples { count } => r.pet_samples >= *count,
                WaitCondition::ForSeconds { .. } => now >= condition_deadline,
                WaitCondition::UntilSymbolSeen { .. } => symbol_seen,
            };
            if met {
                return WaitOutcome::ConditionMet;
            }
            match deadline {
                Some(d) => if now >= d {
                    WaitOutcome::TimedOut
                } else {
                    WaitOutcome::Wait
                },
                None => WaitOutcome::Wait,
            }
        },
    }
}

/// What is to be profiled.
pub enum ShadeTarget {
    Attach(u32),
    Launch { command: Vec<String>, cwd: String, terminal_size: Option<TerminalSize> },
}

/// How it is to be profiled.
pub struct ShadeOptions {
    pub run_id: u64,
    pub frequency_hz: u32,
    pub correlate_frequency_hz: u32,
    pub race_kperf: bool,
    pub correlate_kperf: bool,
    pub daemon_socket: String,
    pub time_limit_secs: Option<u64>,
}

/// The texts of arguments.
pub open spec fn arg_texts(s: Seq<String>) -> Seq<Seq<char>> {
    s.map_values(|a: String| a@)
}

/// The arguments that name the target.
pub open spec fn target_args(t: ShadeTarget) -> Seq<Seq<char>> {
    match t {
        ShadeTarget::Attach(pid) => seq!["--attach"@, dec(pid as nat)],
        ShadeTarget::Launch { cwd, terminal_size, .. } => seq!["--launch"@, "--cwd"@, cwd@] + (
        match terminal_size {
            Some(size) => seq![
                "--terminal-rows"@,
                dec(size.rows as nat),
                "--terminal-cols"@,
                dec(size.cols as nat),
            ],
            None => seq![],
        }),
    }
}

/// The arguments with which a companion is started.
pub open spec fn shade_args_of(t: ShadeTarget, o: ShadeOptions, socket: Seq<char>) -> Seq<
    Seq<char>,
> {
    target_args(t) + seq![
        "--server-socket"@,
        socket,
        "--run-id"@,
        dec(o.run_id as nat),
        "--daemon-socket"@,
        o.daemon_socket@,
        "--frequency"@,
        dec(o.frequency_hz as nat),
    ] + (if o.correlate_kperf {
        seq!["--correlate-frequency"@, dec(o.correlate_frequency_hz as nat)]
    } else {
        seq![]
    }) + (if o.race_kperf {
        seq!["--race-kperf"@]
    } else {
        seq![]
    }) + (if o.correlate_kperf {
        seq!["--correlate-kperf"@]
    } else {
        seq![]
    }) + (match o.time_limit_secs {
        Some(limit) => seq!["--time-limit"@, dec(limit as nat)],
        None => seq![],
    }) + (match t {
        ShadeTarget::Launch { command, .. } => seq!["--"@] + arg_texts(command@),
        ShadeTarget::Attach(_) => seq![],
    })
}

/// Adds an argument.
fn push_arg(out: &mut Vec<String>, a: String)
    ensures
        arg_texts(final(out)@) == arg_texts(old(out)@).push(a@),
{
    let ghost before = out@;
    out.push(a);
    assert(arg_texts(out@) =~= arg_texts(before).push(a@));
}

/// Adds an argument.
fn push_word(out: &mut Vec<String>, a: &str)
    ensures
        arg_texts(final(out)@) == arg_texts(old(out)@).push(a@),
{
    push_arg(out, a.to_owned());
}

/// Adds the arguments that name the target.
fn push_target(out: &mut Vec<String>, t: &ShadeTarget)
    ensures
        arg_texts(final(out)@) == arg_texts(old(out)@) + target_args(*t),
{
    let ghost start = arg_texts(out@);
    match t {
        ShadeTarget::Attach(pid) => {
            push_word(out, "--attach");
            push_arg(out, dec_string(*pid as u64));
        },
        ShadeTarget::Launch { cwd, terminal_size, .. } => {
            push_word(out, "--launch");
            push_word(out, "--cwd");
            push_word(out, cwd.as_str());
            match terminal_size {
                Some(size) => {
                    push_word(out, "--terminal-rows");
                    push_arg(out, dec_string(size.rows as u64));
                    push_word(out, "--terminal-cols");
                    push_arg(out, dec_string(size.cols as u64));
                },
                None => {},
            }
        },
    }
    assert(arg_texts(out@) =~= start + target_args(*t));
}

/// Adds the command to be launched.
fn push_command(out: &mut Vec<String>, command: &Vec<String>)
    ensures
        arg_texts(final(out)@) == arg_texts(old(out)@) + (seq!["--"@] + arg_texts(command@)),
{
    let ghost start = arg_texts(out@);
    push_word(out, "--");
    let mut i: usize = 0;
    assert(arg_texts(out@) =~= start + (seq!["--"@] + arg_texts(command@.take(0))));
    while i < command.len()
        invariant
            i <= command@.len(),
            arg_texts(out@) == start + (seq!["--"@] + arg_texts(command@.take(i as int))),
        decreases command@.len() - i,
    {
        push_word(out, command[i].as_str());
        assert(arg_texts(command@.take(i + 1)) =~= arg_texts(command@.take(i as int)).push(
            command@[i as int]@,
        ));
        i = i + 1;
        assert(arg_texts(out@) =~= start + (seq!["--"@] + arg_texts(command@.take(i as int))));
    }
    assert(command@.take(i as int) =~= command@);
}

/// Adds what holds of any target.
fn push_options(out: &mut Vec<String>, o: &ShadeOptions, socket: &str)
    ensures
        arg_texts(final(out)@) == arg_texts(old(out)@) + seq![
            "--server-socket"@,
            socket@,
            "--run-id"@,
            dec(o.run_id as nat),
            "--daemon-socket"@,
            o.daemon_socket@,
            "--frequency"@,
            dec(o.frequency_hz as nat),
        ],
{
    let ghost start = arg_texts(out@);
    push_word(out, "--server-socket");
    push_word(out, socket);
    push_word(out, "--run-id");
    push_arg(out, dec_string(o.run_id));
    push_word(out, "--daemon-socket");
    push_word(out, o.daemon_socket.as_str());
    push_word(out, "--frequency");
    push_arg(out, dec_string(o.frequency_hz as u64));
    assert(arg_texts(out@) =~= start + seq![
        "--server-socket"@,
        socket@,
        "--run-id"@,
        dec(o.run_id as nat),
        "--daemon-socket"@,
        o.daemon_socket@,
        "--frequency"@,
        dec(o.frequency_hz as nat),
    ]);
}

/// The arguments with which a companion is started.
pub fn shade_args(t: &ShadeTarget, o: &ShadeOptions, socket: &str) -> (out: Vec<String>)
    ensures
        arg_texts(out@) == shade_args_of(*t, *o, socket@),
{
    let mut out: Vec<String> = Vec::new();
    assert(arg_texts(out@) =~= Seq::<Seq<char>>::empty());
    push_target(&mut out, t);
    assert(arg_texts(out@) =~= target_args(*t));
    push_options(&mut out, o, socket);
    let ghost mut sum = arg_texts(out@);
    if o.correlate_kperf {
        push_word(&mut out, "--correlate-frequency");
        push_arg(&mut out, dec_string(o.correlate_frequency_hz as u64));
    }
    proof {
        sum = sum + (if o.correlate_kperf {
            seq!["--correlate-frequency"@, dec(o.correlate_frequency_hz as nat)]
        } else {
            seq![]
        });
        assert(arg_texts(out@) =~= sum);
    }
    if o.race_kperf {
        push_word(&mut out, "--race-kperf");
    }
    proof {
        sum = sum + (if o.race_kperf {
            seq!["--race-kperf"@]
        } else {
            seq![]
        });
        assert(arg_texts(out@) =~= sum);
    }
    if o.correlate_kperf {
        push_word(&mut out, "--correlate-kperf");
    }
    proof {
        sum = sum + (if o.correlate_kperf {
            seq!["--correlate-kperf"@]
        } else {
            seq![]
        });
        assert(arg_texts(out@) =~= sum);
    }
    match o.time_limit_secs {
        Some(limit) => {
            push_word(&mut out, "--time-limit");
            push_arg(&mut out, dec_string(limit));
        },
        None => {},
    }
    proof {
        sum = sum + (match o.time_limit_secs {
            Some(limit) => seq!["--time-limit"@, dec(limit as nat)],
            None => seq![],
        });
        assert(arg_texts(out@) =~= sum);
    }
    match t {
        ShadeTarget::Launch { command, .. } => {
            push_command(&mut out, command);
        },
        ShadeTarget::Attach(_) => {
            assert(arg_texts(out@) =~= sum + Seq::<Seq<char>>::empty());
        },
    }
    out
}

/// What a launch is refused for.
pub fn check_launch(command: &Vec<String>) -> (r: Result<(), &'static str>)
    ensures
        r is Ok == (command@.len() > 0),
        r matches Err(m) ==> m@ == "launch command is empty"@,
{
    if command.len() == 0 {
        return Err("launch command is empty");
    }
    Ok(())
}

/// A file in a directory.
pub open spec fn joined_path(dir: Seq<char>, name: Seq<char>) -> Seq<char> {
    if dir.len() == 0 {
        name
    } else if dir.last() == '/' {
        dir + name
    } else {
        dir + "/"@ + name
    }
}

/// A file in a directory.
fn join_path(dir: &str, name: &str) -> (s: String)
    ensures
        s@ == joined_path(dir@, name@),
{
    let n: usize = dir.unicode_len();
    if n == 0 {
        return name.to_owned();
    }
    let mut s = dir.to_owned();
    if dir.get_char(n - 1) != '/' {
        s.append("/");
    }
    s.append(name);
    s
}

/// Where the server listens: where it is told to, or in the user's directory for such
/// things, or under a name with the user's number.
pub fn resolve_socket_path(told: Option<&str>, runtime_dir: Option<&str>, uid: u32) -> (s: String)
    ensures
        s@ == (match told {
            Some(p) => p@,
            None => match runtime_dir {
                Some(d) => joined_path(d@, "stax-server.sock"@),
                None => "/tmp/stax-server-"@ + dec(uid as nat) + ".sock"@,
            },
        }),
{
    match told {
        Some(p) => p.to_owned(),
        None => match runtime_dir {
            Some(d) => join_path(d, "stax-server.sock"),
            None => {
                let mut s = "/tmp/stax-server-".to_owned();
                push_dec(&mut s, uid as u64);
                s.append(".sock");
                s
            },
        },
    }
}

/// Where the companion's program may be, in the order in which it is looked for.
pub open spec fn shade_candidates_of(told: Option<&str>, home: Option<&str>) -> Seq<Seq<char>> {
    (match told {
        Some(p) => seq![p@],
        None => seq![],
    }) + (match home {
        Some(h) => seq![
            joined_path(joined_path(joined_path(h@, ".cargo"@), "bin"@), "stax-shade"@),
        ],
        None => seq![],
    }) + seq!["/usr/local/bin/stax-shade"@]
}

/// Where the companion's program may be, in the order in which it is looked for.
pub fn resolve_shade_path(told: Option<&str>, home: Option<&str>) -> (out: Vec<String>)
    ensures
        arg_texts(out@) == shade_candidates_of(told, home),
{
    let mut out: Vec<String> = Vec::new();
    assert(arg_texts(out@) =~= Seq::<Seq<char>>::empty());
    match told {
        Some(p) => {
            push_word(&mut out, p);
        },
        None => {},
    }
    match home {
        Some(h) => {
            let cargo = join_path(h, ".cargo");
            let bin = join_path(cargo.as_str(), "bin");
            push_arg(&mut out, join_path(bin.as_str(), "stax-shade"));
        },
        None => {},
    }
    push_word(&mut out, "/usr/local/bin/stax-shade");
    assert(arg_texts(out@) =~= shade_candidates_of(told, home));
    out
}

/// The error of a process that does not exist.
pub const ESRCH: i32 = 3;

/// Whether a process exists, by what came of sending it no signal at all.
pub fn pid_is_alive(result: i32, errno: i32) -> (r: bool)
    ensures
        r == (result == 0 || errno != ESRCH),
{
    result == 0 || errno != ESRCH
}

/// What looking at the companion's process showed.
#[derive(Clone, Copy, Debug, PartialEq, Eq, Structural)]
pub enum ChildLook {
    Exited,
    Running,
    Failed,
}

/// How often it is looked at before it is killed.
pub const REAP_ATTEMPTS: u32 = 20;

/// What is done about it.
#[derive(Clone, Copy, Debug, PartialEq, Eq, Structural)]
pub enum ReapStep {
    Done,
    /// Look again in a moment.
    Wait,
    Kill,
}

/// What is done about the companion's process at the end of a run, at the look numbered
/// `attempt` from zero on. It has a moment to end by itself. Where the first look
/// fails, it is left alone.
pub fn reap_step(look: ChildLook, attempt: u32) -> (s: ReapStep)
    ensures
        s == (match look {
            ChildLook::Exited => ReapStep::Done,
            _ => if look == ChildLook::Failed && attempt == 0 {
                ReapStep::Done
            } else if attempt < REAP_ATTEMPTS {
                ReapStep::Wait
            } else {
                ReapStep::Kill
            },
        }),
{
    match look {
        ChildLook::Exited => ReapStep::Done,
        ChildLook::Failed => if attempt == 0 {
            ReapStep::Done
        } else if attempt < REAP_ATTEMPTS {
            ReapStep::Wait
        } else {
            ReapStep::Kill
        },
        ChildLook::Running => if attempt < REAP_ATTEMPTS {
            ReapStep::Wait
        } else {
            ReapStep::Kill
        },
    }
}

/// A service of the server.
#[derive(Clone, Copy, Debug, PartialEq, Eq, Structural)]
pub enum Service {
    RunControl,
    RunIngest,
    TerminalBroker,
    Profiler,
    ShadeRegistry,
}

/// The service of a name.
pub open spec fn service_named(name: Seq<char>) -> Option<Service> {
    if name == "RunControl"@ {
        Some(Service::RunControl)
    } else if name == "RunIngest"@ {
        Some(Service::RunIngest)
    } else if name == "TerminalBroker"@ {
        Some(Service::TerminalBroker)
    } else if name == "Profiler"@ {
        Some(Service::Profiler)
    } else if name == "ShadeRegistry"@ {
        Some(Service::ShadeRegistry)
    } else {
        None
    }
}

/// The service that a connection asks for.
pub fn route(name: &str) -> (s: Option<Service>)
    ensures
        s == service_named(name@),
{
    if crate::text::same_text(name, "RunControl") {
        Some(Service::RunControl)
    } else if crate::text::same_text(name, "RunIngest") {
        Some(Service::RunIngest)
    } else if crate::text::same_text(name, "TerminalBroker") {
        Some(Service::TerminalBroker)
    } else if crate::text::same_text(name, "Profiler") {
        Some(Service::Profiler)
    } else if crate::text::same_text(name, "ShadeRegistry") {
        Some(Service::ShadeRegistry)
    } else {
        None
    }
}

/// Why a reader of events ended.
#[derive(Clone, Copy, Debug, PartialEq, Eq, Structural)]
pub enum DrainEnd {
    Cancelled,
    ChannelClosed,
    RecvError,
}

/// What becomes of the run then: one that was cancelled ends, the others go on without
/// events. Returns a process to be waited for.
pub fn drain_ended(runs: &mut RunRegistry, run_id: u64, end: DrainEnd, now: u64) -> (child: Option<
    u32,
>)
    requires
        old(runs)@.wf(),
    ensures
        final(runs)@.wf(),
        if end == DrainEnd::Cancelled {
            final(runs)@ == old(runs)@.finalized(
                run_id,
                crate::runs::ReasonView::UserStop,
                now,
            ) && child == (if old(runs)@.is_active(run_id) {
                old(runs)@.shade_child
            } else {
                None
            })
        } else {
            child is None && final(runs)@ == (if old(runs)@.is_active(run_id) {
                RegistryView { ingest_attached: false, ..old(runs)@ }
            } else {
                old(runs)@
            })
        },
{
    match end {
        DrainEnd::Cancelled => runs.finalize_run(run_id, crate::runs::StopReason::UserStop, now),
        _ => {
            runs.detach_ingest(run_id);
            None
        },
    }
}

/// How often something like an event came in.
pub open spec fn counted_like(c: IngestDrainCounts, event: IngestEvent) -> u64 {
    match event {
        IngestEvent::Sample(_) => c.samples,
        IngestEvent::ProbeResult(_) => c.probe_results,
        IngestEvent::OnCpuInterval { .. } => c.on_cpu,
        IngestEvent::OffCpuInterval { .. } => c.off_cpu,
        IngestEvent::BinaryLoaded(_) => c.binaries_loaded,
        IngestEvent::BinaryUnloaded { .. } => c.binaries_unloaded,
        IngestEvent::TargetAttached { .. } => c.target_attached,
        IngestEvent::ThreadName { .. } => c.thread_names,
        IngestEvent::Wakeup(_) => c.wakeups,
    }
}

/// The law of counts: an event counts once, for its kind.
pub proof fn events_count_for_their_kind(c: IngestDrainCounts, event: IngestEvent)
    requires
        counted_like(c, event) < u64::MAX,
    ensures
        counted_like(c.plus(event), event) == counted_like(c, event) + 1,
        ({
            let d = c.plus(event);
            d.samples + d.probe_results + d.on_cpu + d.off_cpu + d.binaries_loaded
                + d.binaries_unloaded + d.target_attached + d.thread_names + d.wakeups == c.samples
                + c.probe_results + c.on_cpu + c.off_cpu + c.binaries_loaded + c.binaries_unloaded
                + c.target_attached + c.thread_names + c.wakeups + 1
        }),
{
}

/// The law of samples: one that comes in is the last of its thread, with its instant, both of its
/// stacks and its counters, counts for the run, and changes no other thread.
pub proof fn samples_are_kept(before: ServerState, s: WireSample, after: ServerState, i: int)
    requires
        before.aggregator.wf(),
        is_applied(before, IngestEvent::Sample(s), after),
        before.runs@.active is Some,
        0 <= i < before.aggregator.threads().len(),
    ensures
        ({
            let was = before.aggregator.threads()[i];
            let is = after.aggregator.threads()[i];
            let told = PetView {
                timestamp_ns: s.timestamp_ns,
                stack: s.user_backtrace@,
                kernel_stack: s.kernel_backtrace@,
                pmc: PmuSample {
                    cycles: s.cycles,
                    instructions: s.instructions,
                    l1d_misses: s.l1d_misses,
                    branch_mispreds: s.branch_mispreds,
                },
            };
            &&& was.tid != s.tid ==> is == was
            &&& was.tid == s.tid ==> is.pets == was.pets.push(told) && is.tid == was.tid && is.name
                == was.name && is.probes == was.probes && is.intervals == was.intervals
            &&& after.aggregator.threads().len() > before.aggregator.threads().len() ==> {
                let new = after.aggregator.threads().last();
                new.tid == s.tid && new.pets == seq![told] && new.intervals.len() == 0
                    && new.probes.len() == 0
            }
            &&& after.wakeups == before.wakeups
            &&& after.binaries == before.binaries
            &&& before.runs@.active->0.pet_samples < u64::MAX ==> after.runs@.active->0.pet_samples
                == before.runs@.active->0.pet_samples + 1
            &&& after.runs@.active->0.off_cpu_intervals == before.runs@.active->0.off_cpu_intervals
            &&& after.runs@.history == before.runs@.history
        }),
{
    before.aggregator.lemma_wf();
    let f = |t: ThreadView|
        ThreadView {
            pets: t.pets.push(
                PetView {
                    timestamp_ns: s.timestamp_ns,
                    stack: s.user_backtrace@,
                    kernel_stack: s.kernel_backtrace@,
                    pmc: PmuSample {
                        cycles: s.cycles,
                        instructions: s.instructions,
                        l1d_misses: s.l1d_misses,
                        branch_mispreds: s.branch_mispreds,
                    },
                },
            ),
            ..t
        };
    only_the_thread_changes(
        before.aggregator.threads(),
        after.aggregator.threads(),
        s.tid,
        f,
        i,
    );
}

/// The law of time off the CPU: an interval that comes in is the last of its thread, with its stack and
/// who ended it, counts for the run, and changes no other thread.
pub proof fn off_cpu_intervals_are_kept(
    before: ServerState,
    event: IngestEvent,
    after: ServerState,
    i: int,
)
    requires
        before.aggregator.wf(),
        event is OffCpuInterval,
        is_applied(before, event, after),
        before.runs@.active is Some,
        0 <= i < before.aggregator.threads().len(),
    ensures
        event matches IngestEvent::OffCpuInterval {
            tid,
            start_ns,
            end_ns,
            stack,
            waker_tid,
            waker_user_stack,
        } && {
            let was = before.aggregator.threads()[i];
            let is = after.aggregator.threads()[i];
            let told = IntervalView {
                start_ns,
                end_ns,
                kind: KindView::OffCpu {
                    stack: stack@,
                    waker_tid,
                    waker_user_stack: match waker_user_stack {
                        Some(s) => Some(s@),
                        None => None,
                    },
                },
            };
            &&& was.tid != tid ==> is == was
            &&& was.tid == tid ==> is.intervals == was.intervals.push(told) && is.tid == was.tid
                && is.name == was.name && is.probes == was.probes && is.pets == was.pets
            &&& before.runs@.active->0.off_cpu_intervals < u64::MAX
                ==> after.runs@.active->0.off_cpu_intervals
                == before.runs@.active->0.off_cpu_intervals + 1
            &&& after.runs@.active->0.pet_samples == before.runs@.active->0.pet_samples
            &&& after.wakeups == before.wakeups
            &&& after.binaries == before.binaries
        },
{
    before.aggregator.lemma_wf();
    match event {
        IngestEvent::OffCpuInterval {
            tid,
            start_ns,
            end_ns,
            stack,
            waker_tid,
            waker_user_stack,
        } => {
            let f = |t: ThreadView|
                ThreadView {
                    intervals: t.intervals.push(
                        IntervalView {
                            start_ns,
                            end_ns,
                            kind: (IntervalKind::OffCpu {
                                stack,
                                waker_tid,
                                waker_user_stack,
                            })@,
                        },
                    ),
                    ..t
                };
            only_the_thread_changes(
                before.aggregator.threads(),
                after.aggregator.threads(),
                tid,
                f,
                i,
            );
        },
        _ => {},
    }
}

/// The law of time on the CPU: an interval that comes in is the last of its thread, and changes no
/// other thread.
pub proof fn on_cpu_intervals_are_kept(
    before: ServerState,
    tid: u32,
    start_ns: u64,
    end_ns: u64,
    after: ServerState,
    i: int,
)
    requires
        before.aggregator.wf(),
        is_applied(before, (IngestEvent::OnCpuInterval { tid, start_ns, end_ns }), after),
        0 <= i < before.aggregator.threads().len(),
    ensures
        ({
            let was = before.aggregator.threads()[i];
            let is = after.aggregator.threads()[i];
            &&& was.tid != tid ==> is == was
            &&& was.tid == tid ==> is.intervals == was.intervals.push(
                IntervalView { start_ns, end_ns, kind: KindView::OnCpu },
            ) && is.tid == was.tid && is.name == was.name && is.probes == was.probes && is.pets
                == was.pets
            &&& after.wakeups == before.wakeups
            &&& after.binaries == before.binaries
        }),
{
    before.aggregator.lemma_wf();
    let f = |t: ThreadView|
        ThreadView {
            intervals: t.intervals.push(IntervalView { start_ns, end_ns, kind: KindView::OnCpu }),
            ..t
        };
    only_the_thread_changes(before.aggregator.threads(), after.aggregator.threads(), tid, f, i);
}

/// The law of loaded images: one that comes in takes the place of any at its base, every other one
/// stays, and it spans its size from there.
pub proof fn loaded_images_take_their_place(
    before: ServerState,
    b: WireBinaryLoaded,
    after: ServerState,
    x: LoadedBinary,
) -> (stored: LoadedBinary)
    requires
        is_loaded(before, b, after),
    ensures
        after.binaries.binaries().len() > 0,
        after.binaries.binaries().last() == stored,
        stored.path == b.path,
        stored.base_avma == b.base_avma,
        b.base_avma + b.vmsize <= u64::MAX ==> stored.avma_end == b.base_avma + b.vmsize,
        stored.text_svma == b.text_svma,
        stored.is_executable == b.is_executable,
        stored.text_bytes == b.text_bytes,
        after.binaries.binaries().drop_last().contains(x) == (before.binaries.binaries().contains(x)
            && x.base_avma != b.base_avma),
{
    let stored = choose|stored: LoadedBinary| #[trigger]
        is_stored_form(loaded_form(b), stored) && after.binaries.binaries() == without_base(
            before.binaries.binaries(),
            b.base_avma,
        ).push(stored);
    only_the_image_at_the_base_goes(before.binaries.binaries(), b.base_avma, x);
    assert(after.binaries.binaries().drop_last() =~= without_base(
        before.binaries.binaries(),
        b.base_avma,
    ));
    stored
}

/// The law of companions: the command that one is to launch comes last, behind two dashes, as it was
/// given.
pub proof fn commands_come_last(t: ShadeTarget, o: ShadeOptions, socket: Seq<char>)
    requires
        t is Launch,
    ensures
        ({
            let args = shade_args_of(t, o, socket);
            let n = t->command@.len();
            &&& args.len() > n
            &&& args[args.len() - n - 1] == "--"@
            &&& args.skip(args.len() - n) == arg_texts(t->command@)
            &&& args[0] == "--launch"@
            &&& args[1] == "--cwd"@
            &&& args[2] == t->cwd@
        }),
{
    let args = shade_args_of(t, o, socket);
    let n = t->command@.len();
    let tail = seq!["--"@] + arg_texts(t->command@);
    assert(args.skip(args.len() - tail.len()) =~= tail);
    assert(args.skip(args.len() - n) =~= arg_texts(t->command@)) by {
        assert forall|i: int| 0 <= i < n implies args.skip(args.len() - n)[i] == arg_texts(
            t->command@,
        )[i] by {
            assert(args.skip(args.len() - tail.len())[i + 1] == tail[i + 1]);
        }
    }
    assert(args.skip(args.len() - tail.len())[0] == tail[0]);
}

/// The law of waiting: for samples until there are as many, for a time until it is over, for a symbol
/// until it is seen, and otherwise until the run stops.
pub proof fn waits_end_when_they_are_met(
    count: u64,
    seconds: u64,
    needle: String,
    run: RunView,
    now: u64,
    deadline: u64,
    seen: bool,
)
    ensures
        is_met(WaitCondition::ForSamples { count }, run, now, deadline, seen) == (run.pet_samples
            >= count),
        is_met(WaitCondition::ForSeconds { seconds }, run, now, deadline, seen) == (now
            >= deadline),
        is_met(WaitCondition::UntilSymbolSeen { needle }, run, now, deadline, seen) == seen,
        !is_met(WaitCondition::UntilStopped, run, now, deadline, seen),
{
}

/// The law of paths: a name stands behind its directory, with one slash between them.
pub proof fn names_stand_behind_their_directory(dir: Seq<char>, name: Seq<char>)
    ensures
        dir.len() == 0 ==> joined_path(dir, name) == name,
        dir.len() > 0 && dir.last() != '/' ==> joined_path(dir, name) == dir.push('/') + name,
        joined_path(dir.push('/'), name) == dir.push('/') + name,
{
    reveal_strlit("/");
    assert("/"@ =~= seq!['/']);
    assert(dir + "/"@ + name =~= dir.push('/') + name);
}

/// The law of services: each is reached by its own name, and by no other.
pub proof fn services_are_reached_by_name(name: Seq<char>)
    ensures
        (service_named(name) == Some(Service::RunControl)) == (name == "RunControl"@),
        (service_named(name) == Some(Service::RunIngest)) == (name == "RunIngest"@),
        (service_named(name) == Some(Service::TerminalBroker)) == (name == "TerminalBroker"@),
        (service_named(name) == Some(Service::Profiler)) == (name == "Profiler"@),
        (service_named(name) == Some(Service::ShadeRegistry)) == (name == "ShadeRegistry"@),
{
    reveal_strlit("RunControl");
    reveal_strlit("RunIngest");
    reveal_strlit("TerminalBroker");
    reveal_strlit("Profiler");
    reveal_strlit("ShadeRegistry");
    assert("RunControl"@.len() == 10 && "RunIngest"@.len() == 9);
    assert("TerminalBroker"@.len() == 14 && "Profiler"@.len() == 8 && "ShadeRegistry"@.len() == 13);
}

/// The law of counted events: a sample counts one more sample of the run and an interval off the
/// processor one more interval; attaching names the process, and all else leaves the run as it is.
pub proof fn events_count_in_their_run(v: RegistryView, event: IngestEvent)
    requires
        v.active is Some,
        v.active->0.pet_samples < u64::MAX,
        v.active->0.off_cpu_intervals < u64::MAX,
    ensures
        ({
            let before = v.active->0;
            let after = run_after(v, event).active->0;
            &&& run_after(v, event).active is Some
            &&& run_after(v, event).history == v.history
            &&& after.id == before.id
            &&& after.state == before.state
            &&& after.label == before.label
            &&& after.pet_samples == before.pet_samples + (if event is Sample {
                1int
            } else {
                0int
            })
            &&& after.off_cpu_intervals == before.off_cpu_intervals + (
            if event is OffCpuInterval {
                1int
            } else {
                0int
            })
            &&& after.target_pid == (match event {
                IngestEvent::TargetAttached { pid, .. } => Some(pid),
                _ => before.target_pid,
            })
        }),
{
}

/// The law of targets: attaching names the process, and a port of nought keeps the one that was known.
pub proof fn attaching_names_the_target(b: BinaryRegistry, pid: u32, port: u64)
    ensures
        target_after(b, pid, port).0 == Some(pid),
        port != 0 ==> target_after(b, pid, port).1 == Some(port),
        target_after(b, pid, 0).1 == b.target().1,
{
}

/// The law of where the shade is looked for: where it was told to be first, in the home directory next,
/// and in the place for everyone last.
pub proof fn the_shade_is_looked_for_in_turn(told: &str, home: &str)
    ensures
        shade_candidates_of(None, None) == seq!["/usr/local/bin/stax-shade"@],
        shade_candidates_of(Some(told), None) == seq![told@, "/usr/local/bin/stax-shade"@],
        shade_candidates_of(Some(told), Some(home)).len() == 3,
        shade_candidates_of(Some(told), Some(home))[0] == told@,
        shade_candidates_of(Some(told), Some(home))[2] == "/usr/local/bin/stax-shade"@,
        home@.len() > 0 && home@.last() != '/' ==> shade_candidates_of(Some(told), Some(home))[1]
            == home@ + "/.cargo/bin/stax-shade"@,
{
    reveal_strlit("/");
    reveal_strlit(".cargo");
    reveal_strlit("bin");
    reveal_strlit("stax-shade");
    reveal_strlit("/.cargo/bin/stax-shade");
    let h = home@;
    if h.len() > 0 && h.last() != '/' {
        let a = joined_path(h, ".cargo"@);
        names_stand_behind_their_directory(h, ".cargo"@);
        assert(a.last() == 'o');
        let b = joined_path(a, "bin"@);
        names_stand_behind_their_directory(a, "bin"@);
        assert(b.last() == 'n');
        names_stand_behind_their_directory(b, "stax-shade"@);
        assert(joined_path(b, "stax-shade"@) =~= h + "/.cargo/bin/stax-shade"@);
    }
}

} // verus!
