//! The runs of the server: the one that is going on, if any, and those before it.
use vstd::prelude::*;

use crate::shade::{ShadeAck, ShadeInfo};
use crate::text::{dec, push_dec};

verus! {

/// How far a run is.
#[derive(Clone, Copy, Debug, PartialEq, Eq, Structural)]
pub enum RunState {
    Recording,
    Stopped,
}

/// Why a run stopped.
#[derive(Debug)]
pub enum StopReason {
    UserStop,
    TargetExited,
    RecorderError { message: String },
}

/// The model of a [`StopReason`].
pub enum ReasonView {
    UserStop,
    TargetExited,
    RecorderError { message: Seq<char> },
}

impl View for StopReason {
    type V = ReasonView;

    open spec fn view(&self) -> ReasonView {
        match self {
            StopReason::UserStop => ReasonView::UserStop,
            StopReason::TargetExited => ReasonView::TargetExited,
            StopReason::RecorderError { message } => ReasonView::RecorderError {
                message: message@,
            },
        }
    }
}

impl StopReason {
    /// The same reason.
    pub fn copy(&self) -> (r: StopReason)
        ensures
            r@ == self@,
    {
        match self {
            StopReason::UserStop => StopReason::UserStop,
            StopReason::TargetExited => StopReason::TargetExited,
            StopReason::RecorderError { message } => StopReason::RecorderError {
                message: message.clone(),
            },
        }
    }
}

/// The model of a reason that may be missing.
pub open spec fn opt_reason(r: Option<StopReason>) -> Option<ReasonView> {
    match r {
        Some(r) => Some(r@),
        None => None,
    }
}

/// A run.
#[derive(Debug)]
pub struct RunSummary {
    pub id: u64,
    pub state: RunState,
    pub stop_reason: Option<StopReason>,
    pub started_at_unix_ns: u64,
    pub stopped_at_unix_ns: Option<u64>,
    pub target_pid: Option<u32>,
    pub label: String,
    pub pet_samples: u64,
    pub off_cpu_intervals: u64,
}

/// The model of a [`RunSummary`].
pub struct RunView {
    pub id: u64,
    pub state: RunState,
    pub stop_reason: Option<ReasonView>,
    pub started_at_unix_ns: u64,
    pub stopped_at_unix_ns: Option<u64>,
    pub target_pid: Option<u32>,
    pub label: Seq<char>,
    pub pet_samples: u64,
    pub off_cpu_intervals: u64,
}

impl View for RunSummary {
    type V = RunView;

    open spec fn view(&self) -> RunView {
        RunView {
            id: self.id,
            state: self.state,
            stop_reason: opt_reason(self.stop_reason),
            started_at_unix_ns: self.started_at_unix_ns,
            stopped_at_unix_ns: self.stopped_at_unix_ns,
            target_pid: self.target_pid,
            label: self.label@,
            pet_samples: self.pet_samples,
            off_cpu_intervals: self.off_cpu_intervals,
        }
    }
}

impl RunSummary {
    /// The same run.
    pub fn copy(&self) -> (r: RunSummary)
        ensures
            r@ == self@,
    {
        RunSummary {
            id: self.id,
            state: self.state,
            stop_reason: match &self.stop_reason {
                Some(r) => Some(r.copy()),
                None => None,
            },
            started_at_unix_ns: self.started_at_unix_ns,
            stopped_at_unix_ns: self.stopped_at_unix_ns,
            target_pid: self.target_pid,
            label: self.label.clone(),
            pet_samples: self.pet_samples,
            off_cpu_intervals: self.off_cpu_intervals,
        }
    }
}

/// The models of runs.
pub open spec fn run_views(s: Seq<RunSummary>) -> Seq<RunView> {
    s.map_values(|r: RunSummary| r@)
}

/// The model of a run that may be missing.
pub open spec fn opt_run(r: Option<RunSummary>) -> Option<RunView> {
    match r {
        Some(r) => Some(r@),
        None => None,
    }
}

/// The runs of the server, and what belongs to the one that is going on: whether it can
/// be cancelled, the companion that is registered for it and whether that takes
/// commands, whether events come in, and the companion's process. Terminals wait by
/// the number of their run.
pub struct RunRegistry {
    active: Option<RunSummary>,
    cancel: bool,
    active_shade: Option<ShadeInfo>,
    shade_commands: bool,
    ingest_attached: bool,
    shade_child: Option<u32>,
    history: Vec<RunSummary>,
    next_run_id: u64,
    terminals: Vec<u64>,
}

/// The model of a [`RunRegistry`].
pub struct RegistryView {
    pub active: Option<RunView>,
    pub cancel: bool,
    pub active_shade: Option<ShadeInfo>,
    pub shade_commands: bool,
    pub ingest_attached: bool,
    pub shade_child: Option<u32>,
    /// Runs that are over, oldest first.
    pub history: Seq<RunView>,
    pub next_run_id: u64,
    pub terminals: Seq<u64>,
}

impl View for RunRegistry {
    type V = RegistryView;

    closed spec fn view(&self) -> RegistryView {
        RegistryView {
            active: opt_run(self.active),
            cancel: self.cancel,
            active_shade: self.active_shade,
            shade_commands: self.shade_commands,
            ingest_attached: self.ingest_attached,
            shade_child: self.shade_child,
            history: run_views(self.history@),
            next_run_id: self.next_run_id,
            terminals: self.terminals@,
        }
    }
}

/// What is said where a run is going on.
pub open spec fn busy_text() -> Seq<char> {
    "another run is already active; call RunControl::stop_active or wait_active first"@
}

/// A run that begins.
pub open spec fn new_run(id: u64, label: Seq<char>, now: u64) -> RunView {
    RunView {
        id,
        state: RunState::Recording,
        stop_reason: None,
        started_at_unix_ns: now,
        stopped_at_unix_ns: None,
        target_pid: None,
        label,
        pet_samples: 0,
        off_cpu_intervals: 0,
    }
}

/// A run that stops, where it had not.
pub open spec fn stopped_run(r: RunView, reason: ReasonView, now: u64) -> RunView {
    if r.state == RunState::Stopped {
        r
    } else {
        RunView {
            state: RunState::Stopped,
            stop_reason: Some(reason),
            stopped_at_unix_ns: Some(now),
            ..r
        }
    }
}

/// What is left without a number.
pub open spec fn without_number(s: Seq<u64>, n: u64) -> Seq<u64>
    decreases s.len(),
{
    if s.len() == 0 {
        s
    } else if s.last() == n {
        without_number(s.drop_last(), n)
    } else {
        without_number(s.drop_last(), n).push(s.last())
    }
}

/// Some run of the list has the number.
pub open spec fn has_run(s: Seq<RunView>, id: u64) -> bool {
    exists|i: int| 0 <= i < s.len() && (#[trigger] s[i]).id == id
}

/// The numbers of runs differ.
pub open spec fn ids_differ(s: Seq<RunView>) -> bool {
    forall|i: int, j: int| 0 <= i < j < s.len() ==> (#[trigger] s[i]).id != (#[trigger] s[j]).id
}

/// The numbers of runs are below `bound`.
pub open spec fn ids_below(s: Seq<RunView>, bound: u64) -> bool {
    forall|i: int| 0 <= i < s.len() ==> (#[trigger] s[i]).id < bound
}

impl RegistryView {
    /// No runs. They are numbered from one.
    pub open spec fn empty() -> RegistryView {
        RegistryView {
            active: None,
            cancel: false,
            active_shade: None,
            shade_commands: false,
            ingest_attached: false,
            shade_child: None,
            history: seq![],
            next_run_id: 1,
            terminals: seq![],
        }
    }

    /// No two runs have the same number, and none that of the next.
    pub open spec fn wf(self) -> bool {
        &&& ids_differ(self.history)
        &&& ids_below(self.history, self.next_run_id)
        &&& self.active matches Some(r) ==> r.id < self.next_run_id && !has_run(self.history, r.id)
    }

    /// The run numbered so is going on.
    pub open spec fn is_active(self, id: u64) -> bool {
        self.active matches Some(r) && r.id == id
    }

    /// Nothing belongs to the run any more, and it is `over`.
    pub open spec fn closed(self, over: RunView) -> RegistryView {
        RegistryView {
            active: None,
            cancel: false,
            active_shade: None,
            shade_commands: false,
            ingest_attached: false,
            history: self.history.push(over),
            ..self
        }
    }

    /// A run that stopped but was still going on is closed before another begins.
    pub open spec fn without_stale(self) -> RegistryView {
        match self.active {
            Some(r) => if r.state == RunState::Stopped {
                RegistryView { shade_child: None, ..self.closed(r) }
            } else {
                self
            },
            None => self,
        }
    }

    /// A run may begin.
    pub open spec fn has_room(self) -> bool {
        self.active matches Some(r) ==> r.state == RunState::Stopped
    }

    /// After a run was asked for.
    pub open spec fn begun(self, label: Seq<char>, now: u64) -> RegistryView {
        let ready = self.without_stale();
        if self.has_room() {
            RegistryView {
                active: Some(new_run(self.next_run_id, label, now)),
                cancel: true,
                ingest_attached: false,
                next_run_id: (self.next_run_id + 1) as u64,
                ..ready
            }
        } else {
            RegistryView { next_run_id: (self.next_run_id + 1) as u64, ..self }
        }
    }

    /// The companion's process to be waited for when a run begins.
    pub open spec fn stale_child(self) -> Option<u32> {
        match self.active {
            Some(r) => if r.state == RunState::Stopped {
                self.shade_child
            } else {
                None
            },
            None => None,
        }
    }

    /// After the run numbered so came to an end.
    pub open spec fn finalized(self, id: u64, reason: ReasonView, now: u64) -> RegistryView {
        let gone = RegistryView { terminals: without_number(self.terminals, id), ..self };
        if self.is_active(id) {
            RegistryView {
                shade_child: None,
                ..gone.closed(stopped_run(self.active->0, reason, now))
            }
        } else {
            gone
        }
    }

    /// After the run numbered so failed to start.
    pub open spec fn start_failed(self, id: u64, message: Seq<char>, now: u64) -> RegistryView {
        let gone = RegistryView { terminals: without_number(self.terminals, id), ..self };
        if self.is_active(id) {
            RegistryView {
                shade_child: None,
                ..gone.closed(
                    RunView {
                        state: RunState::Stopped,
                        stop_reason: Some(ReasonView::RecorderError { message }),
                        stopped_at_unix_ns: Some(now),
                        ..self.active->0
                    },
                )
            }
        } else {
            gone
        }
    }
}

/// What is said where there is no run.
pub open spec fn no_active_run_text() -> Seq<char> {
    "no active run"@
}

/// What is said where events are for another run.
pub open spec fn mismatch_text(id: u64, active: u64) -> Seq<char> {
    "run id mismatch: ingest for "@ + dec(id as nat) + ", active run is "@ + dec(active as nat)
}

/// What is said where events are for another run.
fn mismatch(id: u64, active: u64) -> (s: String)
    ensures
        s@ == mismatch_text(id, active),
{
    let mut s = "run id mismatch: ingest for ".to_owned();
    push_dec(&mut s, id);
    s.append(", active run is ");
    push_dec(&mut s, active);
    s
}

/// A run that began.
#[derive(Clone, Copy, Debug, PartialEq, Eq, Structural)]
pub struct BegunRun {
    pub id: u64,
    /// The process of the last run's companion, which is to be waited for.
    pub stale_child: Option<u32>,
}

/// What is done when a run is stopped.
pub struct StopPlan {
    /// The run, as it was stopped.
    pub summary: RunSummary,
    /// Whether the companion is told to stop.
    pub tell_shade: bool,
    /// Whether the reader of events is woken.
    pub wake_reader: bool,
    /// The companion's process, which is to be waited for.
    pub child: Option<u32>,
}

/// The numbers of a list of runs, with one more that is new.
proof fn lemma_push_run(s: Seq<RunView>, r: RunView, bound: u64)
    requires
        ids_differ(s),
        ids_below(s, bound),
        r.id < bound,
        !has_run(s, r.id),
    ensures
        ids_differ(s.push(r)),
        ids_below(s.push(r), bound),
{
    let p = s.push(r);
    assert forall|i: int, j: int| 0 <= i < j < p.len() implies (#[trigger] p[i]).id != (
    #[trigger] p[j]).id by {
        if j < s.len() {
            assert(s[i].id != s[j].id);
        } else {
            assert(p[i] == s[i]);
        }
    }
    assert forall|i: int| 0 <= i < p.len() implies (#[trigger] p[i]).id < bound by {
        if i < s.len() {
            assert(p[i] == s[i]);
        }
    }
}

impl RunRegistry {
    /// No runs. They are numbered from one.
    pub fn new() -> (r: Self)
        ensures
            r@ == RegistryView::empty(),
            r@.wf(),
    {
        let r = RunRegistry {
            active: None,
            cancel: false,
            active_shade: None,
            shade_commands: false,
            ingest_attached: false,
            shade_child: None,
            history: Vec::new(),
            next_run_id: 1,
            terminals: Vec::new(),
        };
        assert(r@.history =~= seq![]);
        r
    }

    /// Closes the run that is going on.
    fn close_run(&mut self, over: RunSummary)
        ensures
            final(self)@ == old(self)@.closed(over@),
    {
        let ghost before = run_views(self.history@);
        let ghost added = over@;
        self.active = None;
        self.cancel = false;
        self.active_shade = None;
        self.shade_commands = false;
        self.ingest_attached = false;
        self.history.push(over);
        assert(run_views(self.history@) =~= before.push(added));
    }

    /// Whether there is a number for one more run.
    pub fn has_numbers_left(&self) -> (r: bool)
        ensures
            r == (self@.next_run_id < u64::MAX),
    {
        self.next_run_id < u64::MAX
    }

    /// Begins a run, where none is going on that has not stopped.
    pub fn begin_run(&mut self, label: String, now: u64) -> (r: Result<BegunRun, String>)
        requires
            old(self)@.wf(),
            old(self)@.next_run_id < u64::MAX,
        ensures
            final(self)@.wf(),
            final(self)@ == old(self)@.begun(label@, now),
            r is Ok == old(self)@.has_room(),
            r matches Ok(b) ==> b == (BegunRun {
                id: old(self)@.next_run_id,
                stale_child: old(self)@.stale_child(),
            }),
            r matches Err(m) ==> m@ == busy_text(),
    {
        let ghost start = self@;
        let mut stale_child: Option<u32> = None;
        let stale = match &self.active {
            Some(a) => a.state == RunState::Stopped,
            None => false,
        };
        if stale {
            let over = self.active.take();
            match over {
                Some(over) => {
                    proof {
                        lemma_push_run(start.history, over@, start.next_run_id);
                    }
                    stale_child = self.shade_child;
                    self.shade_child = None;
                    self.close_run(over);
                },
                None => {},
            }
        }
        assert(self@ == start.without_stale());
        let id: u64 = self.next_run_id;
        self.next_run_id = id + 1;
        if self.active.is_some() {
            return Err(
                "another run is already active; call RunControl::stop_active or wait_active first".to_owned(),
            );
        }
        self.active = Some(
            RunSummary {
                id,
                state: RunState::Recording,
                stop_reason: None,
                started_at_unix_ns: now,
                stopped_at_unix_ns: None,
                target_pid: None,
                label,
                pet_samples: 0,
                off_cpu_intervals: 0,
            },
        );
        self.cancel = true;
        self.ingest_attached = false;
        proof {
            assert(!has_run(self@.history, id)) by {
                if has_run(self@.history, id) {
                    let k = choose|k: int|
                        0 <= k < self@.history.len() && (#[trigger] self@.history[k]).id == id;
                    assert(self@.history[k].id < id);
                }
            }
        }
        Ok(BegunRun { id, stale_child })
    }

    /// Checks that events are for the run that is going on.
    pub fn ensure_active_run(&self, run_id: u64) -> (r: Result<(), String>)
        ensures
            r is Ok == self@.is_active(run_id),
            r matches Err(m) ==> m@ == (match self@.active {
                None => no_active_run_text(),
                Some(a) => mismatch_text(run_id, a.id),
            }),
    {
        match &self.active {
            None => Err("no active run".to_owned()),
            Some(a) => if a.id != run_id {
                Err(mismatch(run_id, a.id))
            } else {
                Ok(())
            },
        }
    }

    /// Checks that events can be read for the run: it is going on, and its reader can
    /// be woken.
    pub fn cancel_for_run(&self, run_id: u64) -> (r: Result<(), String>)
        ensures
            r is Ok == (self@.is_active(run_id) && self@.cancel),
            r matches Err(m) ==> m@ == (match self@.active {
                None => no_active_run_text(),
                Some(a) => if a.id != run_id {
                    mismatch_text(run_id, a.id)
                } else {
                    "active run has no cancel handle"@
                },
            }),
    {
        match self.ensure_active_run(run_id) {
            Err(m) => Err(m),
            Ok(()) => if self.cancel {
                Ok(())
            } else {
                Err("active run has no cancel handle".to_owned())
            },
        }
    }

    /// Takes note that events come in.
    pub fn attach_ingest(&mut self)
        ensures
            final(self)@ == (RegistryView { ingest_attached: true, ..old(self)@ }),
    {
        self.ingest_attached = true;
    }

    /// Takes note that no more events come in. The run goes on until its companion ends
    /// or it is stopped.
    pub fn detach_ingest(&mut self, run_id: u64)
        ensures
            final(self)@ == (if old(self)@.is_active(run_id) {
                RegistryView { ingest_attached: false, ..old(self)@ }
            } else {
                old(self)@
            }),
    {
        match &self.active {
            Some(a) => {
                if a.id == run_id {
                    self.ingest_attached = false;
                }
            },
            None => {},
        }
    }

    /// Registers a companion for the run that is going on. There is one at most.
    pub fn try_register_shade(&mut self, info: ShadeInfo) -> (ack: ShadeAck)
        ensures
            ack.accepted == (old(self)@.is_active(info.run_id) && old(self)@.active_shade is None),
            final(self)@ == (if ack.accepted {
                RegistryView {
                    active_shade: Some(info),
                    shade_commands: true,
                    ..old(self)@
                }
            } else {
                old(self)@
            }),
            ack.reason is None == ack.accepted,
            ack.reason matches Some(m) ==> m@ == (match old(self)@.active {
                None => no_active_run_text(),
                Some(a) => if a.id != info.run_id {
                    "run id mismatch: shade for "@ + dec(info.run_id as nat)
                        + ", server's active run is "@ + dec(a.id as nat)
                } else {
                    "a shade is already registered for this run"@
                },
            }),
    {
        match &self.active {
            None => {
                return ShadeAck { accepted: false, reason: Some("no active run".to_owned()) };
            },
            Some(a) => {
                if a.id != info.run_id {
                    let mut m = "run id mismatch: shade for ".to_owned();
                    push_dec(&mut m, info.run_id);
                    m.append(", server's active run is ");
                    push_dec(&mut m, a.id);
                    return ShadeAck { accepted: false, reason: Some(m) };
                }
            },
        }
        if self.active_shade.is_some() {
            return ShadeAck {
                accepted: false,
                reason: Some("a shade is already registered for this run".to_owned()),
            };
        }
        self.active_shade = Some(info);
        self.shade_commands = true;
        ShadeAck { accepted: true, reason: None }
    }

    /// The process of the registered companion.
    pub fn registered_shade(&self) -> (pid: Option<u32>)
        ensures
            pid == (match self@.active_shade {
                Some(i) => Some(i.shade_pid),
                None => None,
            }),
    {
        match &self.active_shade {
            Some(i) => Some(i.shade_pid),
            None => None,
        }
    }

    /// Takes note that a companion has gone; whether it was the registered one.
    pub fn shade_session_closed(&mut self, shade_pid: u32) -> (was: bool)
        ensures
            was == (old(self)@.active_shade matches Some(i) && i.shade_pid == shade_pid),
            final(self)@ == (if was {
                RegistryView { active_shade: None, shade_commands: false, ..old(self)@ }
            } else {
                old(self)@
            }),
    {
        match &self.active_shade {
            Some(i) => {
                if i.shade_pid == shade_pid {
                    self.active_shade = None;
                    self.shade_commands = false;
                    return true;
                }
                false
            },
            None => false,
        }
    }

    /// Takes note of the companion's process.
    pub fn shade_spawned(&mut self, pid: u32)
        ensures
            final(self)@ == (RegistryView { shade_child: Some(pid), ..old(self)@ }),
    {
        self.shade_child = Some(pid);
    }

    /// The companion's process, which is waited for from now on.
    pub fn take_shade_child(&mut self) -> (pid: Option<u32>)
        ensures
            pid == old(self)@.shade_child,
            final(self)@ == (RegistryView { shade_child: None, ..old(self)@ }),
    {
        let pid = self.shade_child;
        self.shade_child = None;
        pid
    }

    /// Takes out the terminal that waits for a run.
    fn drop_terminal(&mut self, run_id: u64)
        ensures
            final(self)@ == (RegistryView {
                terminals: without_number(old(self)@.terminals, run_id),
                ..old(self)@
            }),
    {
        let mut kept: Vec<u64> = Vec::new();
        let ghost given = self.terminals@;
        let mut i: usize = 0;
        assert(given.take(0) =~= seq![]);
        while i < self.terminals.len()
            invariant
                i <= given.len(),
                given == self.terminals@,
                kept@ == without_number(given.take(i as int), run_id),
            decreases given.len() - i,
        {
            assert(given.take(i + 1).drop_last() =~= given.take(i as int));
            assert(given.take(i + 1).last() == given[i as int]);
            if self.terminals[i] != run_id {
                kept.push(self.terminals[i]);
            }
            i = i + 1;
        }
        assert(given.take(i as int) =~= given);
        self.terminals = kept;
    }

    /// Has a terminal wait for a run.
    pub fn add_terminal(&mut self, run_id: u64)
        ensures
            final(self)@ == (RegistryView {
                terminals: without_number(old(self)@.terminals, run_id).push(run_id),
                ..old(self)@
            }),
    {
        self.drop_terminal(run_id);
        self.terminals.push(run_id);
    }

    /// Hands out the terminal that waits for a run, once.
    pub fn take_terminal(&mut self, run_id: u64) -> (r: Result<(), String>)
        ensures
            r is Ok == old(self)@.terminals.contains(run_id),
            r matches Err(m) ==> m@ == "no pending terminal for run "@ + dec(run_id as nat),
            final(self)@ == (RegistryView {
                terminals: without_number(old(self)@.terminals, run_id),
                ..old(self)@
            }),
    {
        let ghost given = self.terminals@;
        let before: usize = self.terminals.len();
        self.drop_terminal(run_id);
        proof {
            lemma_without_number_len(given, run_id);
        }
        if self.terminals.len() < before {
            Ok(())
        } else {
            let mut m = "no pending terminal for run ".to_owned();
            push_dec(&mut m, run_id);
            Err(m)
        }
    }

    /// Ends a run. One that was stopped keeps its reason. The companion's process is to
    /// be waited for.
    pub fn finalize_run(&mut self, run_id: u64, reason: StopReason, now: u64) -> (child: Option<u32>)
        requires
            old(self)@.wf(),
        ensures
            final(self)@.wf(),
            final(self)@ == old(self)@.finalized(run_id, reason@, now),
            child == (if old(self)@.is_active(run_id) {
                old(self)@.shade_child
            } else {
                None
            }),
    {
        let ghost start = self@;
        self.drop_terminal(run_id);
        let ours = match &self.active {
            Some(a) => a.id == run_id,
            None => false,
        };
        if !ours {
            return None;
        }
        match self.active.take() {
            Some(over) => {
                let mut over = over;
                if over.state != RunState::Stopped {
                    over.state = RunState::Stopped;
                    over.stop_reason = Some(reason);
                    over.stopped_at_unix_ns = Some(now);
                }
                proof {
                    lemma_push_run(start.history, over@, start.next_run_id);
                }
                self.close_run(over);
                self.take_shade_child()
            },
            None => None,
        }
    }

    /// Ends a run whose companion could not be started.
    pub fn discard_start_failed(&mut self, run_id: u64, message: String, now: u64)
        requires
            old(self)@.wf(),
        ensures
            final(self)@.wf(),
            final(self)@ == old(self)@.start_failed(run_id, message@, now),
    {
        let ghost start = self@;
        self.drop_terminal(run_id);
        let ours = match &self.active {
            Some(a) => a.id == run_id,
            None => false,
        };
        if !ours {
            return;
        }
        match self.active.take() {
            Some(over) => {
                let mut over = over;
                over.state = RunState::Stopped;
                over.stop_reason = Some(StopReason::RecorderError { message });
                over.stopped_at_unix_ns = Some(now);
                proof {
                    lemma_push_run(start.history, over@, start.next_run_id);
                }
                self.close_run(over);
                self.shade_child = None;
            },
            None => {},
        }
    }

    /// Stops the run that is going on. Its reader of events ends it then.
    pub fn stop_active(&mut self, now: u64) -> (r: Option<StopPlan>)
        requires
            old(self)@.wf(),
        ensures
            final(self)@.wf(),
            r is Some == old(self)@.active is Some,
            match r {
                Some(p) => p.summary@ == (RunView {
                    state: RunState::Stopped,
                    stop_reason: Some(ReasonView::UserStop),
                    stopped_at_unix_ns: Some(now),
                    ..old(self)@.active->0
                }) && p.tell_shade == old(self)@.shade_commands && p.wake_reader == old(self)@.cancel
                    && p.child == old(self)@.shade_child && final(self)@ == (RegistryView {
                    active: Some(p.summary@),
                    cancel: false,
                    active_shade: None,
                    shade_commands: false,
                    ingest_attached: false,
                    shade_child: None,
                    ..old(self)@
                }),
                None => final(self)@ == old(self)@,
            },
    {
        match self.active.take() {
            Some(run) => {
                let mut run = run;
                run.state = RunState::Stopped;
                run.stop_reason = Some(StopReason::UserStop);
                run.stopped_at_unix_ns = Some(now);
                let summary = run.copy();
                self.active = Some(run);
                let plan = StopPlan {
                    summary,
                    tell_shade: self.shade_commands,
                    wake_reader: self.cancel,
                    child: self.shade_child,
                };
                self.active_shade = None;
                self.shade_commands = false;
                self.ingest_attached = false;
                self.cancel = false;
                self.shade_child = None;
                Some(plan)
            },
            None => None,
        }
    }

    /// Takes note that the companion's process ended. Where its run is still going on,
    /// that ends, too: the target has gone, or the companion failed, of which `status`
    /// tells. Returns whether the run ended, and a process to be waited for.
    pub fn shade_child_exited(
        &mut self,
        run_id: u64,
        shade_pid: u32,
        success: bool,
        status: &str,
        now: u64,
    ) -> (r: Option<Option<u32>>)
        requires
            old(self)@.wf(),
        ensures
            final(self)@.wf(),
            ({
                let noted = if old(self)@.shade_child == Some(shade_pid) {
                    RegistryView { shade_child: None, ..old(self)@ }
                } else {
                    old(self)@
                };
                let reason = if success {
                    ReasonView::TargetExited
                } else {
                    ReasonView::RecorderError { message: "stax-shade exited: "@ + status@ }
                };
                if old(self)@.is_active(run_id) {
                    final(self)@ == noted.finalized(run_id, reason, now) && r == Some(
                        noted.shade_child,
                    )
                } else {
                    final(self)@ == noted && r is None
                }
            }),
    {
        match self.shade_child {
            Some(pid) => {
                if pid == shade_pid {
                    self.shade_child = None;
                }
            },
            None => {},
        }
        let ours = match &self.active {
            Some(a) => a.id == run_id,
            None => false,
        };
        if !ours {
            return None;
        }
        let reason = if success {
            StopReason::TargetExited
        } else {
            let mut m = "stax-shade exited: ".to_owned();
            m.append(status);
            StopReason::RecorderError { message: m }
        };
        Some(self.finalize_run(run_id, reason, now))
    }

    /// The run that is going on.
    pub fn active(&self) -> (r: Option<&RunSummary>)
        ensures
            match r {
                Some(r) => self@.active == Some(r@),
                None => self@.active is None,
            },
    {
        self.active.as_ref()
    }

    /// All runs, oldest first, the one that is going on last.
    pub fn list_runs(&self) -> (r: Vec<RunSummary>)
        ensures
            run_views(r@) == (match self@.active {
                Some(a) => self@.history.push(a),
                None => self@.history,
            }),
    {
        let mut out: Vec<RunSummary> = Vec::new();
        let mut i: usize = 0;
        assert(run_views(out@) =~= run_views(self.history@).take(0));
        while i < self.history.len()
            invariant
                i <= self.history@.len(),
                run_views(out@) == run_views(self.history@).take(i as int),
            decreases self.history@.len() - i,
        {
            let ghost before = out@;
            let r = self.history[i].copy();
            let ghost added = r@;
            out.push(r);
            proof {
                assert(run_views(out@) =~= run_views(before).push(added));
                assert(run_views(self.history@)[i as int] == self.history@[i as int]@);
                assert(run_views(out@) =~= run_views(self.history@).take(i + 1));
            }
            i = i + 1;
        }
        assert(run_views(self.history@).take(i as int) =~= run_views(self.history@));
        match &self.active {
            Some(a) => {
                let ghost before = out@;
                let r = a.copy();
                let ghost added = r@;
                out.push(r);
                assert(run_views(out@) =~= run_views(before).push(added));
            },
            None => {},
        }
        out
    }

    /// Counts an event of the run that is going on.
    pub fn count(&mut self, sample: bool, off_cpu: bool, target: Option<u32>)
        requires
            old(self)@.wf(),
        ensures
            final(self)@.wf(),
            final(self)@ == (match old(self)@.active {
                Some(r) => RegistryView {
                    active: Some(counted_run(r, sample, off_cpu, target)),
                    ..old(self)@
                },
                None => old(self)@,
            }),
    {
        match self.active.take() {
            Some(run) => {
                let mut run = run;
                if sample {
                    run.pet_samples = run.pet_samples.saturating_add(1);
                }
                if off_cpu {
                    run.off_cpu_intervals = run.off_cpu_intervals.saturating_add(1);
                }
                if target.is_some() {
                    run.target_pid = target;
                }
                self.active = Some(run);
            },
            None => {},
        }
    }
}

/// A run with one more event counted; counts stop at what fits.
pub open spec fn counted_run(
    r: RunView,
    sample: bool,
    off_cpu: bool,
    target: Option<u32>,
) -> RunView {
    RunView {
        pet_samples: if sample {
            crate::probe_timing::sat_add(r.pet_samples, 1)
        } else {
            r.pet_samples
        },
        off_cpu_intervals: if off_cpu {
            crate::probe_timing::sat_add(r.off_cpu_intervals, 1)
        } else {
            r.off_cpu_intervals
        },
        target_pid: if target is Some {
            target
        } else {
            r.target_pid
        },
        ..r
    }
}

/// What is left without a number is shorter exactly where the number was there.
proof fn lemma_without_number_len(s: Seq<u64>, n: u64)
    ensures
        without_number(s, n).len() <= s.len(),
        (without_number(s, n).len() < s.len()) == s.contains(n),
        !without_number(s, n).contains(n),
    decreases s.len(),
{
    if s.len() > 0 {
        lemma_without_number_len(s.drop_last(), n);
        let init = s.drop_last();
        if s.last() == n {
            assert(s[s.len() - 1] == n);
        } else {
            if init.contains(n) {
                let k = choose|k: int| 0 <= k < init.len() && init[k] == n;
                assert(s[k] == n);
            }
            if s.contains(n) {
                let k = choose|k: int| 0 <= k < s.len() && s[k] == n;
                assert(init[k] == n);
            }
            let w = without_number(init, n).push(s.last());
            if w.contains(n) {
                let k = choose|k: int| 0 <= k < w.len() && w[k] == n;
                assert(without_number(init, n)[k] == n);
            }
        }
    }
}

/// The law of stopping: a run that was stopped makes room for another, and when it
/// ends it keeps the reason for which it was stopped.
pub proof fn stopping_makes_room(v: RegistryView, now: u64, reason: ReasonView, later: u64)
    requires
        v.active is Some,
    ensures
        ({
            let stopped = RegistryView {
                active: Some(
                    RunView {
                        state: RunState::Stopped,
                        stop_reason: Some(ReasonView::UserStop),
                        stopped_at_unix_ns: Some(now),
                        ..v.active->0
                    },
                ),
                ..v
            };
            &&& stopped.has_room()
            &&& stopped.finalized(v.active->0.id, reason, later).active is None
            &&& stopped.finalized(v.active->0.id, reason, later).history.last().stop_reason
                == Some(ReasonView::UserStop)
            &&& stopped.finalized(v.active->0.id, reason, later).history.last().stopped_at_unix_ns
                == Some(now)
        }),
{
}

/// The law of numbers: a run that begins has a higher number than all before it, and one that
/// had stopped but was still going on is over then.
pub proof fn runs_are_numbered_upwards(v: RegistryView, label: Seq<char>, now: u64)
    requires
        v.wf(),
        v.has_room(),
        v.next_run_id < u64::MAX,
    ensures
        v.begun(label, now).next_run_id == v.next_run_id + 1,
        v.begun(label, now).active == Some(new_run(v.next_run_id, label, now)),
        forall|i: int| 0 <= i < v.history.len() ==> (#[trigger] v.history[i]).id < v.next_run_id,
        match v.active {
            Some(r) => r.id < v.next_run_id && v.begun(label, now).history == v.history.push(r)
                && !has_run(v.history, r.id),
            None => v.begun(label, now).history == v.history,
        },
{
}

/// The law of runs: a run that begins is new, and stays until it ends, when it is the
/// last of those that are over. Nothing that was over is lost.
pub proof fn runs_are_kept(v: RegistryView, label: Seq<char>, now: u64, reason: ReasonView, later: u64)
    requires
        v.wf(),
        v.has_room(),
        v.next_run_id < u64::MAX,
    ensures
        v.begun(label, now).wf(),
        v.begun(label, now).is_active(v.next_run_id),
        !has_run(v.history, v.next_run_id),
        v.begun(label, now).finalized(v.next_run_id, reason, later).history.last().id
            == v.next_run_id,
        forall|i: int|
            0 <= i < v.history.len() ==> v.begun(label, now).finalized(
                v.next_run_id,
                reason,
                later,
            ).history[i] == #[trigger] v.history[i],
{
    if has_run(v.history, v.next_run_id) {
        let k = choose|k: int| 0 <= k < v.history.len() && (#[trigger] v.history[k]).id == v.next_run_id;
        assert(v.history[k].id < v.next_run_id);
    }
    match v.active {
        Some(r) => {
            lemma_push_run(v.history, r, v.next_run_id);
        },
        None => {},
    }
    let b = v.begun(label, now);
    if has_run(b.history, v.next_run_id) {
        let k = choose|k: int| 0 <= k < b.history.len() && (#[trigger] b.history[k]).id == v.next_run_id;
        if k < v.history.len() {
            assert(v.history[k].id < v.next_run_id);
        }
    }
    assert forall|i: int| 0 <= i < b.history.len() implies (#[trigger] b.history[i]).id
        < b.next_run_id by {
        if i < v.history.len() {
            assert(b.history[i] == v.history[i]);
        }
    }
}

/// The law of terminals: the number goes, and every other one stays.
pub proof fn only_the_number_goes(s: Seq<u64>, n: u64)
    ensures
        without_number(s, n) == s.filter(|x: u64| x != n),
    decreases s.len(),
{
    reveal(Seq::filter);
    if s.len() > 0 {
        only_the_number_goes(s.drop_last(), n);
    }
}

/// The law of counting: a sample counts as one, an interval off the CPU as one, and the target is the
/// last that was told.
pub proof fn runs_count_their_events(r: RunView, sample: bool, off_cpu: bool, target: Option<u32>)
    requires
        r.pet_samples < u64::MAX,
        r.off_cpu_intervals < u64::MAX,
    ensures
        ({
            let c = counted_run(r, sample, off_cpu, target);
            &&& c.pet_samples == r.pet_samples + (if sample {
                1int
            } else {
                0
            })
            &&& c.off_cpu_intervals == r.off_cpu_intervals + (if off_cpu {
                1int
            } else {
                0
            })
            &&& target is Some ==> c.target_pid == target
            &&& target is None ==> c.target_pid == r.target_pid
            &&& c.id == r.id && c.state == r.state && c.label == r.label && c.stop_reason
                == r.stop_reason && c.started_at_unix_ns == r.started_at_unix_ns
                && c.stopped_at_unix_ns == r.stopped_at_unix_ns
        }),
{
}

/// The law of endings: the active run ends with the reason given, at the instant given, unless it had
/// been stopped before; its terminal goes, nothing runs then, and another run's end changes no run.
pub proof fn runs_end_with_their_reason(v: RegistryView, id: u64, reason: ReasonView, now: u64)
    ensures
        ({
            let after = v.finalized(id, reason, now);
            &&& !after.terminals.contains(id)
            &&& v.active is Some && v.active->0.id == id ==> {
                let over = after.history.last();
                &&& after.active is None
                &&& after.shade_child is None
                &&& !after.cancel
                &&& after.history.drop_last() == v.history
                &&& over.id == id
                &&& over.state == RunState::Stopped
                &&& over.label == v.active->0.label
                &&& over.pet_samples == v.active->0.pet_samples
                &&& over.off_cpu_intervals == v.active->0.off_cpu_intervals
                &&& v.active->0.state == RunState::Recording ==> over.stop_reason == Some(reason)
                    && over.stopped_at_unix_ns == Some(now)
                &&& v.active->0.state == RunState::Stopped ==> over == v.active->0
            }
            &&& !(v.active is Some && v.active->0.id == id) ==> after.active == v.active
                && after.history == v.history && after.shade_child == v.shade_child
        }),
{
    only_the_number_goes(v.terminals, id);
    let left = without_number(v.terminals, id);
    if left.contains(id) {
        let k = choose|k: int| 0 <= k < left.len() && left[k] == id;
        v.terminals.lemma_filter_pred(|x: u64| x != id, k);
    }
    let after = v.finalized(id, reason, now);
    if v.is_active(id) {
        assert(after.history.drop_last() =~= v.history);
    }
}

/// The law of failed starts: a run that could not start is over with the message, at that instant, and
/// nothing runs then; a failure of another run changes none.
pub proof fn failed_starts_end_the_run(v: RegistryView, id: u64, message: Seq<char>, now: u64)
    ensures
        ({
            let after = v.start_failed(id, message, now);
            &&& v.active is Some && v.active->0.id == id ==> {
                let over = after.history.last();
                &&& after.active is None
                &&& after.shade_child is None
                &&& after.history.drop_last() == v.history
                &&& over.id == id
                &&& over.state == RunState::Stopped
                &&& over.stop_reason == Some(ReasonView::RecorderError { message })
                &&& over.stopped_at_unix_ns == Some(now)
                &&& over.label == v.active->0.label
                &&& over.pet_samples == v.active->0.pet_samples
            }
            &&& !(v.active is Some && v.active->0.id == id) ==> after.active == v.active
                && after.history == v.history
        }),
{
    let after = v.start_failed(id, message, now);
    if v.is_active(id) {
        assert(after.history.drop_last() =~= v.history);
    }
}

/// The law of one run at a time: while one records no other begins, and nothing changes for it.
pub proof fn one_run_records_at_a_time(v: RegistryView, label: Seq<char>, now: u64)
    requires
        v.next_run_id < u64::MAX,
        v.active is Some,
        v.active->0.state == RunState::Recording,
    ensures
        !v.has_room(),
        v.begun(label, now).active == v.active,
        v.begun(label, now).history == v.history,
        v.begun(label, now).shade_child == v.shade_child,
        v.begun(label, now).cancel == v.cancel,
        v.stale_child() is None,
{
}

/// The law of beginning: the new run takes the next number and is the one that records; one that had
/// stopped before goes to the others that are over, and its companion is no longer this registry's.
pub proof fn beginning_puts_away_the_run_before(v: RegistryView, label: Seq<char>, now: u64)
    requires
        v.next_run_id < u64::MAX,
        v.active is Some ==> v.active->0.state == RunState::Stopped,
    ensures
        ({
            let after = v.begun(label, now);
            &&& after.active is Some
            &&& after.active->0.id == v.next_run_id
            &&& after.active->0.label == label
            &&& after.active->0.state == RunState::Recording
            &&& after.active->0.pet_samples == 0
            &&& after.active->0.started_at_unix_ns == now
            &&& after.next_run_id == v.next_run_id + 1
            &&& after.cancel
            &&& !after.ingest_attached
            &&& v.active is Some ==> after.history == v.history.push(v.active->0)
                && after.shade_child is None && v.stale_child() == v.shade_child
            &&& v.active is None ==> after.history == v.history && after.shade_child
                == v.shade_child && v.stale_child() is None
        }),
{
}

} // verus!
