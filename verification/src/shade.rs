//! The companion process that is attached to a target: what it is asked to do, and
//! what it does as a recording goes on.
use vstd::prelude::*;

use crate::client::SessionError;
use crate::text::{dec, push_dec};

verus! {

/// What a companion can do.
#[derive(Clone, Copy, Debug, PartialEq, Eq, Structural)]
pub struct ShadeCapabilities {
    /// It can read the target's memory.
    pub peek: bool,
    /// It can write the target's memory.
    pub poke: bool,
    /// It can walk the target's stacks.
    pub framehop_walker: bool,
    /// It can step through the target.
    pub breakpoint_step: bool,
}

/// Who a companion is.
#[derive(Clone, Copy, Debug, PartialEq, Eq, Structural)]
pub struct ShadeInfo {
    /// The run it is attached for.
    pub run_id: u64,
    /// The process it is attached to.
    pub target_pid: u32,
    /// Its own process.
    pub shade_pid: u32,
    pub capabilities: ShadeCapabilities,
}

/// The answer to a registration.
#[derive(Debug)]
pub struct ShadeAck {
    pub accepted: bool,
    /// Why it was refused.
    pub reason: Option<String>,
}

/// What the server offers to companions.
pub trait ShadeRegistry {
    /// Registers a companion.
    fn register_shade(&self, info: ShadeInfo) -> Result<ShadeAck, String>;
}

/// What a companion offers to the server.
pub trait Shade {
    /// Reads the target's memory.
    fn peek(&self, addr: u64, len: u32) -> Result<Vec<u8>, String>;

    /// Writes the target's memory.
    fn poke(&self, addr: u64, bytes: Vec<u8>) -> Result<(), String>;
}

/// What to attach to.
#[derive(Debug)]
pub enum AttachMode {
    Existing(u32),
    Launch(Vec<String>),
}

/// Why there is nothing to attach to.
#[derive(Clone, Copy, Debug, PartialEq, Eq, Structural)]
pub enum ShadeArgError {
    AttachAndLaunch,
    NoProgram,
    NoTarget,
    NoRunId,
    EmptyCommand,
    NulInProgram,
    NulInArguments,
}

/// What is said of an error.
pub open spec fn arg_error_text(e: ShadeArgError) -> Seq<char> {
    match e {
        ShadeArgError::AttachAndLaunch => "--attach and --launch are mutually exclusive"@,
        ShadeArgError::NoProgram => "--launch requires a program after `--`"@,
        ShadeArgError::NoTarget => "specify --attach <pid> or --launch -- <argv…>"@,
        ShadeArgError::NoRunId =>
            "--server-socket requires --run-id; stax-server owns run allocation"@,
        ShadeArgError::EmptyCommand =>
            "--launch requires at least one positional argument (the program path)"@,
        ShadeArgError::NulInProgram => "program path contains an interior NUL"@,
        ShadeArgError::NulInArguments => "argv contains an interior NUL"@,
    }
}

impl ShadeArgError {
    /// What is said of the error.
    pub fn message(&self) -> (s: &'static str)
        ensures
            s@ == arg_error_text(*self),
    {
        match self {
            ShadeArgError::AttachAndLaunch => "--attach and --launch are mutually exclusive",
            ShadeArgError::NoProgram => "--launch requires a program after `--`",
            ShadeArgError::NoTarget => "specify --attach <pid> or --launch -- <argv…>",
            ShadeArgError::NoRunId =>
                "--server-socket requires --run-id; stax-server owns run allocation",
            ShadeArgError::EmptyCommand =>
                "--launch requires at least one positional argument (the program path)",
            ShadeArgError::NulInProgram => "program path contains an interior NUL",
            ShadeArgError::NulInArguments => "argv contains an interior NUL",
        }
    }
}

/// What to attach to: a process that runs or a program to launch, and exactly one of
/// the two.
pub fn attach_mode(attach: Option<u32>, launch: bool, command: Vec<String>) -> (r: Result<
    AttachMode,
    ShadeArgError,
>)
    ensures
        match r {
            Ok(AttachMode::Existing(pid)) => attach == Some(pid) && !launch,
            Ok(AttachMode::Launch(argv)) => attach is None && launch && argv == command
                && command@.len() > 0,
            Err(ShadeArgError::AttachAndLaunch) => attach is Some && launch,
            Err(ShadeArgError::NoProgram) => attach is None && launch && command@.len() == 0,
            Err(ShadeArgError::NoTarget) => attach is None && !launch,
            Err(_) => false,
        },
{
    match attach {
        Some(pid) => if launch {
            Err(ShadeArgError::AttachAndLaunch)
        } else {
            Ok(AttachMode::Existing(pid))
        },
        None => if launch {
            if command.len() > 0 {
                Ok(AttachMode::Launch(command))
            } else {
                Err(ShadeArgError::NoProgram)
            }
        } else {
            Err(ShadeArgError::NoTarget)
        },
    }
}

/// The size of a terminal.
#[derive(Clone, Copy, Debug, PartialEq, Eq, Structural)]
pub struct TerminalSize {
    pub rows: u16,
    pub cols: u16,
}

/// The terminal that a launched target gets: one where both its sides are given and
/// there is a server to show it.
pub fn terminal_size(rows: Option<u16>, cols: Option<u16>, has_server: bool) -> (s: Option<
    TerminalSize,
>)
    ensures
        s == (if has_server && rows is Some && cols is Some {
            Some(TerminalSize { rows: rows->0, cols: cols->0 })
        } else {
            None
        }),
{
    if !has_server {
        return None;
    }
    match rows {
        Some(rows) => match cols {
            Some(cols) => Some(TerminalSize { rows, cols }),
            None => None,
        },
        None => None,
    }
}

/// What a companion does once it is attached.
#[derive(Clone, Copy, Debug, PartialEq, Eq, Structural)]
pub enum RunPlan {
    /// It records, for the run.
    Record { run_id: u64 },
    /// It lets the target go on and waits for a signal.
    Standalone,
}

/// What a companion does once it is attached.
pub fn run_plan(has_server: bool, run_id: Option<u64>) -> (r: Result<RunPlan, ShadeArgError>)
    ensures
        r == (if !has_server {
            Ok::<RunPlan, ShadeArgError>(RunPlan::Standalone)
        } else {
            match run_id {
                Some(run_id) => Ok(RunPlan::Record { run_id }),
                None => Err(ShadeArgError::NoRunId),
            }
        }),
{
    if !has_server {
        return Ok(RunPlan::Standalone);
    }
    match run_id {
        Some(run_id) => Ok(RunPlan::Record { run_id }),
        None => Err(ShadeArgError::NoRunId),
    }
}

/// The text holds a null character.
pub open spec fn holds_nul(s: Seq<char>) -> bool {
    exists|i: int| 0 <= i < s.len() && #[trigger] s[i] == '\0'
}

/// Whether the text holds a null character.
fn has_nul(s: &str) -> (r: bool)
    ensures
        r == holds_nul(s@),
{
    let n: usize = s.unicode_len();
    let mut i: usize = 0;
    while i < n
        invariant
            n == s@.len(),
            i <= n,
            forall|j: int| 0 <= j < i ==> #[trigger] s@[j] != '\0',
        decreases n - i,
    {
        if s.get_char(i) == '\0' {
            assert(s@[i as int] == '\0');
            return true;
        }
        i = i + 1;
    }
    false
}

/// Some argument holds a null character.
pub open spec fn some_nul(argv: Seq<String>) -> bool {
    exists|i: int| 0 <= i < argv.len() && holds_nul(#[trigger] argv[i]@)
}

/// Checks that a command can be handed to the system.
pub fn check_command(argv: &Vec<String>) -> (r: Result<(), ShadeArgError>)
    ensures
        r == (if argv@.len() == 0 {
            Err::<(), ShadeArgError>(ShadeArgError::EmptyCommand)
        } else if holds_nul(argv@[0]@) {
            Err(ShadeArgError::NulInProgram)
        } else if some_nul(argv@) {
            Err(ShadeArgError::NulInArguments)
        } else {
            Ok(())
        }),
{
    if argv.len() == 0 {
        return Err(ShadeArgError::EmptyCommand);
    }
    if has_nul(argv[0].as_str()) {
        return Err(ShadeArgError::NulInProgram);
    }
    let mut i: usize = 0;
    while i < argv.len()
        invariant
            i <= argv@.len(),
            argv@.len() > 0,
            !holds_nul(argv@[0]@),
            forall|j: int| 0 <= j < i ==> !holds_nul(#[trigger] argv@[j]@),
        decreases argv@.len() - i,
    {
        if has_nul(argv[i].as_str()) {
            assert(holds_nul(argv@[i as int]@));
            return Err(ShadeArgError::NulInArguments);
        }
        i = i + 1;
    }
    Ok(())
}

/// What is done to the files of a launched target before it starts.
#[derive(Clone, Copy, Debug, PartialEq, Eq, Structural)]
pub enum FileAction {
    /// The file becomes the one numbered so.
    Dup2 { from: i32, to: i32 },
    Close(i32),
}

/// What is done to the files of a target with a terminal: its side of the terminal
/// becomes its input and both its outputs, and nothing else of the terminal stays
/// open.
pub open spec fn file_actions_of(master: i32, slave: i32) -> Seq<FileAction> {
    seq![
        FileAction::Dup2 { from: slave, to: 0 },
        FileAction::Dup2 { from: slave, to: 1 },
        FileAction::Dup2 { from: slave, to: 2 },
    ] + (if slave > 2 {
        seq![FileAction::Close(slave)]
    } else {
        seq![]
    }) + seq![FileAction::Close(master)]
}

/// What is done to the files of a target with a terminal.
pub fn file_actions(master: i32, slave: i32) -> (a: Vec<FileAction>)
    ensures
        a@ == file_actions_of(master, slave),
{
    let mut a: Vec<FileAction> = Vec::new();
    a.push(FileAction::Dup2 { from: slave, to: 0 });
    a.push(FileAction::Dup2 { from: slave, to: 1 });
    a.push(FileAction::Dup2 { from: slave, to: 2 });
    if slave > 2 {
        a.push(FileAction::Close(slave));
    }
    a.push(FileAction::Close(master));
    assert(a@ =~= file_actions_of(master, slave));
    a
}

/// How a process ended: with a code, by a signal, or in a way that is not known.
#[derive(Clone, Copy, Debug, PartialEq, Eq, Structural)]
pub struct ChildExit {
    pub code: Option<i32>,
    pub signal: Option<i32>,
}

/// The low bits of a wait status: none for a process that exited, all for one that
/// was stopped, a signal for one that was killed.
pub open spec fn wait_low(status: i32) -> i32 {
    status & 0x7f
}

/// Calls `libc::WIFEXITED`: true exactly where the low seven bits are zero.
#[verifier::external_body]
fn wifexited(status: i32) -> (r: bool)
    ensures
        r == (wait_low(status) == 0),
{
    libc::WIFEXITED(status)
}

/// Calls `libc::WEXITSTATUS`: the eight bits above the low eight.
#[verifier::external_body]
fn wexitstatus(status: i32) -> (c: i32)
    ensures
        c == (status >> 8) & 0xff,
{
    libc::WEXITSTATUS(status)
}

/// Calls `libc::WIFSIGNALED`: true exactly where the low seven bits are neither all
/// zero nor all one.
#[verifier::external_body]
fn wifsignaled(status: i32) -> (r: bool)
    ensures
        r == (wait_low(status) != 0 && wait_low(status) != 0x7f),
{
    libc::WIFSIGNALED(status)
}

/// Calls `libc::WTERMSIG`: the low seven bits.
#[verifier::external_body]
fn wtermsig(status: i32) -> (s: i32)
    ensures
        s == wait_low(status),
{
    libc::WTERMSIG(status)
}

/// How a process ended, by its wait status.
pub open spec fn exit_of(status: i32) -> ChildExit {
    if wait_low(status) == 0 {
        ChildExit { code: Some((status >> 8) & 0xff), signal: None }
    } else if wait_low(status) != 0x7f {
        ChildExit { code: None, signal: Some(wait_low(status)) }
    } else {
        ChildExit { code: None, signal: None }
    }
}

/// How a process ended, by its wait status.
pub fn decode_wait_status(status: i32) -> (e: ChildExit)
    ensures
        e == exit_of(status),
{
    if wifexited(status) {
        ChildExit { code: Some(wexitstatus(status)), signal: None }
    } else if wifsignaled(status) {
        ChildExit { code: None, signal: Some(wtermsig(status)) }
    } else {
        ChildExit { code: None, signal: None }
    }
}

/// The law of wait statuses: a process did not both exit and die of a signal, and
/// what it exited with is a byte.
pub proof fn one_way_to_end(status: i32)
    ensures
        !(exit_of(status).code is Some && exit_of(status).signal is Some),
        exit_of(status).code matches Some(c) ==> 0 <= c <= 255,
        exit_of(status).signal matches Some(s) ==> 0 < s < 127,
{
    assert(0 <= (status >> 8) & 0xff <= 255) by (bit_vector);
    assert(0 <= status & 0x7f <= 127) by (bit_vector);
}

/// What a look at a launched target tells, given what waiting for it came to: it
/// ended, it cannot be waited for, or it runs.
pub fn launched_child_exited(pid: i32, waited: i32, status: i32) -> (e: Option<ChildExit>)
    ensures
        e == (if waited == pid {
            Some(exit_of(status))
        } else if waited == -1 {
            Some(ChildExit { code: None, signal: None })
        } else {
            None
        }),
{
    if waited == pid {
        Some(decode_wait_status(status))
    } else if waited == -1 {
        Some(ChildExit { code: None, signal: None })
    } else {
        None
    }
}

/// What is done about a launched target at the end of a recording.
#[derive(Clone, Copy, Debug, PartialEq, Eq, Structural)]
pub enum TerminateStep {
    /// It runs: it is killed, and waited for.
    Kill,
    /// It had ended.
    Ended(ChildExit),
    /// It cannot be waited for.
    Unknown,
}

/// What is done about a launched target at the end of a recording, given what waiting
/// for it came to.
pub fn terminate_launched_child(pid: i32, waited: i32, status: i32) -> (s: TerminateStep)
    ensures
        s == (if waited == 0 {
            TerminateStep::Kill
        } else if waited == pid {
            TerminateStep::Ended(exit_of(status))
        } else {
            TerminateStep::Unknown
        }),
{
    if waited == 0 {
        TerminateStep::Kill
    } else if waited == pid {
        TerminateStep::Ended(decode_wait_status(status))
    } else {
        TerminateStep::Unknown
    }
}

/// What came from the server while a recording goes on.
#[derive(Clone, Copy, Debug, PartialEq, Eq, Structural)]
pub enum CommandReceived {
    Stop,
    /// A message that is no command.
    Nothing,
    Closed,
    Broken,
}

/// Whether it ends the recording: a command to stop does, and so does the loss of the
/// server.
pub fn command_stops(c: CommandReceived) -> (r: bool)
    ensures
        r == !(c is Nothing),
{
    match c {
        CommandReceived::Nothing => false,
        _ => true,
    }
}

/// What to do before the next batch is awaited.
#[derive(Clone, Copy, Debug, PartialEq, Eq, Structural)]
pub enum StopCheck {
    Stop,
    /// It depends on whether the launched target has ended: look.
    LookAtTarget,
    GoOn,
}

/// A recording as far as it concerns the target.
#[derive(Clone, Copy, Debug, PartialEq, Eq, Structural)]
pub struct Recording {
    /// Whether the target was launched by this process.
    pub launched: bool,
    /// Whether it still waits to be let go.
    pub suspended: bool,
    /// How it ended, where that is known.
    pub child_exit: Option<ChildExit>,
}

/// What remains to be done when a session has ended.
#[derive(Clone, Copy, Debug, PartialEq, Eq, Structural)]
pub struct EndPlan {
    /// The target still waits to be let go.
    pub resume: bool,
    /// The target is to be ended.
    pub terminate: bool,
    /// The parser was left behind: what it sends is waited for only so long.
    pub forwarder_budget_ns: Option<u64>,
}

/// How long what a parser sends is waited for that was left behind, in nanoseconds.
pub const DETACHED_FORWARDER_BUDGET: u64 = 5_000_000_000;

impl Recording {
    /// A recording of a target. One that was launched waits to be let go.
    pub fn new(launched: bool) -> (r: Self)
        ensures
            r == (Recording { launched, suspended: launched, child_exit: None }),
    {
        Recording { launched, suspended: launched, child_exit: None }
    }

    /// Whether the target is to be let go now, which happens once.
    pub fn take_resume(&mut self) -> (r: bool)
        ensures
            r == old(self).suspended,
            *final(self) == (Recording { suspended: false, ..*old(self) }),
    {
        let r = self.suspended;
        self.suspended = false;
        r
    }

    /// What to do before the next batch is awaited.
    pub fn check_stop(&self, server_stop: bool, sink_stop: bool) -> (c: StopCheck)
        ensures
            c == (if server_stop || sink_stop {
                StopCheck::Stop
            } else if self.launched && self.child_exit is None {
                StopCheck::LookAtTarget
            } else {
                StopCheck::GoOn
            }),
    {
        if server_stop || sink_stop {
            return StopCheck::Stop;
        }
        match self.child_exit {
            Some(_) => StopCheck::GoOn,
            None => if self.launched {
                StopCheck::LookAtTarget
            } else {
                StopCheck::GoOn
            },
        }
    }

    /// Takes in what a look at the target told; whether the recording stops.
    pub fn on_look(&mut self, exit: Option<ChildExit>) -> (stop: bool)
        ensures
            stop == exit is Some,
            *final(self) == (match exit {
                Some(e) => Recording { child_exit: Some(e), ..*old(self) },
                None => *old(self),
            }),
    {
        match exit {
            Some(e) => {
                self.child_exit = Some(e);
                true
            },
            None => false,
        }
    }

    /// What remains to be done when the session has ended.
    pub fn end_plan(&self, result: Result<(), SessionError>) -> (p: EndPlan)
        ensures
            p == (EndPlan {
                resume: self.suspended,
                terminate: self.launched && self.child_exit is None,
                forwarder_budget_ns: match result {
                    Err(SessionError::WorkerShutdownTimedOut { .. }) => Some(
                        DETACHED_FORWARDER_BUDGET,
                    ),
                    _ => None,
                },
            }),
    {
        let exited = match self.child_exit {
            Some(_) => true,
            None => false,
        };
        EndPlan {
            resume: self.suspended,
            terminate: self.launched && !exited,
            forwarder_budget_ns: match result {
                Err(SessionError::WorkerShutdownTimedOut { .. }) => Some(
                    DETACHED_FORWARDER_BUDGET,
                ),
                _ => None,
            },
        }
    }
}

/// How many of a series of answers let the target go.
pub open spec fn resumes(answers: Seq<bool>) -> nat
    decreases answers.len(),
{
    if answers.len() == 0 {
        0
    } else {
        resumes(answers.drop_last()) + (if answers.last() {
            1nat
        } else {
            0nat
        })
    }
}

/// The answers that a recording gives when it is asked `n` times whether to let the
/// target go.
pub open spec fn resume_answers(r: Recording, n: nat) -> Seq<bool>
    decreases n,
{
    if n == 0 {
        seq![]
    } else {
        seq![r.suspended] + resume_answers(Recording { suspended: false, ..r }, (n - 1) as nat)
    }
}

/// A target that was let go is not let go again.
proof fn lemma_released_stays(r: Recording, n: nat)
    requires
        !r.suspended,
    ensures
        resume_answers(r, n).len() == n,
        forall|i: int| 0 <= i < n ==> resume_answers(r, n)[i] == false,
    decreases n,
{
    if n > 0 {
        lemma_released_stays(Recording { suspended: false, ..r }, (n - 1) as nat);
    }
}

/// Answers that are all no let nothing go.
proof fn lemma_no_resumes(answers: Seq<bool>)
    requires
        forall|i: int| 0 <= i < answers.len() ==> answers[i] == false,
    ensures
        resumes(answers) == 0,
    decreases answers.len(),
{
    if answers.len() > 0 {
        lemma_no_resumes(answers.drop_last());
    }
}

/// Answers of which only the first can be yes let the target go at most once.
proof fn lemma_first_resumes(answers: Seq<bool>)
    requires
        answers.len() > 0,
        forall|i: int| 1 <= i < answers.len() ==> answers[i] == false,
    ensures
        resumes(answers) == (if answers[0] {
            1nat
        } else {
            0nat
        }),
    decreases answers.len(),
{
    if answers.len() == 1 {
        lemma_no_resumes(answers.drop_last());
    } else {
        lemma_first_resumes(answers.drop_last());
    }
}

/// The law of launched targets: one that was launched is let go exactly once,
/// whenever and however often the recording asks; one that was not, never.
pub proof fn target_is_let_go_once(launched: bool, n: nat)
    requires
        n > 0,
    ensures
        resumes(
            resume_answers(Recording { launched, suspended: launched, child_exit: None }, n),
        ) == (if launched {
            1nat
        } else {
            0nat
        }),
{
    let r = Recording { launched, suspended: launched, child_exit: None };
    let later = Recording { suspended: false, ..r };
    lemma_released_stays(later, (n - 1) as nat);
    let answers = resume_answers(r, n);
    assert(answers =~= seq![launched] + resume_answers(later, (n - 1) as nat));
    assert forall|i: int| 1 <= i < answers.len() implies answers[i] == false by {
        assert(answers[i] == resume_answers(later, (n - 1) as nat)[i - 1]);
    }
    lemma_first_resumes(answers);
}

/// The error of an interrupted system call.
pub const EINTR: i32 = 4;

/// The error of a terminal whose other side is closed.
pub const EIO: i32 = 5;

/// What becomes of a read from the terminal.
#[derive(Clone, Copy, Debug, PartialEq, Eq, Structural)]
pub enum PtyRead {
    /// So many bytes go to the server.
    Forward(usize),
    /// It was interrupted: read again.
    Again,
    /// The terminal is closed.
    End,
    /// It failed, which the server is told, and that is the end.
    Fail,
}

/// What becomes of a read from the terminal that gave `n`, or failed with `errno`.
pub fn pty_read(n: isize, errno: Option<i32>) -> (r: PtyRead)
    ensures
        r == (if n > 0 {
            PtyRead::Forward(n as usize)
        } else if n == 0 {
            PtyRead::End
        } else if errno == Some(EINTR) {
            PtyRead::Again
        } else if errno == Some(EIO) {
            PtyRead::End
        } else {
            PtyRead::Fail
        }),
{
    if n > 0 {
        return PtyRead::Forward(n as usize);
    }
    if n == 0 {
        return PtyRead::End;
    }
    match errno {
        Some(e) => if e == EINTR {
            PtyRead::Again
        } else if e == EIO {
            PtyRead::End
        } else {
            PtyRead::Fail
        },
        None => PtyRead::Fail,
    }
}

/// What becomes of a write to the terminal.
#[derive(Clone, Copy, Debug, PartialEq, Eq, Structural)]
pub enum PtyWrite {
    /// Everything from the offset on remains to be written.
    More { offset: usize },
    /// All was written, or what remains is given up.
    Done,
}

/// What becomes of a write to the terminal of what stood behind `offset` in `len`
/// bytes, which took `n` of them or failed with `errno`: an interrupted one is
/// repeated, one that failed otherwise is given up.
pub fn pty_write(offset: usize, len: usize, n: isize, errno: Option<i32>) -> (w: PtyWrite)
    requires
        offset < len,
        n <= len - offset,
    ensures
        w == (if n > 0 {
            if offset + n < len {
                PtyWrite::More { offset: (offset + n) as usize }
            } else {
                PtyWrite::Done
            }
        } else if errno == Some(EINTR) {
            PtyWrite::More { offset }
        } else {
            PtyWrite::Done
        }),
{
    if n > 0 {
        let next: usize = offset + n as usize;
        if next < len {
            return PtyWrite::More { offset: next };
        }
        return PtyWrite::Done;
    }
    match errno {
        Some(e) => if e == EINTR {
            PtyWrite::More { offset }
        } else {
            PtyWrite::Done
        },
        None => PtyWrite::Done,
    }
}

/// What the server sends to a terminal.
#[derive(Debug)]
pub enum TerminalInput {
    Bytes { data: Vec<u8> },
    Resize { size: TerminalSize },
    Close,
}

/// What came of waiting for input to the terminal.
pub enum InputReceived {
    Input(TerminalInput),
    Closed,
    Broken,
}

/// What is handed to the terminal, and whether more is waited for: without a server,
/// the terminal is closed.
pub fn forward_input(received: InputReceived) -> (r: (TerminalInput, bool))
    ensures
        match received {
            InputReceived::Input(i) => r == (i, true),
            _ => r == (TerminalInput::Close, false),
        },
{
    match received {
        InputReceived::Input(i) => (i, true),
        InputReceived::Closed => (TerminalInput::Close, false),
        InputReceived::Broken => (TerminalInput::Close, false),
    }
}

/// Who this companion is. It walks no stacks on its own account yet, and offers none
/// of the rest.
pub fn shade_info(run_id: u64, target_pid: u32, shade_pid: u32) -> (i: ShadeInfo)
    ensures
        i == (ShadeInfo {
            run_id,
            target_pid,
            shade_pid,
            capabilities: ShadeCapabilities {
                peek: false,
                poke: false,
                framehop_walker: false,
                breakpoint_step: false,
            },
        }),
{
    ShadeInfo {
        run_id,
        target_pid,
        shade_pid,
        capabilities: ShadeCapabilities {
            peek: false,
            poke: false,
            framehop_walker: false,
            breakpoint_step: false,
        },
    }
}

/// What is said of a refused registration.
pub open spec fn rejection_text(reason: Option<String>) -> Seq<char> {
    "stax-server rejected registration: "@ + (match reason {
        Some(r) => r@,
        None => "(no reason)"@,
    })
}

/// Whether a registration holds, and what is said where it does not.
pub fn registration_result(ack: &ShadeAck) -> (r: Result<(), String>)
    ensures
        r is Ok == ack.accepted,
        r matches Err(m) ==> m@ == rejection_text(ack.reason),
{
    if ack.accepted {
        return Ok(());
    }
    let mut m = "stax-server rejected registration: ".to_owned();
    match &ack.reason {
        Some(r) => {
            m.append(r.as_str());
        },
        None => {
            m.append("(no reason)");
        },
    }
    Err(m)
}

/// A number that may be negative, in decimal.
pub open spec fn signed_dec(n: i32) -> Seq<char> {
    if n < 0 {
        "-"@ + dec((-(n as int)) as nat)
    } else {
        dec(n as nat)
    }
}

/// Appends a number that may be negative, in decimal.
pub fn push_signed(out: &mut String, n: i32)
    ensures
        final(out)@ == old(out)@ + signed_dec(n),
{
    if n < 0 {
        out.append("-");
        push_dec(out, (-(n as i64)) as u64);
        assert(out@ =~= old(out)@ + signed_dec(n));
    } else {
        push_dec(out, n as u64);
    }
}

/// What is said where a target cannot be attached to.
pub fn attach_failure(pid: u32, kr: i32) -> (m: String)
    ensures
        m@ == "task_for_pid("@ + dec(pid as nat) + ") failed: kr="@ + signed_dec(kr)
            + " (expected same-uid, non-hardened target; privileged and hardened-runtime targets are out of scope)"@,
{
    let mut m = "task_for_pid(".to_owned();
    push_dec(&mut m, pid as u64);
    m.append(") failed: kr=");
    push_signed(&mut m, kr);
    m.append(
        " (expected same-uid, non-hardened target; privileged and hardened-runtime targets are out of scope)",
    );
    m
}

/// The law of exits: a target that exits by itself is told by its code, which stands in the second
/// byte; one that a signal ends by the signal, whether memory was dumped or not.
pub proof fn exits_are_told_by_code_or_signal(code: i32, signal: i32)
    ensures
        0 <= code <= 255 ==> exit_of((code * 256) as i32) == (ChildExit {
            code: Some(code),
            signal: None,
        }),
        1 <= signal <= 126 ==> exit_of(signal) == (ChildExit { code: None, signal: Some(signal) })
            && exit_of((signal + 128) as i32) == (ChildExit { code: None, signal: Some(signal) }),
{
    if 0 <= code <= 255 {
        let a: i32 = (code * 256) as i32;
        assert(a & 0x7f == 0 && (a >> 8) & 0xff == code) by (bit_vector)
            requires
                0 <= code <= 255,
                a == code * 256,
        ;
    }
    if 1 <= signal <= 126 {
        let b: i32 = (signal + 128) as i32;
        assert(signal & 0x7f == signal && b & 0x7f == signal) by (bit_vector)
            requires
                1 <= signal <= 126,
                b == signal + 128,
        ;
    }
}

/// The law of files: standard input, output and errors of the target are its terminal, which it then
/// holds by no other number, and it does not hold the other end.
pub proof fn targets_hold_their_terminal(master: i32, slave: i32, fd: i32)
    requires
        0 <= fd <= 2,
    ensures
        file_actions_of(master, slave).contains(FileAction::Dup2 { from: slave, to: fd }),
        file_actions_of(master, slave).last() == FileAction::Close(master),
        file_actions_of(master, slave).contains(FileAction::Close(slave)) == (slave > 2 || slave
            == master),
{
    let a = file_actions_of(master, slave);
    assert(a[fd as int] == FileAction::Dup2 { from: slave, to: fd });
    assert(a[a.len() - 1] == FileAction::Close(master));
    if slave > 2 {
        assert(a[3] == FileAction::Close(slave));
    }
}

} // verus!
