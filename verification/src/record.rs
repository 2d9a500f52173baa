//! Recording a process for a while: the arguments, and what is counted.
use vstd::prelude::*;

use crate::probe_timing::sat_add;
use crate::text::{dec, same_text};
use crate::workload::{
    number_error_text, number_in, parse_number, written_numbers_are_read, NumberError,
};

verus! {

/// How long a recording takes where nothing is said of it, in seconds.
pub const DEFAULT_DURATION_SECS: u64 = 5;

/// What to record.
pub struct RecordArgs {
    pub pid: u32,
    pub duration_secs: u64,
    pub socket: String,
}

/// What the arguments said so far.
pub struct RecordView {
    pub pid: Option<u32>,
    pub duration_secs: u64,
    pub socket: Seq<char>,
}

/// What holds where the arguments say nothing.
pub open spec fn default_record() -> RecordView {
    RecordView {
        pid: None,
        duration_secs: DEFAULT_DURATION_SECS,
        socket: "/tmp/staxd.sock"@,
    }
}

/// What the arguments from `i` on say, given what was said before: the last word counts.
/// Or what is wrong with them.
pub open spec fn record_from(args: Seq<String>, i: int, v: RecordView) -> Result<
    RecordView,
    Seq<char>,
>
    decreases args.len() - i,
{
    if i < 0 || i >= args.len() {
        Ok(v)
    } else if args[i]@ == "--pid"@ {
        if i + 1 >= args.len() {
            Err("--pid takes a value"@)
        } else {
            match number_in(args[i + 1]@, u32::MAX as int) {
                Ok(n) => record_from(args, i + 2, RecordView { pid: Some(n as u32), ..v }),
                Err(e) => Err(number_error_text(e)),
            }
        }
    } else if args[i]@ == "--duration"@ {
        if i + 1 >= args.len() {
            Err("--duration takes a value"@)
        } else {
            match number_in(args[i + 1]@, u64::MAX as int) {
                Ok(n) => record_from(args, i + 2, RecordView { duration_secs: n as u64, ..v }),
                Err(e) => Err(number_error_text(e)),
            }
        }
    } else if args[i]@ == "--socket"@ {
        if i + 1 >= args.len() {
            Err("--socket takes a value"@)
        } else {
            record_from(args, i + 2, RecordView { socket: args[i + 1]@, ..v })
        }
    } else {
        Err("unknown arg: "@ + args[i]@)
    }
}

/// What to record, which takes a process.
pub open spec fn is_record_result(
    said: Result<RecordView, Seq<char>>,
    r: Result<RecordArgs, String>,
) -> bool {
    match said {
        Err(m) => r matches Err(e) && e@ == m,
        Ok(v) => match v.pid {
            None => r matches Err(e) && e@ == "--pid is required"@,
            Some(pid) => r matches Ok(a) && a.pid == pid && a.duration_secs == v.duration_secs
                && a.socket@ == v.socket,
        },
    }
}

/// What to record, from the arguments.
pub fn record_args(args: &Vec<String>) -> (r: Result<RecordArgs, String>)
    ensures
        is_record_result(record_from(args@, 0, default_record()), r),
{
    let ghost whole = record_from(args@, 0, default_record());
    let mut pid: Option<u32> = None;
    let mut duration_secs: u64 = DEFAULT_DURATION_SECS;
    let mut socket = "/tmp/staxd.sock".to_owned();
    let mut i: usize = 0;
    while i < args.len()
        invariant
            i <= args@.len(),
            whole == record_from(args@, 0, default_record()),
            whole == record_from(
                args@,
                i as int,
                RecordView { pid, duration_secs, socket: socket@ },
            ),
        decreases args@.len() - i,
    {
        let arg = args[i].as_str();
        let is_pid = same_text(arg, "--pid");
        let is_duration = same_text(arg, "--duration");
        let is_socket = same_text(arg, "--socket");
        if !is_pid && !is_duration && !is_socket {
            let mut m = "unknown arg: ".to_owned();
            m.append(arg);
            return Err(m);
        }
        if args.len() - i < 2 {
            let m = if is_pid {
                "--pid takes a value"
            } else if is_duration {
                "--duration takes a value"
            } else {
                "--socket takes a value"
            };
            return Err(m.to_owned());
        }
        let value = args[i + 1].as_str();
        if is_pid {
            match parse_number(value, u32::MAX as u64) {
                Ok(n) => {
                    pid = Some(n as u32);
                },
                Err(e) => {
                    return Err(e.message().to_owned());
                },
            }
        } else if is_duration {
            match parse_number(value, u64::MAX) {
                Ok(n) => {
                    duration_secs = n;
                },
                Err(e) => {
                    return Err(e.message().to_owned());
                },
            }
        } else {
            socket = value.to_owned();
        }
        i = i + 2;
    }
    match pid {
        Some(pid) => Ok(RecordArgs { pid, duration_secs, socket }),
        None => Err("--pid is required".to_owned()),
    }
}

/// How many events of each kind are told of one by one.
pub const TOLD_ONE_BY_ONE: u64 = 3;

/// What was counted.
#[derive(Clone, Copy, Debug, PartialEq, Eq, Structural)]
pub struct Counts {
    pub samples: u64,
    pub binaries_loaded: u64,
    pub thread_names: u64,
    pub wakeups: u64,
    pub samples_told: u64,
}

impl Counts {
    /// Nothing yet.
    pub fn new() -> (c: Self)
        ensures
            c == (Counts {
                samples: 0,
                binaries_loaded: 0,
                thread_names: 0,
                wakeups: 0,
                samples_told: 0,
            }),
    {
        Counts { samples: 0, binaries_loaded: 0, thread_names: 0, wakeups: 0, samples_told: 0 }
    }

    /// Counts a sample. Returns whether it is told of: the first ones with a stack are.
    pub fn on_sample(&mut self, has_stack: bool) -> (tell: bool)
        ensures
            tell == (has_stack && old(self).samples_told < TOLD_ONE_BY_ONE),
            *final(self) == (Counts {
                samples: sat_add(old(self).samples, 1),
                samples_told: if tell {
                    (old(self).samples_told + 1) as u64
                } else {
                    old(self).samples_told
                },
                ..*old(self)
            }),
    {
        self.samples = self.samples.saturating_add(1);
        if has_stack && self.samples_told < TOLD_ONE_BY_ONE {
            self.samples_told = self.samples_told + 1;
            true
        } else {
            false
        }
    }

    /// Counts an image. Returns whether it is told of.
    pub fn on_binary_loaded(&mut self) -> (tell: bool)
        ensures
            *final(self) == (Counts {
                binaries_loaded: sat_add(old(self).binaries_loaded, 1),
                ..*old(self)
            }),
            tell == (final(self).binaries_loaded <= TOLD_ONE_BY_ONE),
    {
        self.binaries_loaded = self.binaries_loaded.saturating_add(1);
        self.binaries_loaded <= TOLD_ONE_BY_ONE
    }

    /// Counts the name of a thread. Returns whether it is told of.
    pub fn on_thread_name(&mut self) -> (tell: bool)
        ensures
            *final(self) == (Counts {
                thread_names: sat_add(old(self).thread_names, 1),
                ..*old(self)
            }),
            tell == (final(self).thread_names <= TOLD_ONE_BY_ONE),
    {
        self.thread_names = self.thread_names.saturating_add(1);
        self.thread_names <= TOLD_ONE_BY_ONE
    }

    /// Counts a wakeup.
    pub fn on_wakeup(&mut self)
        ensures
            *final(self) == (Counts { wakeups: sat_add(old(self).wakeups, 1), ..*old(self) }),
    {
        self.wakeups = self.wakeups.saturating_add(1);
    }
}

/// The law of options: each sets what it names to the value behind it, and nothing else; what comes
/// later wins, and anything else is refused.
pub proof fn recording_options_set_what_they_name(args: Seq<String>, i: int, v: RecordView, n: u64)
    requires
        0 <= i < args.len(),
    ensures
        i + 1 < args.len() && args[i]@ == "--pid"@ && args[i + 1]@ == dec(n as nat) && n <= u32::MAX
            ==> record_from(args, i, v) == record_from(
            args,
            i + 2,
            RecordView { pid: Some(n as u32), ..v },
        ),
        i + 1 < args.len() && args[i]@ == "--pid"@ && args[i + 1]@ == dec(n as nat) && n > u32::MAX
            ==> record_from(args, i, v) is Err,
        i + 1 < args.len() && args[i]@ == "--duration"@ && args[i + 1]@ == dec(n as nat)
            ==> record_from(args, i, v) == record_from(
            args,
            i + 2,
            RecordView { duration_secs: n, ..v },
        ),
        i + 1 < args.len() && args[i]@ == "--socket"@ ==> record_from(args, i, v) == record_from(
            args,
            i + 2,
            RecordView { socket: args[i + 1]@, ..v },
        ),
        i + 1 == args.len() ==> record_from(args, i, v) is Err,
        args[i]@ != "--pid"@ && args[i]@ != "--duration"@ && args[i]@ != "--socket"@ ==> record_from(
            args,
            i,
            v,
        ) is Err,
        record_from(args, args.len() as int, v) == Ok::<RecordView, Seq<char>>(v),
{
    written_numbers_are_read(n as nat, u32::MAX as u64);
    written_numbers_are_read(n as nat, u64::MAX);
    reveal_strlit("--pid");
    reveal_strlit("--duration");
    reveal_strlit("--socket");
    assert("--pid"@.len() == 5 && "--duration"@.len() == 10 && "--socket"@.len() == 8);
}

/// The law of recordings: a process has to be named; without more being said, five seconds are
/// recorded through the daemon's usual socket.
pub proof fn recordings_need_a_process(args: Seq<String>, r: Result<RecordArgs, String>)
    requires
        is_record_result(record_from(args, 0, default_record()), r),
    ensures
        args.len() == 0 ==> r is Err,
        args.len() == 2 && args[0]@ == "--pid"@ ==> (r matches Ok(a) ==> a.duration_secs == 5
            && a.socket@ == "/tmp/staxd.sock"@ && a.pid <= u32::MAX),
        args.len() == 2 && args[0]@ == "--duration"@ ==> r is Err,
{
    reveal_with_fuel(record_from, 3);
    reveal_strlit("--pid");
    reveal_strlit("--duration");
    assert("--pid"@.len() == 5 && "--duration"@.len() == 10);
}

} // verus!
