//! Time off the CPU by reason, and hardware counters, as they add up.
use vstd::prelude::*;

use crate::classify::OffCpuReason;
use crate::probe_timing::sat_add;

verus! {

/// Time off the CPU, by reason.
#[derive(Clone, Copy, Debug, PartialEq, Eq, Structural)]
pub struct OffCpuBreakdown {
    pub idle_ns: u64,
    pub lock_ns: u64,
    pub semaphore_ns: u64,
    pub ipc_ns: u64,
    pub io_read_ns: u64,
    pub io_write_ns: u64,
    pub readiness_ns: u64,
    pub sleep_ns: u64,
    pub connect_ns: u64,
    pub other_ns: u64,
}

impl Default for OffCpuBreakdown {
    fn default() -> (r: Self)
        ensures
            r == OffCpuBreakdown::none(),
    {
        OffCpuBreakdown {
            idle_ns: 0,
            lock_ns: 0,
            semaphore_ns: 0,
            ipc_ns: 0,
            io_read_ns: 0,
            io_write_ns: 0,
            readiness_ns: 0,
            sleep_ns: 0,
            connect_ns: 0,
            other_ns: 0,
        }
    }
}

impl OffCpuBreakdown {
    /// No time at all.
    pub open spec fn none() -> OffCpuBreakdown {
        OffCpuBreakdown {
            idle_ns: 0,
            lock_ns: 0,
            semaphore_ns: 0,
            ipc_ns: 0,
            io_read_ns: 0,
            io_write_ns: 0,
            readiness_ns: 0,
            sleep_ns: 0,
            connect_ns: 0,
            other_ns: 0,
        }
    }

    /// The sum with another breakdown, reason by reason.
    pub open spec fn plus(self, o: OffCpuBreakdown) -> OffCpuBreakdown {
        OffCpuBreakdown {
            idle_ns: sat_add(self.idle_ns, o.idle_ns),
            lock_ns: sat_add(self.lock_ns, o.lock_ns),
            semaphore_ns: sat_add(self.semaphore_ns, o.semaphore_ns),
            ipc_ns: sat_add(self.ipc_ns, o.ipc_ns),
            io_read_ns: sat_add(self.io_read_ns, o.io_read_ns),
            io_write_ns: sat_add(self.io_write_ns, o.io_write_ns),
            readiness_ns: sat_add(self.readiness_ns, o.readiness_ns),
            sleep_ns: sat_add(self.sleep_ns, o.sleep_ns),
            connect_ns: sat_add(self.connect_ns, o.connect_ns),
            other_ns: sat_add(self.other_ns, o.other_ns),
        }
    }

    /// Adds another breakdown, reason by reason.
    pub fn add_other(&mut self, o: &OffCpuBreakdown)
        ensures
            *final(self) == old(self).plus(*o),
    {
        self.idle_ns = self.idle_ns.saturating_add(o.idle_ns);
        self.lock_ns = self.lock_ns.saturating_add(o.lock_ns);
        self.semaphore_ns = self.semaphore_ns.saturating_add(o.semaphore_ns);
        self.ipc_ns = self.ipc_ns.saturating_add(o.ipc_ns);
        self.io_read_ns = self.io_read_ns.saturating_add(o.io_read_ns);
        self.io_write_ns = self.io_write_ns.saturating_add(o.io_write_ns);
        self.readiness_ns = self.readiness_ns.saturating_add(o.readiness_ns);
        self.sleep_ns = self.sleep_ns.saturating_add(o.sleep_ns);
        self.connect_ns = self.connect_ns.saturating_add(o.connect_ns);
        self.other_ns = self.other_ns.saturating_add(o.other_ns);
    }

    /// The breakdown with `ns` more for one reason.
    pub open spec fn plus_reason(self, reason: OffCpuReason, ns: u64) -> OffCpuBreakdown {
        match reason {
            OffCpuReason::Idle => OffCpuBreakdown { idle_ns: sat_add(self.idle_ns, ns), ..self },
            OffCpuReason::LockWait => OffCpuBreakdown { lock_ns: sat_add(self.lock_ns, ns), ..self },
            OffCpuReason::SemaphoreWait => OffCpuBreakdown { semaphore_ns: sat_add(self.semaphore_ns, ns), ..self },
            OffCpuReason::IpcWait => OffCpuBreakdown { ipc_ns: sat_add(self.ipc_ns, ns), ..self },
            OffCpuReason::IoRead => OffCpuBreakdown { io_read_ns: sat_add(self.io_read_ns, ns), ..self },
            OffCpuReason::IoWrite => OffCpuBreakdown { io_write_ns: sat_add(self.io_write_ns, ns), ..self },
            OffCpuReason::Readiness => OffCpuBreakdown { readiness_ns: sat_add(self.readiness_ns, ns), ..self },
            OffCpuReason::Sleep => OffCpuBreakdown { sleep_ns: sat_add(self.sleep_ns, ns), ..self },
            OffCpuReason::ConnectionSetup => OffCpuBreakdown { connect_ns: sat_add(self.connect_ns, ns), ..self },
            OffCpuReason::Other => OffCpuBreakdown { other_ns: sat_add(self.other_ns, ns), ..self },
        }
    }

    /// Adds `ns` to one reason.
    pub fn add_reason(&mut self, reason: OffCpuReason, ns: u64)
        ensures
            *final(self) == old(self).plus_reason(reason, ns),
    {
        match reason {
            OffCpuReason::Idle => {
                self.idle_ns = self.idle_ns.saturating_add(ns);
            },
            OffCpuReason::LockWait => {
                self.lock_ns = self.lock_ns.saturating_add(ns);
            },
            OffCpuReason::SemaphoreWait => {
                self.semaphore_ns = self.semaphore_ns.saturating_add(ns);
            },
            OffCpuReason::IpcWait => {
                self.ipc_ns = self.ipc_ns.saturating_add(ns);
            },
            OffCpuReason::IoRead => {
                self.io_read_ns = self.io_read_ns.saturating_add(ns);
            },
            OffCpuReason::IoWrite => {
                self.io_write_ns = self.io_write_ns.saturating_add(ns);
            },
            OffCpuReason::Readiness => {
                self.readiness_ns = self.readiness_ns.saturating_add(ns);
            },
            OffCpuReason::Sleep => {
                self.sleep_ns = self.sleep_ns.saturating_add(ns);
            },
            OffCpuReason::ConnectionSetup => {
                self.connect_ns = self.connect_ns.saturating_add(ns);
            },
            OffCpuReason::Other => {
                self.other_ns = self.other_ns.saturating_add(ns);
            },
        }
    }

    /// The time over all reasons, as if nothing limited it.
    pub open spec fn sum(self) -> int {
        0 + self.idle_ns + self.lock_ns + self.semaphore_ns + self.ipc_ns + self.io_read_ns + self.io_write_ns + self.readiness_ns + self.sleep_ns + self.connect_ns + self.other_ns
    }

    /// The time over all reasons, at most what fits.
    pub open spec fn total(self) -> u64 {
        if self.sum() > u64::MAX {
            u64::MAX
        } else {
            self.sum() as u64
        }
    }

    /// The time over all reasons.
    pub fn total_ns(&self) -> (t: u64)
        ensures
            t == self.total(),
    {
        self.idle_ns
            .saturating_add(self.lock_ns)
            .saturating_add(self.semaphore_ns)
            .saturating_add(self.ipc_ns)
            .saturating_add(self.io_read_ns)
            .saturating_add(self.io_write_ns)
            .saturating_add(self.readiness_ns)
            .saturating_add(self.sleep_ns)
            .saturating_add(self.connect_ns)
            .saturating_add(self.other_ns)
    }
}

/// The time over all reasons of a breakdown.
pub fn off_cpu_total_proto(b: &OffCpuBreakdown) -> (t: u64)
    ensures
        t == b.total(),
{
    b.total_ns()
}

/// Time for one reason is time over all of them.
pub proof fn reason_adds_to_total(b: OffCpuBreakdown, reason: OffCpuReason, ns: u64)
    ensures
        b.plus_reason(reason, ns).total() == sat_add(b.total(), ns),
{
}

/// Hardware counters, added up.
#[derive(Clone, Copy, Debug, PartialEq, Eq, Structural)]
pub struct PmcAccum {
    pub cycles: u64,
    pub instructions: u64,
    pub l1d_misses: u64,
    pub branch_mispreds: u64,
}

impl Default for PmcAccum {
    fn default() -> (r: Self)
        ensures
            r == PmcAccum::none(),
    {
        PmcAccum { cycles: 0, instructions: 0, l1d_misses: 0, branch_mispreds: 0 }
    }
}

impl PmcAccum {
    /// Nothing counted.
    pub open spec fn none() -> PmcAccum {
        PmcAccum { cycles: 0, instructions: 0, l1d_misses: 0, branch_mispreds: 0 }
    }

    /// The sum with other counters.
    pub open spec fn plus(self, o: PmcAccum) -> PmcAccum {
        PmcAccum {
            cycles: sat_add(self.cycles, o.cycles),
            instructions: sat_add(self.instructions, o.instructions),
            l1d_misses: sat_add(self.l1d_misses, o.l1d_misses),
            branch_mispreds: sat_add(self.branch_mispreds, o.branch_mispreds),
        }
    }

    /// Adds other counters.
    pub fn add_other(&mut self, o: &PmcAccum)
        ensures
            *final(self) == old(self).plus(*o),
    {
        self.cycles = self.cycles.saturating_add(o.cycles);
        self.instructions = self.instructions.saturating_add(o.instructions);
        self.l1d_misses = self.l1d_misses.saturating_add(o.l1d_misses);
        self.branch_mispreds = self.branch_mispreds.saturating_add(o.branch_mispreds);
    }
}

/// The time of one reason.
pub open spec fn time_for(b: OffCpuBreakdown, reason: OffCpuReason) -> u64 {
    match reason {
        OffCpuReason::Idle => b.idle_ns,
        OffCpuReason::LockWait => b.lock_ns,
        OffCpuReason::SemaphoreWait => b.semaphore_ns,
        OffCpuReason::IpcWait => b.ipc_ns,
        OffCpuReason::Readiness => b.readiness_ns,
        OffCpuReason::Sleep => b.sleep_ns,
        OffCpuReason::IoRead => b.io_read_ns,
        OffCpuReason::IoWrite => b.io_write_ns,
        OffCpuReason::ConnectionSetup => b.connect_ns,
        OffCpuReason::Other => b.other_ns,
    }
}

/// The law of reasons: time for one reason is added there and nowhere else, up to what fits.
pub proof fn time_goes_to_its_reason(
    b: OffCpuBreakdown,
    reason: OffCpuReason,
    ns: u64,
    other: OffCpuReason,
)
    ensures
        other == reason && time_for(b, reason) + ns <= u64::MAX ==> time_for(
            b.plus_reason(reason, ns),
            other,
        ) == time_for(b, other) + ns,
        other == reason && time_for(b, reason) + ns > u64::MAX ==> time_for(
            b.plus_reason(reason, ns),
            other,
        ) == u64::MAX,
        other != reason ==> time_for(b.plus_reason(reason, ns), other) == time_for(b, other),
{
}

/// The law of sums: two breakdowns add up reason by reason, nothing is lost and nothing invented,
/// and the time over all reasons is that of both.
pub proof fn breakdowns_add_up(a: OffCpuBreakdown, b: OffCpuBreakdown, reason: OffCpuReason)
    ensures
        time_for(a, reason) + time_for(b, reason) <= u64::MAX ==> time_for(a.plus(b), reason)
            == time_for(a, reason) + time_for(b, reason),
        time_for(a, reason) + time_for(b, reason) > u64::MAX ==> time_for(a.plus(b), reason)
            == u64::MAX,
        a.total() + b.total() <= u64::MAX ==> a.plus(b).total() == a.total() + b.total(),
        a.total() + b.total() > u64::MAX ==> a.plus(b).total() == u64::MAX,
        a.plus(b) == b.plus(a),
        a.plus(OffCpuBreakdown::none()) == a,
        time_for(OffCpuBreakdown::none(), reason) == 0,
        a.total() >= time_for(a, reason),
        OffCpuBreakdown::none().total() == 0,
{
}

/// The law of counters: each is added to its own kind, up to what fits.
pub proof fn counters_add_up(a: PmcAccum, b: PmcAccum)
    ensures
        a.cycles + b.cycles <= u64::MAX ==> a.plus(b).cycles == a.cycles + b.cycles,
        a.cycles + b.cycles > u64::MAX ==> a.plus(b).cycles == u64::MAX,
        a.instructions + b.instructions <= u64::MAX ==> a.plus(b).instructions == a.instructions
            + b.instructions,
        a.instructions + b.instructions > u64::MAX ==> a.plus(b).instructions == u64::MAX,
        a.l1d_misses + b.l1d_misses <= u64::MAX ==> a.plus(b).l1d_misses == a.l1d_misses
            + b.l1d_misses,
        a.l1d_misses + b.l1d_misses > u64::MAX ==> a.plus(b).l1d_misses == u64::MAX,
        a.branch_mispreds + b.branch_mispreds <= u64::MAX ==> a.plus(b).branch_mispreds
            == a.branch_mispreds + b.branch_mispreds,
        a.branch_mispreds + b.branch_mispreds > u64::MAX ==> a.plus(b).branch_mispreds == u64::MAX,
        a.plus(PmcAccum::none()) == a,
{
}

} // verus!
