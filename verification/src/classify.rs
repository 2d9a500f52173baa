//! Why a thread is off the CPU, told from the function that it blocked in.
use vstd::prelude::*;

use crate::text::same_text;

verus! {

/// Why a thread is off the CPU.
#[derive(Clone, Copy, Debug, PartialEq, Eq, Structural)]
pub enum OffCpuReason {
    Idle,
    LockWait,
    SemaphoreWait,
    IpcWait,
    Readiness,
    Sleep,
    IoRead,
    IoWrite,
    ConnectionSetup,
    Other,
}

/// Functions that wait for condition variables, futexes and parked workers.
pub open spec fn is_idle(name: Seq<char>) -> bool {
    ||| name == "__psynch_cvwait"@
    ||| name == "__ulock_wait"@
    ||| name == "__ulock_wait2"@
    ||| name == "__workq_kernreturn"@
    ||| name == "_pthread_cond_wait"@
    ||| name == "_pthread_cond_timedwait"@
    ||| name == "_dispatch_workloop_worker_thread"@
}

/// Whether `name` waits for condition variables, futexes and parked workers.
fn matches_idle(name: &str) -> (r: bool)
    ensures
        r == is_idle(name@),
{
    same_text(name, "__psynch_cvwait")
        || same_text(name, "__ulock_wait")
        || same_text(name, "__ulock_wait2")
        || same_text(name, "__workq_kernreturn")
        || same_text(name, "_pthread_cond_wait")
        || same_text(name, "_pthread_cond_timedwait")
        || same_text(name, "_dispatch_workloop_worker_thread")
}

/// Functions that wait for locks that another thread holds.
pub open spec fn is_lock_wait(name: Seq<char>) -> bool {
    ||| name == "__psynch_mutexwait"@
    ||| name == "__psynch_rw_rdlock"@
    ||| name == "__psynch_rw_wrlock"@
    ||| name == "__psynch_rw_yieldwrlock"@
    ||| name == "__psynch_rw_upgrade"@
    ||| name == "__psynch_rw_downgrade"@
    ||| name == "_pthread_mutex_firstfit_lock_wait"@
    ||| name == "_pthread_mutex_lock"@
    ||| name == "_pthread_mutex_lock_wait"@
}

/// Whether `name` waits for locks that another thread holds.
fn matches_lock_wait(name: &str) -> (r: bool)
    ensures
        r == is_lock_wait(name@),
{
    same_text(name, "__psynch_mutexwait")
        || same_text(name, "__psynch_rw_rdlock")
        || same_text(name, "__psynch_rw_wrlock")
        || same_text(name, "__psynch_rw_yieldwrlock")
        || same_text(name, "__psynch_rw_upgrade")
        || same_text(name, "__psynch_rw_downgrade")
        || same_text(name, "_pthread_mutex_firstfit_lock_wait")
        || same_text(name, "_pthread_mutex_lock")
        || same_text(name, "_pthread_mutex_lock_wait")
}

/// Functions that wait for semaphores.
pub open spec fn is_semaphore_wait(name: Seq<char>) -> bool {
    ||| name == "__semwait_signal"@
    ||| name == "__semwait_signal_nocancel"@
    ||| name == "semaphore_wait_trap"@
    ||| name == "semaphore_timedwait_trap"@
    ||| name == "_dispatch_semaphore_wait"@
}

/// Whether `name` waits for semaphores.
fn matches_semaphore_wait(name: &str) -> (r: bool)
    ensures
        r == is_semaphore_wait(name@),
{
    same_text(name, "__semwait_signal")
        || same_text(name, "__semwait_signal_nocancel")
        || same_text(name, "semaphore_wait_trap")
        || same_text(name, "semaphore_timedwait_trap")
        || same_text(name, "_dispatch_semaphore_wait")
}

/// Functions that wait for Mach messages.
pub open spec fn is_ipc_wait(name: Seq<char>) -> bool {
    ||| name == "mach_msg2_trap"@
    ||| name == "mach_msg_trap"@
    ||| name == "mach_msg_overwrite_trap"@
    ||| name == "mach_msg2"@
    ||| name == "mach_msg"@
    ||| name == "mach_msg_overwrite"@
}

/// Whether `name` waits for Mach messages.
fn matches_ipc_wait(name: &str) -> (r: bool)
    ensures
        r == is_ipc_wait(name@),
{
    same_text(name, "mach_msg2_trap")
        || same_text(name, "mach_msg_trap")
        || same_text(name, "mach_msg_overwrite_trap")
        || same_text(name, "mach_msg2")
        || same_text(name, "mach_msg")
        || same_text(name, "mach_msg_overwrite")
}

/// Functions that wait for readiness of a descriptor.
pub open spec fn is_readiness(name: Seq<char>) -> bool {
    ||| name == "kevent"@
    ||| name == "kevent_id"@
    ||| name == "kevent_qos"@
    ||| name == "select"@
    ||| name == "select$DARWIN_EXTSN"@
    ||| name == "select$DARWIN_EXTSN$NOCANCEL"@
    ||| name == "pselect"@
    ||| name == "poll"@
    ||| name == "ppoll"@
}

/// Whether `name` waits for readiness of a descriptor.
fn matches_readiness(name: &str) -> (r: bool)
    ensures
        r == is_readiness(name@),
{
    same_text(name, "kevent")
        || same_text(name, "kevent_id")
        || same_text(name, "kevent_qos")
        || same_text(name, "select")
        || same_text(name, "select$DARWIN_EXTSN")
        || same_text(name, "select$DARWIN_EXTSN$NOCANCEL")
        || same_text(name, "pselect")
        || same_text(name, "poll")
        || same_text(name, "ppoll")
}

/// Functions that wait for sleeps that the thread asked for.
pub open spec fn is_sleep(name: Seq<char>) -> bool {
    ||| name == "nanosleep"@
    ||| name == "__semwait_signal_nocancel"@
    ||| name == "__nanosleep"@
    ||| name == "usleep"@
}

/// Whether `name` waits for sleeps that the thread asked for.
fn matches_sleep(name: &str) -> (r: bool)
    ensures
        r == is_sleep(name@),
{
    same_text(name, "nanosleep")
        || same_text(name, "__semwait_signal_nocancel")
        || same_text(name, "__nanosleep")
        || same_text(name, "usleep")
}

/// Functions that wait for reads.
pub open spec fn is_io_read(name: Seq<char>) -> bool {
    ||| name == "read"@
    ||| name == "__read_nocancel"@
    ||| name == "recv"@
    ||| name == "__recvfrom"@
    ||| name == "recvfrom"@
    ||| name == "__recvfrom_nocancel"@
    ||| name == "recvmsg"@
    ||| name == "__recvmsg_nocancel"@
    ||| name == "pread"@
    ||| name == "__pread_nocancel"@
    ||| name == "readv"@
}

/// Whether `name` waits for reads.
fn matches_io_read(name: &str) -> (r: bool)
    ensures
        r == is_io_read(name@),
{
    same_text(name, "read")
        || same_text(name, "__read_nocancel")
        || same_text(name, "recv")
        || same_text(name, "__recvfrom")
        || same_text(name, "recvfrom")
        || same_text(name, "__recvfrom_nocancel")
        || same_text(name, "recvmsg")
        || same_text(name, "__recvmsg_nocancel")
        || same_text(name, "pread")
        || same_text(name, "__pread_nocancel")
        || same_text(name, "readv")
}

/// Functions that wait for writes.
pub open spec fn is_io_write(name: Seq<char>) -> bool {
    ||| name == "write"@
    ||| name == "__write_nocancel"@
    ||| name == "send"@
    ||| name == "__sendto"@
    ||| name == "sendto"@
    ||| name == "__sendto_nocancel"@
    ||| name == "sendmsg"@
    ||| name == "__sendmsg_nocancel"@
    ||| name == "pwrite"@
    ||| name == "__pwrite_nocancel"@
    ||| name == "writev"@
}

/// Whether `name` waits for writes.
fn matches_io_write(name: &str) -> (r: bool)
    ensures
        r == is_io_write(name@),
{
    same_text(name, "write")
        || same_text(name, "__write_nocancel")
        || same_text(name, "send")
        || same_text(name, "__sendto")
        || same_text(name, "sendto")
        || same_text(name, "__sendto_nocancel")
        || same_text(name, "sendmsg")
        || same_text(name, "__sendmsg_nocancel")
        || same_text(name, "pwrite")
        || same_text(name, "__pwrite_nocancel")
        || same_text(name, "writev")
}

/// Functions that wait for connections and files that are being opened.
pub open spec fn is_connection_setup(name: Seq<char>) -> bool {
    ||| name == "connect"@
    ||| name == "__connect_nocancel"@
    ||| name == "accept"@
    ||| name == "__accept_nocancel"@
    ||| name == "open"@
    ||| name == "__open_nocancel"@
    ||| name == "openat"@
    ||| name == "__openat_nocancel"@
}

/// Whether `name` waits for connections and files that are being opened.
fn matches_connection_setup(name: &str) -> (r: bool)
    ensures
        r == is_connection_setup(name@),
{
    same_text(name, "connect")
        || same_text(name, "__connect_nocancel")
        || same_text(name, "accept")
        || same_text(name, "__accept_nocancel")
        || same_text(name, "open")
        || same_text(name, "__open_nocancel")
        || same_text(name, "openat")
        || same_text(name, "__openat_nocancel")
}

/// The reason behind a function name. Names match whole, never in part, so that a
/// function which only mentions one of them is told apart.
pub open spec fn reason_of(function_name: Option<Seq<char>>) -> OffCpuReason {
    match function_name {
        None => OffCpuReason::Other,
        Some(name) => {
            if is_idle(name) {
                OffCpuReason::Idle
            } else if is_lock_wait(name) {
                OffCpuReason::LockWait
            } else if is_semaphore_wait(name) {
                OffCpuReason::SemaphoreWait
            } else if is_ipc_wait(name) {
                OffCpuReason::IpcWait
            } else if is_readiness(name) {
                OffCpuReason::Readiness
            } else if is_sleep(name) {
                OffCpuReason::Sleep
            } else if is_io_read(name) {
                OffCpuReason::IoRead
            } else if is_io_write(name) {
                OffCpuReason::IoWrite
            } else if is_connection_setup(name) {
                OffCpuReason::ConnectionSetup
            } else {
                OffCpuReason::Other
            }
        },
    }
}

/// Classifies an off-CPU interval by the name of the function that it blocked in.
pub fn classify_offcpu(function_name: Option<&str>) -> (r: OffCpuReason)
    ensures
        r == reason_of(match function_name {
            Some(n) => Some(n@),
            None => None,
        }),
{
    match function_name {
        None => OffCpuReason::Other,
        Some(name) => {
            if matches_idle(name) {
                OffCpuReason::Idle
            } else if matches_lock_wait(name) {
                OffCpuReason::LockWait
            } else if matches_semaphore_wait(name) {
                OffCpuReason::SemaphoreWait
            } else if matches_ipc_wait(name) {
                OffCpuReason::IpcWait
            } else if matches_readiness(name) {
                OffCpuReason::Readiness
            } else if matches_sleep(name) {
                OffCpuReason::Sleep
            } else if matches_io_read(name) {
                OffCpuReason::IoRead
            } else if matches_io_write(name) {
                OffCpuReason::IoWrite
            } else if matches_connection_setup(name) {
                OffCpuReason::ConnectionSetup
            } else {
                OffCpuReason::Other
            }
        },
    }
}

/// The functions that wait for condition variables, futexes and parked workers.
proof fn lemma_idle_waits(name: Seq<char>)
    requires
        ({
            ||| name == "__psynch_cvwait"@
            ||| name == "__ulock_wait"@
            ||| name == "__ulock_wait2"@
            ||| name == "__workq_kernreturn"@
            ||| name == "_pthread_cond_wait"@
            ||| name == "_pthread_cond_timedwait"@
            ||| name == "_dispatch_workloop_worker_thread"@
        }),
    ensures
        reason_of(Some(name)) == OffCpuReason::Idle,
{
}

/// The functions that wait for locks.
proof fn lemma_lock_waits(name: Seq<char>)
    requires
        ({
            ||| name == "__psynch_mutexwait"@
            ||| name == "__psynch_rw_rdlock"@
            ||| name == "__psynch_rw_wrlock"@
            ||| name == "__psynch_rw_yieldwrlock"@
            ||| name == "__psynch_rw_upgrade"@
            ||| name == "__psynch_rw_downgrade"@
            ||| name == "_pthread_mutex_firstfit_lock_wait"@
            ||| name == "_pthread_mutex_lock"@
            ||| name == "_pthread_mutex_lock_wait"@
        }),
    ensures
        reason_of(Some(name)) == OffCpuReason::LockWait,
{
    reveal_strlit("__psynch_mutexwait");
    reveal_strlit("__psynch_rw_rdlock");
    reveal_strlit("__psynch_rw_wrlock");
    reveal_strlit("__psynch_rw_yieldwrlock");
    reveal_strlit("__psynch_rw_upgrade");
    reveal_strlit("__psynch_rw_downgrade");
    reveal_strlit("_pthread_mutex_firstfit_lock_wait");
    reveal_strlit("_pthread_mutex_lock");
    reveal_strlit("_pthread_mutex_lock_wait");
    reveal_strlit("__psynch_cvwait");
    reveal_strlit("__ulock_wait");
    reveal_strlit("__ulock_wait2");
    reveal_strlit("__workq_kernreturn");
    reveal_strlit("_pthread_cond_wait");
    reveal_strlit("_pthread_cond_timedwait");
    reveal_strlit("_dispatch_workloop_worker_thread");
    assert("__psynch_mutexwait"@.len() == 18);
    assert("__psynch_rw_rdlock"@.len() == 18);
    assert("__psynch_rw_wrlock"@.len() == 18);
    assert("__psynch_rw_yieldwrlock"@.len() == 23);
    assert("__psynch_rw_upgrade"@.len() == 19);
    assert("__psynch_rw_downgrade"@.len() == 21);
    assert("_pthread_mutex_firstfit_lock_wait"@.len() == 33);
    assert("_pthread_mutex_lock"@.len() == 19);
    assert("_pthread_mutex_lock_wait"@.len() == 24);
    assert("__psynch_cvwait"@.len() == 15);
    assert("__ulock_wait"@.len() == 12);
    assert("__ulock_wait2"@.len() == 13);
    assert("__workq_kernreturn"@.len() == 18);
    assert("_pthread_cond_wait"@.len() == 18);
    assert("_pthread_cond_timedwait"@.len() == 23);
    assert("_dispatch_workloop_worker_thread"@.len() == 32);
    assert("__psynch_mutexwait"@[2] == 'p' && "__workq_kernreturn"@[2] == 'w');
    assert("__psynch_mutexwait"@[1] == '_' && "_pthread_cond_wait"@[1] == 'p');
    assert("__psynch_rw_rdlock"@[2] == 'p' && "__workq_kernreturn"@[2] == 'w');
    assert("__psynch_rw_rdlock"@[1] == '_' && "_pthread_cond_wait"@[1] == 'p');
    assert("__psynch_rw_wrlock"@[2] == 'p' && "__workq_kernreturn"@[2] == 'w');
    assert("__psynch_rw_wrlock"@[1] == '_' && "_pthread_cond_wait"@[1] == 'p');
    assert("__psynch_rw_yieldwrlock"@[1] == '_' && "_pthread_cond_timedwait"@[1] == 'p');
    assert(!is_idle(name));
}

/// The functions that wait for semaphores.
proof fn lemma_semaphore_waits(name: Seq<char>)
    requires
        ({
            ||| name == "__semwait_signal"@
            ||| name == "__semwait_signal_nocancel"@
            ||| name == "semaphore_wait_trap"@
            ||| name == "semaphore_timedwait_trap"@
            ||| name == "_dispatch_semaphore_wait"@
        }),
    ensures
        reason_of(Some(name)) == OffCpuReason::SemaphoreWait,
{
    reveal_strlit("__semwait_signal");
    reveal_strlit("__semwait_signal_nocancel");
    reveal_strlit("semaphore_wait_trap");
    reveal_strlit("semaphore_timedwait_trap");
    reveal_strlit("_dispatch_semaphore_wait");
    reveal_strlit("__psynch_cvwait");
    reveal_strlit("__ulock_wait");
    reveal_strlit("__ulock_wait2");
    reveal_strlit("__workq_kernreturn");
    reveal_strlit("_pthread_cond_wait");
    reveal_strlit("_pthread_cond_timedwait");
    reveal_strlit("_dispatch_workloop_worker_thread");
    reveal_strlit("__psynch_mutexwait");
    reveal_strlit("__psynch_rw_rdlock");
    reveal_strlit("__psynch_rw_wrlock");
    reveal_strlit("__psynch_rw_yieldwrlock");
    reveal_strlit("__psynch_rw_upgrade");
    reveal_strlit("__psynch_rw_downgrade");
    reveal_strlit("_pthread_mutex_firstfit_lock_wait");
    reveal_strlit("_pthread_mutex_lock");
    reveal_strlit("_pthread_mutex_lock_wait");
    assert("__semwait_signal"@.len() == 16);
    assert("__semwait_signal_nocancel"@.len() == 25);
    assert("semaphore_wait_trap"@.len() == 19);
    assert("semaphore_timedwait_trap"@.len() == 24);
    assert("_dispatch_semaphore_wait"@.len() == 24);
    assert("__psynch_cvwait"@.len() == 15);
    assert("__ulock_wait"@.len() == 12);
    assert("__ulock_wait2"@.len() == 13);
    assert("__workq_kernreturn"@.len() == 18);
    assert("_pthread_cond_wait"@.len() == 18);
    assert("_pthread_cond_timedwait"@.len() == 23);
    assert("_dispatch_workloop_worker_thread"@.len() == 32);
    assert("__psynch_mutexwait"@.len() == 18);
    assert("__psynch_rw_rdlock"@.len() == 18);
    assert("__psynch_rw_wrlock"@.len() == 18);
    assert("__psynch_rw_yieldwrlock"@.len() == 23);
    assert("__psynch_rw_upgrade"@.len() == 19);
    assert("__psynch_rw_downgrade"@.len() == 21);
    assert("_pthread_mutex_firstfit_lock_wait"@.len() == 33);
    assert("_pthread_mutex_lock"@.len() == 19);
    assert("_pthread_mutex_lock_wait"@.len() == 24);
    assert("semaphore_wait_trap"@[0] == 's' && "__psynch_rw_upgrade"@[0] == '_');
    assert("semaphore_wait_trap"@[0] == 's' && "_pthread_mutex_lock"@[0] == '_');
    assert("semaphore_timedwait_trap"@[0] == 's' && "_pthread_mutex_lock_wait"@[0] == '_');
    assert("_dispatch_semaphore_wait"@[1] == 'd' && "_pthread_mutex_lock_wait"@[1] == 'p');
    assert(!is_idle(name));
    assert(!is_lock_wait(name));
}

/// The functions that wait for messages.
proof fn lemma_message_waits(name: Seq<char>)
    requires
        ({
            ||| name == "mach_msg2_trap"@
            ||| name == "mach_msg_trap"@
            ||| name == "mach_msg_overwrite_trap"@
            ||| name == "mach_msg2"@
            ||| name == "mach_msg"@
            ||| name == "mach_msg_overwrite"@
        }),
    ensures
        reason_of(Some(name)) == OffCpuReason::IpcWait,
{
    reveal_strlit("mach_msg2_trap");
    reveal_strlit("mach_msg_trap");
    reveal_strlit("mach_msg_overwrite_trap");
    reveal_strlit("mach_msg2");
    reveal_strlit("mach_msg");
    reveal_strlit("mach_msg_overwrite");
    reveal_strlit("__psynch_cvwait");
    reveal_strlit("__ulock_wait");
    reveal_strlit("__ulock_wait2");
    reveal_strlit("__workq_kernreturn");
    reveal_strlit("_pthread_cond_wait");
    reveal_strlit("_pthread_cond_timedwait");
    reveal_strlit("_dispatch_workloop_worker_thread");
    reveal_strlit("__psynch_mutexwait");
    reveal_strlit("__psynch_rw_rdlock");
    reveal_strlit("__psynch_rw_wrlock");
    reveal_strlit("__psynch_rw_yieldwrlock");
    reveal_strlit("__psynch_rw_upgrade");
    reveal_strlit("__psynch_rw_downgrade");
    reveal_strlit("_pthread_mutex_firstfit_lock_wait");
    reveal_strlit("_pthread_mutex_lock");
    reveal_strlit("_pthread_mutex_lock_wait");
    reveal_strlit("__semwait_signal");
    reveal_strlit("__semwait_signal_nocancel");
    reveal_strlit("semaphore_wait_trap");
    reveal_strlit("semaphore_timedwait_trap");
    reveal_strlit("_dispatch_semaphore_wait");
    assert("mach_msg2_trap"@.len() == 14);
    assert("mach_msg_trap"@.len() == 13);
    assert("mach_msg_overwrite_trap"@.len() == 23);
    assert("mach_msg2"@.len() == 9);
    assert("mach_msg"@.len() == 8);
    assert("mach_msg_overwrite"@.len() == 18);
    assert("__psynch_cvwait"@.len() == 15);
    assert("__ulock_wait"@.len() == 12);
    assert("__ulock_wait2"@.len() == 13);
    assert("__workq_kernreturn"@.len() == 18);
    assert("_pthread_cond_wait"@.len() == 18);
    assert("_pthread_cond_timedwait"@.len() == 23);
    assert("_dispatch_workloop_worker_thread"@.len() == 32);
    assert("__psynch_mutexwait"@.len() == 18);
    assert("__psynch_rw_rdlock"@.len() == 18);
    assert("__psynch_rw_wrlock"@.len() == 18);
    assert("__psynch_rw_yieldwrlock"@.len() == 23);
    assert("__psynch_rw_upgrade"@.len() == 19);
    assert("__psynch_rw_downgrade"@.len() == 21);
    assert("_pthread_mutex_firstfit_lock_wait"@.len() == 33);
    assert("_pthread_mutex_lock"@.len() == 19);
    assert("_pthread_mutex_lock_wait"@.len() == 24);
    assert("__semwait_signal"@.len() == 16);
    assert("__semwait_signal_nocancel"@.len() == 25);
    assert("semaphore_wait_trap"@.len() == 19);
    assert("semaphore_timedwait_trap"@.len() == 24);
    assert("_dispatch_semaphore_wait"@.len() == 24);
    assert("mach_msg_trap"@[0] == 'm' && "__ulock_wait2"@[0] == '_');
    assert("mach_msg_overwrite_trap"@[0] == 'm' && "_pthread_cond_timedwait"@[0] == '_');
    assert("mach_msg_overwrite_trap"@[0] == 'm' && "__psynch_rw_yieldwrlock"@[0] == '_');
    assert("mach_msg_overwrite"@[0] == 'm' && "__workq_kernreturn"@[0] == '_');
    assert("mach_msg_overwrite"@[0] == 'm' && "_pthread_cond_wait"@[0] == '_');
    assert("mach_msg_overwrite"@[0] == 'm' && "__psynch_mutexwait"@[0] == '_');
    assert("mach_msg_overwrite"@[0] == 'm' && "__psynch_rw_rdlock"@[0] == '_');
    assert("mach_msg_overwrite"@[0] == 'm' && "__psynch_rw_wrlock"@[0] == '_');
    assert(!is_idle(name));
    assert(!is_lock_wait(name));
    assert(!is_semaphore_wait(name));
}

/// The functions that wait for readiness.
proof fn lemma_readiness_waits(name: Seq<char>)
    requires
        ({
            ||| name == "kevent"@
            ||| name == "kevent_id"@
            ||| name == "kevent_qos"@
            ||| name == "select"@
            ||| name == "select$DARWIN_EXTSN"@
            ||| name == "select$DARWIN_EXTSN$NOCANCEL"@
            ||| name == "pselect"@
            ||| name == "poll"@
            ||| name == "ppoll"@
        }),
    ensures
        reason_of(Some(name)) == OffCpuReason::Readiness,
{
    reveal_strlit("kevent");
    reveal_strlit("kevent_id");
    reveal_strlit("kevent_qos");
    reveal_strlit("select");
    reveal_strlit("select$DARWIN_EXTSN");
    reveal_strlit("select$DARWIN_EXTSN$NOCANCEL");
    reveal_strlit("pselect");
    reveal_strlit("poll");
    reveal_strlit("ppoll");
    reveal_strlit("__psynch_cvwait");
    reveal_strlit("__ulock_wait");
    reveal_strlit("__ulock_wait2");
    reveal_strlit("__workq_kernreturn");
    reveal_strlit("_pthread_cond_wait");
    reveal_strlit("_pthread_cond_timedwait");
    reveal_strlit("_dispatch_workloop_worker_thread");
    reveal_strlit("__psynch_mutexwait");
    reveal_strlit("__psynch_rw_rdlock");
    reveal_strlit("__psynch_rw_wrlock");
    reveal_strlit("__psynch_rw_yieldwrlock");
    reveal_strlit("__psynch_rw_upgrade");
    reveal_strlit("__psynch_rw_downgrade");
    reveal_strlit("_pthread_mutex_firstfit_lock_wait");
    reveal_strlit("_pthread_mutex_lock");
    reveal_strlit("_pthread_mutex_lock_wait");
    reveal_strlit("__semwait_signal");
    reveal_strlit("__semwait_signal_nocancel");
    reveal_strlit("semaphore_wait_trap");
    reveal_strlit("semaphore_timedwait_trap");
    reveal_strlit("_dispatch_semaphore_wait");
    reveal_strlit("mach_msg2_trap");
    reveal_strlit("mach_msg_trap");
    reveal_strlit("mach_msg_overwrite_trap");
    reveal_strlit("mach_msg2");
    reveal_strlit("mach_msg");
    reveal_strlit("mach_msg_overwrite");
    assert("kevent"@.len() == 6);
    assert("kevent_id"@.len() == 9);
    assert("kevent_qos"@.len() == 10);
    assert("select"@.len() == 6);
    assert("select$DARWIN_EXTSN"@.len() == 19);
    assert("select$DARWIN_EXTSN$NOCANCEL"@.len() == 28);
    assert("pselect"@.len() == 7);
    assert("poll"@.len() == 4);
    assert("ppoll"@.len() == 5);
    assert("__psynch_cvwait"@.len() == 15);
    assert("__ulock_wait"@.len() == 12);
    assert("__ulock_wait2"@.len() == 13);
    assert("__workq_kernreturn"@.len() == 18);
    assert("_pthread_cond_wait"@.len() == 18);
    assert("_pthread_cond_timedwait"@.len() == 23);
    assert("_dispatch_workloop_worker_thread"@.len() == 32);
    assert("__psynch_mutexwait"@.len() == 18);
    assert("__psynch_rw_rdlock"@.len() == 18);
    assert("__psynch_rw_wrlock"@.len() == 18);
    assert("__psynch_rw_yieldwrlock"@.len() == 23);
    assert("__psynch_rw_upgrade"@.len() == 19);
    assert("__psynch_rw_downgrade"@.len() == 21);
    assert("_pthread_mutex_firstfit_lock_wait"@.len() == 33);
    assert("_pthread_mutex_lock"@.len() == 19);
    assert("_pthread_mutex_lock_wait"@.len() == 24);
    assert("__semwait_signal"@.len() == 16);
    assert("__semwait_signal_nocancel"@.len() == 25);
    assert("semaphore_wait_trap"@.len() == 19);
    assert("semaphore_timedwait_trap"@.len() == 24);
    assert("_dispatch_semaphore_wait"@.len() == 24);
    assert("mach_msg2_trap"@.len() == 14);
    assert("mach_msg_trap"@.len() == 13);
    assert("mach_msg_overwrite_trap"@.len() == 23);
    assert("mach_msg2"@.len() == 9);
    assert("mach_msg"@.len() == 8);
    assert("mach_msg_overwrite"@.len() == 18);
    assert("kevent_id"@[0] == 'k' && "mach_msg2"@[0] == 'm');
    assert("select$DARWIN_EXTSN"@[0] == 's' && "__psynch_rw_upgrade"@[0] == '_');
    assert("select$DARWIN_EXTSN"@[0] == 's' && "_pthread_mutex_lock"@[0] == '_');
    assert("select$DARWIN_EXTSN"@[2] == 'l' && "semaphore_wait_trap"@[2] == 'm');
    assert(!is_idle(name));
    assert(!is_lock_wait(name));
    assert(!is_semaphore_wait(name));
    assert(!is_ipc_wait(name));
}

/// The functions that wait for sleeps.
proof fn lemma_sleep_waits(name: Seq<char>)
    requires
        ({
            ||| name == "nanosleep"@
            ||| name == "__nanosleep"@
            ||| name == "usleep"@
        }),
    ensures
        reason_of(Some(name)) == OffCpuReason::Sleep,
{
    reveal_strlit("nanosleep");
    reveal_strlit("__nanosleep");
    reveal_strlit("usleep");
    reveal_strlit("__psynch_cvwait");
    reveal_strlit("__ulock_wait");
    reveal_strlit("__ulock_wait2");
    reveal_strlit("__workq_kernreturn");
    reveal_strlit("_pthread_cond_wait");
    reveal_strlit("_pthread_cond_timedwait");
    reveal_strlit("_dispatch_workloop_worker_thread");
    reveal_strlit("__psynch_mutexwait");
    reveal_strlit("__psynch_rw_rdlock");
    reveal_strlit("__psynch_rw_wrlock");
    reveal_strlit("__psynch_rw_yieldwrlock");
    reveal_strlit("__psynch_rw_upgrade");
    reveal_strlit("__psynch_rw_downgrade");
    reveal_strlit("_pthread_mutex_firstfit_lock_wait");
    reveal_strlit("_pthread_mutex_lock");
    reveal_strlit("_pthread_mutex_lock_wait");
    reveal_strlit("__semwait_signal");
    reveal_strlit("__semwait_signal_nocancel");
    reveal_strlit("semaphore_wait_trap");
    reveal_strlit("semaphore_timedwait_trap");
    reveal_strlit("_dispatch_semaphore_wait");
    reveal_strlit("mach_msg2_trap");
    reveal_strlit("mach_msg_trap");
    reveal_strlit("mach_msg_overwrite_trap");
    reveal_strlit("mach_msg2");
    reveal_strlit("mach_msg");
    reveal_strlit("mach_msg_overwrite");
    reveal_strlit("kevent");
    reveal_strlit("kevent_id");
    reveal_strlit("kevent_qos");
    reveal_strlit("select");
    reveal_strlit("select$DARWIN_EXTSN");
    reveal_strlit("select$DARWIN_EXTSN$NOCANCEL");
    reveal_strlit("pselect");
    reveal_strlit("poll");
    reveal_strlit("ppoll");
    assert("nanosleep"@.len() == 9);
    assert("__nanosleep"@.len() == 11);
    assert("usleep"@.len() == 6);
    assert("__psynch_cvwait"@.len() == 15);
    assert("__ulock_wait"@.len() == 12);
    assert("__ulock_wait2"@.len() == 13);
    assert("__workq_kernreturn"@.len() == 18);
    assert("_pthread_cond_wait"@.len() == 18);
    assert("_pthread_cond_timedwait"@.len() == 23);
    assert("_dispatch_workloop_worker_thread"@.len() == 32);
    assert("__psynch_mutexwait"@.len() == 18);
    assert("__psynch_rw_rdlock"@.len() == 18);
    assert("__psynch_rw_wrlock"@.len() == 18);
    assert("__psynch_rw_yieldwrlock"@.len() == 23);
    assert("__psynch_rw_upgrade"@.len() == 19);
    assert("__psynch_rw_downgrade"@.len() == 21);
    assert("_pthread_mutex_firstfit_lock_wait"@.len() == 33);
    assert("_pthread_mutex_lock"@.len() == 19);
    assert("_pthread_mutex_lock_wait"@.len() == 24);
    assert("__semwait_signal"@.len() == 16);
    assert("__semwait_signal_nocancel"@.len() == 25);
    assert("semaphore_wait_trap"@.len() == 19);
    assert("semaphore_timedwait_trap"@.len() == 24);
    assert("_dispatch_semaphore_wait"@.len() == 24);
    assert("mach_msg2_trap"@.len() == 14);
    assert("mach_msg_trap"@.len() == 13);
    assert("mach_msg_overwrite_trap"@.len() == 23);
    assert("mach_msg2"@.len() == 9);
    assert("mach_msg"@.len() == 8);
    assert("mach_msg_overwrite"@.len() == 18);
    assert("kevent"@.len() == 6);
    assert("kevent_id"@.len() == 9);
    assert("kevent_qos"@.len() == 10);
    assert("select"@.len() == 6);
    assert("select$DARWIN_EXTSN"@.len() == 19);
    assert("select$DARWIN_EXTSN$NOCANCEL"@.len() == 28);
    assert("pselect"@.len() == 7);
    assert("poll"@.len() == 4);
    assert("ppoll"@.len() == 5);
    assert("nanosleep"@[0] == 'n' && "mach_msg2"@[0] == 'm');
    assert("nanosleep"@[0] == 'n' && "kevent_id"@[0] == 'k');
    assert("usleep"@[0] == 'u' && "kevent"@[0] == 'k');
    assert("usleep"@[0] == 'u' && "select"@[0] == 's');
    assert(!is_idle(name));
    assert(!is_lock_wait(name));
    assert(!is_semaphore_wait(name));
    assert(!is_ipc_wait(name));
    assert(!is_readiness(name));
}

/// The functions that wait for reads.
proof fn lemma_read_waits(name: Seq<char>)
    requires
        ({
            ||| name == "read"@
            ||| name == "__read_nocancel"@
            ||| name == "recv"@
            ||| name == "__recvfrom"@
            ||| name == "recvfrom"@
            ||| name == "__recvfrom_nocancel"@
            ||| name == "recvmsg"@
            ||| name == "__recvmsg_nocancel"@
            ||| name == "pread"@
            ||| name == "__pread_nocancel"@
            ||| name == "readv"@
        }),
    ensures
        reason_of(Some(name)) == OffCpuReason::IoRead,
{
    reveal_strlit("read");
    reveal_strlit("__read_nocancel");
    reveal_strlit("recv");
    reveal_strlit("__recvfrom");
    reveal_strlit("recvfrom");
    reveal_strlit("__recvfrom_nocancel");
    reveal_strlit("recvmsg");
    reveal_strlit("__recvmsg_nocancel");
    reveal_strlit("pread");
    reveal_strlit("__pread_nocancel");
    reveal_strlit("readv");
    reveal_strlit("__psynch_cvwait");
    reveal_strlit("__ulock_wait");
    reveal_strlit("__ulock_wait2");
    reveal_strlit("__workq_kernreturn");
    reveal_strlit("_pthread_cond_wait");
    reveal_strlit("_pthread_cond_timedwait");
    reveal_strlit("_dispatch_workloop_worker_thread");
    reveal_strlit("__psynch_mutexwait");
    reveal_strlit("__psynch_rw_rdlock");
    reveal_strlit("__psynch_rw_wrlock");
    reveal_strlit("__psynch_rw_yieldwrlock");
    reveal_strlit("__psynch_rw_upgrade");
    reveal_strlit("__psynch_rw_downgrade");
    reveal_strlit("_pthread_mutex_firstfit_lock_wait");
    reveal_strlit("_pthread_mutex_lock");
    reveal_strlit("_pthread_mutex_lock_wait");
    reveal_strlit("__semwait_signal");
    reveal_strlit("__semwait_signal_nocancel");
    reveal_strlit("semaphore_wait_trap");
    reveal_strlit("semaphore_timedwait_trap");
    reveal_strlit("_dispatch_semaphore_wait");
    reveal_strlit("mach_msg2_trap");
    reveal_strlit("mach_msg_trap");
    reveal_strlit("mach_msg_overwrite_trap");
    reveal_strlit("mach_msg2");
    reveal_strlit("mach_msg");
    reveal_strlit("mach_msg_overwrite");
    reveal_strlit("kevent");
    reveal_strlit("kevent_id");
    reveal_strlit("kevent_qos");
    reveal_strlit("select");
    reveal_strlit("select$DARWIN_EXTSN");
    reveal_strlit("select$DARWIN_EXTSN$NOCANCEL");
    reveal_strlit("pselect");
    reveal_strlit("poll");
    reveal_strlit("ppoll");
    reveal_strlit("nanosleep");
    reveal_strlit("__nanosleep");
    reveal_strlit("usleep");
    assert("read"@.len() == 4);
    assert("__read_nocancel"@.len() == 15);
    assert("recv"@.len() == 4);
    assert("__recvfrom"@.len() == 10);
    assert("recvfrom"@.len() == 8);
    assert("__recvfrom_nocancel"@.len() == 19);
    assert("recvmsg"@.len() == 7);
    assert("__recvmsg_nocancel"@.len() == 18);
    assert("pread"@.len() == 5);
    assert("__pread_nocancel"@.len() == 16);
    assert("readv"@.len() == 5);
    assert("__psynch_cvwait"@.len() == 15);
    assert("__ulock_wait"@.len() == 12);
    assert("__ulock_wait2"@.len() == 13);
    assert("__workq_kernreturn"@.len() == 18);
    assert("_pthread_cond_wait"@.len() == 18);
    assert("_pthread_cond_timedwait"@.len() == 23);
    assert("_dispatch_workloop_worker_thread"@.len() == 32);
    assert("__psynch_mutexwait"@.len() == 18);
    assert("__psynch_rw_rdlock"@.len() == 18);
    assert("__psynch_rw_wrlock"@.len() == 18);
    assert("__psynch_rw_yieldwrlock"@.len() == 23);
    assert("__psynch_rw_upgrade"@.len() == 19);
    assert("__psynch_rw_downgrade"@.len() == 21);
    assert("_pthread_mutex_firstfit_lock_wait"@.len() == 33);
    assert("_pthread_mutex_lock"@.len() == 19);
    assert("_pthread_mutex_lock_wait"@.len() == 24);
    assert("__semwait_signal"@.len() == 16);
    assert("__semwait_signal_nocancel"@.len() == 25);
    assert("semaphore_wait_trap"@.len() == 19);
    assert("semaphore_timedwait_trap"@.len() == 24);
    assert("_dispatch_semaphore_wait"@.len() == 24);
    assert("mach_msg2_trap"@.len() == 14);
    assert("mach_msg_trap"@.len() == 13);
    assert("mach_msg_overwrite_trap"@.len() == 23);
    assert("mach_msg2"@.len() == 9);
    assert("mach_msg"@.len() == 8);
    assert("mach_msg_overwrite"@.len() == 18);
    assert("kevent"@.len() == 6);
    assert("kevent_id"@.len() == 9);
    assert("kevent_qos"@.len() == 10);
    assert("select"@.len() == 6);
    assert("select$DARWIN_EXTSN"@.len() == 19);
    assert("select$DARWIN_EXTSN$NOCANCEL"@.len() == 28);
    assert("pselect"@.len() == 7);
    assert("poll"@.len() == 4);
    assert("ppoll"@.len() == 5);
    assert("nanosleep"@.len() == 9);
    assert("__nanosleep"@.len() == 11);
    assert("usleep"@.len() == 6);
    assert("read"@[0] == 'r' && "poll"@[0] == 'p');
    assert("__read_nocancel"@[2] == 'r' && "__psynch_cvwait"@[2] == 'p');
    assert("recv"@[0] == 'r' && "poll"@[0] == 'p');
    assert("__recvfrom"@[0] == '_' && "kevent_qos"@[0] == 'k');
    assert("recvfrom"@[0] == 'r' && "mach_msg"@[0] == 'm');
    assert("__recvfrom_nocancel"@[2] == 'r' && "__psynch_rw_upgrade"@[2] == 'p');
    assert("__recvfrom_nocancel"@[1] == '_' && "_pthread_mutex_lock"@[1] == 'p');
    assert("__recvfrom_nocancel"@[0] == '_' && "semaphore_wait_trap"@[0] == 's');
    assert("__recvfrom_nocancel"@[0] == '_' && "select$DARWIN_EXTSN"@[0] == 's');
    assert("recvmsg"@[0] == 'r' && "pselect"@[0] == 'p');
    assert("__recvmsg_nocancel"@[2] == 'r' && "__workq_kernreturn"@[2] == 'w');
    assert("__recvmsg_nocancel"@[1] == '_' && "_pthread_cond_wait"@[1] == 'p');
    assert("__recvmsg_nocancel"@[2] == 'r' && "__psynch_mutexwait"@[2] == 'p');
    assert("__recvmsg_nocancel"@[2] == 'r' && "__psynch_rw_rdlock"@[2] == 'p');
    assert("__recvmsg_nocancel"@[2] == 'r' && "__psynch_rw_wrlock"@[2] == 'p');
    assert("__recvmsg_nocancel"@[0] == '_' && "mach_msg_overwrite"@[0] == 'm');
    assert("pread"@[1] == 'r' && "ppoll"@[1] == 'p');
    assert("__pread_nocancel"@[2] == 'p' && "__semwait_signal"@[2] == 's');
    assert("readv"@[0] == 'r' && "ppoll"@[0] == 'p');
    assert(!is_idle(name));
    assert(!is_lock_wait(name));
    assert(!is_semaphore_wait(name));
    assert(!is_ipc_wait(name));
    assert(!is_readiness(name));
    assert(!is_sleep(name));
}

/// The functions that wait for writes.
proof fn lemma_write_waits(name: Seq<char>)
    requires
        ({
            ||| name == "write"@
            ||| name == "__write_nocancel"@
            ||| name == "send"@
            ||| name == "__sendto"@
            ||| name == "sendto"@
            ||| name == "__sendto_nocancel"@
            ||| name == "sendmsg"@
            ||| name == "__sendmsg_nocancel"@
            ||| name == "pwrite"@
            ||| name == "__pwrite_nocancel"@
            ||| name == "writev"@
        }),
    ensures
        reason_of(Some(name)) == OffCpuReason::IoWrite,
{
    reveal_strlit("write");
    reveal_strlit("__write_nocancel");
    reveal_strlit("send");
    reveal_strlit("__sendto");
    reveal_strlit("sendto");
    reveal_strlit("__sendto_nocancel");
    reveal_strlit("sendmsg");
    reveal_strlit("__sendmsg_nocancel");
    reveal_strlit("pwrite");
    reveal_strlit("__pwrite_nocancel");
    reveal_strlit("writev");
    reveal_strlit("__psynch_cvwait");
    reveal_strlit("__ulock_wait");
    reveal_strlit("__ulock_wait2");
    reveal_strlit("__workq_kernreturn");
    reveal_strlit("_pthread_cond_wait");
    reveal_strlit("_pthread_cond_timedwait");
    reveal_strlit("_dispatch_workloop_worker_thread");
    reveal_strlit("__psynch_mutexwait");
    reveal_strlit("__psynch_rw_rdlock");
    reveal_strlit("__psynch_rw_wrlock");
    reveal_strlit("__psynch_rw_yieldwrlock");
    reveal_strlit("__psynch_rw_upgrade");
    reveal_strlit("__psynch_rw_downgrade");
    reveal_strlit("_pthread_mutex_firstfit_lock_wait");
    reveal_strlit("_pthread_mutex_lock");
    reveal_strlit("_pthread_mutex_lock_wait");
    reveal_strlit("__semwait_signal");
    reveal_strlit("__semwait_signal_nocancel");
    reveal_strlit("semaphore_wait_trap");
    reveal_strlit("semaphore_timedwait_trap");
    reveal_strlit("_dispatch_semaphore_wait");
    reveal_strlit("mach_msg2_trap");
    reveal_strlit("mach_msg_trap");
    reveal_strlit("mach_msg_overwrite_trap");
    reveal_strlit("mach_msg2");
    reveal_strlit("mach_msg");
    reveal_strlit("mach_msg_overwrite");
    reveal_strlit("kevent");
    reveal_strlit("kevent_id");
    reveal_strlit("kevent_qos");
    reveal_strlit("select");
    reveal_strlit("select$DARWIN_EXTSN");
    reveal_strlit("select$DARWIN_EXTSN$NOCANCEL");
    reveal_strlit("pselect");
    reveal_strlit("poll");
    reveal_strlit("ppoll");
    reveal_strlit("nanosleep");
    reveal_strlit("__nanosleep");
    reveal_strlit("usleep");
    reveal_strlit("read");
    reveal_strlit("__read_nocancel");
    reveal_strlit("recv");
    reveal_strlit("__recvfrom");
    reveal_strlit("recvfrom");
    reveal_strlit("__recvfrom_nocancel");
    reveal_strlit("recvmsg");
    reveal_strlit("__recvmsg_nocancel");
    reveal_strlit("pread");
    reveal_strlit("__pread_nocancel");
    reveal_strlit("readv");
    assert("write"@.len() == 5);
    assert("__write_nocancel"@.len() == 16);
    assert("send"@.len() == 4);
    assert("__sendto"@.len() == 8);
    assert("sendto"@.len() == 6);
    assert("__sendto_nocancel"@.len() == 17);
    assert("sendmsg"@.len() == 7);
    assert("__sendmsg_nocancel"@.len() == 18);
    assert("pwrite"@.len() == 6);
    assert("__pwrite_nocancel"@.len() == 17);
    assert("writev"@.len() == 6);
    assert("__psynch_cvwait"@.len() == 15);
    assert("__ulock_wait"@.len() == 12);
    assert("__ulock_wait2"@.len() == 13);
    assert("__workq_kernreturn"@.len() == 18);
    assert("_pthread_cond_wait"@.len() == 18);
    assert("_pthread_cond_timedwait"@.len() == 23);
    assert("_dispatch_workloop_worker_thread"@.len() == 32);
    assert("__psynch_mutexwait"@.len() == 18);
    assert("__psynch_rw_rdlock"@.len() == 18);
    assert("__psynch_rw_wrlock"@.len() == 18);
    assert("__psynch_rw_yieldwrlock"@.len() == 23);
    assert("__psynch_rw_upgrade"@.len() == 19);
    assert("__psynch_rw_downgrade"@.len() == 21);
    assert("_pthread_mutex_firstfit_lock_wait"@.len() == 33);
    assert("_pthread_mutex_lock"@.len() == 19);
    assert("_pthread_mutex_lock_wait"@.len() == 24);
    assert("__semwait_signal"@.len() == 16);
    assert("__semwait_signal_nocancel"@.len() == 25);
    assert("semaphore_wait_trap"@.len() == 19);
    assert("semaphore_timedwait_trap"@.len() == 24);
    assert("_dispatch_semaphore_wait"@.len() == 24);
    assert("mach_msg2_trap"@.len() == 14);
    assert("mach_msg_trap"@.len() == 13);
    assert("mach_msg_overwrite_trap"@.len() == 23);
    assert("mach_msg2"@.len() == 9);
    assert("mach_msg"@.len() == 8);
    assert("mach_msg_overwrite"@.len() == 18);
    assert("kevent"@.len() == 6);
    assert("kevent_id"@.len() == 9);
    assert("kevent_qos"@.len() == 10);
    assert("select"@.len() == 6);
    assert("select$DARWIN_EXTSN"@.len() == 19);
    assert("select$DARWIN_EXTSN$NOCANCEL"@.len() == 28);
    assert("pselect"@.len() == 7);
    assert("poll"@.len() == 4);
    assert("ppoll"@.len() == 5);
    assert("nanosleep"@.len() == 9);
    assert("__nanosleep"@.len() == 11);
    assert("usleep"@.len() == 6);
    assert("read"@.len() == 4);
    assert("__read_nocancel"@.len() == 15);
    assert("recv"@.len() == 4);
    assert("__recvfrom"@.len() == 10);
    assert("recvfrom"@.len() == 8);
    assert("__recvfrom_nocancel"@.len() == 19);
    assert("recvmsg"@.len() == 7);
    assert("__recvmsg_nocancel"@.len() == 18);
    assert("pread"@.len() == 5);
    assert("__pread_nocancel"@.len() == 16);
    assert("readv"@.len() == 5);
    assert("write"@[0] == 'w' && "ppoll"@[0] == 'p');
    assert("write"@[0] == 'w' && "pread"@[0] == 'p');
    assert("write"@[0] == 'w' && "readv"@[0] == 'r');
    assert("__write_nocancel"@[2] == 'w' && "__semwait_signal"@[2] == 's');
    assert("__write_nocancel"@[2] == 'w' && "__pread_nocancel"@[2] == 'p');
    assert("send"@[0] == 's' && "poll"@[0] == 'p');
    assert("send"@[0] == 's' && "read"@[0] == 'r');
    assert("send"@[0] == 's' && "recv"@[0] == 'r');
    assert("__sendto"@[0] == '_' && "mach_msg"@[0] == 'm');
    assert("__sendto"@[0] == '_' && "recvfrom"@[0] == 'r');
    assert("sendto"@[0] == 's' && "kevent"@[0] == 'k');
    assert("sendto"@[2] == 'n' && "select"@[2] == 'l');
    assert("sendto"@[0] == 's' && "usleep"@[0] == 'u');
    assert("sendmsg"@[0] == 's' && "pselect"@[0] == 'p');
    assert("sendmsg"@[0] == 's' && "recvmsg"@[0] == 'r');
    assert("__sendmsg_nocancel"@[2] == 's' && "__workq_kernreturn"@[2] == 'w');
    assert("__sendmsg_nocancel"@[1] == '_' && "_pthread_cond_wait"@[1] == 'p');
    assert("__sendmsg_nocancel"@[2] == 's' && "__psynch_mutexwait"@[2] == 'p');
    assert("__sendmsg_nocancel"@[2] == 's' && "__psynch_rw_rdlock"@[2] == 'p');
    assert("__sendmsg_nocancel"@[2] == 's' && "__psynch_rw_wrlock"@[2] == 'p');
    assert("__sendmsg_nocancel"@[0] == '_' && "mach_msg_overwrite"@[0] == 'm');
    assert("__sendmsg_nocancel"@[2] == 's' && "__recvmsg_nocancel"@[2] == 'r');
    assert("pwrite"@[0] == 'p' && "kevent"@[0] == 'k');
    assert("pwrite"@[0] == 'p' && "select"@[0] == 's');
    assert("pwrite"@[0] == 'p' && "usleep"@[0] == 'u');
    assert("writev"@[0] == 'w' && "kevent"@[0] == 'k');
    assert("writev"@[0] == 'w' && "select"@[0] == 's');
    assert("writev"@[0] == 'w' && "usleep"@[0] == 'u');
    assert(!is_idle(name));
    assert(!is_lock_wait(name));
    assert(!is_semaphore_wait(name));
    assert(!is_ipc_wait(name));
    assert(!is_readiness(name));
    assert(!is_sleep(name));
    assert(!is_io_read(name));
}

/// The functions that wait for connections and files that are opened.
proof fn lemma_connection_waits(name: Seq<char>)
    requires
        ({
            ||| name == "connect"@
            ||| name == "__connect_nocancel"@
            ||| name == "accept"@
            ||| name == "__accept_nocancel"@
            ||| name == "open"@
            ||| name == "__open_nocancel"@
            ||| name == "openat"@
            ||| name == "__openat_nocancel"@
        }),
    ensures
        reason_of(Some(name)) == OffCpuReason::ConnectionSetup,
{
    reveal_strlit("connect");
    reveal_strlit("__connect_nocancel");
    reveal_strlit("accept");
    reveal_strlit("__accept_nocancel");
    reveal_strlit("open");
    reveal_strlit("__open_nocancel");
    reveal_strlit("openat");
    reveal_strlit("__openat_nocancel");
    reveal_strlit("__psynch_cvwait");
    reveal_strlit("__ulock_wait");
    reveal_strlit("__ulock_wait2");
    reveal_strlit("__workq_kernreturn");
    reveal_strlit("_pthread_cond_wait");
    reveal_strlit("_pthread_cond_timedwait");
    reveal_strlit("_dispatch_workloop_worker_thread");
    reveal_strlit("__psynch_mutexwait");
    reveal_strlit("__psynch_rw_rdlock");
    reveal_strlit("__psynch_rw_wrlock");
    reveal_strlit("__psynch_rw_yieldwrlock");
    reveal_strlit("__psynch_rw_upgrade");
    reveal_strlit("__psynch_rw_downgrade");
    reveal_strlit("_pthread_mutex_firstfit_lock_wait");
    reveal_strlit("_pthread_mutex_lock");
    reveal_strlit("_pthread_mutex_lock_wait");
    reveal_strlit("__semwait_signal");
    reveal_strlit("__semwait_signal_nocancel");
    reveal_strlit("semaphore_wait_trap");
    reveal_strlit("semaphore_timedwait_trap");
    reveal_strlit("_dispatch_semaphore_wait");
    reveal_strlit("mach_msg2_trap");
    reveal_strlit("mach_msg_trap");
    reveal_strlit("mach_msg_overwrite_trap");
    reveal_strlit("mach_msg2");
    reveal_strlit("mach_msg");
    reveal_strlit("mach_msg_overwrite");
    reveal_strlit("kevent");
    reveal_strlit("kevent_id");
    reveal_strlit("kevent_qos");
    reveal_strlit("select");
    reveal_strlit("select$DARWIN_EXTSN");
    reveal_strlit("select$DARWIN_EXTSN$NOCANCEL");
    reveal_strlit("pselect");
    reveal_strlit("poll");
    reveal_strlit("ppoll");
    reveal_strlit("nanosleep");
    reveal_strlit("__nanosleep");
    reveal_strlit("usleep");
    reveal_strlit("read");
    reveal_strlit("__read_nocancel");
    reveal_strlit("recv");
    reveal_strlit("__recvfrom");
    reveal_strlit("recvfrom");
    reveal_strlit("__recvfrom_nocancel");
    reveal_strlit("recvmsg");
    reveal_strlit("__recvmsg_nocancel");
    reveal_strlit("pread");
    reveal_strlit("__pread_nocancel");
    reveal_strlit("readv");
    reveal_strlit("write");
    reveal_strlit("__write_nocancel");
    reveal_strlit("send");
    reveal_strlit("__sendto");
    reveal_strlit("sendto");
    reveal_strlit("__sendto_nocancel");
    reveal_strlit("sendmsg");
    reveal_strlit("__sendmsg_nocancel");
    reveal_strlit("pwrite");
    reveal_strlit("__pwrite_nocancel");
    reveal_strlit("writev");
    assert("connect"@.len() == 7);
    assert("__connect_nocancel"@.len() == 18);
    assert("accept"@.len() == 6);
    assert("__accept_nocancel"@.len() == 17);
    assert("open"@.len() == 4);
    assert("__open_nocancel"@.len() == 15);
    assert("openat"@.len() == 6);
    assert("__openat_nocancel"@.len() == 17);
    assert("__psynch_cvwait"@.len() == 15);
    assert("__ulock_wait"@.len() == 12);
    assert("__ulock_wait2"@.len() == 13);
    assert("__workq_kernreturn"@.len() == 18);
    assert("_pthread_cond_wait"@.len() == 18);
    assert("_pthread_cond_timedwait"@.len() == 23);
    assert("_dispatch_workloop_worker_thread"@.len() == 32);
    assert("__psynch_mutexwait"@.len() == 18);
    assert("__psynch_rw_rdlock"@.len() == 18);
    assert("__psynch_rw_wrlock"@.len() == 18);
    assert("__psynch_rw_yieldwrlock"@.len() == 23);
    assert("__psynch_rw_upgrade"@.len() == 19);
    assert("__psynch_rw_downgrade"@.len() == 21);
    assert("_pthread_mutex_firstfit_lock_wait"@.len() == 33);
    assert("_pthread_mutex_lock"@.len() == 19);
    assert("_pthread_mutex_lock_wait"@.len() == 24);
    assert("__semwait_signal"@.len() == 16);
    assert("__semwait_signal_nocancel"@.len() == 25);
    assert("semaphore_wait_trap"@.len() == 19);
    assert("semaphore_timedwait_trap"@.len() == 24);
    assert("_dispatch_semaphore_wait"@.len() == 24);
    assert("mach_msg2_trap"@.len() == 14);
    assert("mach_msg_trap"@.len() == 13);
    assert("mach_msg_overwrite_trap"@.len() == 23);
    assert("mach_msg2"@.len() == 9);
    assert("mach_msg"@.len() == 8);
    assert("mach_msg_overwrite"@.len() == 18);
    assert("kevent"@.len() == 6);
    assert("kevent_id"@.len() == 9);
    assert("kevent_qos"@.len() == 10);
    assert("select"@.len() == 6);
    assert("select$DARWIN_EXTSN"@.len() == 19);
    assert("select$DARWIN_EXTSN$NOCANCEL"@.len() == 28);
    assert("pselect"@.len() == 7);
    assert("poll"@.len() == 4);
    assert("ppoll"@.len() == 5);
    assert("nanosleep"@.len() == 9);
    assert("__nanosleep"@.len() == 11);
    assert("usleep"@.len() == 6);
    assert("read"@.len() == 4);
    assert("__read_nocancel"@.len() == 15);
    assert("recv"@.len() == 4);
    assert("__recvfrom"@.len() == 10);
    assert("recvfrom"@.len() == 8);
    assert("__recvfrom_nocancel"@.len() == 19);
    assert("recvmsg"@.len() == 7);
    assert("__recvmsg_nocancel"@.len() == 18);
    assert("pread"@.len() == 5);
    assert("__pread_nocancel"@.len() == 16);
    assert("readv"@.len() == 5);
    assert("write"@.len() == 5);
    assert("__write_nocancel"@.len() == 16);
    assert("send"@.len() == 4);
    assert("__sendto"@.len() == 8);
    assert("sendto"@.len() == 6);
    assert("__sendto_nocancel"@.len() == 17);
    assert("sendmsg"@.len() == 7);
    assert("__sendmsg_nocancel"@.len() == 18);
    assert("pwrite"@.len() == 6);
    assert("__pwrite_nocancel"@.len() == 17);
    assert("writev"@.len() == 6);
    assert("connect"@[0] == 'c' && "pselect"@[0] == 'p');
    assert("connect"@[0] == 'c' && "recvmsg"@[0] == 'r');
    assert("connect"@[0] == 'c' && "sendmsg"@[0] == 's');
    assert("__connect_nocancel"@[2] == 'c' && "__workq_kernreturn"@[2] == 'w');
    assert("__connect_nocancel"@[1] == '_' && "_pthread_cond_wait"@[1] == 'p');
    assert("__connect_nocancel"@[2] == 'c' && "__psynch_mutexwait"@[2] == 'p');
    assert("__connect_nocancel"@[2] == 'c' && "__psynch_rw_rdlock"@[2] == 'p');
    assert("__connect_nocancel"@[2] == 'c' && "__psynch_rw_wrlock"@[2] == 'p');
    assert("__connect_nocancel"@[0] == '_' && "mach_msg_overwrite"@[0] == 'm');
    assert("__connect_nocancel"@[2] == 'c' && "__recvmsg_nocancel"@[2] == 'r');
    assert("__connect_nocancel"@[2] == 'c' && "__sendmsg_nocancel"@[2] == 's');
    assert("accept"@[0] == 'a' && "kevent"@[0] == 'k');
    assert("accept"@[0] == 'a' && "select"@[0] == 's');
    assert("accept"@[0] == 'a' && "usleep"@[0] == 'u');
    assert("accept"@[0] == 'a' && "sendto"@[0] == 's');
    assert("accept"@[0] == 'a' && "pwrite"@[0] == 'p');
    assert("accept"@[0] == 'a' && "writev"@[0] == 'w');
    assert("__accept_nocancel"@[2] == 'a' && "__sendto_nocancel"@[2] == 's');
    assert("__accept_nocancel"@[2] == 'a' && "__pwrite_nocancel"@[2] == 'p');
    assert("open"@[0] == 'o' && "poll"@[0] == 'p');
    assert("open"@[0] == 'o' && "read"@[0] == 'r');
    assert("open"@[0] == 'o' && "recv"@[0] == 'r');
    assert("open"@[0] == 'o' && "send"@[0] == 's');
    assert("__open_nocancel"@[2] == 'o' && "__psynch_cvwait"@[2] == 'p');
    assert("__open_nocancel"@[2] == 'o' && "__read_nocancel"@[2] == 'r');
    assert("openat"@[0] == 'o' && "kevent"@[0] == 'k');
    assert("openat"@[0] == 'o' && "select"@[0] == 's');
    assert("openat"@[0] == 'o' && "usleep"@[0] == 'u');
    assert("openat"@[0] == 'o' && "sendto"@[0] == 's');
    assert("openat"@[0] == 'o' && "pwrite"@[0] == 'p');
    assert("openat"@[0] == 'o' && "writev"@[0] == 'w');
    assert("__openat_nocancel"@[2] == 'o' && "__sendto_nocancel"@[2] == 's');
    assert("__openat_nocancel"@[2] == 'o' && "__pwrite_nocancel"@[2] == 'p');
    assert(!is_idle(name));
    assert(!is_lock_wait(name));
    assert(!is_semaphore_wait(name));
    assert(!is_ipc_wait(name));
    assert(!is_readiness(name));
    assert(!is_sleep(name));
    assert(!is_io_read(name));
    assert(!is_io_write(name));
}

/// The law of reasons: what a thread waits for is told by the whole name of the function that it
/// blocked in. A name that only begins with one of these, or mentions it, is another name.
pub proof fn waits_are_told_by_the_whole_name(name: Seq<char>)
    ensures
        ({
            ||| name == "__psynch_cvwait"@
            ||| name == "__ulock_wait"@
            ||| name == "__ulock_wait2"@
            ||| name == "__workq_kernreturn"@
            ||| name == "_pthread_cond_wait"@
            ||| name == "_pthread_cond_timedwait"@
            ||| name == "_dispatch_workloop_worker_thread"@
        }) ==> reason_of(Some(name)) == OffCpuReason::Idle,
        ({
            ||| name == "__psynch_mutexwait"@
            ||| name == "__psynch_rw_rdlock"@
            ||| name == "__psynch_rw_wrlock"@
            ||| name == "__psynch_rw_yieldwrlock"@
            ||| name == "__psynch_rw_upgrade"@
            ||| name == "__psynch_rw_downgrade"@
            ||| name == "_pthread_mutex_firstfit_lock_wait"@
            ||| name == "_pthread_mutex_lock"@
            ||| name == "_pthread_mutex_lock_wait"@
        }) ==> reason_of(Some(name)) == OffCpuReason::LockWait,
        ({
            ||| name == "__semwait_signal"@
            ||| name == "__semwait_signal_nocancel"@
            ||| name == "semaphore_wait_trap"@
            ||| name == "semaphore_timedwait_trap"@
            ||| name == "_dispatch_semaphore_wait"@
        }) ==> reason_of(Some(name)) == OffCpuReason::SemaphoreWait,
        ({
            ||| name == "mach_msg2_trap"@
            ||| name == "mach_msg_trap"@
            ||| name == "mach_msg_overwrite_trap"@
            ||| name == "mach_msg2"@
            ||| name == "mach_msg"@
            ||| name == "mach_msg_overwrite"@
        }) ==> reason_of(Some(name)) == OffCpuReason::IpcWait,
        ({
            ||| name == "kevent"@
            ||| name == "kevent_id"@
            ||| name == "kevent_qos"@
            ||| name == "select"@
            ||| name == "select$DARWIN_EXTSN"@
            ||| name == "select$DARWIN_EXTSN$NOCANCEL"@
            ||| name == "pselect"@
            ||| name == "poll"@
            ||| name == "ppoll"@
        }) ==> reason_of(Some(name)) == OffCpuReason::Readiness,
        ({
            ||| name == "nanosleep"@
            ||| name == "__nanosleep"@
            ||| name == "usleep"@
        }) ==> reason_of(Some(name)) == OffCpuReason::Sleep,
        ({
            ||| name == "read"@
            ||| name == "__read_nocancel"@
            ||| name == "recv"@
            ||| name == "__recvfrom"@
            ||| name == "recvfrom"@
            ||| name == "__recvfrom_nocancel"@
            ||| name == "recvmsg"@
            ||| name == "__recvmsg_nocancel"@
            ||| name == "pread"@
            ||| name == "__pread_nocancel"@
            ||| name == "readv"@
        }) ==> reason_of(Some(name)) == OffCpuReason::IoRead,
        ({
            ||| name == "write"@
            ||| name == "__write_nocancel"@
            ||| name == "send"@
            ||| name == "__sendto"@
            ||| name == "sendto"@
            ||| name == "__sendto_nocancel"@
            ||| name == "sendmsg"@
            ||| name == "__sendmsg_nocancel"@
            ||| name == "pwrite"@
            ||| name == "__pwrite_nocancel"@
            ||| name == "writev"@
        }) ==> reason_of(Some(name)) == OffCpuReason::IoWrite,
        ({
            ||| name == "connect"@
            ||| name == "__connect_nocancel"@
            ||| name == "accept"@
            ||| name == "__accept_nocancel"@
            ||| name == "open"@
            ||| name == "__open_nocancel"@
            ||| name == "openat"@
            ||| name == "__openat_nocancel"@
        }) ==> reason_of(Some(name)) == OffCpuReason::ConnectionSetup,
        !({
            ||| name == "__psynch_cvwait"@
            ||| name == "__ulock_wait"@
            ||| name == "__ulock_wait2"@
            ||| name == "__workq_kernreturn"@
            ||| name == "_pthread_cond_wait"@
            ||| name == "_pthread_cond_timedwait"@
            ||| name == "_dispatch_workloop_worker_thread"@
            ||| name == "__psynch_mutexwait"@
            ||| name == "__psynch_rw_rdlock"@
            ||| name == "__psynch_rw_wrlock"@
            ||| name == "__psynch_rw_yieldwrlock"@
            ||| name == "__psynch_rw_upgrade"@
            ||| name == "__psynch_rw_downgrade"@
            ||| name == "_pthread_mutex_firstfit_lock_wait"@
            ||| name == "_pthread_mutex_lock"@
            ||| name == "_pthread_mutex_lock_wait"@
            ||| name == "__semwait_signal"@
            ||| name == "__semwait_signal_nocancel"@
            ||| name == "semaphore_wait_trap"@
            ||| name == "semaphore_timedwait_trap"@
            ||| name == "_dispatch_semaphore_wait"@
            ||| name == "mach_msg2_trap"@
            ||| name == "mach_msg_trap"@
            ||| name == "mach_msg_overwrite_trap"@
            ||| name == "mach_msg2"@
            ||| name == "mach_msg"@
            ||| name == "mach_msg_overwrite"@
            ||| name == "kevent"@
            ||| name == "kevent_id"@
            ||| name == "kevent_qos"@
            ||| name == "select"@
            ||| name == "select$DARWIN_EXTSN"@
            ||| name == "select$DARWIN_EXTSN$NOCANCEL"@
            ||| name == "pselect"@
            ||| name == "poll"@
            ||| name == "ppoll"@
            ||| name == "nanosleep"@
            ||| name == "__nanosleep"@
            ||| name == "usleep"@
            ||| name == "read"@
            ||| name == "__read_nocancel"@
            ||| name == "recv"@
            ||| name == "__recvfrom"@
            ||| name == "recvfrom"@
            ||| name == "__recvfrom_nocancel"@
            ||| name == "recvmsg"@
            ||| name == "__recvmsg_nocancel"@
            ||| name == "pread"@
            ||| name == "__pread_nocancel"@
            ||| name == "readv"@
            ||| name == "write"@
            ||| name == "__write_nocancel"@
            ||| name == "send"@
            ||| name == "__sendto"@
            ||| name == "sendto"@
            ||| name == "__sendto_nocancel"@
            ||| name == "sendmsg"@
            ||| name == "__sendmsg_nocancel"@
            ||| name == "pwrite"@
            ||| name == "__pwrite_nocancel"@
            ||| name == "writev"@
            ||| name == "connect"@
            ||| name == "__connect_nocancel"@
            ||| name == "accept"@
            ||| name == "__accept_nocancel"@
            ||| name == "open"@
            ||| name == "__open_nocancel"@
            ||| name == "openat"@
            ||| name == "__openat_nocancel"@
        }) ==> reason_of(Some(name)) == OffCpuReason::Other,
        reason_of(None) == OffCpuReason::Other,
{
    if name == "__psynch_cvwait"@ || name == "__ulock_wait"@ || name == "__ulock_wait2"@ || name == "__workq_kernreturn"@ || name == "_pthread_cond_wait"@ || name == "_pthread_cond_timedwait"@ || name == "_dispatch_workloop_worker_thread"@ {
        lemma_idle_waits(name);
    }
    if name == "__psynch_mutexwait"@ || name == "__psynch_rw_rdlock"@ || name == "__psynch_rw_wrlock"@ || name == "__psynch_rw_yieldwrlock"@ || name == "__psynch_rw_upgrade"@ || name == "__psynch_rw_downgrade"@ || name == "_pthread_mutex_firstfit_lock_wait"@ || name == "_pthread_mutex_lock"@ || name == "_pthread_mutex_lock_wait"@ {
        lemma_lock_waits(name);
    }
    if name == "__semwait_signal"@ || name == "__semwait_signal_nocancel"@ || name == "semaphore_wait_trap"@ || name == "semaphore_timedwait_trap"@ || name == "_dispatch_semaphore_wait"@ {
        lemma_semaphore_waits(name);
    }
    if name == "mach_msg2_trap"@ || name == "mach_msg_trap"@ || name == "mach_msg_overwrite_trap"@ || name == "mach_msg2"@ || name == "mach_msg"@ || name == "mach_msg_overwrite"@ {
        lemma_message_waits(name);
    }
    if name == "kevent"@ || name == "kevent_id"@ || name == "kevent_qos"@ || name == "select"@ || name == "select$DARWIN_EXTSN"@ || name == "select$DARWIN_EXTSN$NOCANCEL"@ || name == "pselect"@ || name == "poll"@ || name == "ppoll"@ {
        lemma_readiness_waits(name);
    }
    if name == "nanosleep"@ || name == "__nanosleep"@ || name == "usleep"@ {
        lemma_sleep_waits(name);
    }
    if name == "read"@ || name == "__read_nocancel"@ || name == "recv"@ || name == "__recvfrom"@ || name == "recvfrom"@ || name == "__recvfrom_nocancel"@ || name == "recvmsg"@ || name == "__recvmsg_nocancel"@ || name == "pread"@ || name == "__pread_nocancel"@ || name == "readv"@ {
        lemma_read_waits(name);
    }
    if name == "write"@ || name == "__write_nocancel"@ || name == "send"@ || name == "__sendto"@ || name == "sendto"@ || name == "__sendto_nocancel"@ || name == "sendmsg"@ || name == "__sendmsg_nocancel"@ || name == "pwrite"@ || name == "__pwrite_nocancel"@ || name == "writev"@ {
        lemma_write_waits(name);
    }
    if name == "connect"@ || name == "__connect_nocancel"@ || name == "accept"@ || name == "__accept_nocancel"@ || name == "open"@ || name == "__open_nocancel"@ || name == "openat"@ || name == "__openat_nocancel"@ {
        lemma_connection_waits(name);
    }
}

} // verus!
