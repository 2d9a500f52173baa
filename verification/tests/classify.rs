use stax::classify::{classify_offcpu, OffCpuReason};

#[test]
fn idle_paths() {
    assert_eq!(classify_offcpu(Some("__psynch_cvwait")), OffCpuReason::Idle);
    assert_eq!(
        classify_offcpu(Some("__workq_kernreturn")),
        OffCpuReason::Idle
    );
    assert_eq!(classify_offcpu(Some("__ulock_wait")), OffCpuReason::Idle);
}

#[test]
fn lock_contention() {
    assert_eq!(
        classify_offcpu(Some("__psynch_mutexwait")),
        OffCpuReason::LockWait
    );
    assert_eq!(
        classify_offcpu(Some("__psynch_rw_wrlock")),
        OffCpuReason::LockWait
    );
}

#[test]
fn ipc_and_readiness() {
    assert_eq!(
        classify_offcpu(Some("mach_msg2_trap")),
        OffCpuReason::IpcWait
    );
    assert_eq!(classify_offcpu(Some("kevent_id")), OffCpuReason::Readiness);
    assert_eq!(classify_offcpu(Some("poll")), OffCpuReason::Readiness);
}

#[test]
fn io_split() {
    assert_eq!(classify_offcpu(Some("read")), OffCpuReason::IoRead);
    assert_eq!(
        classify_offcpu(Some("__read_nocancel")),
        OffCpuReason::IoRead
    );
    assert_eq!(classify_offcpu(Some("write")), OffCpuReason::IoWrite);
}

#[test]
fn rust_function_named_write_does_not_match() {
    // A Rust function whose demangled name happens to contain
    // "write" must NOT be classified as an IO write -- the
    // matcher uses `==`, not `contains`.
    assert_eq!(
        classify_offcpu(Some("my_crate::Buffer::writer_loop")),
        OffCpuReason::Other
    );
    assert_eq!(classify_offcpu(Some("std::io::write")), OffCpuReason::Other);
}

#[test]
fn no_symbol_is_other() {
    assert_eq!(classify_offcpu(None), OffCpuReason::Other);
    assert_eq!(classify_offcpu(Some("")), OffCpuReason::Other);
}
