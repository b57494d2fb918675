//! What target results look like on the wire.

use gdbstub::common::Signal;
use gdbstub::target::ext::breakpoints::WatchKind;
use ttd_gdbserver::gdb::mapping::{
    access_mask_from_watch_kind, breakpoint_kind_from_watch_kind, signal_for_exception,
    watch_kind_from_access,
};
use ttd_gdbserver::target::breakpoint::BreakpointKind;
use ttd_gdbserver::ttd::types::{DATA_ACCESS_EXECUTE, DATA_ACCESS_READ, DATA_ACCESS_WRITE};

#[test]
fn watch_kind_from_access_mask() {
    let r = DATA_ACCESS_READ;
    let w = DATA_ACCESS_WRITE;
    assert!(matches!(watch_kind_from_access(r), WatchKind::Read));
    assert!(matches!(watch_kind_from_access(w), WatchKind::Write));
    assert!(matches!(
        watch_kind_from_access(r | w),
        WatchKind::ReadWrite
    ));
    // Execute-only has no GDB watch kind; it degrades to Write rather
    // than misreporting a read hit.
    assert!(matches!(
        watch_kind_from_access(DATA_ACCESS_EXECUTE),
        WatchKind::Write
    ));
    // A mask with no read/write bit at all (e.g. an uninitialized 0)
    // must not claim a read.
    assert!(matches!(watch_kind_from_access(0), WatchKind::Write));
}

/// Windows exception codes must map to the signal the client expects:
/// a breakpoint is a trap an interactive user can continue from, while
/// an access violation is a fault.
#[test]
fn exception_codes_map_to_signals() {
    const STATUS_BREAKPOINT: u32 = 0x8000_0003;
    const STATUS_SINGLE_STEP: u32 = 0x8000_0004;
    const STATUS_ACCESS_VIOLATION: u32 = 0xC000_0005;
    const STATUS_STACK_OVERFLOW: u32 = 0xC000_00FD;
    const CPP_EXCEPTION: u32 = 0xE06D_7363;

    assert_eq!(signal_for_exception(STATUS_BREAKPOINT), Signal::SIGTRAP);
    assert_eq!(
        signal_for_exception(STATUS_ACCESS_VIOLATION),
        Signal::SIGSEGV
    );
    assert_eq!(signal_for_exception(CPP_EXCEPTION), Signal::SIGABRT);
    // Single step is a trap, like the breakpoint exception: it must be
    // continuable rather than reported as a fault.
    assert_eq!(signal_for_exception(STATUS_SINGLE_STEP), Signal::SIGTRAP);
    // Unmapped codes (stack overflow, garbage) fall back to SIGSEGV so
    // the client stops instead of silently resuming.
    assert_eq!(signal_for_exception(STATUS_STACK_OVERFLOW), Signal::SIGSEGV);
    assert_eq!(signal_for_exception(0), Signal::SIGSEGV);
    assert_eq!(signal_for_exception(0xDEAD_BEEF), Signal::SIGSEGV);
}

#[test]
fn watch_kind_maps_to_backend_kind_and_access_mask() {
    for (kind, bp_kind, access) in [
        (
            WatchKind::Write,
            BreakpointKind::Write,
            DATA_ACCESS_WRITE,
        ),
        (
            WatchKind::Read,
            BreakpointKind::Read,
            DATA_ACCESS_READ,
        ),
        (
            WatchKind::ReadWrite,
            BreakpointKind::Access,
            DATA_ACCESS_READ | DATA_ACCESS_WRITE,
        ),
    ] {
        assert_eq!(breakpoint_kind_from_watch_kind(kind), bp_kind);
        assert_eq!(access_mask_from_watch_kind(kind), access);
    }
}
