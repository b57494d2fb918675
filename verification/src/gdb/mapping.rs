//! What target results look like on the wire.
//!
//! Stop reason to stop reply, access mask to watch kind, Windows exception code
//! to signal, and the thread that a stop reply names.

use gdbstub::common::Signal;
use gdbstub::target::ext::breakpoints::WatchKind;
use vstd::prelude::*;

use crate::target::breakpoint::{kind_mask, BreakpointKind};
use crate::target::error::DebugError;
use crate::target::stop_reason::StopReason;
use crate::target::DebugTarget;
use crate::ttd::types::{DATA_ACCESS_READ, DATA_ACCESS_WRITE};

verus! {

/// `gdbstub::common::Signal`.
#[verifier::external_type_specification]
pub struct ExSignal(Signal);

/// `gdbstub::target::ext::breakpoints::WatchKind`.
#[verifier::external_type_specification]
pub struct ExWatchKind(WatchKind);

/// The protocol's number for signal 0.
pub const SIGZERO: u8 = 0;

/// The protocol's number for an interrupt.
pub const SIGINT: u8 = 2;

/// The protocol's number for a trap.
pub const SIGTRAP: u8 = 5;

/// The protocol's number for an abort.
pub const SIGABRT: u8 = 6;

/// The protocol's number for a kill.
pub const SIGKILL: u8 = 9;

/// The protocol's number for a segmentation fault.
pub const SIGSEGV: u8 = 11;

/// What the stub tells the client when the target has stopped.
#[derive(Clone, Copy, Debug, PartialEq, Eq)]
pub enum StopReply {
    /// The thread received a signal.
    SignalWithThread { tid: u64, signal: Signal },
    /// The thread hit a watchpoint.
    Watch { tid: u64, kind: WatchKind, addr: u64 },
}

/// The thread that a stop reply names: the current one, else the first active
/// one, else thread 1. 0 is no thread id.
pub open spec fn stop_thread(current: Option<u64>, active: Seq<u64>) -> u64 {
    if current is Some && current->0 != 0 {
        current->0
    } else if active.len() > 0 && active[0] != 0 {
        active[0]
    } else {
        1
    }
}

/// Pick the thread that a stop reply names.
pub fn stop_tid<T: DebugTarget>(backend: &T) -> (r: u64)
    ensures
        r == stop_thread(backend.current_thread(), backend.active_threads()),
{
    if let Some(t) = backend.current_thread_id() {
        if t != 0 {
            return t;
        }
    }
    let active = backend.active_thread_ids();
    if active.len() > 0 && active[0] != 0 {
        active[0]
    } else {
        1
    }
}

/// The bits of an access mask that stand for reads and writes.
pub open spec fn access_bits(access: u8) -> (bool, bool) {
    (access & DATA_ACCESS_READ != 0, access & DATA_ACCESS_WRITE != 0)
}

/// The watch kind of an access mask. Masks without a read bit are writes, also
/// those without any bit.
pub open spec fn watch_kind(access: u8) -> WatchKind {
    match access_bits(access) {
        (true, true) => WatchKind::ReadWrite,
        (true, false) => WatchKind::Read,
        _ => WatchKind::Write,
    }
}

/// The watch kind of an access mask, for stop replies.
pub fn watch_kind_from_access(access: u8) -> (r: WatchKind)
    ensures
        r == watch_kind(access),
{
    let read = access & DATA_ACCESS_READ != 0;
    let write = access & DATA_ACCESS_WRITE != 0;
    match (read, write) {
        (true, true) => WatchKind::ReadWrite,
        (true, false) => WatchKind::Read,
        _ => WatchKind::Write,
    }
}

/// The signal of a Windows exception code: breakpoint and single step are
/// traps, a C++ exception is an abort, and everything else is a fault.
pub open spec fn exception_signal(code: u32) -> u8 {
    if code == 0x8000_0003 || code == 0x8000_0004 {
        SIGTRAP
    } else if code == 0xE06D_7363 {
        SIGABRT
    } else {
        SIGSEGV
    }
}

/// The signal of a Windows exception code.
pub fn signal_for_exception(code: u32) -> (r: Signal)
    ensures
        r == Signal(exception_signal(code)),
{
    match code {
        0x8000_0003 | 0x8000_0004 => Signal(SIGTRAP),
        0xC000_0005 => Signal(SIGSEGV),
        0xE06D_7363 => Signal(SIGABRT),
        _ => Signal(SIGSEGV),
    }
}

/// The stop reply for a stop reason on thread `tid`. A failure is reported as a
/// trap: the client stops and can try again.
pub open spec fn stop_reply(reason: Result<StopReason, DebugError>, tid: u64) -> StopReply {
    match reason {
        Err(_) => StopReply::SignalWithThread { tid, signal: Signal(SIGTRAP) },
        Ok(StopReason::TraceEnd) => StopReply::SignalWithThread { tid, signal: Signal(SIGKILL) },
        Ok(StopReason::TraceStart) => StopReply::SignalWithThread { tid, signal: Signal(SIGZERO) },
        Ok(StopReason::Watchpoint { bp_id, addr, access }) => StopReply::Watch {
            tid,
            kind: watch_kind(access),
            addr,
        },
        Ok(StopReason::Exception { code, addr }) => StopReply::SignalWithThread {
            tid,
            signal: Signal(exception_signal(code)),
        },
        Ok(StopReason::Interrupted) => StopReply::SignalWithThread { tid, signal: Signal(SIGINT) },
        Ok(_) => StopReply::SignalWithThread { tid, signal: Signal(SIGTRAP) },
    }
}

/// The stop reply for a stop reason on thread `tid`.
pub fn reply_for(reason: &Result<StopReason, DebugError>, tid: u64) -> (r: StopReply)
    ensures
        r == stop_reply(*reason, tid),
{
    let reason = match reason {
        Ok(reason) => *reason,
        Err(_) => {
            return StopReply::SignalWithThread { tid, signal: Signal(SIGTRAP) };
        },
    };
    match reason {
        StopReason::TraceEnd => StopReply::SignalWithThread { tid, signal: Signal(SIGKILL) },
        StopReason::TraceStart => StopReply::SignalWithThread { tid, signal: Signal(SIGZERO) },
        StopReason::Watchpoint { bp_id: _, addr, access } => StopReply::Watch {
            tid,
            kind: watch_kind_from_access(access),
            addr,
        },
        StopReason::Exception { code, addr: _ } => StopReply::SignalWithThread {
            tid,
            signal: signal_for_exception(code),
        },
        StopReason::Interrupted => StopReply::SignalWithThread { tid, signal: Signal(SIGINT) },
        _ => StopReply::SignalWithThread { tid, signal: Signal(SIGTRAP) },
    }
}

/// The stop reply for a stop reason of `backend`.
pub fn map_stop_reason<T: DebugTarget>(
    backend: &T,
    reason: &Result<StopReason, DebugError>,
) -> (r: StopReply)
    ensures
        r == stop_reply(
            *reason,
            stop_thread(backend.current_thread(), backend.active_threads()),
        ),
{
    reply_for(reason, stop_tid(backend))
}

/// The breakpoint kind of a watch kind.
pub open spec fn breakpoint_kind(kind: WatchKind) -> BreakpointKind {
    match kind {
        WatchKind::Write => BreakpointKind::Write,
        WatchKind::Read => BreakpointKind::Read,
        WatchKind::ReadWrite => BreakpointKind::Access,
    }
}

/// The breakpoint kind of a hardware watchpoint.
pub fn breakpoint_kind_from_watch_kind(kind: WatchKind) -> (r: BreakpointKind)
    ensures
        r == breakpoint_kind(kind),
{
    match kind {
        WatchKind::Write => BreakpointKind::Write,
        WatchKind::Read => BreakpointKind::Read,
        WatchKind::ReadWrite => BreakpointKind::Access,
    }
}

/// The access mask of a hardware watchpoint.
pub fn access_mask_from_watch_kind(kind: WatchKind) -> (r: u8)
    ensures
        r == kind_mask(breakpoint_kind(kind)),
{
    breakpoint_kind_from_watch_kind(kind).access_mask()
}

/// Breakpoints and steps are reported as traps, the end of the trace as a kill
/// that can be rewound, its start as signal 0, and an interrupt as such.
pub proof fn law_stop_signals(tid: u64, bp_id: u64, addr: u64)
    ensures
        stop_reply(Ok(StopReason::Breakpoint { bp_id, addr }), tid)
            == (StopReply::SignalWithThread { tid, signal: Signal(5) }),
        stop_reply(Ok(StopReason::StepComplete), tid) == (StopReply::SignalWithThread {
            tid,
            signal: Signal(5),
        }),
        stop_reply(Ok(StopReason::TraceEnd), tid) == (StopReply::SignalWithThread {
            tid,
            signal: Signal(9),
        }),
        stop_reply(Ok(StopReason::TraceStart), tid) == (StopReply::SignalWithThread {
            tid,
            signal: Signal(0),
        }),
        stop_reply(Ok(StopReason::Interrupted), tid) == (StopReply::SignalWithThread {
            tid,
            signal: Signal(2),
        }),
{
}

/// A watchpoint is reported as the kind that it was set as.
pub proof fn law_watch_kinds_round_trip(kind: WatchKind)
    ensures
        watch_kind(kind_mask(breakpoint_kind(kind))) == kind,
{
    assert(1u8 & 1u8 != 0 && 1u8 & 2u8 == 0 && 2u8 & 1u8 == 0 && 2u8 & 2u8 != 0 && 3u8 & 1u8 != 0
        && 3u8 & 2u8 != 0) by (bit_vector);
}

/// A stop reply always names a thread.
pub proof fn law_stop_replies_name_a_thread(current: Option<u64>, active: Seq<u64>)
    ensures
        stop_thread(current, active) != 0,
{
}

/// A hit that was not a read is never reported as one.
pub proof fn law_only_reads_are_reported_as_reads(access: u8)
    ensures
        watch_kind(access) is Read || watch_kind(access) is ReadWrite ==> access & DATA_ACCESS_READ
            != 0,
{
}

} // verus!
