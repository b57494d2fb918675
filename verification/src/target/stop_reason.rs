//! Why the debugger stopped.

use vstd::prelude::*;

use crate::ttd::types::{EventType, TtdReplayResult};

verus! {

/// Why the debugger stopped.
#[derive(Clone, Copy, Debug, PartialEq, Eq, Structural)]
pub enum StopReason {
    /// Hit an execution breakpoint.
    Breakpoint { bp_id: u64, addr: u64 },
    /// Hit a data watchpoint; `access` is the mask of accesses it watches.
    Watchpoint { bp_id: u64, addr: u64, access: u8 },
    /// A single step completed.
    StepComplete,
    /// Reached the end of the trace.
    TraceEnd,
    /// Reached the beginning of the trace.
    TraceStart,
    /// Came across an exception.
    Exception { code: u32, addr: u64 },
    /// Reached the position that limited the replay.
    PositionReached,
    /// The client interrupted the replay.
    Interrupted,
}

/// The stop reason that a replay result stands for.
pub open spec fn replay_stop(result: TtdReplayResult) -> StopReason {
    match result.stop_reason {
        EventType::MemoryWatchpoint => StopReason::Watchpoint {
            bp_id: 0,
            addr: result.wp_address,
            access: result.wp_access_type,
        },
        EventType::StepCount => StopReason::StepComplete,
        EventType::Position => StopReason::PositionReached,
        EventType::Process | EventType::Thread => StopReason::TraceEnd,
        EventType::Exception => StopReason::Exception { code: 0, addr: 0 },
        EventType::Interrupted | EventType::Gap | EventType::Other => StopReason::StepComplete,
    }
}

impl StopReason {
    /// The stop reason that a replay result stands for. An exception carries
    /// neither code nor address here: the result has none.
    pub fn from_replay_result(result: &TtdReplayResult) -> (r: StopReason)
        ensures
            r == replay_stop(*result),
    {
        match result.stop_reason {
            EventType::MemoryWatchpoint => StopReason::Watchpoint {
                bp_id: 0,
                addr: result.wp_address,
                access: result.wp_access_type,
            },
            EventType::StepCount => StopReason::StepComplete,
            EventType::Position => StopReason::PositionReached,
            EventType::Process | EventType::Thread => StopReason::TraceEnd,
            EventType::Exception => StopReason::Exception { code: 0, addr: 0 },
            EventType::Interrupted | EventType::Gap | EventType::Other => StopReason::StepComplete,
        }
    }
}

} // verus!
