//! What a session decides between the connection and a running replay.

use vstd::prelude::*;

use super::mapping::StopReply;
use super::target::{delivered, GdbState, GdbTarget};
use crate::target::DebugTarget;

verus! {

/// How long the loop sleeps between two looks at connection and worker, in
/// milliseconds.
pub const POLL_INTERVAL_MS: u64 = 5;

/// What the loop does next while the target runs.
#[derive(Clone, Copy, Debug, PartialEq, Eq)]
pub enum LoopStep {
    /// Hand the byte to the protocol engine.
    IncomingData(u8),
    /// The target has stopped.
    TargetStopped(StopReply),
    /// Nothing happened: sleep and look again.
    Sleep,
}

/// What comes of an interrupt.
#[derive(Clone, Copy, Debug, PartialEq, Eq)]
pub enum InterruptStep {
    /// Report this stop.
    Report(StopReply),
    /// Wait for the worker to stop; `fire` says whether to fire the backend's
    /// interrupt handle first.
    Wait { fire: bool },
    /// There is nothing to interrupt.
    Nothing,
}

/// The stop that is ready to be fetched.
pub open spec fn ready_stop<T: DebugTarget>(s: GdbState<T>) -> Option<StopReply> {
    match s.runner.result {
        Some(outcome) => Some(delivered(s.runner.backend, outcome)),
        None => None,
    }
}

/// One look at the connection and at the worker. Data from the client comes
/// first, so that an interrupt is seen before the stop.
pub fn wait_for_stop_reason<T: DebugTarget>(target: &mut GdbTarget<T>, byte: Option<u8>) -> (r:
    LoopStep)
    ensures
        final(target).wf() == old(target).wf(),
        (match byte {
            Some(b) => r == LoopStep::IncomingData(b) && final(target)@ == old(target)@,
            None => r == (match ready_stop(old(target)@) {
                Some(reply) => LoopStep::TargetStopped(reply),
                None => LoopStep::Sleep,
            }) && final(target)@ == old(target)@.with_runner(old(target)@.runner.fetched()),
        }),
{
    if let Some(b) = byte {
        return LoopStep::IncomingData(b);
    }
    match target.take_stop_reason() {
        Some(reply) => LoopStep::TargetStopped(reply),
        None => LoopStep::Sleep,
    }
}

/// The client has sent an interrupt. A stop that is ready is reported; else the
/// worker is asked to stop, if there is one.
pub fn on_interrupt<T: DebugTarget>(target: &mut GdbTarget<T>) -> (r: InterruptStep)
    ensures
        final(target).wf() == old(target).wf(),
        ({
            let s = old(target)@;
            let drained = s.with_runner(s.runner.fetched());
            match ready_stop(s) {
                Some(reply) => r == InterruptStep::Report(reply) && final(target)@ == drained,
                None => {
                    &&& final(target)@ == drained.with_runner(drained.runner.interrupt_asked())
                    &&& r == (if s.runner.running() {
                        InterruptStep::Wait { fire: s.runner.has_handle }
                    } else {
                        InterruptStep::Nothing
                    })
                },
            }
        }),
{
    if let Some(reply) = target.take_stop_reason() {
        return InterruptStep::Report(reply);
    }
    let fire = target.interrupt_replay();
    if target.replay_in_flight() {
        InterruptStep::Wait { fire }
    } else {
        InterruptStep::Nothing
    }
}

/// The session has ended: its backend, for the next session, or the failure.
pub fn end_session<T: DebugTarget>(target: GdbTarget<T>) -> (r: Result<T, &'static str>)
    ensures
        (match target@.runner.backend {
            Some(b) => r == Ok::<T, &'static str>(b),
            None => r is Err && r->Err_0@ == "could not recover backend after session"@,
        }),
{
    match target.into_backend() {
        Some(b) => Ok(b),
        None => Err("could not recover backend after session"),
    }
}

/// What a shutdown request does: the first one lets the server finish, a
/// second one ends it at once with this exit code.
pub fn on_shutdown_request(already_requested: bool) -> (r: Option<i32>)
    ensures
        r == (if already_requested {
            Some(130i32)
        } else {
            None
        }),
{
    if already_requested {
        Some(130)
    } else {
        None
    }
}

/// The backend of a session whose replays have ended is there for the next
/// session, in the state that this one left it in.
pub proof fn law_backend_survives_the_session<T: DebugTarget>(s: GdbState<T>)
    requires
        !s.runner.running(),
    ensures
        s.runner.backend == Some(s.backend()),
        s.with_runner(s.runner.interrupt_asked()).backend() == s.backend(),
        s.with_runner(s.runner.fetched()).backend() == s.backend(),
{
}

/// What is logged by default at a verbosity: warnings; this program's debug
/// messages; everything.
pub fn log_filter(verbosity: u8) -> (r: &'static str)
    ensures
        r@ == (if verbosity == 0 {
            "warn"@
        } else if verbosity == 1 {
            "info,ttd_gdbserver=debug"@
        } else {
            "debug"@
        }),
{
    match verbosity {
        0 => "warn",
        1 => "info,ttd_gdbserver=debug",
        _ => "debug",
    }
}

} // verus!
