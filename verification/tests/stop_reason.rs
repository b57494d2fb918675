//! Replay results as stop reasons.

use ttd_gdbserver::target::stop_reason::StopReason;
use ttd_gdbserver::ttd::types::{EventType, TtdReplayResult};

fn make_result(stop_reason: EventType) -> TtdReplayResult {
    TtdReplayResult {
        stop_reason,
        wp_address: 0xDEAD,
        wp_access_type: 0,
    }
}

#[test]
fn from_step_count() {
    let r = make_result(EventType::StepCount);
    assert!(matches!(
        StopReason::from_replay_result(&r),
        StopReason::StepComplete
    ));
}

#[test]
fn from_memory_watchpoint() {
    let r = make_result(EventType::MemoryWatchpoint);
    assert!(matches!(
        StopReason::from_replay_result(&r),
        StopReason::Watchpoint { addr: 0xDEAD, .. }
    ));
}

#[test]
fn from_position() {
    let r = make_result(EventType::Position);
    assert!(matches!(
        StopReason::from_replay_result(&r),
        StopReason::PositionReached
    ));
}

#[test]
fn from_process() {
    let r = make_result(EventType::Process);
    assert!(matches!(
        StopReason::from_replay_result(&r),
        StopReason::TraceEnd
    ));
}

#[test]
fn from_thread() {
    let r = make_result(EventType::Thread);
    assert!(matches!(
        StopReason::from_replay_result(&r),
        StopReason::TraceEnd
    ));
}

#[test]
fn from_exception() {
    let r = make_result(EventType::Exception);
    assert!(matches!(
        StopReason::from_replay_result(&r),
        StopReason::Exception { code: 0, addr: 0 }
    ));
}

#[test]
fn from_interrupted() {
    let r = make_result(EventType::Interrupted);
    assert!(matches!(
        StopReason::from_replay_result(&r),
        StopReason::StepComplete
    ));
}

#[test]
fn from_gap() {
    let r = make_result(EventType::Gap);
    assert!(matches!(
        StopReason::from_replay_result(&r),
        StopReason::StepComplete
    ));
}
