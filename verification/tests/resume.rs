//! The pending resume action.

use ttd_gdbserver::gdb::resume::{ReplayOp, ResumeState};

fn tid() -> u64 {
    100
}

#[test]
fn default_take_is_continue_and_take_consumes() {
    let mut state = ResumeState::default();
    assert_eq!(state.take(), ReplayOp::Continue);
    assert_eq!(state.take(), ReplayOp::Continue);
}

#[test]
fn clear_drops_every_action_kind() {
    let mut state = ResumeState::default();
    state.set_range_step(tid(), 0x1000, 0x2000);
    assert_eq!(state.pending(), ReplayOp::RangeStep(tid(), 0x1000, 0x2000));
    state.clear();
    assert_eq!(state.take(), ReplayOp::Continue);

    state.set_step(tid());
    state.clear();
    assert_eq!(state.take(), ReplayOp::Continue);
}

#[test]
fn wildcard_continue_preserves_the_more_specific_action() {
    let mut state = ResumeState::default();

    state.set_step(tid());
    state.set_continue();
    assert_eq!(state.pending(), ReplayOp::Step(tid()));

    state.clear();
    state.set_range_step(tid(), 0x1000, 0x2000);
    state.set_continue();
    assert_eq!(state.pending(), ReplayOp::RangeStep(tid(), 0x1000, 0x2000));

    // A continue followed by a step still ends in the step.
    state.clear();
    state.set_continue();
    state.set_step(tid());
    assert_eq!(state.pending(), ReplayOp::Step(tid()));
}

#[test]
fn empty_range_is_a_plain_step() {
    let mut state = ResumeState::default();
    state.set_range_step(tid(), 0x1000, 0x1000);
    assert_eq!(state.pending(), ReplayOp::Step(tid()));
}
