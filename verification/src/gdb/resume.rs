//! The pending resume action.
//!
//! The protocol engine first clears the pending action, then applies any number
//! of actions in wire order, and then resumes.

use vstd::prelude::*;

verus! {

/// What the next resume replays.
#[derive(Clone, Copy, Debug, PartialEq, Eq, Structural)]
pub enum ReplayOp {
    /// Continue; also what a resume without any action does.
    Continue,
    Step(u64),
    BackwardContinue,
    BackwardStep(u64),
    /// Step until the program counter leaves `[start, end)`, or until a step
    /// stops for a reason of its own.
    RangeStep(u64, u64, u64),
}

impl Default for ReplayOp {
    fn default() -> (r: ReplayOp)
        ensures
            r == ReplayOp::Continue,
    {
        ReplayOp::Continue
    }
}

/// What a range step amounts to: an empty range is a plain step.
pub open spec fn range_op(tid: u64, start: u64, end: u64) -> ReplayOp {
    if start == end {
        ReplayOp::Step(tid)
    } else {
        ReplayOp::RangeStep(tid, start, end)
    }
}

/// The pending resume action.
#[derive(Clone, Copy, Debug, PartialEq, Eq, Structural)]
pub struct ResumeState {
    pending: ReplayOp,
}

impl View for ResumeState {
    type V = ReplayOp;

    closed spec fn view(&self) -> ReplayOp {
        self.pending
    }
}

impl Default for ResumeState {
    fn default() -> (r: ResumeState)
        ensures
            r@ == ReplayOp::Continue,
    {
        ResumeState { pending: ReplayOp::Continue }
    }
}

impl ResumeState {
    /// Consume the pending action; the next resume without new actions is a
    /// plain continue.
    pub fn take(&mut self) -> (r: ReplayOp)
        ensures
            r == old(self)@,
            final(self)@ == ReplayOp::Continue,
    {
        let op = self.pending;
        self.pending = ReplayOp::Continue;
        op
    }

    /// Drop the pending action.
    pub fn clear(&mut self)
        ensures
            final(self)@ == ReplayOp::Continue,
    {
        self.pending = ReplayOp::Continue;
    }

    /// Apply a continue. A pending step or range step stays: mixed action lists
    /// end with a continue for the other threads, and the more specific action
    /// is the intended one.
    pub fn set_continue(&mut self)
        ensures
            final(self)@ == old(self)@,
    {
    }

    /// Apply a step.
    pub fn set_step(&mut self, tid: u64)
        ensures
            final(self)@ == ReplayOp::Step(tid),
    {
        self.pending = ReplayOp::Step(tid);
    }

    /// Apply a range step.
    pub fn set_range_step(&mut self, tid: u64, start: u64, end: u64)
        ensures
            final(self)@ == range_op(tid, start, end),
    {
        self.pending = if start == end {
            ReplayOp::Step(tid)
        } else {
            ReplayOp::RangeStep(tid, start, end)
        };
    }

    /// The pending action.
    pub fn pending(&self) -> (r: ReplayOp)
        ensures
            r == self@,
    {
        self.pending
    }
}

/// An action that a client can apply before it resumes.
pub enum Action {
    Continue,
    Step(u64),
    RangeStep(u64, u64, u64),
}

/// The pending operation after one more action.
pub open spec fn applied(pending: ReplayOp, action: Action) -> ReplayOp {
    match action {
        Action::Continue => pending,
        Action::Step(tid) => ReplayOp::Step(tid),
        Action::RangeStep(tid, start, end) => range_op(tid, start, end),
    }
}

/// What is pending after a list of actions that started from a clear state.
pub open spec fn pending_after(actions: Seq<Action>) -> ReplayOp
    decreases actions.len(),
{
    if actions.len() == 0 {
        ReplayOp::Continue
    } else {
        applied(pending_after(actions.drop_last()), actions.last())
    }
}

/// A resume replays the last specific action of its list, wherever continues
/// stand among the actions, and continues if there is none.
pub proof fn law_last_specific_action_wins(actions: Seq<Action>, n: int)
    requires
        0 <= n <= actions.len(),
        forall|i: int| n <= i < actions.len() ==> (#[trigger] actions[i]) is Continue,
    ensures
        n > 0 && !(actions[n - 1] is Continue) ==> pending_after(actions) == applied(
            ReplayOp::Continue,
            actions[n - 1],
        ),
        n == 0 ==> pending_after(actions) == ReplayOp::Continue,
    decreases actions.len(),
{
    if actions.len() > n {
        assert(actions[actions.len() - 1] is Continue);
        assert forall|i: int| n <= i < actions.drop_last().len() implies (
        #[trigger] actions.drop_last()[i]) is Continue by {
            assert(actions[i] is Continue);
        }
        law_last_specific_action_wins(actions.drop_last(), n);
    }
}

} // verus!
