//! Resuming, stepping, continuing, and where the target stands afterwards.

use vstd::prelude::*;

use crate::gdb::resume::{ReplayOp, ResumeState};
use crate::gdb::target::{in_range, is_range_run, plain_step, run_replay, GdbTarget};
use crate::gdb::xml::TargetFault;
use crate::target::error::DebugError;
use crate::target::mock::MockTarget;
use crate::target::process::{active_thread, active_thread_ids, thread_info, TtdProcess};
use crate::target::stop_reason::StopReason;
use crate::target::threads::law_catalog_knows_every_thread;
use crate::target::{DebugTarget, ModuleInfo, ThreadExtraInfoData};
use crate::ttd::engine::TtdEngine;
use crate::ttd::types::{
    TtdActiveThreadInfo, TtdExceptionEvent, TtdPosition, TtdThreadInfo,
};

verus! {

/// A range step is what the next resume carries out, with its thread and its
/// range; an empty range is a single step. The action is carried out once.
pub proof fn law_range_step_is_carried_out(
    applied: &mut ResumeState,
    resumed: &mut ResumeState,
    again: &mut ResumeState,
    tid: u64,
    start: u64,
    end: u64,
    op: ReplayOp,
    next: ReplayOp,
)
    requires
        call_ensures(ResumeState::set_range_step, (applied, tid, start, end), ()),
        *resumed == *final(applied),
        call_ensures(ResumeState::take, (resumed,), op),
        *again == *final(resumed),
        call_ensures(ResumeState::take, (again,), next),
    ensures
        start != end ==> op == ReplayOp::RangeStep(tid, start, end),
        start == end ==> op == ReplayOp::Step(tid),
        next == ReplayOp::Continue,
{
}

/// A step is what the next resume carries out, also when a continue for the
/// other threads follows it.
pub proof fn law_step_outlives_a_continue(
    applied: &mut ResumeState,
    continued: &mut ResumeState,
    resumed: &mut ResumeState,
    tid: u64,
    op: ReplayOp,
)
    requires
        call_ensures(ResumeState::set_step, (applied, tid), ()),
        *continued == *final(applied),
        call_ensures(ResumeState::set_continue, (continued,), ()),
        *resumed == *final(continued),
        call_ensures(ResumeState::take, (resumed,), op),
    ensures
        op == ReplayOp::Step(tid),
{
}

/// Nothing that was pending outlives a clear.
pub proof fn law_cleared_actions_are_gone(
    cleared: &mut ResumeState,
    resumed: &mut ResumeState,
    op: ReplayOp,
)
    requires
        call_ensures(ResumeState::clear, (cleared,), ()),
        *resumed == *final(cleared),
        call_ensures(ResumeState::take, (resumed,), op),
    ensures
        op == ReplayOp::Continue,
{
}

/// A session hands the client's range step on as it came.
pub proof fn law_session_hands_range_steps_on<T: DebugTarget>(
    applied: &mut GdbTarget<T>,
    resumed: &mut GdbTarget<T>,
    tid: u64,
    start: u64,
    end: u64,
    op: ReplayOp,
)
    requires
        call_ensures(GdbTarget::<T>::set_resume_action_range_step, (applied, tid, start, end), ()),
        *resumed == *final(applied),
        call_ensures(GdbTarget::<T>::take_resume_action, (resumed,), op),
    ensures
        start != end ==> op == ReplayOp::RangeStep(tid, start, end),
        start == end ==> op == ReplayOp::Step(tid),
        final(resumed)@.pending == ReplayOp::Continue,
        final(resumed)@.runner == old(applied)@.runner,
        final(resumed)@.checkpoints == old(applied)@.checkpoints,
{
}

/// A session hands the client's step on as it came.
pub proof fn law_session_hands_steps_on<T: DebugTarget>(
    applied: &mut GdbTarget<T>,
    continued: &mut GdbTarget<T>,
    resumed: &mut GdbTarget<T>,
    tid: u64,
    op: ReplayOp,
)
    requires
        call_ensures(GdbTarget::<T>::set_resume_action_step, (applied, tid), ()),
        *continued == *final(applied),
        call_ensures(GdbTarget::<T>::set_resume_action_continue, (continued,), ()),
        *resumed == *final(continued),
        call_ensures(GdbTarget::<T>::take_resume_action, (resumed,), op),
    ensures
        op == ReplayOp::Step(tid),
{
}

/// A session forgets the client's actions when they are cleared.
pub proof fn law_session_forgets_cleared_actions<T: DebugTarget>(
    cleared: &mut GdbTarget<T>,
    resumed: &mut GdbTarget<T>,
    op: ReplayOp,
)
    requires
        call_ensures(GdbTarget::<T>::clear_resume_actions, (cleared,), ()),
        *resumed == *final(cleared),
        call_ensures(GdbTarget::<T>::take_resume_action, (resumed,), op),
    ensures
        op == ReplayOp::Continue,
{
}

/// Selecting a thread does not move a target.
pub open spec fn selecting_stays<T: DebugTarget>() -> bool {
    forall|a: T, id: u64, b: T| #[trigger] a.may_select(id, b) ==> b.now() == a.now()
}

/// On a target whose step back never moves to a later position, a reverse step
/// does not end after where it started.
pub proof fn law_reverse_step_never_moves_on<T: DebugTarget>(
    backend: &mut T,
    tid: u64,
    budget: u64,
    r: (Result<StopReason, DebugError>, bool),
)
    requires
        selecting_stays::<T>(),
        forall|a: T, b: T, q: Result<StopReason, DebugError>| #[trigger]
            a.may_step_back(b, q) ==> !a.now().precedes(b.now()),
        call_ensures(run_replay::<T>, (backend, ReplayOp::BackwardStep(tid), budget), r),
    ensures
        r.1,
        !old(backend).now().precedes(final(backend).now()),
{
}

/// On a target whose step never moves to an earlier position, a step does not
/// end before where it started.
pub proof fn law_step_never_moves_back<T: DebugTarget>(
    backend: &mut T,
    tid: u64,
    budget: u64,
    r: (Result<StopReason, DebugError>, bool),
)
    requires
        selecting_stays::<T>(),
        forall|a: T, b: T, q: Result<StopReason, DebugError>| #[trigger]
            a.may_step(b, q) ==> !b.now().precedes(a.now()),
        call_ensures(run_replay::<T>, (backend, ReplayOp::Step(tid), budget), r),
    ensures
        r.1,
        !final(backend).now().precedes(old(backend).now()),
{
}

/// On a target that runs backwards to earlier positions only, a reverse
/// continue does not end after where it started.
pub proof fn law_reverse_continue_never_moves_on<T: DebugTarget>(
    backend: &mut T,
    budget: u64,
    r: (Result<StopReason, DebugError>, bool),
)
    requires
        forall|a: T, b: T, q: Result<StopReason, DebugError>| #[trigger]
            a.may_continue_backward(b, q) ==> !a.now().precedes(b.now()),
        call_ensures(run_replay::<T>, (backend, ReplayOp::BackwardContinue, budget), r),
    ensures
        r.1,
        !old(backend).now().precedes(final(backend).now()),
{
}

/// On a target that runs forwards to later positions only, a continue does not
/// end before where it started.
pub proof fn law_continue_never_moves_back<T: DebugTarget>(
    backend: &mut T,
    budget: u64,
    r: (Result<StopReason, DebugError>, bool),
)
    requires
        forall|a: T, b: T, q: Result<StopReason, DebugError>| #[trigger]
            a.may_continue_forward(b, q) ==> !b.now().precedes(a.now()),
        call_ensures(run_replay::<T>, (backend, ReplayOp::Continue, budget), r),
    ensures
        r.1,
        !final(backend).now().precedes(old(backend).now()),
{
}

/// A single step and a reverse step run on the thread that the client named: a
/// target whose selection holds until it steps stands on that thread then.
pub proof fn law_steps_run_on_their_thread<T: DebugTarget>(
    backend: &mut T,
    tid: u64,
    backward: bool,
    budget: u64,
    r: (Result<StopReason, DebugError>, bool),
)
    requires
        forall|a: T, id: u64, b: T| #[trigger] a.may_select(id, b) ==> b.current_thread()
            == Some(id),
        forall|a: T, b: T, q: Result<StopReason, DebugError>| #[trigger]
            a.may_step(b, q) ==> b.current_thread() == a.current_thread(),
        forall|a: T, b: T, q: Result<StopReason, DebugError>| #[trigger]
            a.may_step_back(b, q) ==> b.current_thread() == a.current_thread(),
        call_ensures(
            run_replay::<T>,
            (
                backend,
                if backward {
                    ReplayOp::BackwardStep(tid)
                } else {
                    ReplayOp::Step(tid)
                },
                budget,
            ),
            r,
        ),
    ensures
        final(backend).current_thread() == Some(tid),
{
}

/// On the target without a trace, a step moves one step on, and a reverse step
/// from there restores the position.
pub proof fn law_mock_step_and_reverse_step(
    forth: &mut MockTarget,
    back: &mut MockTarget,
    tid: u64,
    budget: u64,
    r: (Result<StopReason, DebugError>, bool),
    q: (Result<StopReason, DebugError>, bool),
)
    requires
        call_ensures(run_replay::<MockTarget>, (forth, ReplayOp::Step(tid), budget), r),
        *back == *final(forth),
        call_ensures(run_replay::<MockTarget>, (back, ReplayOp::BackwardStep(tid), budget), q),
        old(forth).now().steps < u64::MAX,
    ensures
        final(forth).now().sequence == old(forth).now().sequence,
        final(forth).now().steps == old(forth).now().steps + 1,
        final(back).now() == old(forth).now(),
        r.0 is Ok && r.0->Ok_0 == StopReason::StepComplete && r.1,
        q.0 is Ok && q.0->Ok_0 == StopReason::StepComplete && q.1,
{
}

/// On the target without a trace, a reverse step goes back one step, and stays
/// at the first one.
pub proof fn law_mock_reverse_step(
    backend: &mut MockTarget,
    tid: u64,
    budget: u64,
    r: (Result<StopReason, DebugError>, bool),
)
    requires
        call_ensures(run_replay::<MockTarget>, (backend, ReplayOp::BackwardStep(tid), budget), r),
    ensures
        final(backend).now().sequence == old(backend).now().sequence,
        old(backend).now().steps > 0 ==> final(backend).now().steps + 1
            == old(backend).now().steps,
        old(backend).now().steps == 0 ==> final(backend).now().steps == 0,
        final(backend).current_thread() == Some(tid),
{
}

/// A thread's program counter lies in a range.
pub open spec fn pc_within<T: DebugTarget>(s: T, tid: u64, start: u64, end: u64) -> bool {
    s.state_of(Some(tid)) matches Some((regs, teb)) && start <= regs.rip && regs.rip < end
}

/// A range step is over exactly if the thread's program counter is out of the
/// range, or the last step stopped for a reason of its own; that reason is what
/// is reported. It steps at least once. While it is not over, it has taken as
/// many steps as it was allowed to and one more. `count` counts the steps that a
/// backend has taken.
pub proof fn law_range_step_steps_through_the_range<T: DebugTarget>(
    backend: &mut T,
    tid: u64,
    start: u64,
    end: u64,
    budget: u64,
    r: (Result<StopReason, DebugError>, bool),
    count: spec_fn(T) -> int,
)
    requires
        call_ensures(run_replay::<T>, (backend, ReplayOp::RangeStep(tid, start, end), budget), r),
        forall|a: T, id: u64, b: T| #[trigger] a.may_select(id, b) ==> count(b) == count(a),
        forall|a: T, b: T, q: Result<StopReason, DebugError>| #[trigger]
            a.may_step(b, q) ==> count(b) == count(a) + 1,
    ensures
        r.1 <==> !pc_within(*final(backend), tid, start, end) || r.0 is Err || r.0->Ok_0
            != StopReason::StepComplete,
        count(*old(backend)) + 1 <= count(*final(backend)) <= count(*old(backend)) + budget + 1,
        !r.1 ==> count(*final(backend)) == count(*old(backend)) + budget + 1,
{
    let (states, results) = choose|
        states: Seq<T>,
        results: Seq<Result<StopReason, DebugError>>,
    |
        {
            &&& #[trigger] is_range_run(states, results, tid, start, end)
            &&& old(backend).may_select(tid, states[0])
            &&& states.last() == *final(backend)
            &&& r.0 == results.last()
            &&& !r.1 ==> results.len() == budget + 1
            &&& results.len() <= budget + 1
        };
    lemma_counted(states, results, tid, start, end, count, results.len());
}

proof fn lemma_counted<T: DebugTarget>(
    states: Seq<T>,
    results: Seq<Result<StopReason, DebugError>>,
    tid: u64,
    start: u64,
    end: u64,
    count: spec_fn(T) -> int,
    n: nat,
)
    requires
        is_range_run(states, results, tid, start, end),
        forall|a: T, b: T, q: Result<StopReason, DebugError>| #[trigger]
            a.may_step(b, q) ==> count(b) == count(a) + 1,
        n < states.len(),
    ensures
        count(states[n as int]) == count(states[0]) + n,
    decreases n,
{
    if n > 0 {
        lemma_counted(states, results, tid, start, end, count, (n - 1) as nat);
        assert(states[n - 1].may_step(states[n as int], results[n - 1]));
    }
}

/// A range step goes on only through the range and only past plain steps: where
/// every state that is out of the range, or that a step ends in with a reason of
/// its own, is marked, and marks are never lost, the target was not marked
/// before the last step.
pub proof fn law_range_step_stops_at_the_first_stop<T: DebugTarget>(
    backend: &mut T,
    tid: u64,
    start: u64,
    end: u64,
    budget: u64,
    r: (Result<StopReason, DebugError>, bool),
    stops: spec_fn(T) -> nat,
)
    requires
        call_ensures(run_replay::<T>, (backend, ReplayOp::RangeStep(tid, start, end), budget), r),
        forall|a: T, id: u64, b: T| #[trigger] a.may_select(id, b) ==> stops(b) == stops(a),
        forall|a: T, b: T, q: Result<StopReason, DebugError>| #[trigger]
            a.may_step(b, q) ==> stops(b) == stops(a) + (if q is Err || q->Ok_0
                != StopReason::StepComplete || !pc_within(b, tid, start, end) {
                1nat
            } else {
                0
            }),
    ensures
        r.1 ==> stops(*final(backend)) == stops(*old(backend)) + 1,
        !r.1 ==> stops(*final(backend)) == stops(*old(backend)),
{
    let (states, results) = choose|
        states: Seq<T>,
        results: Seq<Result<StopReason, DebugError>>,
    |
        {
            &&& #[trigger] is_range_run(states, results, tid, start, end)
            &&& old(backend).may_select(tid, states[0])
            &&& states.last() == *final(backend)
            &&& r.0 == results.last()
            &&& !r.1 ==> results.len() == budget + 1
            &&& results.len() <= budget + 1
        };
    let n = results.len() as int;
    lemma_unmarked(states, results, tid, start, end, stops, (n - 1) as nat);
    assert(states[n - 1].may_step(states[n], results[n - 1]));
}

proof fn lemma_unmarked<T: DebugTarget>(
    states: Seq<T>,
    results: Seq<Result<StopReason, DebugError>>,
    tid: u64,
    start: u64,
    end: u64,
    stops: spec_fn(T) -> nat,
    n: nat,
)
    requires
        is_range_run(states, results, tid, start, end),
        forall|a: T, b: T, q: Result<StopReason, DebugError>| #[trigger]
            a.may_step(b, q) ==> stops(b) == stops(a) + (if q is Err || q->Ok_0
                != StopReason::StepComplete || !pc_within(b, tid, start, end) {
                1nat
            } else {
                0
            }),
        n < results.len(),
    ensures
        stops(states[n as int]) == stops(states[0]),
    decreases n,
{
    if n > 0 {
        lemma_unmarked(states, results, tid, start, end, stops, (n - 1) as nat);
        assert(states[n - 1].may_step(states[n as int], results[n - 1]));
        assert(in_range(states[n as int], tid, start, end));
        assert(plain_step(results[n - 1]));
    }
}

/// On the target without a trace the program counter never moves: a range step
/// of a known thread within the range takes all the steps that it may, and any
/// other takes one.
pub proof fn law_mock_range_step(
    backend: &mut MockTarget,
    tid: u64,
    start: u64,
    end: u64,
    budget: u64,
    r: (Result<StopReason, DebugError>, bool),
)
    requires
        call_ensures(
            run_replay::<MockTarget>,
            (backend, ReplayOp::RangeStep(tid, start, end), budget),
            r,
        ),
        backend@.position.steps + budget < u64::MAX,
    ensures
        ({
            let within = old(backend)@.thread_ids.contains(tid) && start
                <= old(backend)@.regs.rip < end;
            &&& r.0 is Ok && r.0->Ok_0 == StopReason::StepComplete
            &&& r.1 == !within
            &&& within ==> final(backend).now().steps == old(backend).now().steps + budget + 1
            &&& !within ==> final(backend).now().steps == old(backend).now().steps + 1
        }),
{
    let (states, results) = choose|
        states: Seq<MockTarget>,
        results: Seq<Result<StopReason, DebugError>>,
    |
        {
            &&& #[trigger] is_range_run(states, results, tid, start, end)
            &&& old(backend).may_select(tid, states[0])
            &&& states.last() == *final(backend)
            &&& r.0 == results.last()
            &&& !r.1 ==> results.len() == budget + 1
            &&& results.len() <= budget + 1
        };
    lemma_mock_run(states, results, tid, start, end, results.len());
    let n = results.len() as int;
    assert(states[n - 1].may_step(states[n], results[n - 1]));
    if n > 1 {
        lemma_mock_run(states, results, tid, start, end, 1);
        assert(in_range(states[1], tid, start, end));
    }
}

proof fn lemma_mock_run(
    states: Seq<MockTarget>,
    results: Seq<Result<StopReason, DebugError>>,
    tid: u64,
    start: u64,
    end: u64,
    n: nat,
)
    requires
        is_range_run(states, results, tid, start, end),
        n < states.len(),
        states[0]@.position.steps + n <= u64::MAX,
    ensures
        states[n as int]@.position.steps == states[0]@.position.steps + n,
        states[n as int]@.regs == states[0]@.regs,
        states[n as int]@.thread_ids == states[0]@.thread_ids,
    decreases n,
{
    if n > 0 {
        lemma_mock_run(states, results, tid, start, end, (n - 1) as nat);
        assert(states[n - 1].may_step(states[n as int], results[n - 1]));
    }
}

/// Positions are ordered by sequence, and within a sequence by steps.
pub proof fn law_position_order(a: TtdPosition, b: TtdPosition, r: bool)
    requires
        call_ensures(TtdPosition::is_before, (a, b), r),
    ensures
        a.sequence < b.sequence ==> r,
        a.sequence > b.sequence ==> !r,
        a.sequence == b.sequence ==> r == (a.steps < b.steps),
{
}

/// A jump goes where it is asked to within the trace, and else to the end of the
/// trace that is nearer.
pub proof fn law_jumps(
    p: &mut TtdProcess,
    to: TtdPosition,
    r: StopReason,
    after: TtdProcess,
    at: TtdPosition,
)
    requires
        !p@.facts.last.precedes(p@.facts.first),
        call_ensures(TtdProcess::goto, (p, to), r),
        after == *final(p),
        call_ensures(TtdProcess::position, (&after,), at),
    ensures
        ({
            let (first, last) = (old(p)@.facts.first, old(p)@.facts.last);
            let early = to.sequence < first.sequence || to.sequence == first.sequence && to.steps
                < first.steps;
            let late = to.sequence > last.sequence || to.sequence == last.sequence && to.steps
                > last.steps;
            &&& r == StopReason::PositionReached
            &&& early ==> at == first
            &&& late ==> at == last
            &&& !early && !late ==> at == to
            &&& after@.watch == old(p)@.watch && after@.current_thread == old(p)@.current_thread
        }),
{
}

/// A trace opens at its first position and on its first thread, without
/// breakpoints, and knows its ends, threads, exceptions and modules.
pub proof fn law_open_traces(
    first: TtdPosition,
    last: TtdPosition,
    threads: Vec<TtdThreadInfo>,
    exceptions: Vec<TtdExceptionEvent>,
    modules: Vec<ModuleInfo>,
    engine: TtdEngine,
    p: TtdProcess,
    at: TtdPosition,
    span: (TtdPosition, TtdPosition),
    current: Option<u64>,
    known: Vec<TtdExceptionEvent>,
)
    requires
        call_ensures(TtdEngine::open, (first, last, threads, exceptions, modules), engine),
        call_ensures(TtdProcess::open, (engine,), p),
        call_ensures(TtdProcess::position, (&p,), at),
        call_ensures(TtdProcess::lifetime, (&p,), span),
        call_ensures(TtdProcess::current_thread_id, (&p,), current),
        call_ensures(TtdProcess::exceptions, (&p,), known),
    ensures
        at == first,
        span == (first, last),
        threads@.len() > 0 ==> current == Some(threads@[0].os_thread_id as u64),
        threads@.len() == 0 ==> current is None,
        known@ == exceptions@,
        p@.watch.logical.list.len() == 0,
        p@.watch.physical == Set::<crate::target::watchpoint::WatchpointKey>::empty(),
{
}

/// The current thread is the one that was made so, and registers are asked of
/// the thread that was named, else of the current one. A thread that the trace
/// does not hold has none.
pub proof fn law_thread_queries(
    p: &mut TtdProcess,
    id: u64,
    after: TtdProcess,
    current: Option<u64>,
    named: Option<u64>,
    asked: Option<u32>,
)
    requires
        p.wf(),
        call_ensures(TtdProcess::set_current_thread, (p, id), ()),
        after == *final(p),
        call_ensures(TtdProcess::current_thread_id, (&after,), current),
        call_ensures(TtdProcess::queried_thread, (&after, named), asked),
    ensures
        current == Some(id),
        after@.position == old(p)@.position,
        ({
            let thread = if named is Some {
                named->0
            } else {
                id
            };
            let threads = old(p)@.facts.threads;
            let known = exists|i: int|
                0 <= i < threads.len() && (#[trigger] threads[i]).os_thread_id == thread;
            &&& known ==> asked is Some && asked->0 == thread
            &&& !known ==> asked is None
        }),
{
    old(p).lemma_contents_valid();
    let thread = if named is Some {
        named->0
    } else {
        id
    };
    if thread <= u32::MAX {
        law_catalog_knows_every_thread(old(p)@.facts.threads, thread as u32);
    }
}

/// The active threads are listed in the engine's order, and what is said of one
/// of them is what the engine says of the first with its id.
pub proof fn law_active_threads(
    active: &[TtdActiveThreadInfo],
    ids: Vec<u64>,
    id: u64,
    teb: u64,
    r: Option<ThreadExtraInfoData>,
)
    requires
        call_ensures(active_thread_ids, (active,), ids),
        call_ensures(thread_info, (active, id, teb), r),
    ensures
        ids@.len() == active@.len(),
        forall|i: int|
            0 <= i < ids@.len() ==> #[trigger] ids@[i] == active@[i].thread.os_thread_id,
        r is None <==> forall|i: int|
            0 <= i < active@.len() ==> (#[trigger] active@[i]).thread.os_thread_id != id,
        forall|i: int|
            0 <= i < active@.len() && (#[trigger] active@[i]).thread.os_thread_id == id && (
            forall|j: int|
                0 <= j < i ==> (#[trigger] active@[j]).thread.os_thread_id != id) ==> r == Some(
                ThreadExtraInfoData {
                    unique_id: active@[i].thread.unique_id,
                    current_position: active@[i].current_position,
                    teb,
                },
            ),
{
    lemma_active_thread(active@, id);
}

proof fn lemma_active_thread(active: Seq<TtdActiveThreadInfo>, id: u64)
    ensures
        active_thread(active, id) is None ==> forall|i: int|
            0 <= i < active.len() ==> (#[trigger] active[i]).thread.os_thread_id != id,
        active_thread(active, id) matches Some(t) ==> t.thread.os_thread_id == id && exists|i: int|
            0 <= i < active.len() && #[trigger] active[i] == t && forall|j: int|
                0 <= j < i ==> (#[trigger] active[j]).thread.os_thread_id != id,
    decreases active.len(),
{
    if active.len() > 0 && active[0].thread.os_thread_id != id {
        let rest = active.skip(1);
        lemma_active_thread(rest, id);
        match active_thread(rest, id) {
            Some(t) => {
                let i = choose|i: int|
                    0 <= i < rest.len() && #[trigger] rest[i] == t && forall|j: int|
                        0 <= j < i ==> (#[trigger] rest[j]).thread.os_thread_id != id;
                assert(active[i + 1] == t);
                assert forall|j: int| 0 <= j < i + 1 implies (
                #[trigger] active[j]).thread.os_thread_id != id by {
                    if j > 0 {
                        assert(rest[j - 1] == active[j]);
                    }
                }
            },
            None => {
                assert forall|j: int| 0 <= j < active.len() implies (
                #[trigger] active[j]).thread.os_thread_id != id by {
                    if j > 0 {
                        assert(rest[j - 1] == active[j]);
                    }
                }
            },
        }
    } else if active.len() > 0 {
        assert(active[0] == active_thread(active, id)->0);
    }
}

/// Cursors are moved to the debug position, and only if they stand elsewhere.
pub proof fn law_cursor_moves(
    p: &mut TtdProcess,
    seek: Option<TtdPosition>,
    noted: &mut TtdProcess,
    landed: TtdPosition,
    again: &mut TtdProcess,
    next: Option<TtdPosition>,
)
    requires
        call_ensures(TtdProcess::begin_query, (p,), seek),
        *noted == *final(p),
        call_ensures(TtdProcess::note_seek, (noted, landed), ()),
        *again == *final(noted),
        call_ensures(TtdProcess::begin_query, (again,), next),
    ensures
        seek matches Some(to) ==> to == old(p)@.position,
        landed == old(p)@.position ==> next is None,
        landed != old(p)@.position ==> next == Some(old(p)@.position),
        final(again)@.position == old(p)@.position,
        old(p)@.stats.queries < u64::MAX - 1 ==> final(again)@.stats.queries
            == old(p)@.stats.queries + 2,
        old(p)@.stats.cursor_seeks < u64::MAX ==> final(again)@.stats.cursor_seeks
            == old(p)@.stats.cursor_seeks + 1,
{
}

/// After a step or a continue that failed, the cursor is moved again before it
/// is used.
pub proof fn law_failed_replays_forget_the_cursor(
    p: &mut TtdProcess,
    q: &mut TtdProcess,
    after: TtdProcess,
    next: &mut TtdProcess,
    r: Option<TtdPosition>,
    s: Option<TtdPosition>,
)
    requires
        call_ensures(TtdProcess::fail_step, (p,), ()),
        after == *final(p),
        call_ensures(TtdProcess::begin_step, (&after,), r),
        call_ensures(TtdProcess::fail_continue, (q,), ()),
        *next == *final(q),
        call_ensures(TtdProcess::begin_query, (next,), s),
    ensures
        r == Some(old(p)@.position),
        s == Some(old(q)@.position),
{
}

/// Memory is what the backend gives, from the start of the buffer on; not a
/// single byte of a request for some is a fault. Threads are listed in order,
/// without the number 0.
pub proof fn law_memory_and_threads<T: DebugTarget>(
    t: GdbTarget<T>,
    addr: u64,
    data: &mut [u8],
    r: Result<usize, TargetFault>,
    threads: Vec<u64>,
    id: u64,
)
    requires
        call_ensures(GdbTarget::<T>::read_addrs, (&t, addr, data), r),
        call_ensures(GdbTarget::<T>::list_active_threads, (&t,), threads),
    ensures
        ({
            let got = t@.backend().memory_at(addr, old(data)@.len());
            &&& r is Err <==> got.len() == 0 && old(data)@.len() > 0
            &&& r matches Ok(n) ==> n == got.len() && forall|i: int|
                0 <= i < n ==> #[trigger] final(data)@[i] == got[i]
        }),
        threads@.contains(id) <==> id != 0 && t@.backend().active_threads().contains(id),
        t@.backend().active_threads().all(|x: u64| x != 0) ==> threads@
            == t@.backend().active_threads(),
{
    let got = t@.backend().memory_at(addr, old(data)@.len());
    if r is Ok {
        assert forall|i: int| 0 <= i < r->Ok_0 implies #[trigger] final(data)@[i] == got[i] by {
            assert(final(data)@.take(got.len() as int)[i] == got[i]);
        }
    }
    lemma_without_zero(t@.backend().active_threads(), id);
}

proof fn lemma_without_zero(ids: Seq<u64>, id: u64)
    ensures
        ids.all(|x: u64| x != 0) ==> ids.filter(|x: u64| x != 0) == ids,
        ids.filter(|x: u64| x != 0).contains(id) <==> id != 0 && ids.contains(id),
    decreases ids.len(),
{
    reveal(Seq::filter);
    let keep = |x: u64| x != 0;
    let kept = ids.filter(keep);
    if ids.len() > 0 {
        let front = ids.drop_last();
        lemma_without_zero(front, id);
        let rest = front.filter(keep);
        if ids.all(keep) {
            assert forall|i: int| 0 <= i < front.len() implies keep(#[trigger] front[i]) by {
                assert(keep(ids[i]));
            }
            assert(keep(ids[ids.len() - 1]));
            assert(rest.push(ids.last()) =~= ids);
        }
        if ids.contains(id) && id != ids.last() {
            let i = choose|i: int| 0 <= i < ids.len() && ids[i] == id;
            assert(front[i] == id);
        }
        if front.contains(id) {
            let i = choose|i: int| 0 <= i < front.len() && front[i] == id;
            assert(ids[i] == id);
        }
        if id == ids.last() {
            assert(ids[ids.len() - 1] == id);
            if id != 0 {
                assert(kept[rest.len() as int] == id);
            }
        }
        if rest.contains(id) {
            let i = choose|i: int| 0 <= i < rest.len() && rest[i] == id;
            assert(kept[i] == id);
        }
        if kept.contains(id) {
            let i = choose|i: int| 0 <= i < kept.len() && kept[i] == id;
            if i < rest.len() {
                assert(rest[i] == id);
            }
        }
    } else {
        assert(kept =~= ids);
    }
}

/// Memory and registers cannot be written, and nothing can be attached to.
pub proof fn law_replay_is_read_only<T: DebugTarget>(
    t: GdbTarget<T>,
    r: (Result<(), TargetFault>, Result<(), TargetFault>, Result<(), TargetFault>),
    q: Result<(), TargetFault>,
)
    requires
        call_ensures(GdbTarget::<T>::write_registers, (&t,), r.0),
        call_ensures(GdbTarget::<T>::write_register, (&t,), r.1),
        call_ensures(GdbTarget::<T>::write_addrs, (&t,), r.2),
        call_ensures(GdbTarget::<T>::attach, (&t,), q),
    ensures
        r.0 is Err && r.1 is Err && r.2 is Err && q is Err,
{
}

} // verus!
