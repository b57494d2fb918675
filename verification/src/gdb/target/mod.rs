//! The protocol's view of a debug target.
//!
//! Registers, memory and threads, breakpoints and watchpoints, forward and
//! reverse resume, restart, and the packets that the stub answers itself, all
//! mapped onto a [`DebugTarget`].

pub mod base;
pub mod breakpoints;
pub mod inspect;
pub mod unknown;

use gdbstub::common::Signal;
use vstd::prelude::*;

use super::checkpoint::{CheckpointTable, Checkpoints};
use super::mapping::{
    map_stop_reason, stop_reply, stop_thread, stop_tid, StopReply, SIGINT, SIGTRAP,
};
use super::resume::{range_op, ReplayOp, ResumeState};
use super::runner::{Runner, TargetRunner, Waited, WorkerPanic, TEARDOWN_WAIT_MS};
use crate::target::error::DebugError;
use crate::target::stop_reason::StopReason;
use crate::target::DebugTarget;

verus! {

/// The program counter of a thread lies in `[start, end)`.
pub open spec fn in_range<T: DebugTarget>(s: T, tid: u64, start: u64, end: u64) -> bool {
    s.state_of(Some(tid)) matches Some((regs, teb)) && start <= regs.rip < end
}

/// A step that did nothing but complete: a range step may go on after it.
pub open spec fn plain_step(r: Result<StopReason, DebugError>) -> bool {
    r == Ok::<StopReason, DebugError>(StopReason::StepComplete)
}

/// A run of single steps: each state follows from the one before by a step, and
/// between two steps the program counter lies in the range and there was no
/// other reason to stop.
pub open spec fn is_range_run<T: DebugTarget>(
    states: Seq<T>,
    results: Seq<Result<StopReason, DebugError>>,
    tid: u64,
    start: u64,
    end: u64,
) -> bool {
    &&& results.len() > 0
    &&& states.len() == results.len() + 1
    &&& forall|i: int|
        0 <= i < results.len() ==> states[i].may_step(states[i + 1], #[trigger] results[i])
    &&& forall|i: int|
        0 < i < results.len() ==> in_range(#[trigger] states[i], tid, start, end)
    &&& forall|i: int| 0 <= i < results.len() - 1 ==> plain_step(#[trigger] results[i])
}

/// A run of steps is at its end: the program counter has left the range, or
/// the last step stopped for a reason of its own.
pub open spec fn range_left<T: DebugTarget>(
    after: T,
    tid: u64,
    start: u64,
    end: u64,
    r: Result<StopReason, DebugError>,
) -> bool {
    !in_range(after, tid, start, end) || !plain_step(r)
}

/// Step until the program counter leaves the range or a step stops for a reason
/// of its own, but `budget + 1` times at most. The second result says whether
/// the range step is finished.
pub fn step_range<T: DebugTarget>(
    backend: &mut T,
    tid: u64,
    start: u64,
    end: u64,
    budget: u64,
) -> (r: (Result<StopReason, DebugError>, bool))
    ensures
        r.1 == range_left(*final(backend), tid, start, end, r.0),
        exists|states: Seq<T>, results: Seq<Result<StopReason, DebugError>>|
            {
                &&& #[trigger] is_range_run(states, results, tid, start, end)
                &&& states[0] == *old(backend)
                &&& states.last() == *final(backend)
                &&& r.0 == results.last()
                &&& results.len() <= budget + 1
                &&& !r.1 ==> results.len() == budget + 1
            },
{
    let ghost mut states: Seq<T> = seq![*backend];
    let mut last = backend.step();
    let ghost mut results: Seq<Result<StopReason, DebugError>> = seq![last];
    proof {
        states = states.push(*backend);
    }
    let mut left = budget;
    loop
        invariant
            is_range_run(states, results, tid, start, end),
            states[0] == *old(backend),
            states.last() == *backend,
            last == results.last(),
            results.len() + left == budget + 1,
        decreases left,
    {
        let inside = match backend.thread_state(Some(tid)) {
            Some((regs, _)) => regs.rip >= start && regs.rip < end,
            None => false,
        };
        let plain = match &last {
            Ok(StopReason::StepComplete) => true,
            _ => false,
        };
        if !inside || !plain {
            return (last, true);
        }
        if left == 0 {
            return (last, false);
        }
        let ghost before = *backend;
        let next = backend.step();
        proof {
            let longer = states.push(*backend);
            let more = results.push(next);
            assert forall|i: int| 0 <= i < more.len() implies longer[i].may_step(
                longer[i + 1],
                #[trigger] more[i],
            ) by {
                if i < results.len() {
                    assert(states[i].may_step(states[i + 1], results[i]));
                }
            }
            assert forall|i: int| 0 < i < more.len() implies in_range(
                #[trigger] longer[i],
                tid,
                start,
                end,
            ) by {
                if i < results.len() {
                    assert(in_range(states[i], tid, start, end));
                }
            }
            assert forall|i: int| 0 <= i < more.len() - 1 implies plain_step(
                #[trigger] more[i],
            ) by {
                assert(more[i] == results[i]);
            }
            states = longer;
            results = more;
        }
        last = next;
        left = left - 1;
    }
}

/// An operation can end in this state with this result. The flag says whether
/// it is finished: a range step that ran out of its budget goes on with another
/// range of steps.
pub open spec fn may_replay<T: DebugTarget>(
    before: T,
    op: ReplayOp,
    budget: u64,
    after: T,
    r: Result<StopReason, DebugError>,
    finished: bool,
) -> bool {
    match op {
        ReplayOp::Continue => finished && before.may_continue_forward(after, r),
        ReplayOp::BackwardContinue => finished && before.may_continue_backward(after, r),
        ReplayOp::Step(tid) => finished && exists|s: T| #[trigger]
            before.may_select(tid, s) && s.may_step(after, r),
        ReplayOp::BackwardStep(tid) => finished && exists|s: T| #[trigger]
            before.may_select(tid, s) && s.may_step_back(after, r),
        ReplayOp::RangeStep(tid, start, end) => {
            &&& finished == range_left(after, tid, start, end, r)
            &&& exists|states: Seq<T>, results: Seq<Result<StopReason, DebugError>>|
                {
                    &&& #[trigger] is_range_run(states, results, tid, start, end)
                    &&& before.may_select(tid, states[0])
                    &&& states.last() == after
                    &&& r == results.last()
                    &&& results.len() <= budget + 1
                    &&& !finished ==> results.len() == budget + 1
                }
        },
    }
}

/// Carry out a resume on the backend.
pub fn run_replay<T: DebugTarget>(backend: &mut T, op: ReplayOp, budget: u64) -> (r: (
    Result<StopReason, DebugError>,
    bool,
))
    ensures
        may_replay(*old(backend), op, budget, *final(backend), r.0, r.1),
{
    match op {
        ReplayOp::Continue => (backend.continue_forward(), true),
        ReplayOp::Step(tid) => {
            backend.set_current_thread(tid);
            assert(old(backend).may_select(tid, *backend));
            (backend.step(), true)
        },
        ReplayOp::BackwardContinue => (backend.continue_backward(), true),
        ReplayOp::BackwardStep(tid) => {
            backend.set_current_thread(tid);
            assert(old(backend).may_select(tid, *backend));
            (backend.step_back(), true)
        },
        ReplayOp::RangeStep(tid, start, end) => {
            backend.set_current_thread(tid);
            step_range(backend, tid, start, end, budget)
        },
    }
}

/// Two runs of steps, one where the other ended unfinished, are one run: a range
/// step can be carried out in portions.
pub proof fn law_range_runs_join<T: DebugTarget>(
    states: Seq<T>,
    results: Seq<Result<StopReason, DebugError>>,
    more_states: Seq<T>,
    more_results: Seq<Result<StopReason, DebugError>>,
    tid: u64,
    start: u64,
    end: u64,
)
    requires
        is_range_run(states, results, tid, start, end),
        is_range_run(more_states, more_results, tid, start, end),
        states.last() == more_states[0],
        !range_left(states.last(), tid, start, end, results.last()),
    ensures
        is_range_run(states + more_states.skip(1), results + more_results, tid, start, end),
{
    let all = states + more_states.skip(1);
    let n = results.len() as int;
    assert forall|i: int| 0 <= i < results.len() + more_results.len() implies all[i].may_step(
        all[i + 1],
        #[trigger] (results + more_results)[i],
    ) by {
        if i < n {
            assert(states[i].may_step(states[i + 1], results[i]));
        } else {
            assert(more_states[i - n].may_step(more_states[i - n + 1], more_results[i - n]));
        }
    }
    assert forall|i: int| 0 < i < results.len() + more_results.len() implies in_range(
        #[trigger] all[i],
        tid,
        start,
        end,
    ) by {
        if i < n {
            assert(in_range(states[i], tid, start, end));
        } else if i > n {
            assert(in_range(more_states[i - n], tid, start, end));
        }
    }
    assert forall|i: int| 0 <= i < results.len() + more_results.len() - 1 implies plain_step(
        #[trigger] (results + more_results)[i],
    ) by {
        if i < n - 1 {
            assert(plain_step(results[i]));
        } else if i >= n {
            assert(plain_step(more_results[i - n]));
        }
    }
}

/// The state of the protocol around a backend.
pub struct GdbTarget<T> {
    runner: TargetRunner<T, StopReply>,
    exe_path: Option<String>,
    checkpoints: CheckpointTable,
    resume: ResumeState,
}

/// The contents of a [`GdbTarget`].
pub struct GdbState<T> {
    pub runner: Runner<T, StopReply>,
    pub exe_path: Option<Seq<char>>,
    pub checkpoints: Checkpoints,
    pub pending: ReplayOp,
}

impl<T> GdbState<T> {
    /// The backend, while no worker has it.
    pub open spec fn backend(self) -> T {
        self.runner.backend->0
    }

    /// The same state with another backend at home.
    pub open spec fn with_backend(self, backend: T) -> GdbState<T> {
        GdbState { runner: Runner { backend: Some(backend), ..self.runner }, ..self }
    }

    /// The same state with another runner.
    pub open spec fn with_runner(self, runner: Runner<T, StopReply>) -> GdbState<T> {
        GdbState { runner, ..self }
    }
}

/// The text of an optional string.
pub open spec fn optional_text(s: Option<String>) -> Option<Seq<char>> {
    match s {
        Some(t) => Some(t@),
        None => None,
    }
}

impl<T> View for GdbTarget<T> {
    type V = GdbState<T>;

    closed spec fn view(&self) -> GdbState<T> {
        GdbState {
            runner: self.runner@,
            exe_path: optional_text(self.exe_path),
            checkpoints: self.checkpoints@,
            pending: self.resume@,
        }
    }
}

/// The stop reply that a finished job comes to. A worker that panicked is
/// reported as a trap.
pub open spec fn delivered<T: DebugTarget>(
    backend: Option<T>,
    outcome: Result<StopReply, WorkerPanic>,
) -> StopReply {
    match outcome {
        Ok(reply) => reply,
        Err(_) => StopReply::SignalWithThread {
            tid: match backend {
                Some(b) => stop_thread(b.current_thread(), b.active_threads()),
                None => 1,
            },
            signal: Signal(SIGTRAP),
        },
    }
}

/// What waiting for a stop comes to.
pub enum WaitedStop {
    Stopped(StopReply),
    Running,
    Nothing,
}

impl<T: DebugTarget> GdbTarget<T> {
    /// The checkpoints are in order.
    pub closed spec fn wf(&self) -> bool {
        self.checkpoints.wf()
    }

    /// What well-formedness says of the contents.
    pub proof fn lemma_contents_valid(&self)
        requires
            self.wf(),
        ensures
            self@.checkpoints.valid(),
    {
        self.checkpoints.lemma_contents_valid();
    }

    /// A session on a backend. `has_handle` says whether a running replay can
    /// be aborted.
    pub fn new(backend: T, has_handle: bool) -> (r: GdbTarget<T>)
        ensures
            r.wf(),
            r@.runner == (Runner {
                backend: Some(backend),
                has_handle,
                interrupted: false,
                result: None::<Result<StopReply, WorkerPanic>>,
            }),
            r@.exe_path is None,
            r@.checkpoints.next_id == 1,
            r@.checkpoints.saved.len() == 0,
            r@.pending == ReplayOp::Continue,
    {
        GdbTarget {
            runner: TargetRunner::new(backend, has_handle),
            exe_path: None,
            checkpoints: CheckpointTable::new(),
            resume: ResumeState::default(),
        }
    }

    /// The same session, with the path of the traced executable.
    pub fn with_exe_path(self, path: String) -> (r: GdbTarget<T>)
        ensures
            r.wf() == self.wf(),
            r@ == (GdbState { exe_path: Some(path@), ..self@ }),
    {
        GdbTarget {
            runner: self.runner,
            exe_path: Some(path),
            checkpoints: self.checkpoints,
            resume: self.resume,
        }
    }

    /// Whether every checkpoint id has been handed out.
    pub fn checkpoints_full(&self) -> (r: bool)
        ensures
            r == (self@.checkpoints.next_id == u64::MAX),
    {
        self.checkpoints.is_full()
    }

    /// The backend, unless a worker has it.
    pub fn peek(&self) -> (r: Option<&T>)
        ensures
            (match r {
                Some(b) => self@.runner.backend == Some(*b),
                None => self@.runner.running(),
            }),
    {
        self.runner.peek()
    }

    /// Ask for the running replay to be interrupted. Returns whether to fire
    /// the backend's interrupt handle.
    pub fn interrupt_replay(&mut self) -> (r: bool)
        ensures
            r == (old(self)@.runner.running() && old(self)@.runner.has_handle),
            final(self)@ == old(self)@.with_runner(old(self)@.runner.interrupt_asked()),
            final(self).wf() == old(self).wf(),
    {
        self.runner.request_interrupt()
    }

    /// Whether a replay is running.
    pub fn replay_in_flight(&self) -> (r: bool)
        ensures
            r == self@.runner.running(),
    {
        self.runner.in_flight()
    }

    /// Begin the end of the session: whether to fire the interrupt handle and
    /// wait for the worker.
    pub fn begin_teardown(&mut self) -> (r: bool)
        ensures
            r == (old(self)@.runner.running() && old(self)@.runner.has_handle),
            final(self)@ == (if r {
                old(self)@.with_runner(old(self)@.runner.interrupt_asked())
            } else {
                old(self)@
            }),
            final(self).wf() == old(self).wf(),
    {
        self.runner.begin_teardown()
    }

    /// Whether the end of the session still waits for the worker.
    pub fn keep_waiting(&self, elapsed_ms: u64) -> (r: bool)
        ensures
            r == (self@.runner.running() && elapsed_ms < TEARDOWN_WAIT_MS),
    {
        self.runner.keep_waiting(elapsed_ms)
    }

    /// Recover the backend, once no worker has it any more.
    pub fn into_backend(self) -> (r: Option<T>)
        ensures
            r == self@.runner.backend,
    {
        self.runner.into_backend()
    }

    fn reply_of(&self, outcome: Result<StopReply, WorkerPanic>) -> (r: StopReply)
        ensures
            r == delivered(self@.runner.backend, outcome),
    {
        match outcome {
            Ok(reply) => reply,
            Err(_) => {
                let tid: u64 = match self.runner.peek() {
                    Some(b) => stop_tid(b),
                    None => 1,
                };
                StopReply::SignalWithThread { tid, signal: Signal(SIGTRAP) }
            },
        }
    }

    /// Fetch the stop that a worker reported, if any.
    pub fn take_stop_reason(&mut self) -> (r: Option<StopReply>)
        ensures
            r == (match old(self)@.runner.result {
                Some(outcome) => Some(delivered(old(self)@.runner.backend, outcome)),
                None => None,
            }),
            final(self)@ == old(self)@.with_runner(old(self)@.runner.fetched()),
            final(self).wf() == old(self).wf(),
    {
        match self.runner.take_result() {
            Some(outcome) => Some(self.reply_of(outcome)),
            None => None,
        }
    }

    /// Fetch the stop that a worker reported, or say whether one is still to
    /// come.
    pub fn wait_stop_reason(&mut self) -> (r: WaitedStop)
        ensures
            r == (match old(self)@.runner.result {
                Some(outcome) => WaitedStop::Stopped(
                    delivered(old(self)@.runner.backend, outcome),
                ),
                None => if old(self)@.runner.running() {
                    WaitedStop::Running
                } else {
                    WaitedStop::Nothing
                },
            }),
            final(self)@ == old(self)@.with_runner(old(self)@.runner.fetched()),
            final(self).wf() == old(self).wf(),
    {
        match self.runner.wait_result() {
            Waited::Done(outcome) => WaitedStop::Stopped(self.reply_of(outcome)),
            Waited::Running => WaitedStop::Running,
            Waited::Nothing => WaitedStop::Nothing,
        }
    }

    fn backend(&self) -> (r: &T)
        requires
            !self@.runner.running(),
        ensures
            *r == self@.backend(),
    {
        self.runner.peek().unwrap()
    }

    fn backend_mut(&mut self) -> (r: &mut T)
        requires
            !old(self)@.runner.running(),
        ensures
            *r == old(self)@.backend(),
            final(self)@ == old(self)@.with_backend(*final(r)),
            final(self).wf() == old(self).wf(),
    {
        self.runner.lock().unwrap()
    }

    /// Start a replay: hand the backend to a worker. Fails, and changes
    /// nothing, while a replay is running.
    pub fn spawn_replay(&mut self) -> (r: Result<T, DebugError>)
        ensures
            r is Err <==> old(self)@.runner.running(),
            r matches Err(e) ==> final(self)@ == old(self)@ && e is ReplayFailed
                && e->ReplayFailed_0@ == "a replay is already in flight"@,
            r matches Ok(b) ==> b == old(self)@.backend() && final(self)@
                == old(self)@.with_runner(old(self)@.runner.started()),
            final(self).wf() == old(self).wf(),
    {
        match self.runner.start() {
            Ok(backend) => Ok(backend),
            Err(busy) => Err(DebugError::ReplayFailed(String::from_str(busy.message()))),
        }
    }

    /// End a replay: the worker brings the backend back and says why it
    /// stopped. An interrupt that was asked for is reported in place of that.
    pub fn finish_replay(&mut self, backend: T, reason: &Result<StopReason, DebugError>)
        requires
            old(self)@.runner.running(),
        ensures
            ({
                let tid = stop_thread(backend.current_thread(), backend.active_threads());
                let reply = if old(self)@.runner.interrupted {
                    StopReply::SignalWithThread { tid, signal: Signal(SIGINT) }
                } else {
                    stop_reply(*reason, tid)
                };
                final(self)@ == old(self)@.with_runner(
                    old(self)@.runner.job_ended().published(backend, Ok(reply)),
                )
            }),
            final(self).wf() == old(self).wf(),
    {
        let stop = map_stop_reason(&backend, reason);
        let reply = if self.runner.job_done() {
            StopReply::SignalWithThread { tid: stop_tid(&backend), signal: Signal(SIGINT) }
        } else {
            stop
        };
        self.runner.publish(backend, Ok(reply));
    }

    /// End a replay whose worker panicked.
    pub fn fail_replay(&mut self, backend: T, panic: WorkerPanic)
        requires
            old(self)@.runner.running(),
        ensures
            final(self)@ == old(self)@.with_runner(
                old(self)@.runner.published(backend, Err(panic)),
            ),
            final(self).wf() == old(self).wf(),
    {
        self.runner.publish(backend, Err(panic));
    }

    /// The operation of the next resume; the pending action is consumed.
    pub fn take_resume_action(&mut self) -> (r: ReplayOp)
        ensures
            r == old(self)@.pending,
            final(self)@ == (GdbState { pending: ReplayOp::Continue, ..old(self)@ }),
            final(self).wf() == old(self).wf(),
    {
        self.resume.take()
    }

    /// Drop the pending resume action.
    pub fn clear_resume_actions(&mut self)
        ensures
            final(self)@ == (GdbState { pending: ReplayOp::Continue, ..old(self)@ }),
            final(self).wf() == old(self).wf(),
    {
        self.resume.clear();
    }

    /// Apply a continue. Signals are ignored: the recorded ones are the only
    /// ones that matter.
    pub fn set_resume_action_continue(&mut self)
        ensures
            final(self)@ == old(self)@,
            final(self).wf() == old(self).wf(),
    {
        self.resume.set_continue();
    }

    /// Apply a step.
    pub fn set_resume_action_step(&mut self, tid: u64)
        ensures
            final(self)@ == (GdbState { pending: ReplayOp::Step(tid), ..old(self)@ }),
            final(self).wf() == old(self).wf(),
    {
        self.resume.set_step(tid);
    }

    /// Apply a range step.
    pub fn set_resume_action_range_step(&mut self, tid: u64, start: u64, end: u64)
        ensures
            final(self)@ == (GdbState { pending: range_op(tid, start, end), ..old(self)@ }),
            final(self).wf() == old(self).wf(),
    {
        self.resume.set_range_step(tid, start, end);
    }
}

} // verus!
