//! The state between the protocol loop and a replay worker.
//!
//! Queries run against the backend while it is at home. A resume hands the
//! backend to a worker, so that the protocol loop can keep watching the
//! connection; the worker brings it back together with its result. A client can
//! ask for an interrupt meanwhile. A worker that panics brings a
//! [`WorkerPanic`] as its result.

use vstd::prelude::*;

verus! {

/// How long the end of a session waits for an interrupted worker, in
/// milliseconds.
pub const TEARDOWN_WAIT_MS: u64 = 5000;

/// A worker job panicked.
#[derive(Debug)]
pub struct WorkerPanic {
    message: String,
}

impl View for WorkerPanic {
    type V = Seq<char>;

    closed spec fn view(&self) -> Seq<char> {
        self.message@
    }
}

impl WorkerPanic {
    /// The panic with this text as its payload; `None` for a payload that is
    /// not text.
    pub fn from_payload(text: Option<&str>) -> (r: WorkerPanic)
        ensures
            r@ == (match text {
                Some(s) => s@,
                None => "non-string panic payload"@,
            }),
    {
        let message = match text {
            Some(s) => String::from_str(s),
            None => String::from_str("non-string panic payload"),
        };
        WorkerPanic { message }
    }

    /// The text of the panic.
    pub fn message(&self) -> (r: &str)
        ensures
            r@ == self@,
    {
        self.message.as_str()
    }
}

/// A replay is running already.
#[derive(Clone, Copy, Debug, PartialEq, Eq, Structural)]
pub struct AlreadyRunning;

impl AlreadyRunning {
    /// The failure in words.
    pub fn message(&self) -> (r: &'static str)
        ensures
            r@ == "a replay is already in flight"@,
    {
        "a replay is already in flight"
    }
}

/// What waiting for a result comes to.
pub enum Waited<R> {
    /// The result of the last job.
    Done(Result<R, WorkerPanic>),
    /// The worker is still running: wait and ask again.
    Running,
    /// There is no result and none will come.
    Nothing,
}

/// Drives a backend from the protocol loop.
pub struct TargetRunner<T, R> {
    backend: Option<T>,
    has_handle: bool,
    interrupted: bool,
    result: Option<Result<R, WorkerPanic>>,
}

/// The contents of a [`TargetRunner`].
pub struct Runner<T, R> {
    /// The backend; `None` while a worker has it.
    pub backend: Option<T>,
    /// Whether the backend can abort a running replay.
    pub has_handle: bool,
    /// Whether an interrupt was asked for and not acted on.
    pub interrupted: bool,
    /// The result of the last job, until it is fetched.
    pub result: Option<Result<R, WorkerPanic>>,
}

impl<T, R> Runner<T, R> {
    /// A worker is running.
    pub open spec fn running(self) -> bool {
        self.backend is None
    }

    /// The state once the backend is handed to a worker. A late interrupt of
    /// the previous job does not reach the new one, and neither does a result
    /// that nobody fetched.
    pub open spec fn started(self) -> Runner<T, R> {
        Runner { backend: None, interrupted: false, result: None, ..self }
    }

    /// The state once the worker's job has ended.
    pub open spec fn job_ended(self) -> Runner<T, R> {
        Runner { interrupted: false, ..self }
    }

    /// The state once the worker has brought back the backend and its result.
    pub open spec fn published(self, backend: T, outcome: Result<R, WorkerPanic>) -> Runner<T, R> {
        Runner { backend: Some(backend), result: Some(outcome), ..self }
    }

    /// The state once the result was fetched.
    pub open spec fn fetched(self) -> Runner<T, R> {
        Runner { result: None, ..self }
    }

    /// The state once an interrupt was asked for.
    pub open spec fn interrupt_asked(self) -> Runner<T, R> {
        Runner { interrupted: self.interrupted || self.running(), ..self }
    }
}

impl<T, R> View for TargetRunner<T, R> {
    type V = Runner<T, R>;

    closed spec fn view(&self) -> Runner<T, R> {
        Runner {
            backend: self.backend,
            has_handle: self.has_handle,
            interrupted: self.interrupted,
            result: self.result,
        }
    }
}

impl<T, R> TargetRunner<T, R> {
    /// A runner with its backend at home.
    pub fn new(backend: T, has_handle: bool) -> (r: TargetRunner<T, R>)
        ensures
            r@ == (Runner {
                backend: Some(backend),
                has_handle,
                interrupted: false,
                result: None::<Result<R, WorkerPanic>>,
            }),
    {
        TargetRunner { backend: Some(backend), has_handle, interrupted: false, result: None }
    }

    /// Whether a worker is running.
    pub fn in_flight(&self) -> (r: bool)
        ensures
            r == self@.running(),
    {
        self.backend.is_none()
    }

    /// The backend, unless a worker has it.
    pub fn peek(&self) -> (r: Option<&T>)
        ensures
            r is Some <==> !self@.running(),
            r matches Some(b) ==> self@.backend == Some(*b),
    {
        self.backend.as_ref()
    }

    /// The backend to work on, unless a worker has it.
    pub fn lock(&mut self) -> (r: Option<&mut T>)
        ensures
            r is Some <==> !old(self)@.running(),
            r matches Some(b) ==> old(self)@.backend == Some(*b) && final(self)@ == (Runner {
                backend: Some(*final(b)),
                ..old(self)@
            }),
            r is None ==> final(self)@ == old(self)@,
    {
        match &mut self.backend {
            Some(b) => Some(b),
            None => None,
        }
    }

    /// Run `f` against the backend now.
    pub fn query<Q: FnOnce(&mut T) -> Qr, Qr>(&mut self, f: Q) -> (r: Qr)
        requires
            !old(self)@.running(),
            forall|b: &mut T| *b == old(self)@.backend->0 ==> call_requires(f, (b,)),
        ensures
            exists|b: &mut T|
                {
                    &&& old(self)@.backend == Some(*b)
                    &&& #[trigger] call_ensures(f, (b,), r)
                    &&& final(self)@ == (Runner { backend: Some(*final(b)), ..old(self)@ })
                },
    {
        let mut backend = self.backend.take().unwrap();
        let r = f(&mut backend);
        self.backend = Some(backend);
        r
    }

    /// Hand the backend to a worker. A running worker is not disturbed.
    pub fn start(&mut self) -> (r: Result<T, AlreadyRunning>)
        ensures
            r is Err <==> old(self)@.running(),
            r is Err ==> final(self)@ == old(self)@,
            r matches Ok(b) ==> old(self)@.backend == Some(b) && final(self)@
                == old(self)@.started(),
    {
        match self.backend.take() {
            Some(b) => {
                self.interrupted = false;
                self.result = None;
                Ok(b)
            },
            None => Err(AlreadyRunning),
        }
    }

    /// The worker's job has ended: whether it has to report an interrupt in
    /// place of the job's own result.
    pub fn job_done(&mut self) -> (r: bool)
        ensures
            r == old(self)@.interrupted,
            final(self)@ == old(self)@.job_ended(),
    {
        let was = self.interrupted;
        self.interrupted = false;
        was
    }

    /// The worker brings the backend back, together with its result.
    pub fn publish(&mut self, backend: T, outcome: Result<R, WorkerPanic>)
        requires
            old(self)@.running(),
        ensures
            final(self)@ == old(self)@.published(backend, outcome),
    {
        self.backend = Some(backend);
        self.result = Some(outcome);
    }

    /// Fetch the result of the last job, if there is one.
    pub fn take_result(&mut self) -> (r: Option<Result<R, WorkerPanic>>)
        ensures
            r == old(self)@.result,
            final(self)@ == old(self)@.fetched(),
    {
        self.result.take()
    }

    /// Fetch the result of the last job, or say whether one is still to come.
    pub fn wait_result(&mut self) -> (r: Waited<R>)
        ensures
            (match old(self)@.result {
                Some(outcome) => r == Waited::Done(outcome),
                None => r == (if old(self)@.running() {
                    Waited::<R>::Running
                } else {
                    Waited::<R>::Nothing
                }),
            }),
            final(self)@ == old(self)@.fetched(),
    {
        match self.result.take() {
            Some(outcome) => Waited::Done(outcome),
            None => if self.backend.is_none() {
                Waited::Running
            } else {
                Waited::Nothing
            },
        }
    }

    /// Ask for the running job to be reported as interrupted. Returns whether
    /// to fire the backend's interrupt handle. Does nothing when no worker is
    /// running.
    pub fn request_interrupt(&mut self) -> (r: bool)
        ensures
            r == (old(self)@.running() && old(self)@.has_handle),
            final(self)@ == old(self)@.interrupt_asked(),
    {
        if self.backend.is_none() {
            self.interrupted = true;
            self.has_handle
        } else {
            false
        }
    }

    /// Begin the end of a session: whether to fire the interrupt handle and
    /// wait for the worker. A worker that cannot be interrupted is not waited
    /// for.
    pub fn begin_teardown(&mut self) -> (r: bool)
        ensures
            r == (old(self)@.running() && old(self)@.has_handle),
            final(self)@ == (if r {
                old(self)@.interrupt_asked()
            } else {
                old(self)@
            }),
    {
        if self.in_flight() && self.has_handle {
            self.request_interrupt()
        } else {
            false
        }
    }

    /// Whether the end of a session still waits for the worker, this long after
    /// the interrupt.
    pub fn keep_waiting(&self, elapsed_ms: u64) -> (r: bool)
        ensures
            r == (self@.running() && elapsed_ms < TEARDOWN_WAIT_MS),
    {
        self.in_flight() && elapsed_ms < TEARDOWN_WAIT_MS
    }

    /// Recover the backend, once no worker has it any more.
    pub fn into_backend(self) -> (r: Option<T>)
        ensures
            r == self@.backend,
    {
        self.backend
    }
}

/// An interrupt that is asked for while a worker runs makes it report an
/// interrupt, and only once: the next job reports normally.
pub proof fn law_interrupt_overrides_one_job<T, R>(
    s: Runner<T, R>,
    backend: T,
    outcome: Result<R, WorkerPanic>,
)
    requires
        s.running(),
    ensures
        s.interrupt_asked().interrupted,
        !s.interrupt_asked().job_ended().interrupted,
        !s.interrupt_asked().job_ended().published(backend, outcome).started().interrupted,
{
}

/// An interrupt without a running worker does nothing.
pub proof fn law_interrupt_when_idle_is_ignored<T, R>(s: Runner<T, R>)
    requires
        !s.running(),
    ensures
        s.interrupt_asked() == s,
{
}

/// An interrupt that comes after the worker has checked for one does not reach
/// the next job.
pub proof fn law_late_interrupt_does_not_leak<T, R>(
    s: Runner<T, R>,
    backend: T,
    outcome: Result<R, WorkerPanic>,
)
    requires
        s.running(),
    ensures
        !s.job_ended().interrupt_asked().published(backend, outcome).started().interrupted,
        !s.job_ended().published(backend, outcome).interrupt_asked().started().interrupted,
{
}

/// A published result means that the backend is at home, is fetched as it was
/// published, and is fetched once.
pub proof fn law_results_are_delivered_once<T, R>(
    s: Runner<T, R>,
    backend: T,
    outcome: Result<R, WorkerPanic>,
)
    ensures
        !s.published(backend, outcome).running(),
        s.published(backend, outcome).backend == Some(backend),
        s.published(backend, outcome).result == Some(outcome),
        s.published(backend, outcome).fetched().result is None,
        s.published(backend, outcome).fetched().backend == Some(backend),
        s.started().running(),
        s.started().result is None,
{
}

} // verus!
