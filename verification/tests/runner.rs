//! The state between the protocol loop and a replay worker.

use ttd_gdbserver::gdb::runner::{AlreadyRunning, TargetRunner, Waited, WorkerPanic};
use ttd_gdbserver::target::mock::MockTarget;
use ttd_gdbserver::target::DebugTarget;

type TestRunner = TargetRunner<MockTarget, &'static str>;

fn runner() -> TestRunner {
    TestRunner::new(MockTarget::default(), false)
}

/// What a worker does once its job has ended.
fn finish(runner: &mut TestRunner, backend: MockTarget, result: &'static str) {
    let outcome = if runner.job_done() {
        "interrupted"
    } else {
        result
    };
    runner.publish(backend, Ok(outcome));
}

fn text(waited: Waited<&'static str>) -> Option<Result<&'static str, String>> {
    match waited {
        Waited::Done(Ok(s)) => Some(Ok(s)),
        Waited::Done(Err(panic)) => Some(Err(panic.message().to_string())),
        Waited::Running | Waited::Nothing => None,
    }
}

#[test]
fn job_result_is_delivered_and_in_flight_tracks_worker() {
    let mut runner = runner();
    assert!(!runner.in_flight());
    let backend = runner.start().unwrap();
    assert!(runner.in_flight());
    assert!(matches!(runner.wait_result(), Waited::Running));
    finish(&mut runner, backend, "done");
    assert_eq!(text(runner.wait_result()), Some(Ok("done")));
    assert!(!runner.in_flight());
    assert!(matches!(runner.wait_result(), Waited::Nothing));
}

#[test]
fn start_while_running_is_an_error_and_does_not_disturb_the_first_job() {
    let mut runner = runner();
    let backend = runner.start().unwrap();
    assert!(
        matches!(runner.start(), Err(AlreadyRunning)),
        "a second start while the first job is in flight must be rejected"
    );
    finish(&mut runner, backend, "first");
    assert_eq!(text(runner.wait_result()), Some(Ok("first")));
    assert!(!runner.in_flight());
}

#[test]
fn queries_run_inline_against_the_backend() {
    let mut runner = runner();
    let n = runner.query(|b: &mut MockTarget| {
        b.step().unwrap();
        DebugTarget::position(b).steps
    });
    assert_eq!(n, 1);
}

/// A session ending while a replay is still in flight must fire the
/// backend interrupt handle and recover the backend once the worker
/// drains.
#[test]
fn into_backend_interrupts_running_worker_and_recovers_backend() {
    let mut runner = TestRunner::new(MockTarget::default(), true);
    let backend = runner.start().unwrap();
    assert!(runner.in_flight());

    assert!(runner.begin_teardown(), "the interrupt handle must be fired");
    assert!(runner.keep_waiting(0));
    assert!(runner.keep_waiting(4999));
    assert!(!runner.keep_waiting(5000), "the wait is bounded");
    finish(&mut runner, backend, "job");
    assert!(!runner.keep_waiting(0));
    assert!(
        runner.into_backend().is_some(),
        "interrupting the worker must let the backend be recovered"
    );
}

#[test]
fn backend_of_a_running_worker_is_not_recovered() {
    let mut runner = runner();
    let _backend = runner.start().unwrap();
    assert!(!runner.begin_teardown(), "there is no handle to fire");
    assert!(runner.into_backend().is_none());
}

#[test]
fn late_interrupt_overrides_job_result() {
    let mut runner = runner();
    let backend = runner.start().unwrap();
    // The worker must report the interrupt, not the job's own result.
    assert!(!runner.request_interrupt(), "no handle to fire");
    finish(&mut runner, backend, "job");
    assert_eq!(text(runner.wait_result()), Some(Ok("interrupted")));
    assert!(!runner.in_flight());

    // The flag is consumed: a subsequent normal job reports normally.
    let backend = runner.start().unwrap();
    finish(&mut runner, backend, "second");
    assert_eq!(text(runner.wait_result()), Some(Ok("second")));
}

#[test]
fn interrupt_without_in_flight_replay_is_a_noop() {
    let mut runner = TestRunner::new(MockTarget::default(), true);
    assert!(!runner.request_interrupt()); // must not panic or set anything
    assert!(runner.take_result().is_none());
    assert!(!runner.job_done());
}

#[test]
fn backend_panic_is_reported_and_the_runner_stays_usable() {
    let mut runner = runner();
    let backend = runner.start().unwrap();
    runner.publish(backend, Err(WorkerPanic::from_payload(Some("mock backend panic"))));

    match text(runner.wait_result()) {
        Some(Err(message)) => {
            assert!(
                message.contains("mock backend panic"),
                "panic message must be preserved: {message}"
            );
        }
        other => panic!("a worker panic must be reported, got {other:?}"),
    }
    assert!(
        !runner.in_flight(),
        "a panicking worker must clear its in-flight flag"
    );

    let n = runner.query(|b: &mut MockTarget| {
        b.step().unwrap();
        DebugTarget::position(b).steps
    });
    assert_eq!(n, 1);
}

/// A late interrupt observed after a worker has already passed its own
/// interrupt check must not leak into the next job.
#[test]
fn late_interrupt_does_not_leak_into_the_next_job() {
    let mut runner = runner();
    let backend = runner.start().unwrap();
    finish(&mut runner, backend, "job");
    assert_eq!(text(runner.wait_result()), Some(Ok("job")));

    runner.request_interrupt();

    let backend = runner.start().unwrap();
    finish(&mut runner, backend, "next-job");
    assert_eq!(text(runner.wait_result()), Some(Ok("next-job")));

    // The same between the check and the publication.
    let backend = runner.start().unwrap();
    assert!(!runner.job_done());
    runner.request_interrupt();
    runner.publish(backend, Ok("slow"));
    assert_eq!(text(runner.wait_result()), Some(Ok("slow")));
    let backend = runner.start().unwrap();
    finish(&mut runner, backend, "after");
    assert_eq!(text(runner.wait_result()), Some(Ok("after")));
}

#[test]
fn unfetched_result_is_dropped_by_the_next_start() {
    let mut runner = runner();
    let backend = runner.start().unwrap();
    finish(&mut runner, backend, "old");
    let backend = runner.start().unwrap();
    assert!(runner.take_result().is_none());
    finish(&mut runner, backend, "new");
    assert_eq!(runner.take_result().map(|r| r.is_ok()), Some(true));
    assert!(runner.take_result().is_none());
}

#[test]
fn failures_have_words() {
    assert_eq!(AlreadyRunning.message(), "a replay is already in flight");
    assert_eq!(
        WorkerPanic::from_payload(None).message(),
        "non-string panic payload"
    );
}
