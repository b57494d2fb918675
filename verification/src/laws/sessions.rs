//! Sessions: replays on a worker, interrupts, packets, and what is left at the
//! end.

use gdbstub::common::Signal;
use vstd::prelude::*;
use vstd::utf8::{encode_utf8, encode_utf8_decode_utf8, encode_utf8_valid_utf8};

use crate::gdb::commands::handle_qrrcmd;
use crate::gdb::mapping::{reply_for, stop_tid, StopReply};
use crate::gdb::packet::{encode_hex, parse_qrrcmd_args, parse_tid_from_qpacket};
use crate::gdb::runner::{TargetRunner, Waited, WorkerPanic};
use crate::gdb::session::{
    end_session, log_filter, on_interrupt, on_shutdown_request, wait_for_stop_reason,
    InterruptStep, LoopStep,
};
use crate::gdb::target::unknown::{after, is_checkpoint_packet, Answer};
use crate::gdb::target::{GdbTarget, WaitedStop};
use crate::target::error::DebugError;
use crate::target::stop_reason::StopReason;
use crate::target::DebugTarget;
use crate::text::split::pieces;
use crate::text::starts_with;

verus! {

/// A replay from its start to its report. The worker gets the session's backend,
/// a second replay is refused meanwhile, the worker's backend becomes the
/// session's, and its stop is reported for the thread that it stopped on.
pub proof fn law_replay_from_start_to_report<T: DebugTarget>(
    backend: T,
    has_handle: bool,
    idle: GdbTarget<T>,
    started: &mut GdbTarget<T>,
    refused: &mut GdbTarget<T>,
    ended: &mut GdbTarget<T>,
    asked: &mut GdbTarget<T>,
    r: Result<T, DebugError>,
    second: Result<T, DebugError>,
    busy: bool,
    done: T,
    reason: Result<StopReason, DebugError>,
    tid: u64,
    reply: StopReply,
    stop: Option<StopReply>,
    last: GdbTarget<T>,
    left: Option<T>,
)
    requires
        call_ensures(GdbTarget::<T>::new, (backend, has_handle), idle),
        *started == idle,
        call_ensures(GdbTarget::<T>::spawn_replay, (started,), r),
        *refused == *final(started),
        call_ensures(GdbTarget::<T>::replay_in_flight, (&*final(started),), busy),
        call_ensures(GdbTarget::<T>::spawn_replay, (refused,), second),
        *ended == *final(refused),
        call_ensures(GdbTarget::<T>::finish_replay, (ended, done, &reason), ()),
        *asked == *final(ended),
        call_ensures(GdbTarget::<T>::take_stop_reason, (asked,), stop),
        call_ensures(stop_tid::<T>, (&done,), tid),
        call_ensures(reply_for, (&reason, tid), reply),
        last == *final(asked),
        call_ensures(GdbTarget::<T>::into_backend, (last,), left),
    ensures
        r matches Ok(b) && b == backend,
        busy,
        second is Err,
        stop == Some(reply),
        left == Some(done),
{
}

/// An interrupt makes the running replay report an interrupt in place of its own
/// stop, fires the handle if there is one, and does not reach the next replay.
/// While nothing runs it does nothing.
pub proof fn law_interrupted_replay<T: DebugTarget>(
    idle: &mut GdbTarget<T>,
    running: &mut GdbTarget<T>,
    ended: &mut GdbTarget<T>,
    asked: &mut GdbTarget<T>,
    again: &mut GdbTarget<T>,
    over: &mut GdbTarget<T>,
    told: &mut GdbTarget<T>,
    fire: bool,
    nothing: bool,
    done: T,
    then_done: T,
    reason: Result<StopReason, DebugError>,
    tid: u64,
    then_tid: u64,
    reply: StopReply,
    first: Option<StopReply>,
    b: Result<T, DebugError>,
    next: Option<StopReply>,
)
    requires
        idle@.runner.backend is Some,
        call_ensures(GdbTarget::<T>::interrupt_replay, (idle,), nothing),
        running@.runner.backend is None,
        call_ensures(GdbTarget::<T>::interrupt_replay, (running,), fire),
        *ended == *final(running),
        call_ensures(GdbTarget::<T>::finish_replay, (ended, done, &reason), ()),
        *asked == *final(ended),
        call_ensures(GdbTarget::<T>::take_stop_reason, (asked,), first),
        *again == *final(asked),
        call_ensures(GdbTarget::<T>::spawn_replay, (again,), b),
        *over == *final(again),
        call_ensures(GdbTarget::<T>::finish_replay, (over, then_done, &reason), ()),
        *told == *final(over),
        call_ensures(GdbTarget::<T>::take_stop_reason, (told,), next),
        call_ensures(stop_tid::<T>, (&done,), tid),
        call_ensures(stop_tid::<T>, (&then_done,), then_tid),
        call_ensures(reply_for, (&reason, then_tid), reply),
    ensures
        !nothing,
        final(idle)@ == old(idle)@,
        fire == old(running)@.runner.has_handle,
        first == Some(StopReply::SignalWithThread { tid, signal: Signal(2) }),
        b matches Ok(x) && x == done,
        next == Some(reply),
{
}

/// A worker that panics is reported as a trap, and its backend is kept.
pub proof fn law_panicked_worker<T: DebugTarget>(
    s: &mut GdbTarget<T>,
    asked: &mut GdbTarget<T>,
    backend: T,
    panic: WorkerPanic,
    tid: u64,
    r: Option<StopReply>,
)
    requires
        call_ensures(GdbTarget::<T>::fail_replay, (s, backend, panic), ()),
        *asked == *final(s),
        call_ensures(GdbTarget::<T>::take_stop_reason, (asked,), r),
        call_ensures(stop_tid::<T>, (&backend,), tid),
    ensures
        r == Some(StopReply::SignalWithThread { tid, signal: Signal(5) }),
        final(asked)@.runner.backend == Some(backend),
        final(asked)@.checkpoints == old(s)@.checkpoints,
{
}

/// Waiting for a stop: what is there is given, and else it is told whether
/// anything will come.
pub proof fn law_waiting<T: DebugTarget>(
    s: &mut GdbTarget<T>,
    t: &mut GdbTarget<T>,
    stop: Option<StopReply>,
    r: WaitedStop,
)
    requires
        *s == *t,
        call_ensures(GdbTarget::<T>::take_stop_reason, (s,), stop),
        call_ensures(GdbTarget::<T>::wait_stop_reason, (t,), r),
    ensures
        stop matches Some(reply) ==> r == WaitedStop::Stopped(reply),
        stop is None && old(t)@.runner.backend is None ==> r == WaitedStop::Running,
        stop is None && old(t)@.runner.backend is Some ==> r == WaitedStop::Nothing,
        final(t)@ == final(s)@,
        final(s)@.runner.result is None,
        final(s)@.runner.backend == old(s)@.runner.backend,
        final(s)@.runner.interrupted == old(s)@.runner.interrupted,
{
}

/// One look of the event loop: a byte from the client goes first and leaves the
/// stop for later; without one the stop is given, and without that it sleeps.
pub proof fn law_event_loop<T: DebugTarget>(
    s: &mut GdbTarget<T>,
    t: &mut GdbTarget<T>,
    u: &mut GdbTarget<T>,
    byte: u8,
    stop: Option<StopReply>,
    r: LoopStep,
    q: LoopStep,
)
    requires
        *s == *t && *s == *u,
        call_ensures(GdbTarget::<T>::take_stop_reason, (u,), stop),
        call_ensures(wait_for_stop_reason::<T>, (s, Some(byte)), r),
        call_ensures(wait_for_stop_reason::<T>, (t, None), q),
    ensures
        r == LoopStep::IncomingData(byte),
        final(s)@ == old(s)@,
        stop matches Some(reply) ==> q == LoopStep::TargetStopped(reply),
        stop is None ==> q == LoopStep::Sleep,
        final(t)@ == final(u)@,
{
}

/// What an interrupt of the client comes to: a stop that is there is reported,
/// else the running replay is waited for, else there is nothing.
pub proof fn law_client_interrupt<T: DebugTarget>(
    s: &mut GdbTarget<T>,
    t: &mut GdbTarget<T>,
    stop: Option<StopReply>,
    r: InterruptStep,
)
    requires
        *s == *t,
        call_ensures(GdbTarget::<T>::take_stop_reason, (s,), stop),
        call_ensures(on_interrupt::<T>, (t,), r),
    ensures
        stop matches Some(reply) ==> r == InterruptStep::Report(reply) && final(t)@ == final(s)@,
        final(t)@.checkpoints == old(t)@.checkpoints && final(t)@.pending == old(t)@.pending,
        final(t)@.runner.backend == old(t)@.runner.backend && final(t)@.runner.result is None,
        stop is None && old(t)@.runner.backend is None ==> r == (InterruptStep::Wait {
            fire: old(t)@.runner.has_handle,
        }) && final(t)@.runner.interrupted,
        stop is None && old(t)@.runner.backend is Some ==> r == InterruptStep::Nothing
            && final(t)@.runner.interrupted == old(t)@.runner.interrupted,
{
}

/// The end of a session: a running replay that can be interrupted is, and is
/// waited for five seconds at most; the backend is there once no worker has it.
pub proof fn law_session_end<T: DebugTarget>(
    s: &mut GdbTarget<T>,
    fire: bool,
    after: GdbTarget<T>,
    elapsed: u64,
    wait: bool,
    last: GdbTarget<T>,
    r: Result<T, &'static str>,
)
    requires
        call_ensures(GdbTarget::<T>::begin_teardown, (s,), fire),
        after == *final(s),
        call_ensures(GdbTarget::<T>::keep_waiting, (&after, elapsed), wait),
        call_ensures(end_session::<T>, (last,), r),
    ensures
        fire <==> old(s)@.runner.backend is None && old(s)@.runner.has_handle,
        fire ==> after@.runner.interrupted,
        !fire ==> after@ == old(s)@,
        wait <==> old(s)@.runner.backend is None && elapsed < 5000,
        last@.runner.backend matches Some(b) ==> r is Ok && r->Ok_0 == b,
        last@.runner.backend is None ==> r is Err && r->Err_0@
            == "could not recover backend after session"@,
{
}

/// The server: a first request to stop lets it finish and a second ends it with
/// the exit code of an interrupt. Without `-v` it logs warnings.
pub proof fn law_server(
    first: Option<i32>,
    second: Option<i32>,
    verbosity: u8,
    filter: &'static str,
)
    requires
        call_ensures(on_shutdown_request, (false,), first),
        call_ensures(on_shutdown_request, (true,), second),
        call_ensures(log_filter, (verbosity,), filter),
    ensures
        first is None,
        second == Some(130i32),
        verbosity == 0 ==> filter@ == "warn"@,
        verbosity == 1 ==> filter@ == "info,ttd_gdbserver=debug"@,
        verbosity > 1 ==> filter@ == "debug"@,
{
}

/// The runner under a session: a job gets the backend that is at home, and only
/// then; its result is given once; an interrupt is for the job that runs.
pub proof fn law_runner<T, R>(
    backend: T,
    has_handle: bool,
    fresh: TargetRunner<T, R>,
    s: &mut TargetRunner<T, R>,
    i: &mut TargetRunner<T, R>,
    d: &mut TargetRunner<T, R>,
    p: &mut TargetRunner<T, R>,
    w: &mut TargetRunner<T, R>,
    x: &mut TargetRunner<T, R>,
    b: Result<T, crate::gdb::runner::AlreadyRunning>,
    fire: bool,
    interrupted: bool,
    outcome: Result<R, WorkerPanic>,
    r: Waited<R>,
    q: Option<Result<R, WorkerPanic>>,
)
    requires
        call_ensures(TargetRunner::<T, R>::new, (backend, has_handle), fresh),
        *s == fresh,
        call_ensures(TargetRunner::<T, R>::start, (s,), b),
        *i == *final(s),
        call_ensures(TargetRunner::<T, R>::request_interrupt, (i,), fire),
        *d == *final(i),
        call_ensures(TargetRunner::<T, R>::job_done, (d,), interrupted),
        *p == *final(d),
        call_ensures(TargetRunner::<T, R>::publish, (p, backend, outcome), ()),
        *w == *final(p),
        call_ensures(TargetRunner::<T, R>::wait_result, (w,), r),
        *x == *final(w),
        call_ensures(TargetRunner::<T, R>::take_result, (x,), q),
    ensures
        b matches Ok(y) && y == backend,
        final(s)@.backend is None,
        fire == has_handle,
        interrupted,
        r == Waited::Done(outcome),
        q is None,
        final(x)@.backend == Some(backend) && !final(x)@.interrupted,
{
}

/// A stop that nobody fetched is not reported for the replay that starts next.
pub proof fn law_old_stops_are_dropped<T: DebugTarget, R>(
    s: &mut GdbTarget<T>,
    b: Result<T, DebugError>,
    asked: &mut GdbTarget<T>,
    stop: Option<StopReply>,
    runner: &mut TargetRunner<T, R>,
    x: Result<T, crate::gdb::runner::AlreadyRunning>,
    waiting: &mut TargetRunner<T, R>,
    r: Waited<R>,
)
    requires
        s@.runner.backend is Some,
        call_ensures(GdbTarget::<T>::spawn_replay, (s,), b),
        *asked == *final(s),
        call_ensures(GdbTarget::<T>::take_stop_reason, (asked,), stop),
        runner@.backend is Some,
        call_ensures(TargetRunner::<T, R>::start, (runner,), x),
        *waiting == *final(runner),
        call_ensures(TargetRunner::<T, R>::wait_result, (waiting,), r),
    ensures
        stop is None,
        r is Running,
        final(asked)@.checkpoints == old(s)@.checkpoints,
        final(asked)@.exe_path == old(s)@.exe_path,
        final(asked)@.pending == old(s)@.pending,
{
}

/// The end of a runner: a running job that can be interrupted is, and is waited
/// for five seconds at most; then the backend is there if no worker has it. A
/// running job is not disturbed by another start.
pub proof fn law_runner_end<T, R>(
    s: &mut TargetRunner<T, R>,
    fire: bool,
    after: TargetRunner<T, R>,
    elapsed: u64,
    wait: bool,
    last: TargetRunner<T, R>,
    left: Option<T>,
    busy: &mut TargetRunner<T, R>,
    r: Result<T, crate::gdb::runner::AlreadyRunning>,
)
    requires
        call_ensures(TargetRunner::<T, R>::begin_teardown, (s,), fire),
        after == *final(s),
        call_ensures(TargetRunner::<T, R>::keep_waiting, (&after, elapsed), wait),
        call_ensures(TargetRunner::<T, R>::into_backend, (last,), left),
        busy@.backend is None,
        call_ensures(TargetRunner::<T, R>::start, (busy,), r),
    ensures
        fire <==> old(s)@.backend is None && old(s)@.has_handle,
        fire ==> after@.interrupted,
        !fire ==> after@ == old(s)@,
        wait <==> old(s)@.backend is None && elapsed < 5000,
        left == last@.backend,
        r is Err,
        final(busy)@ == old(busy)@,
{
}

/// A packet with a text.
pub open spec fn is_packet(body: Seq<u8>, text: Seq<char>) -> bool {
    body == encode_utf8(text)
}

/// Packets with a fixed answer: lists of signals are taken note of, and what is
/// not supported gets nothing. None of them changes the session.
pub proof fn law_fixed_answers<T: DebugTarget>(
    s: &mut GdbTarget<T>,
    body: &[u8],
    text: Seq<char>,
    a: Answer,
)
    requires
        is_packet(body@, text),
        call_ensures(GdbTarget::<T>::handle_unknown_packet, (s, body), a),
        !starts_with(text, "qRRCmd"@),
        !starts_with(text, "qGetTLSAddr:"@),
        text != "vCtrlC"@,
    ensures
        starts_with(text, "QPassSignals"@) || starts_with(text, "QProgramSignals"@) ==> a.reply@
            == "OK"@,
        !starts_with(text, "QPassSignals"@) && !starts_with(text, "QProgramSignals"@)
            ==> a.reply@.len() == 0,
        !a.interrupt,
        final(s)@ == old(s)@,
{
    encode_utf8_valid_utf8(text);
    encode_utf8_decode_utf8(text);
    lemma_answers_apart(text);
}

proof fn lemma_answers_apart(text: Seq<char>)
    ensures
        text == "QThreadSuffixSupported"@ || text == "QListThreadsInStopReply"@ ==> !starts_with(
            text,
            "QPassSignals"@,
        ) && !starts_with(text, "QProgramSignals"@),
{
    reveal_strlit("QThreadSuffixSupported");
    reveal_strlit("QListThreadsInStopReply");
    reveal_strlit("QPassSignals");
    reveal_strlit("QProgramSignals");
    if starts_with(text, "QPassSignals"@) {
        assert(text[1] == text.take(12)[1]);
        assert("QPassSignals"@[1] == 'P');
    }
    if starts_with(text, "QProgramSignals"@) {
        assert(text[1] == text.take(15)[1]);
        assert("QProgramSignals"@[1] == 'P');
    }
}

/// `vCtrlC` is taken note of, and interrupts the running replay.
pub proof fn law_interrupt_packet<T: DebugTarget>(
    s: &mut GdbTarget<T>,
    t: &mut GdbTarget<T>,
    body: &[u8],
    a: Answer,
    fire: bool,
)
    requires
        *s == *t,
        is_packet(body@, "vCtrlC"@),
        call_ensures(GdbTarget::<T>::handle_unknown_packet, (s, body), a),
        call_ensures(GdbTarget::<T>::interrupt_replay, (t,), fire),
    ensures
        a.reply@ == "OK"@,
        a.interrupt == fire,
        final(s)@ == final(t)@,
{
    encode_utf8_valid_utf8("vCtrlC"@);
    encode_utf8_decode_utf8("vCtrlC"@);
    reveal_strlit("vCtrlC");
    reveal_strlit("qRRCmd");
    reveal_strlit("QPassSignals");
    reveal_strlit("QProgramSignals");
    reveal_strlit("QThreadSuffixSupported");
    reveal_strlit("QListThreadsInStopReply");
    let text = "vCtrlC"@;
    if starts_with(text, "qRRCmd"@) {
        assert(text[0] == text.take(6)[0]);
    }
}

/// A command packet is answered with the hex of what the command says of the
/// target, and with nothing while a replay is running.
pub proof fn law_command_packet<T: DebugTarget>(
    s: &mut GdbTarget<T>,
    body: &[u8],
    args: &str,
    a: Answer,
    table: &mut crate::gdb::checkpoint::CheckpointTable,
    reply: String,
    bytes: &[u8],
    sent: String,
)
    requires
        is_packet(body@, "qRRCmd"@ + args@),
        table@ == s@.checkpoints,
        call_ensures(GdbTarget::<T>::handle_unknown_packet, (s, body), a),
        call_ensures(handle_qrrcmd::<T>, (&s@.backend(), table, args), reply),
        bytes@ == encode_utf8(reply@),
        call_ensures(encode_hex, (bytes,), sent),
    ensures
        old(s)@.runner.backend is Some ==> a.reply@ == sent@
            && final(s)@.checkpoints == final(table)@ && final(s)@.runner == old(s)@.runner,
        old(s)@.runner.backend is None ==> a.reply@.len() == 0 && final(s)@ == old(s)@,
        !a.interrupt,
{
    let text = "qRRCmd"@ + args@;
    encode_utf8_valid_utf8(text);
    encode_utf8_decode_utf8(text);
    assert(text.take("qRRCmd"@.len() as int) =~= "qRRCmd"@);
    assert(after(text, "qRRCmd"@) =~= args@);
    reveal_strlit("qRRCmd");
    reveal_strlit("vCtrlC");
    assert(text[0] == 'q');
}

/// The TLS address of a thread is the address of its TEB, in hex; a thread
/// without one, an unknown thread and a running replay are an error.
pub proof fn law_tls_packet<T: DebugTarget>(
    s: &mut GdbTarget<T>,
    body: &[u8],
    thread: &str,
    rest: Seq<char>,
    a: Answer,
    tid: Option<u64>,
)
    requires
        forall|i: int| 0 <= i < thread@.len() ==> thread@[i] != ',',
        is_packet(body@, "qGetTLSAddr:"@ + thread@ + seq![','] + rest),
        call_ensures(parse_tid_from_qpacket, (thread,), tid),
        call_ensures(GdbTarget::<T>::handle_unknown_packet, (s, body), a),
    ensures
        ({
            let info = old(s)@.backend().thread_of(tid->0);
            let known = old(s)@.runner.backend is Some && tid is Some && info is Some
                && info->0.teb != 0;
            &&& known ==> a.reply@ == crate::text::digits::hex(info->0.teb as nat)
            &&& !known ==> a.reply@ == "E01"@
            &&& final(s)@ == old(s)@ && !a.interrupt
        }),
{
    let text = "qGetTLSAddr:"@ + thread@ + seq![','] + rest;
    encode_utf8_valid_utf8(text);
    encode_utf8_decode_utf8(text);
    reveal_strlit("qGetTLSAddr:");
    reveal_strlit("qRRCmd");
    reveal_strlit("vCtrlC");
    reveal_strlit("QPassSignals");
    reveal_strlit("QProgramSignals");
    reveal_strlit("QThreadSuffixSupported");
    reveal_strlit("QListThreadsInStopReply");
    assert(text[0] == 'q' && text[1] == 'G');
    assert(text.take("qGetTLSAddr:"@.len() as int) =~= "qGetTLSAddr:"@);
    if starts_with(text, "qRRCmd"@) {
        assert(text[1] == text.take(6)[1]);
    }
    if starts_with(text, "QPassSignals"@) {
        assert(text[0] == text.take(12)[0]);
    }
    if starts_with(text, "QProgramSignals"@) {
        assert(text[0] == text.take(15)[0]);
    }
    let args = after(text, "qGetTLSAddr:"@);
    assert(args =~= thread@ + seq![','] + rest);
    crate::text::split::lemma_first_index_is(args, ',', thread@.len() as int);
    assert(args.take(thread@.len() as int) =~= thread@);
    assert(pieces(args, ',')[0] == thread@);
}

/// A request for a TLS address may end behind the thread.
pub proof fn law_short_tls_packet<T: DebugTarget>(
    s: &mut GdbTarget<T>,
    t: &mut GdbTarget<T>,
    short: &[u8],
    long: &[u8],
    thread: Seq<char>,
    rest: Seq<char>,
    a: Answer,
    b: Answer,
)
    requires
        *s == *t,
        forall|i: int| 0 <= i < thread.len() ==> thread[i] != ',',
        is_packet(short@, "qGetTLSAddr:"@ + thread),
        is_packet(long@, "qGetTLSAddr:"@ + thread + seq![','] + rest),
        call_ensures(GdbTarget::<T>::handle_unknown_packet, (s, short), a),
        call_ensures(GdbTarget::<T>::handle_unknown_packet, (t, long), b),
    ensures
        a.reply@ == b.reply@ && a.interrupt == b.interrupt,
        final(s)@ == final(t)@,
{
    let x = "qGetTLSAddr:"@ + thread;
    let y = "qGetTLSAddr:"@ + thread + seq![','] + rest;
    encode_utf8_valid_utf8(x);
    encode_utf8_decode_utf8(x);
    encode_utf8_valid_utf8(y);
    encode_utf8_decode_utf8(y);
    reveal_strlit("qGetTLSAddr:");
    assert(x.take("qGetTLSAddr:"@.len() as int) =~= "qGetTLSAddr:"@);
    assert(y.take("qGetTLSAddr:"@.len() as int) =~= "qGetTLSAddr:"@);
    lemma_tls_text(x);
    lemma_tls_text(y);
    let p = after(x, "qGetTLSAddr:"@);
    let q = after(y, "qGetTLSAddr:"@);
    assert(p =~= thread);
    assert(q =~= thread + seq![','] + rest);
    crate::text::split::lemma_first_index_is(p, ',', thread.len() as int);
    crate::text::split::lemma_first_index_is(q, ',', thread.len() as int);
    assert(q.take(thread.len() as int) =~= thread);
    assert(pieces(p, ',')[0] == thread);
    assert(pieces(q, ',')[0] == thread);
}

proof fn lemma_tls_text(text: Seq<char>)
    requires
        starts_with(text, "qGetTLSAddr:"@),
    ensures
        !starts_with(text, "qRRCmd"@) && !starts_with(text, "QPassSignals"@) && !starts_with(
            text,
            "QProgramSignals"@,
        ),
        text != "vCtrlC"@ && text != "QThreadSuffixSupported"@ && text
            != "QListThreadsInStopReply"@,
{
    reveal_strlit("qGetTLSAddr:");
    reveal_strlit("qRRCmd");
    reveal_strlit("vCtrlC");
    reveal_strlit("QPassSignals");
    reveal_strlit("QProgramSignals");
    reveal_strlit("QThreadSuffixSupported");
    reveal_strlit("QListThreadsInStopReply");
    assert(text[0] == text.take(12)[0] && text[1] == text.take(12)[1]);
    if starts_with(text, "qRRCmd"@) {
        assert(text[1] == text.take(6)[1]);
    }
    if starts_with(text, "QPassSignals"@) {
        assert(text[0] == text.take(12)[0]);
    }
    if starts_with(text, "QProgramSignals"@) {
        assert(text[0] == text.take(15)[0]);
    }
}

/// A packet that is no text is not supported, and changes nothing.
pub proof fn law_packets_without_text<T: DebugTarget>(
    s: &mut GdbTarget<T>,
    body: &[u8],
    a: Answer,
    saves: bool,
)
    requires
        !vstd::utf8::valid_utf8(body@),
        call_ensures(GdbTarget::<T>::handle_unknown_packet, (s, body), a),
        call_ensures(is_checkpoint_packet, (body,), saves),
    ensures
        a.reply@.len() == 0 && !a.interrupt && !saves,
        final(s)@ == old(s)@,
{
    reveal_strlit("qRRCmd");
    reveal_strlit("vCtrlC");
    reveal_strlit("QPassSignals");
    reveal_strlit("QProgramSignals");
    reveal_strlit("qGetTLSAddr:");
}

/// A session keeps its executable's path and starts without checkpoints.
pub proof fn law_new_session<T: DebugTarget>(
    backend: T,
    has_handle: bool,
    s: GdbTarget<T>,
    path: String,
    t: GdbTarget<T>,
    full: bool,
)
    requires
        call_ensures(GdbTarget::<T>::new, (backend, has_handle), s),
        call_ensures(GdbTarget::<T>::with_exe_path, (s, path), t),
        call_ensures(GdbTarget::<T>::checkpoints_full, (&t,), full),
    ensures
        t@.exe_path == Some(path@),
        t@.runner.backend == Some(backend) && t@.runner.has_handle == has_handle,
        t@.runner.result is None && !t@.runner.interrupted,
        t@.checkpoints.saved.len() == 0,
        !full,
{
}

/// A packet saves a checkpoint exactly if it carries a command whose first
/// argument is `checkpoint`.
pub proof fn law_checkpoint_packets(
    body: &[u8],
    text: Seq<char>,
    r: bool,
    args: &str,
    parts: Vec<String>,
)
    requires
        is_packet(body@, text),
        call_ensures(is_checkpoint_packet, (body,), r),
        call_ensures(parse_qrrcmd_args, (args,), parts),
    ensures
        text == "qRRCmd"@ + args@ ==> (r <==> parts@.len() > 0 && parts@[0]@ == "checkpoint"@),
        !starts_with(text, "qRRCmd"@) ==> !r,
{
    encode_utf8_valid_utf8(text);
    encode_utf8_decode_utf8(text);
    if text == "qRRCmd"@ + args@ {
        assert(text.take("qRRCmd"@.len() as int) =~= "qRRCmd"@);
        assert(after(text, "qRRCmd"@) =~= args@);
        assert(crate::text::texts(parts@).len() == parts@.len());
        if parts@.len() > 0 {
            assert(crate::text::texts(parts@)[0] == parts@[0]@);
        }
    }
}

/// The backend is there to be looked at exactly while no worker has it.
pub proof fn law_backend_is_seen<T: DebugTarget, R>(
    t: GdbTarget<T>,
    r: Option<&T>,
    runner: TargetRunner<T, R>,
    q: Option<&T>,
    busy: bool,
    flying: bool,
)
    requires
        call_ensures(GdbTarget::<T>::peek, (&t,), r),
        call_ensures(GdbTarget::<T>::replay_in_flight, (&t,), busy),
        call_ensures(TargetRunner::<T, R>::peek, (&runner,), q),
        call_ensures(TargetRunner::<T, R>::in_flight, (&runner,), flying),
    ensures
        r is None <==> busy,
        r matches Some(b) ==> t@.runner.backend == Some(*b),
        q is None <==> flying,
        q matches Some(b) ==> runner@.backend == Some(*b),
{
}

} // verus!
