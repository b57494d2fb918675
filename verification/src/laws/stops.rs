//! Why the target stopped, and what the client is told of it.

use gdbstub::common::Signal;
use gdbstub::target::ext::breakpoints::WatchKind;
use vstd::prelude::*;

use crate::gdb::mapping::{
    access_mask_from_watch_kind, breakpoint_kind_from_watch_kind, map_stop_reason, reply_for,
    signal_for_exception, stop_tid, watch_kind_from_access, StopReply,
};
use crate::gdb::target::GdbTarget;
use crate::target::breakpoint::{first_where, Breakpoint, BreakpointId, BreakpointKind};
use crate::target::error::DebugError;
use crate::target::process::{
    breakpoint_with, exception_at, ReplayEnd, ReplayPlan, TtdProcess,
};
use crate::target::stop_reason::StopReason;
use crate::target::DebugTarget;
use crate::ttd::types::{EventType, TtdExceptionEvent, TtdPosition, TtdReplayResult};

verus! {

/// The first breakpoint that meets a condition is in the list and meets it, none
/// before it does, and there is one if any meets it.
pub proof fn lemma_first_of_list(list: Seq<Breakpoint>, meets: spec_fn(Breakpoint) -> bool)
    ensures
        first_where(list, meets) matches Some(b) ==> meets(b) && exists|i: int|
            0 <= i < list.len() && list[i] == b && forall|j: int|
                0 <= j < i ==> !meets(#[trigger] list[j]),
        first_where(list, meets) is None ==> forall|i: int|
            0 <= i < list.len() ==> !meets(#[trigger] list[i]),
    decreases list.len(),
{
    if list.len() > 0 {
        let front = list.drop_last();
        lemma_first_of_list(front, meets);
        match first_where(front, meets) {
            Some(b) => {
                let i = choose|i: int|
                    0 <= i < front.len() && front[i] == b && forall|j: int|
                        0 <= j < i ==> !meets(#[trigger] front[j]);
                assert(list[i] == b);
                assert forall|j: int| 0 <= j < i implies !meets(#[trigger] list[j]) by {
                    assert(front[j] == list[j]);
                }
            },
            None => {
                assert forall|j: int| 0 <= j < list.len() - 1 implies !meets(
                    #[trigger] list[j],
                ) by {
                    assert(front[j] == list[j]);
                }
                assert(list.last() == list[list.len() - 1]);
            },
        }
    }
}

/// A continue that a registered breakpoint stopped is reported as that
/// breakpoint, in either direction and wherever it ended: an execution
/// breakpoint by its address, a data breakpoint by its address and the accesses
/// that it watches.
pub proof fn law_continue_names_the_breakpoint_it_hit(
    p: &mut TtdProcess,
    end: ReplayEnd,
    b: Breakpoint,
    forward: bool,
    r: StopReason,
)
    requires
        old(p).wf(),
        p@.watch.logical.list.contains(b),
        call_ensures(TtdProcess::finish_continue, (p, &end, b.id, forward), r),
    ensures
        b.kind is Execute ==> r == (StopReason::Breakpoint { bp_id: b.id, addr: b.addr }),
        !(b.kind is Execute) ==> r == (StopReason::Watchpoint {
            bp_id: b.id,
            addr: b.addr,
            access: b.access,
        }),
{
    old(p).lemma_contents_valid();
    let list = old(p)@.watch.logical.list;
    let i = choose|i: int| 0 <= i < list.len() && list[i] == b;
    lemma_first_of_list(list, |x: Breakpoint| x.id == b.id);
    let found = breakpoint_with(list, b.id);
    assert(list[i].id >= 1);
    if found is Some {
        let j = choose|j: int| 0 <= j < list.len() && list[j] == found->0;
        if i < j {
            assert(list[i].id < list[j].id);
        } else if j < i {
            assert(list[j].id < list[i].id);
        }
    }
}

/// The direction of a continue that hit something does not matter to its stop
/// reason.
pub proof fn law_hits_do_not_depend_on_the_direction(
    forth: &mut TtdProcess,
    back: &mut TtdProcess,
    end: ReplayEnd,
    id: BreakpointId,
    r: StopReason,
    q: StopReason,
)
    requires
        id != 0,
        old(forth).wf(),
        *back == *forth,
        call_ensures(TtdProcess::finish_continue, (forth, &end, id, true), r),
        call_ensures(TtdProcess::finish_continue, (back, &end, id, false), q),
    ensures
        r == q,
{
}

/// A hit that no registered breakpoint has the id of is reported as a
/// watchpoint, where and how the engine saw it.
pub proof fn law_unregistered_hits_are_watchpoints(
    p: &mut TtdProcess,
    end: ReplayEnd,
    id: BreakpointId,
    forward: bool,
    r: StopReason,
)
    requires
        id != 0,
        forall|i: int|
            0 <= i < p@.watch.logical.list.len() ==> (#[trigger] p@.watch.logical.list[i]).id != id,
        call_ensures(TtdProcess::finish_continue, (p, &end, id, forward), r),
    ensures
        r == (StopReason::Watchpoint {
            bp_id: id,
            addr: end.result.wp_address,
            access: end.result.wp_access_type,
        }),
{
    lemma_first_of_list(old(p)@.watch.logical.list, |x: Breakpoint| x.id == id);
}

/// A continue without a hit that reaches the end of the trace it ran towards
/// says so, whatever else the engine reports, and never names the other end for
/// having reached it.
pub proof fn law_continue_reports_the_boundary(
    p: &mut TtdProcess,
    end: ReplayEnd,
    forward: bool,
    r: StopReason,
)
    requires
        call_ensures(TtdProcess::finish_continue, (p, &end, 0u64, forward), r),
    ensures
        ({
            let (first, last) = (old(p)@.facts.first, old(p)@.facts.last);
            let e = end.position;
            &&& forward && (e.sequence > last.sequence || (e.sequence == last.sequence && e.steps
                >= last.steps)) ==> r == StopReason::TraceEnd
            &&& !forward && (e.sequence < first.sequence || (e.sequence == first.sequence
                && e.steps <= first.steps)) ==> r == StopReason::TraceStart
            &&& forward ==> r != StopReason::TraceStart
            &&& r == StopReason::TraceStart ==> e.sequence < first.sequence || (e.sequence
                == first.sequence && e.steps <= first.steps)
        }),
{
}

/// A continue without a hit that stops within the trace is reported for what
/// the engine saw.
pub proof fn law_continue_within_the_trace(
    p: &mut TtdProcess,
    end: ReplayEnd,
    forward: bool,
    r: StopReason,
)
    requires
        p@.facts.first.precedes(end.position),
        end.position.precedes(p@.facts.last),
        call_ensures(TtdProcess::finish_continue, (p, &end, 0u64, forward), r),
    ensures
        stop_for_event(end.result, end.position, old(p)@.facts.exceptions, r),
{
    lemma_exception_found(old(p)@.facts.exceptions, end.position);
}

/// A single step is reported for what the engine saw, whatever breakpoints there
/// are.
pub proof fn law_step_reports_the_event(
    p: &mut TtdProcess,
    end: ReplayEnd,
    seeked: bool,
    r: StopReason,
)
    requires
        call_ensures(TtdProcess::finish_step, (p, &end, seeked), r),
    ensures
        stop_for_event(end.result, end.position, old(p)@.facts.exceptions, r),
{
    lemma_exception_found(old(p)@.facts.exceptions, end.position);
}

/// `r` is a right reason for what the engine saw at a position. An exception
/// carries the code and the address of the first one recorded there.
pub open spec fn stop_for_event(
    seen: TtdReplayResult,
    at: TtdPosition,
    recorded: Seq<TtdExceptionEvent>,
    r: StopReason,
) -> bool {
    &&& seen.stop_reason == EventType::StepCount ==> r == StopReason::StepComplete
    &&& seen.stop_reason == EventType::Position ==> r == StopReason::PositionReached
    &&& seen.stop_reason == EventType::Process ==> r == StopReason::TraceEnd
    &&& seen.stop_reason == EventType::Thread ==> r == StopReason::TraceEnd
    &&& seen.stop_reason == EventType::MemoryWatchpoint ==> r == (StopReason::Watchpoint {
        bp_id: 0,
        addr: seen.wp_address,
        access: seen.wp_access_type,
    })
    &&& seen.stop_reason == EventType::Interrupted ==> r == StopReason::StepComplete
    &&& seen.stop_reason == EventType::Gap ==> r == StopReason::StepComplete
    &&& seen.stop_reason == EventType::Other ==> r == StopReason::StepComplete
    &&& seen.stop_reason == EventType::Exception ==> r is Exception
    &&& forall|i: int|
        seen.stop_reason == EventType::Exception && 0 <= i < recorded.len()
            && (#[trigger] recorded[i]).position == at && (forall|j: int|
            0 <= j < i ==> (#[trigger] recorded[j]).position != at) ==> r == (
        StopReason::Exception { code: recorded[i].code, addr: recorded[i].exception_address })
    &&& seen.stop_reason == EventType::Exception && (forall|i: int|
        0 <= i < recorded.len() ==> (#[trigger] recorded[i]).position != at) ==> r == (
    StopReason::Exception { code: 0, addr: 0 })
}

proof fn lemma_exception_found(events: Seq<TtdExceptionEvent>, pos: TtdPosition)
    ensures
        exception_at(events, pos) is None ==> forall|i: int|
            0 <= i < events.len() ==> (#[trigger] events[i]).position != pos,
        exception_at(events, pos) matches Some(e) ==> exists|i: int|
            0 <= i < events.len() && #[trigger] events[i] == e && e.position == pos && forall|
                j: int,
            | 0 <= j < i ==> (#[trigger] events[j]).position != pos,
    decreases events.len(),
{
    if events.len() > 0 {
        let rest = events.skip(1);
        lemma_exception_found(rest, pos);
        if events[0].position == pos {
            assert(events[0] == exception_at(events, pos)->0);
        } else {
            match exception_at(rest, pos) {
                Some(e) => {
                    let i = choose|i: int|
                        0 <= i < rest.len() && #[trigger] rest[i] == e && e.position == pos
                            && forall|j: int| 0 <= j < i ==> (#[trigger] rest[j]).position != pos;
                    assert(events[i + 1] == e);
                    assert forall|j: int| 0 <= j < i + 1 implies (
                    #[trigger] events[j]).position != pos by {
                        if j > 0 {
                            assert(rest[j - 1] == events[j]);
                        }
                    }
                },
                None => {
                    assert forall|j: int| 0 <= j < events.len() implies (
                    #[trigger] events[j]).position != pos by {
                        if j > 0 {
                            assert(rest[j - 1] == events[j]);
                        }
                    }
                },
            }
        }
    }
}

/// A plain conversion of an engine result knows no recorded exceptions.
pub proof fn law_result_conversion(seen: TtdReplayResult, at: TtdPosition, r: StopReason)
    requires
        call_ensures(StopReason::from_replay_result, (&seen,), r),
    ensures
        stop_for_event(seen, at, Seq::empty(), r),
{
}

/// After a continue or a step the target stands where it ended, on the thread
/// that it ended on, unless there is none.
pub proof fn law_replays_end_where_the_engine_did(
    p: &mut TtdProcess,
    q: &mut TtdProcess,
    end: ReplayEnd,
    id: BreakpointId,
    forward: bool,
    seeked: bool,
    r: StopReason,
    s: StopReason,
)
    requires
        call_ensures(TtdProcess::finish_continue, (p, &end, id, forward), r),
        call_ensures(TtdProcess::finish_step, (q, &end, seeked), s),
    ensures
        final(p)@.position == end.position && final(q)@.position == end.position,
        end.tid != 0 ==> final(p)@.current_thread == Some(end.tid as u64)
            && final(q)@.current_thread == Some(end.tid as u64),
        end.tid == 0 ==> final(p)@.current_thread == old(p)@.current_thread
            && final(q)@.current_thread == old(q)@.current_thread,
        final(p)@.watch == old(p)@.watch && final(q)@.watch == old(q)@.watch,
        final(p)@.facts == old(p)@.facts && final(q)@.facts == old(q)@.facts,
{
}

/// A continue runs to the end of the trace in its direction.
pub proof fn law_continue_is_limited_by_the_trace(
    p: &mut TtdProcess,
    forward: bool,
    r: ReplayPlan,
)
    requires
        call_ensures(TtdProcess::begin_continue, (p, forward), r),
    ensures
        forward ==> r.limit == old(p)@.facts.last,
        !forward ==> r.limit == old(p)@.facts.first,
        r.seek matches Some(pos) ==> pos == old(p)@.position,
        r.seek is None ==> old(p)@.cursors.persistent.known() == Some(old(p)@.position),
        final(p)@.position == old(p)@.position,
        final(p)@.watch == old(p)@.watch,
{
}

/// A watchpoint hit stops a continue exactly if an enabled breakpoint is there
/// for it: an execution breakpoint at that address, or a data breakpoint whose
/// bytes hold the address and whose accesses include it, for any thread or for
/// the one that hit. It stops at the one with the lowest id.
pub proof fn law_hit_stops_at_its_breakpoint(
    p: TtdProcess,
    addr: u64,
    size: u64,
    access: u8,
    thread: u32,
    r: BreakpointId,
)
    requires
        p.wf(),
        call_ensures(TtdProcess::on_watchpoint_hit, (&p, addr, size, access, thread), r),
    ensures
        ({
            let list = p@.watch.logical.list;
            let meets = |b: Breakpoint|
                {
                    &&& b.enabled
                    &&& b.thread_id is None || b.thread_id->0 == thread
                    &&& b.kind is Execute ==> b.addr == addr
                    &&& !(b.kind is Execute) ==> b.addr <= addr && addr - b.addr < b.size
                        && b.access & access != 0
                };
            &&& r == 0 ==> forall|i: int| 0 <= i < list.len() ==> !meets(#[trigger] list[i])
            &&& r != 0 ==> exists|i: int|
                0 <= i < list.len() && meets(#[trigger] list[i]) && list[i].id == r
            &&& forall|i: int|
                0 <= i < list.len() && meets(#[trigger] list[i]) ==> r != 0 && r <= list[i].id
        }),
{
    p.lemma_contents_valid();
    let list = p@.watch.logical.list;
    let meets = |b: Breakpoint| b.hit_on(addr, access, thread as u64);
    lemma_first_of_list(list, meets);
    if first_where(list, meets) is Some {
        let b = first_where(list, meets)->0;
        let i = choose|i: int|
            0 <= i < list.len() && list[i] == b && forall|j: int|
                0 <= j < i ==> !meets(#[trigger] list[j]);
        assert forall|k: int| 0 <= k < list.len() && meets(#[trigger] list[k]) implies b.id
            <= list[k].id by {
            if i < k {
                assert(list[i].id < list[k].id);
            }
        }
    }
}

/// What the client is told of a stop: breakpoints and steps are traps, the end
/// of the trace a kill that can be rewound, its start no signal, an interrupt
/// an interrupt, and a failure a trap.
pub proof fn law_stop_replies(
    reason: Result<StopReason, DebugError>,
    tid: u64,
    r: StopReply,
)
    requires
        call_ensures(reply_for, (&reason, tid), r),
    ensures
        ({
            let signal = |n: u8| StopReply::SignalWithThread { tid, signal: Signal(n) };
            &&& reason is Err ==> r == signal(5)
            &&& reason matches Ok(why) ==> {
                &&& why is Breakpoint ==> r == signal(5)
                &&& why is StepComplete ==> r == signal(5)
                &&& why is PositionReached ==> r == signal(5)
                &&& why is TraceEnd ==> r == signal(9)
                &&& why is TraceStart ==> r == signal(0)
                &&& why is Interrupted ==> r == signal(2)
                &&& why matches StopReason::Watchpoint { bp_id, addr, access } ==> r is Watch
                    && r->Watch_tid == tid && r->Watch_addr == addr
                &&& why matches StopReason::Exception { code, addr } ==> r is SignalWithThread
                    && r->SignalWithThread_tid == tid
            }
        }),
{
}

/// A watchpoint stop says read, write or both as the accesses of the breakpoint
/// do; without a read it is a write.
pub proof fn law_watch_stops_say_the_access(
    bp_id: u64,
    addr: u64,
    access: u8,
    tid: u64,
    r: StopReply,
)
    requires
        call_ensures(
            reply_for,
            (&Ok::<StopReason, DebugError>(StopReason::Watchpoint { bp_id, addr, access }), tid),
            r,
        ),
    ensures
        r is Watch,
        access % 2 == 0 ==> r->kind == WatchKind::Write,
        access % 2 == 1 && (access / 2) % 2 == 0 ==> r->kind == WatchKind::Read,
        access % 2 == 1 && (access / 2) % 2 == 1 ==> r->kind == WatchKind::ReadWrite,
{
    lemma_access_bits(access);
}

proof fn lemma_access_bits(access: u8)
    ensures
        access & 1 != 0 <==> access % 2 == 1,
        access & 2 != 0 <==> (access / 2) % 2 == 1,
{
    assert(access & 1 != 0 <==> access % 2 == 1) by (bit_vector);
    assert(access & 2 != 0 <==> (access / 2) % 2 == 1) by (bit_vector);
}

/// An access mask is told as read, write or both.
pub proof fn law_access_masks_are_told_apart(access: u8, r: WatchKind)
    requires
        call_ensures(watch_kind_from_access, (access,), r),
    ensures
        access % 2 == 0 ==> r == WatchKind::Write,
        access % 2 == 1 && (access / 2) % 2 == 0 ==> r == WatchKind::Read,
        access % 2 == 1 && (access / 2) % 2 == 1 ==> r == WatchKind::ReadWrite,
{
    lemma_access_bits(access);
}

/// Exceptions: breakpoint and single step are traps, a C++ exception is an
/// abort, everything else is a fault.
pub proof fn law_exception_signals(code: u32, r: Signal)
    requires
        call_ensures(signal_for_exception, (code,), r),
    ensures
        code == 0x8000_0003 || code == 0x8000_0004 ==> r.0 == 5,
        code == 0xE06D_7363 ==> r.0 == 6,
        code != 0x8000_0003 && code != 0x8000_0004 && code != 0xE06D_7363 ==> r.0 == 11,
{
}

/// An exception stop carries the signal of its code.
pub proof fn law_exception_stops_carry_their_signal(
    code: u32,
    addr: u64,
    tid: u64,
    signal: Signal,
    r: StopReply,
)
    requires
        call_ensures(signal_for_exception, (code,), signal),
        call_ensures(
            reply_for,
            (&Ok::<StopReason, DebugError>(StopReason::Exception { code, addr }), tid),
            r,
        ),
    ensures
        r == (StopReply::SignalWithThread { tid, signal }),
{
}

/// A stop names the current thread; without one the first active thread, and
/// without that thread 1.
pub proof fn law_stops_name_the_current_thread<T: DebugTarget>(backend: T, r: u64)
    requires
        call_ensures(stop_tid::<T>, (&backend,), r),
    ensures
        ({
            let current = backend.current_thread();
            let active = backend.active_threads();
            &&& r != 0
            &&& current is Some && current->0 != 0 ==> r == current->0
            &&& (current is None || current->0 == 0) && active.len() > 0 && active[0] != 0 ==> r
                == active[0]
            &&& (current is None || current->0 == 0) && (active.len() == 0 || active[0] == 0)
                ==> r == 1
        }),
{
}

/// The reply to a stop of a backend is that for the thread which the stop names.
pub proof fn law_backend_stops_use_that_thread<T: DebugTarget>(
    backend: T,
    reason: Result<StopReason, DebugError>,
    tid: u64,
    r: StopReply,
    q: StopReply,
)
    requires
        call_ensures(stop_tid::<T>, (&backend,), tid),
        call_ensures(reply_for, (&reason, tid), q),
        call_ensures(map_stop_reason::<T>, (&backend, &reason), r),
    ensures
        r == q,
{
}

/// The client's watchpoints watch what they say.
pub proof fn law_watchpoints_watch_what_they_say(
    kind: WatchKind,
    k: BreakpointKind,
    mask: u8,
)
    requires
        call_ensures(breakpoint_kind_from_watch_kind, (kind,), k),
        call_ensures(access_mask_from_watch_kind, (kind,), mask),
    ensures
        kind == WatchKind::Read ==> k == BreakpointKind::Read && mask == 1,
        kind == WatchKind::Write ==> k == BreakpointKind::Write && mask == 2,
        kind == WatchKind::ReadWrite ==> k == BreakpointKind::Access && mask == 3,
{
}

/// A replay that ends is reported by the reply to its stop reason, and one that
/// the client interrupted as an interrupt. The report is delivered once.
pub proof fn law_ended_replay_is_reported<T: DebugTarget>(
    ended: &mut GdbTarget<T>,
    asked: &mut GdbTarget<T>,
    again: &mut GdbTarget<T>,
    backend: T,
    reason: Result<StopReason, DebugError>,
    tid: u64,
    reply: StopReply,
    first: Option<StopReply>,
    second: Option<StopReply>,
)
    requires
        call_ensures(GdbTarget::<T>::finish_replay, (ended, backend, &reason), ()),
        *asked == *final(ended),
        call_ensures(GdbTarget::<T>::take_stop_reason, (asked,), first),
        *again == *final(asked),
        call_ensures(GdbTarget::<T>::take_stop_reason, (again,), second),
        call_ensures(stop_tid::<T>, (&backend,), tid),
        call_ensures(reply_for, (&reason, tid), reply),
    ensures
        !old(ended)@.runner.interrupted ==> first == Some(reply),
        old(ended)@.runner.interrupted ==> first == Some(
            StopReply::SignalWithThread { tid, signal: Signal(2) },
        ),
        second is None,
        final(again)@.runner.backend == Some(backend),
{
}

} // verus!
