//! The targets: what a loaded trace and the in-memory target show and count.

use vstd::prelude::*;

use crate::target::breakpoint::{Breakpoint, BreakpointId, BreakpointKind, BreakpointManager};
use crate::target::breakpoint_state::{BreakpointState, WatchpointStats};
use crate::target::error::DebugError;
use crate::target::mock::{ForwardStop, MockTarget, RecordingCursor, WatchpointRequest};
use crate::target::process::{ReplayEnd, ReplayPlan, TtdProcess};
use crate::target::stop_reason::StopReason;
use crate::target::threads::{law_catalog_knows_every_thread, ThreadTable};
use crate::target::watchpoint::{WatchpointCursor, WatchpointKey};
use crate::target::{
    module_views, DebugTarget, ModuleInfo, TargetDiagnostics, TargetStats, ThreadExtraInfoData,
};
use crate::ttd::engine::TtdEngine;
use crate::ttd::error::TtdError;
use crate::ttd::types::{TtdExceptionEvent, TtdPosition, TtdThreadInfo, TtdX64Regs};

verus! {

/// A loaded trace shows its own ends, threads, exceptions and modules, and where
/// it stands.
pub proof fn law_trace_is_shown(
    first: TtdPosition,
    last: TtdPosition,
    threads: Vec<TtdThreadInfo>,
    exceptions: Vec<TtdExceptionEvent>,
    modules: Vec<ModuleInfo>,
    e: TtdEngine,
    fresh: TtdProcess,
    p: &mut TtdProcess,
    to: TtdPosition,
    moved: TtdProcess,
    r: StopReason,
    d: TargetDiagnostics,
    ms: Vec<ModuleInfo>,
    es: Vec<TtdExceptionEvent>,
    span: (TtdPosition, TtdPosition),
    pos: TtdPosition,
    i: int,
)
    requires
        call_ensures(TtdEngine::open, (first, last, threads, exceptions, modules), e),
        call_ensures(TtdProcess::open, (e,), fresh),
        *p == fresh,
        call_ensures(TtdProcess::goto, (p, to), r),
        moved == *final(p),
        call_ensures(TtdProcess::diagnostics, (&moved,), d),
        call_ensures(TtdProcess::modules, (&moved,), ms),
        call_ensures(TtdProcess::exceptions, (&moved,), es),
        call_ensures(TtdProcess::lifetime, (&moved,), span),
        call_ensures(TtdProcess::position, (&moved,), pos),
    ensures
        d.first_position == first && d.last_position == last && d.current_position == pos,
        span == (first, last),
        d.threads@.len() == threads@.len(),
        0 <= i < threads@.len() ==> d.threads@[i].unique_id == threads@[i].unique_id
            && d.threads@[i].os_thread_id == threads@[i].os_thread_id && d.threads@[i].active_time
            == (threads@[i].active_time.min, threads@[i].active_time.max),
        exceptions@.len() <= u32::MAX ==> d.exception_count == exceptions@.len(),
        modules@.len() <= u32::MAX ==> d.module_count == modules@.len(),
        es@ == exceptions@,
        ms@.len() == modules@.len(),
        0 <= i < ms@.len() ==> ms@[i].base_addr == modules@[i].base_addr && ms@[i].size
            == modules@[i].size && ms@[i].name@ == modules@[i].name@,
        r == StopReason::PositionReached,
{
    assert(d@.threads == moved@.shown_diagnostics().threads);
    assert(module_views(ms@).len() == ms@.len());
    assert(module_views(modules@).len() == modules@.len());
    if 0 <= i < ms@.len() {
        assert(module_views(ms@)[i] == ms@[i]@);
        assert(module_views(modules@)[i] == modules@[i]@);
    }
}

/// A new trace has counted nothing.
pub proof fn law_counters_start_at_zero(e: TtdEngine, p: TtdProcess, s: TargetStats)
    requires
        call_ensures(TtdProcess::open, (e,), p),
        call_ensures(TtdProcess::stats, (&p,), s),
    ensures
        s.queries == 0 && s.cursor_seeks == 0 && s.steps == 0 && s.replays == 0,
        s.watchpoint_adds == 0 && s.watchpoint_removes == 0,
{
}

/// At first there are no breakpoints, nothing is watched and nothing was counted,
/// and the threads that can be asked about are those of the trace.
pub proof fn law_fresh_breakpoints(
    first: TtdPosition,
    last: TtdPosition,
    threads: Vec<TtdThreadInfo>,
    exceptions: Vec<TtdExceptionEvent>,
    modules: Vec<ModuleInfo>,
    e: TtdEngine,
    p: TtdProcess,
    tid: u64,
    known: Option<u32>,
    table: ThreadTable,
    s: BreakpointState,
    stats: WatchpointStats,
)
    requires
        call_ensures(TtdEngine::open, (first, last, threads, exceptions, modules), e),
        call_ensures(TtdProcess::open, (e,), p),
        call_ensures(TtdProcess::queried_thread, (&p, Some(tid)), known),
        call_ensures(BreakpointState::new, (table,), s),
        call_ensures(BreakpointState::watchpoint_stats, (&s,), stats),
    ensures
        known is Some <==> exists|i: int|
            0 <= i < threads@.len() && (#[trigger] threads@[i]).os_thread_id == tid,
        known matches Some(os_tid) ==> os_tid == tid,
        p@.watch.logical.list.len() == 0 && s@.logical.list.len() == 0,
        s@.physical == Set::<WatchpointKey>::empty(),
        s@.threads == table@,
        stats.adds == 0 && stats.removes == 0,
{
    if tid <= u32::MAX {
        law_catalog_knows_every_thread(threads@, tid as u32);
    }
}

/// Each query, seek, continue and step counts once, and each under its own name.
pub proof fn law_work_is_counted(
    p: TtdProcess,
    before: TargetStats,
    query: &mut TtdProcess,
    to: Option<TtdPosition>,
    queried: TargetStats,
    seek: &mut TtdProcess,
    landed: TtdPosition,
    sought: TargetStats,
    replay: &mut TtdProcess,
    forward: bool,
    plan: ReplayPlan,
    replayed: TargetStats,
    step: &mut TtdProcess,
    end: ReplayEnd,
    seeked: bool,
    r: StopReason,
    stepped: TargetStats,
)
    requires
        call_ensures(TtdProcess::stats, (&p,), before),
        *query == p && *seek == p && *replay == p && *step == p,
        call_ensures(TtdProcess::begin_query, (query,), to),
        call_ensures(TtdProcess::stats, (&*final(query),), queried),
        call_ensures(TtdProcess::note_seek, (seek, landed), ()),
        call_ensures(TtdProcess::stats, (&*final(seek),), sought),
        call_ensures(TtdProcess::begin_continue, (replay, forward), plan),
        call_ensures(TtdProcess::stats, (&*final(replay),), replayed),
        call_ensures(TtdProcess::finish_step, (step, &end, seeked), r),
        call_ensures(TtdProcess::stats, (&*final(step),), stepped),
        before.queries < u64::MAX && before.cursor_seeks < u64::MAX,
        before.steps < u64::MAX && before.replays < u64::MAX,
    ensures
        queried == (TargetStats { queries: (before.queries + 1) as u64, ..before }),
        sought == (TargetStats { cursor_seeks: (before.cursor_seeks + 1) as u64, ..before }),
        replayed == (TargetStats { replays: (before.replays + 1) as u64, ..before }),
        stepped.steps == before.steps + 1,
        stepped.cursor_seeks == before.cursor_seeks + (if seeked {
            1int
        } else {
            0
        }),
        stepped.queries == before.queries && stepped.replays == before.replays,
        stepped.watchpoint_adds == before.watchpoint_adds,
        stepped.watchpoint_removes == before.watchpoint_removes,
{
}

/// Steps use one cursor and continues another: neither moves the other's, and
/// each is known to stand where its replay ended.
pub proof fn law_cursors_are_apart(
    p: TtdProcess,
    step: &mut TtdProcess,
    go: &mut TtdProcess,
    end: ReplayEnd,
    seeked: bool,
    hit: BreakpointId,
    forward: bool,
    r: StopReason,
    q: StopReason,
    next: Option<TtdPosition>,
    asked: &mut TtdProcess,
    query: Option<TtdPosition>,
)
    requires
        *step == p && *go == p,
        call_ensures(TtdProcess::finish_step, (step, &end, seeked), r),
        call_ensures(TtdProcess::begin_step, (&*final(step),), next),
        call_ensures(TtdProcess::finish_continue, (go, &end, hit, forward), q),
        *asked == *final(go),
        call_ensures(TtdProcess::begin_query, (asked,), query),
    ensures
        next is None,
        query is None,
        final(step)@.cursors.persistent == p@.cursors.persistent,
        final(go)@.cursors.step == p@.cursors.step,
        final(step)@.watch == p@.watch && final(go)@.watch == p@.watch,
        final(step)@.facts == p@.facts && final(go)@.facts == p@.facts,
        final(go)@.stats == p@.stats,
{
}

/// A replay that failed leaves the other cursor, the position and the counters
/// alone.
pub proof fn law_failed_replays_leave_the_rest(
    p: TtdProcess,
    step: &mut TtdProcess,
    go: &mut TtdProcess,
)
    requires
        *step == p && *go == p,
        call_ensures(TtdProcess::fail_step, (step,), ()),
        call_ensures(TtdProcess::fail_continue, (go,), ()),
    ensures
        final(step)@.cursors.persistent == p@.cursors.persistent,
        final(go)@.cursors.step == p@.cursors.step,
        final(step)@.position == p@.position && final(go)@.position == p@.position,
        final(step)@.current_thread == p@.current_thread,
        final(go)@.current_thread == p@.current_thread,
        final(step)@.watch == p@.watch && final(go)@.watch == p@.watch,
        final(step)@.stats == p@.stats && final(go)@.stats == p@.stats,
{
}

/// A jump goes to the position, or to the end of the trace that it lies beyond,
/// and leaves the rest alone.
pub proof fn law_jumps_leave_the_rest(
    p: &mut TtdProcess,
    to: TtdPosition,
    r: StopReason,
    before: TargetStats,
    after: TargetStats,
    tid: Option<u64>,
    now: Option<u64>,
)
    requires
        call_ensures(TtdProcess::stats, (&*p,), before),
        call_ensures(TtdProcess::current_thread_id, (&*p,), tid),
        call_ensures(TtdProcess::goto, (p, to), r),
        call_ensures(TtdProcess::stats, (&*final(p),), after),
        call_ensures(TtdProcess::current_thread_id, (&*final(p),), now),
    ensures
        after == before,
        now == tid,
        final(p)@.watch == old(p)@.watch,
        final(p)@.cursors == old(p)@.cursors,
{
}

/// Breakpoints are looked up by their ids.
pub proof fn law_breakpoints_by_id(
    m: BreakpointManager,
    s: BreakpointState,
    id: BreakpointId,
    r: Option<&Breakpoint>,
    q: Option<&Breakpoint>,
    all: &[Breakpoint],
    stats: WatchpointStats,
    bp: Breakpoint,
    mask: u8,
)
    requires
        call_ensures(Breakpoint::access_mask, (&bp,), mask),
        call_ensures(BreakpointManager::get, (&m, id), r),
        call_ensures(BreakpointManager::all, (&m,), all),
        call_ensures(BreakpointState::get, (&s, id), q),
        call_ensures(BreakpointState::watchpoint_stats, (&s,), stats),
    ensures
        mask == bp.access,
        all@ == m@.list,
        r is None <==> forall|i: int| 0 <= i < m@.list.len() ==> (#[trigger] m@.list[i]).id != id,
        r matches Some(b) ==> b.id == id && m@.list.contains(*b),
        q is None <==> forall|i: int|
            0 <= i < s@.logical.list.len() ==> (#[trigger] s@.logical.list[i]).id != id,
        q matches Some(b) ==> b.id == id && s@.logical.list.contains(*b),
        stats.adds == s@.adds && stats.removes == s@.removes,
{
}

/// The in-memory target moves by steps within its sequence, and says so; a
/// continue backward goes to where the steps begin, and a jump to where it was
/// told.
pub proof fn law_mock_moves(
    m: MockTarget,
    forth: &mut MockTarget,
    back: &mut MockTarget,
    begin: &mut MockTarget,
    jump: &mut MockTarget,
    to: TtdPosition,
    r: Result<StopReason, DebugError>,
    q: Result<StopReason, DebugError>,
    b: Result<StopReason, DebugError>,
    j: Result<StopReason, DebugError>,
    p: TtdPosition,
    p1: TtdPosition,
    p2: TtdPosition,
    p3: TtdPosition,
    p4: TtdPosition,
)
    requires
        *forth == m && *back == m && *begin == m && *jump == m,
        call_ensures(<MockTarget as DebugTarget>::position, (&m,), p),
        call_ensures(<MockTarget as DebugTarget>::step, (forth,), r),
        call_ensures(<MockTarget as DebugTarget>::position, (&*final(forth),), p1),
        call_ensures(<MockTarget as DebugTarget>::step_back, (back,), q),
        call_ensures(<MockTarget as DebugTarget>::position, (&*final(back),), p2),
        call_ensures(<MockTarget as DebugTarget>::continue_backward, (begin,), b),
        call_ensures(<MockTarget as DebugTarget>::position, (&*final(begin),), p3),
        call_ensures(<MockTarget as DebugTarget>::goto, (jump, to), j),
        call_ensures(<MockTarget as DebugTarget>::position, (&*final(jump),), p4),
    ensures
        r == Ok::<StopReason, DebugError>(StopReason::StepComplete),
        q == Ok::<StopReason, DebugError>(StopReason::StepComplete),
        b == Ok::<StopReason, DebugError>(m@.backward),
        j == Ok::<StopReason, DebugError>(StopReason::PositionReached),
        p1.sequence == p.sequence && p2.sequence == p.sequence && p3.sequence == p.sequence,
        p.steps < u64::MAX ==> p1.steps == p.steps + 1,
        p.steps == u64::MAX ==> p1.steps == 0,
        p.steps > 0 ==> p2.steps == p.steps - 1,
        p.steps == 0 ==> p2.steps == 0,
        p3.steps == 0,
        p4 == to,
{
}

/// The in-memory target continues as it was set up to: with a fixed reason
/// without moving, else to the breakpoint with the lowest address, else to the
/// end.
pub proof fn law_mock_continues(
    m: MockTarget,
    reason: StopReason,
    fixed: MockTarget,
    told: &mut MockTarget,
    free: MockTarget,
    run: &mut MockTarget,
    r: Result<StopReason, DebugError>,
    q: Result<StopReason, DebugError>,
    addr: u64,
)
    requires
        call_ensures(MockTarget::with_fixed_forward, (m, reason), fixed),
        *told == fixed,
        call_ensures(<MockTarget as DebugTarget>::continue_forward, (told,), r),
        call_ensures(MockTarget::with_forward, (m, ForwardStop::BreakpointOrTraceEnd), free),
        *run == free,
        call_ensures(<MockTarget as DebugTarget>::continue_forward, (run,), q),
    ensures
        r == Ok::<StopReason, DebugError>(reason),
        final(told)@.position == m@.position && final(told)@.bps == m@.bps,
        m@.bps == Set::<u64>::empty() && m@.position.steps <= u64::MAX - 100
            ==> final(run)@.position == (TtdPosition {
            steps: (m@.position.steps + 100) as u64,
            ..m@.position
        }),
        q is Ok,
        m@.bps == Set::<u64>::empty() <==> q == Ok::<StopReason, DebugError>(StopReason::TraceEnd),
        m@.bps.contains(addr) && (forall|other: u64| #[trigger]
            m@.bps.contains(other) ==> addr <= other) ==> q == Ok::<StopReason, DebugError>(
            StopReason::Breakpoint { bp_id: addr, addr },
        ) && final(run)@.position == m@.position,
        final(run)@.bps == m@.bps,
{
    if m@.bps.contains(addr) {
        assert(m@.bps != Set::<u64>::empty());
    }
}

/// The in-memory target knows its threads: each has the number of its place, the
/// position and the TEB of the target, and its registers; other threads have
/// none of that.
pub proof fn law_mock_threads(
    m: MockTarget,
    tid: u64,
    ids: Vec<u64>,
    info: Option<ThreadExtraInfoData>,
    state: Option<(TtdX64Regs, u64)>,
    own: Option<(TtdX64Regs, u64)>,
    now: Option<u64>,
    i: int,
)
    requires
        call_ensures(<MockTarget as DebugTarget>::active_thread_ids, (&m,), ids),
        call_ensures(<MockTarget as DebugTarget>::thread_info, (&m, tid), info),
        call_ensures(<MockTarget as DebugTarget>::thread_state, (&m, Some(tid)), state),
        call_ensures(<MockTarget as DebugTarget>::current_thread_id, (&m,), now),
        call_ensures(<MockTarget as DebugTarget>::thread_state, (&m, None), own),
    ensures
        ids@ == m@.thread_ids,
        info is Some <==> ids@.contains(tid),
        state is Some <==> ids@.contains(tid),
        (0 <= i < ids@.len() && i < u32::MAX && ids@[i] == tid && forall|k: int|
            0 <= k < i ==> ids@[k] != tid) ==> info is Some && info->0.unique_id == i + 1,
        info matches Some(t) ==> t.current_position == m@.position && t.teb == m@.teb,
        state matches Some(s) ==> s == (m@.regs, m@.teb),
        now == Some(tid) ==> own == state,
        now is None ==> own is None,
{
    if 0 <= i < ids@.len() && ids@[i] == tid && forall|k: int| 0 <= k < i ==> ids@[k] != tid {
        lemma_thread_index(ids@, tid, i);
    }
}

proof fn lemma_thread_index(ids: Seq<u64>, tid: u64, i: int)
    requires
        0 <= i < ids.len(),
        ids[i] == tid,
        forall|k: int| 0 <= k < i ==> ids[k] != tid,
    ensures
        crate::target::mock::thread_index(ids, tid) == i,
    decreases i,
{
    if i > 0 {
        assert(ids[0] != tid);
        assert forall|k: int| 0 <= k < i - 1 implies ids.skip(1)[k] != tid by {
            assert(ids[k + 1] != tid);
        }
        lemma_thread_index(ids.skip(1), tid, i - 1);
    }
}

/// The memory of the in-memory target: each byte is the low byte of its address.
pub proof fn law_mock_memory(m: MockTarget, addr: u64, buf: &mut [u8], n: usize, i: int)
    requires
        call_ensures(<MockTarget as DebugTarget>::read_memory, (&m, addr, buf), n),
    ensures
        n == old(buf)@.len(),
        0 <= i < n ==> final(buf)@[i] == (addr + i) % 256,
{
    if 0 <= i < n {
        assert(final(buf)@.take(n as int)[i] == final(buf)@[i]);
    }
}

/// Breakpoints of the in-memory target are known by their addresses, unless it
/// refuses them.
pub proof fn law_mock_breakpoints(
    m: MockTarget,
    addr: u64,
    tid: Option<u64>,
    size: u64,
    kind: BreakpointKind,
    access: u8,
    set: &mut MockTarget,
    data: &mut MockTarget,
    gone: &mut MockTarget,
    place: &mut MockTarget,
    r: Result<u64, DebugError>,
    q: Result<u64, DebugError>,
    x: bool,
    y: bool,
    failing: MockTarget,
    refused: &mut MockTarget,
    f: Result<u64, DebugError>,
    other: u64,
)
    requires
        !m@.fail_breakpoints,
        *set == m && *data == m && *gone == m && *place == m,
        call_ensures(<MockTarget as DebugTarget>::set_breakpoint, (set, addr, tid), r),
        call_ensures(<MockTarget as DebugTarget>::set_data_breakpoint, (data, addr, size, kind), q),
        call_ensures(<MockTarget as DebugTarget>::remove_breakpoint, (gone, addr), x),
        call_ensures(
            <MockTarget as DebugTarget>::remove_breakpoint_exact,
            (place, addr, size, access),
            y,
        ),
        call_ensures(MockTarget::with_failing_breakpoints, (m,), failing),
        *refused == failing,
        call_ensures(<MockTarget as DebugTarget>::set_breakpoint, (refused, addr, tid), f),
    ensures
        r == Ok::<u64, DebugError>(addr) && q == Ok::<u64, DebugError>(addr),
        final(set)@.bps.contains(other) <==> m@.bps.contains(other) || other == addr,
        final(data)@.bps.contains(other) <==> m@.bps.contains(other) || other == addr,
        x == m@.bps.contains(addr) && y == x,
        final(gone)@.bps.contains(other) <==> m@.bps.contains(other) && other != addr,
        final(place)@.bps.contains(other) <==> m@.bps.contains(other) && other != addr,
        f is Err && f->Err_0 is BreakpointRegister && f->Err_0->addr == addr,
        final(refused)@.bps == m@.bps,
        final(set)@.position == m@.position && final(data)@.position == m@.position,
        final(gone)@.position == m@.position && final(place)@.position == m@.position,
{
}

/// The in-memory target shows what it holds.
pub proof fn law_mock_shows(
    m: MockTarget,
    modules: Vec<ModuleInfo>,
    with: MockTarget,
    ms: Vec<ModuleInfo>,
    d: TargetDiagnostics,
    es: Vec<TtdExceptionEvent>,
    s: TargetStats,
    span: (TtdPosition, TtdPosition),
    select: &mut MockTarget,
    tid: u64,
    now: Option<u64>,
    i: int,
)
    requires
        call_ensures(MockTarget::with_modules, (m, modules), with),
        call_ensures(<MockTarget as DebugTarget>::modules, (&with,), ms),
        call_ensures(<MockTarget as DebugTarget>::diagnostics, (&with,), d),
        call_ensures(<MockTarget as DebugTarget>::exceptions, (&with,), es),
        call_ensures(<MockTarget as DebugTarget>::stats, (&with,), s),
        call_ensures(<MockTarget as DebugTarget>::lifetime, (&with,), span),
        *select == m,
        call_ensures(<MockTarget as DebugTarget>::set_current_thread, (select, tid), ()),
        call_ensures(<MockTarget as DebugTarget>::current_thread_id, (&*final(select),), now),
    ensures
        ms@.len() == modules@.len(),
        0 <= i < ms@.len() ==> ms@[i].base_addr == modules@[i].base_addr && ms@[i].size
            == modules@[i].size && ms@[i].name@ == modules@[i].name@,
        span == m@.lifetime,
        (d.first_position, d.last_position) == span && d.current_position == m@.position,
        d.threads@.len() == m@.thread_ids.len(),
        0 <= i < d.threads@.len() && i < u32::MAX ==> d.threads@[i].unique_id == i + 1
            && d.threads@[i].os_thread_id == m@.thread_ids[i] as u32 && d.threads@[i].active_time
            == (m@.position, m@.lifetime.1),
        d.exception_count == 0 && es@.len() == 0,
        modules@.len() <= u32::MAX ==> d.module_count == modules@.len(),
        s.queries == 0 && s.cursor_seeks == 0 && s.steps == 0 && s.replays == 0,
        s.watchpoint_adds == 0 && s.watchpoint_removes == 0,
        now == Some(tid),
        final(select)@.position == m@.position && final(select)@.thread_ids == m@.thread_ids,
{
    assert(module_views(ms@).len() == ms@.len());
    assert(module_views(modules@).len() == modules@.len());
    if 0 <= i < ms@.len() {
        assert(module_views(ms@)[i] == ms@[i]@);
        assert(module_views(modules@)[i] == modules@[i]@);
    }
    assert(d@.threads == with.diagnosed().threads);
}

/// A recording cursor records each request and answers as it was set up to.
pub proof fn law_recording_cursor(
    refuse_add: bool,
    refuse_remove: bool,
    fresh: RecordingCursor,
    added: &mut RecordingCursor,
    removed: &mut RecordingCursor,
    key: WatchpointKey,
    other: WatchpointKey,
    r: Result<(), TtdError>,
    q: Result<(), TtdError>,
)
    requires
        call_ensures(RecordingCursor::new, (refuse_add, refuse_remove), fresh),
        *added == fresh,
        call_ensures(<RecordingCursor as WatchpointCursor>::add_watchpoint, (added, key), r),
        *removed == *final(added),
        call_ensures(<RecordingCursor as WatchpointCursor>::remove_watchpoint, (removed, other), q),
    ensures
        final(removed).requests@ == seq![
            WatchpointRequest::Add(key),
            WatchpointRequest::Remove(other),
        ],
        r is Err <==> refuse_add,
        q is Err <==> refuse_remove,
{
    assert(final(removed).requests@ =~= seq![
        WatchpointRequest::Add(key),
        WatchpointRequest::Remove(other),
    ]);
}

} // verus!
