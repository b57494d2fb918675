//! What the engine watches: the breakpoints of the client, after every change of
//! them.

use vstd::prelude::*;

use super::breakpoints::{lemma_same_temper, lemma_tallies};
use crate::target::breakpoint::{Breakpoint, BreakpointId, BreakpointKind};
use crate::target::breakpoint_state::{resyncs, BreakpointState, WatchState};
use crate::target::error::DebugError;
use crate::target::mock::RecordingCursor;
use crate::target::watchpoint::{
    addition_went, lemma_leaves, removal_went, SyncRun, WatchpointKey,
};

verus! {

/// A cursor of an engine that does what it is asked.
pub open spec fn obeys(cursor: RecordingCursor) -> bool {
    !cursor.refuse_add && !cursor.refuse_remove
}

/// The engine watches what the enabled breakpoints call for, and nothing else.
pub open spec fn in_line(s: WatchState) -> bool {
    forall|k: WatchpointKey| #[trigger]
        s.physical.contains(k) <==> exists|i: int|
            {
                let b = #[trigger] s.logical.list[i];
                &&& 0 <= i < s.logical.list.len()
                &&& b.enabled && b.addr == k.addr && b.size == k.size && b.access == k.access
                &&& k.tid == (if b.thread_id is Some && s.threads.contains_key(
                    b.thread_id->0 as u32,
                ) {
                    s.threads[b.thread_id->0 as u32]
                } else {
                    0
                })
            }
}

proof fn lemma_in_line(s: WatchState)
    ensures
        in_line(s) <==> s.physical == s.desired(),
{
    assert forall|k: WatchpointKey| #[trigger] s.desired().contains(k) <==> exists|i: int|
        {
            let b = #[trigger] s.logical.list[i];
            &&& 0 <= i < s.logical.list.len()
            &&& b.enabled && b.addr == k.addr && b.size == k.size && b.access == k.access
            &&& k.tid == (if b.thread_id is Some && s.threads.contains_key(
                b.thread_id->0 as u32,
            ) {
                s.threads[b.thread_id->0 as u32]
            } else {
                0
            })
        } by {
        if s.desired().contains(k) {
            let i = choose|i: int|
                0 <= i < s.logical.list.len() && (#[trigger] s.logical.list[i]).enabled
                    && crate::target::breakpoint_state::key_of(s.logical.list[i], s.threads) == k;
            let b = s.logical.list[i];
            assert(b.enabled && b.addr == k.addr);
        }
    }
    if in_line(s) {
        assert(s.physical =~= s.desired());
    }
}

proof fn lemma_obeyed(s: WatchState, run: SyncRun, states: Seq<RecordingCursor>)
    requires
        s.may_sync(run, states),
        obeys(states[0]),
    ensures
        run.all_added(),
        s.synced(run).physical == s.desired(),
        s.synced(run).logical == s.logical,
        obeys(states.last()),
{
    let n = run.stale.len() as int;
    lemma_same_temper(run, states, (states.len() - 1) as nat);
    assert forall|i: int| 0 <= i < run.gone.len() implies #[trigger] run.gone[i] by {
        lemma_same_temper(run, states, i as nat);
        assert(removal_went(states[i], run.stale[i], states[i + 1], run.gone[i]));
    }
    assert forall|i: int| 0 <= i < run.came.len() implies #[trigger] run.came[i] by {
        lemma_same_temper(run, states, (n + i) as nat);
        assert(addition_went(states[n + i], run.missing[i], states[n + i + 1], run.came[i]));
    }
    assert forall|k: WatchpointKey|
        s.synced(run).physical.contains(k) <==> #[trigger] s.desired().contains(k) by {
        lemma_leaves(run, s.physical, s.desired(), k);
        assert(s.physical.difference(s.desired()).contains(k) <==> run.stale.contains(k));
        assert(s.desired().difference(s.physical).contains(k) <==> run.missing.contains(k));
        if run.stale.contains(k) {
            let i = choose|i: int| 0 <= i < run.stale.len() && run.stale[i] == k;
            assert(run.gone[i]);
        }
        if run.missing.contains(k) {
            let i = choose|i: int| 0 <= i < run.missing.len() && run.missing[i] == k;
            assert(run.came[i]);
        }
    }
    assert(s.synced(run).physical =~= s.desired());
}

proof fn lemma_resynced(
    s: WatchState,
    cursor: RecordingCursor,
    after: WatchState,
    cursor_after: RecordingCursor,
)
    requires
        resyncs(s, cursor, after, cursor_after),
        obeys(cursor),
    ensures
        after.physical == after.desired(),
        after.logical == s.logical,
{
    let (run, states) = choose|run: SyncRun, states: Seq<RecordingCursor>|
        {
            &&& #[trigger] s.may_sync(run, states)
            &&& states[0] == cursor
            &&& states.last() == cursor_after
            &&& after == s.synced(run)
        };
    lemma_obeyed(s, run, states);
}

proof fn lemma_all_kept(list: Seq<Breakpoint>, keep: spec_fn(Breakpoint) -> bool)
    requires
        forall|i: int| 0 <= i < list.len() ==> keep(#[trigger] list[i]),
    ensures
        list.filter(keep) == list,
    decreases list.len(),
{
    reveal(Seq::filter);
    if list.len() > 0 {
        let front = list.drop_last();
        assert forall|i: int| 0 <= i < front.len() implies keep(#[trigger] front[i]) by {
            assert(keep(list[i]));
        }
        lemma_all_kept(front, keep);
        assert(keep(list[list.len() - 1]));
        assert(front.push(list.last()) =~= list);
    }
}

/// A synchronization with an engine that obeys succeeds and leaves the engine in
/// line with the breakpoints, whatever it watched before.
pub proof fn law_synchronized_engine_is_in_line(
    s: &mut BreakpointState,
    cursor: &mut RecordingCursor,
    r: Result<(), DebugError>,
)
    requires
        obeys(*cursor),
        call_ensures(BreakpointState::sync::<RecordingCursor>, (s, cursor), r),
    ensures
        r is Ok,
        in_line(final(s)@),
        final(s)@.logical == old(s)@.logical,
        final(s)@.threads == old(s)@.threads,
{
    let (run, states) = choose|run: SyncRun, states: Seq<RecordingCursor>|
        {
            &&& #[trigger] old(s)@.may_sync(run, states)
            &&& states[0] == *old(cursor)
            &&& states.last() == *final(cursor)
            &&& final(s)@ == old(s)@.synced(run)
            &&& r is Ok <==> run.all_added()
            &&& r matches Err(e) ==> crate::target::breakpoint_state::surfaces(run, states, e)
        };
    lemma_obeyed(old(s)@, run, states);
    lemma_in_line(final(s)@);
}

/// Setting a breakpoint succeeds with an engine that obeys, and leaves it in
/// line.
pub proof fn law_set_breakpoints_reach_the_engine(
    s: &mut BreakpointState,
    t: &mut BreakpointState,
    cursor: &mut RecordingCursor,
    other: &mut RecordingCursor,
    addr: u64,
    thread: Option<u64>,
    size: u64,
    kind: BreakpointKind,
    r: Result<BreakpointId, DebugError>,
    q: Result<BreakpointId, DebugError>,
)
    requires
        obeys(*cursor) && obeys(*other),
        call_ensures(
            BreakpointState::set_breakpoint::<RecordingCursor>,
            (s, addr, thread, cursor),
            r,
        ),
        call_ensures(
            BreakpointState::set_data_breakpoint::<RecordingCursor>,
            (t, addr, size, kind, other),
            q,
        ),
    ensures
        r is Ok && q is Ok,
        in_line(final(s)@) && in_line(final(t)@),
{
    let bp = choose|bp: Breakpoint| #[trigger]
        crate::target::breakpoint_state::registers(
            old(s)@,
            bp,
            *old(cursor),
            r,
            final(s)@,
            *final(cursor),
        );
    lemma_registered(old(s)@, bp, *old(cursor), r, final(s)@, *final(cursor));
    let watched = choose|watched: Breakpoint| #[trigger]
        crate::target::breakpoint_state::registers(
            old(t)@,
            watched,
            *old(other),
            q,
            final(t)@,
            *final(other),
        );
    lemma_registered(old(t)@, watched, *old(other), q, final(t)@, *final(other));
}

proof fn lemma_registered(
    s: WatchState,
    bp: Breakpoint,
    cursor: RecordingCursor,
    r: Result<BreakpointId, DebugError>,
    after: WatchState,
    cursor_after: RecordingCursor,
)
    requires
        crate::target::breakpoint_state::registers(s, bp, cursor, r, after, cursor_after),
        obeys(cursor),
    ensures
        r is Ok,
        in_line(after),
{
    let added = s.with_logical(s.logical.added(bp));
    let (run, states) = choose|run: SyncRun, states: Seq<RecordingCursor>|
        {
            &&& #[trigger] added.may_sync(run, states)
            &&& states[0] == cursor
            &&& r is Ok <==> run.all_added()
            &&& r matches Ok(id) ==> id == bp.id && after == added.synced(run) && cursor_after
                == states.last()
            &&& r matches Err(e) ==> crate::target::breakpoint_state::surfaces(run, states, e)
                && crate::target::breakpoint_state::takes_back(
                added.synced(run),
                bp.id,
                states.last(),
                after,
                cursor_after,
            )
        };
    lemma_obeyed(added, run, states);
    lemma_in_line(after);
}

/// Removing breakpoints leaves an engine that obeys in line, whether or not
/// there was something to remove.
pub proof fn law_removals_reach_the_engine(
    s: &mut BreakpointState,
    t: &mut BreakpointState,
    cursor: &mut RecordingCursor,
    other: &mut RecordingCursor,
    id: BreakpointId,
    addr: u64,
    size: u64,
    access: u8,
    r: bool,
    q: bool,
)
    requires
        obeys(*cursor) && obeys(*other),
        in_line(s@) && in_line(t@),
        call_ensures(
            BreakpointState::remove_breakpoint::<RecordingCursor>,
            (s, id, cursor),
            r,
        ),
        call_ensures(
            BreakpointState::remove_breakpoint_exact::<RecordingCursor>,
            (t, addr, size, access, other),
            q,
        ),
    ensures
        in_line(final(s)@) && in_line(final(t)@),
{
    lemma_in_line(old(s)@);
    lemma_in_line(old(t)@);
    lemma_in_line(final(s)@);
    lemma_in_line(final(t)@);
    let by_id = |b: Breakpoint| b.id != id;
    let elsewhere = |b: Breakpoint|
        !crate::target::breakpoint::at_place(b, addr, size, access);
    if r {
        lemma_resynced(
            old(s)@.with_logical(old(s)@.logical.removed(id)),
            *old(cursor),
            final(s)@,
            *final(cursor),
        );
    } else {
        lemma_all_kept(old(s)@.logical.list, by_id);
        assert(final(s)@.logical == old(s)@.logical.kept(by_id));
    }
    if q {
        lemma_resynced(
            old(t)@.with_logical(old(t)@.logical.removed_exact(addr, size, access)),
            *old(other),
            final(t)@,
            *final(other),
        );
    } else {
        lemma_all_kept(old(t)@.logical.list, elsewhere);
        assert(final(t)@.logical == old(t)@.logical.kept(elsewhere));
    }
}

/// The counters of watchpoints grow by what the engine did: each request that it
/// carried out counts once, additions and removals apart.
pub proof fn law_watchpoint_work_is_counted(
    s: &mut BreakpointState,
    cursor: &mut RecordingCursor,
    r: Result<(), DebugError>,
)
    requires
        old(s)@.adds + final(cursor).requests@.len() <= u64::MAX,
        old(s)@.removes + final(cursor).requests@.len() <= u64::MAX,
        call_ensures(BreakpointState::sync::<RecordingCursor>, (s, cursor), r),
    ensures
        ({
            let asked = final(cursor).requests@.len() - old(cursor).requests@.len();
            let adds = final(s)@.adds - old(s)@.adds;
            let removes = final(s)@.removes - old(s)@.removes;
            &&& old(cursor).refuse_add ==> adds == 0
            &&& old(cursor).refuse_remove ==> removes == 0
            &&& obeys(*old(cursor)) ==> adds + removes == asked
            &&& old(cursor).refuse_add && old(cursor).refuse_remove ==> final(s)@.physical
                =~= old(s)@.physical
        }),
{
    let (run, states) = choose|run: SyncRun, states: Seq<RecordingCursor>|
        {
            &&& #[trigger] old(s)@.may_sync(run, states)
            &&& states[0] == *old(cursor)
            &&& states.last() == *final(cursor)
            &&& final(s)@ == old(s)@.synced(run)
            &&& r is Ok <==> run.all_added()
            &&& r matches Err(e) ==> crate::target::breakpoint_state::surfaces(run, states, e)
        };
    crate::target::mock::law_sync_makes_each_request_once(
        run,
        old(s)@.physical,
        old(s)@.desired(),
        states,
    );
    let n = run.stale.len() as int;
    assert forall|i: int| 0 <= i < run.gone.len() implies #[trigger] run.gone[i]
        == !old(cursor).refuse_remove by {
        lemma_same_temper(run, states, i as nat);
        assert(removal_went(states[i], run.stale[i], states[i + 1], run.gone[i]));
    }
    assert forall|i: int| 0 <= i < run.came.len() implies #[trigger] run.came[i]
        == !old(cursor).refuse_add by {
        lemma_same_temper(run, states, (n + i) as nat);
        assert(addition_went(states[n + i], run.missing[i], states[n + i + 1], run.came[i]));
    }
    lemma_tallies(run.gone, !old(cursor).refuse_remove);
    lemma_tallies(run.came, !old(cursor).refuse_add);
    if old(cursor).refuse_add && old(cursor).refuse_remove {
        assert forall|k: WatchpointKey| final(s)@.physical.contains(k)
            <==> #[trigger] old(s)@.physical.contains(k) by {
            lemma_leaves(run, old(s)@.physical, old(s)@.desired(), k);
        }
    }
}

} // verus!
