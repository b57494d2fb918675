//! Breakpoints: what a client sets is what can stop it, and what the engine is
//! asked to watch.

use gdbstub::target::ext::breakpoints::WatchKind;
use vstd::prelude::*;

use super::stops::lemma_first_of_list;
use crate::gdb::target::GdbTarget;
use crate::target::breakpoint::{
    first_where, lemma_kept_valid, Breakpoint, BreakpointId, BreakpointKind, BreakpointManager,
};
use crate::target::breakpoint_state::{registers, BreakpointState, WatchState};
use crate::target::error::DebugError;
use crate::target::mock::{MockTarget, RecordingCursor, WatchpointRequest};
use crate::target::stop_reason::StopReason;
use crate::target::threads::{law_catalog_knows_every_thread, law_last_thread_wins, ThreadTable};
use crate::target::watchpoint::{
    KeySet, SyncRun, WatchpointCursor, WatchpointKey, WatchpointRegistry, WatchpointSyncError,
    WatchpointSyncReport,
};
use crate::target::DebugTarget;
use crate::ttd::types::TtdThreadInfo;

verus! {

/// An enabled execution breakpoint at an address, for one thread or for any.
pub open spec fn stops_execution(b: Breakpoint, addr: u64, thread: Option<u64>) -> bool {
    b.enabled && b.kind is Execute && b.addr == addr && b.size == 1 && b.access == 4
        && b.thread_id == thread
}

/// An enabled data breakpoint on some bytes, for any thread.
pub open spec fn watches_data(b: Breakpoint, addr: u64, len: u64, kind: BreakpointKind) -> bool {
    &&& b.enabled && b.addr == addr && b.size == len && b.kind == kind && b.thread_id is None
    &&& kind is Read ==> b.access == 1
    &&& kind is Write ==> b.access == 2
    &&& kind is Access ==> b.access == 3
    &&& kind is Execute ==> b.access == 4
}

/// Setting an execution breakpoint adds exactly that breakpoint, under an id
/// that no other has; a refused one changes no breakpoint.
pub proof fn law_set_breakpoint_adds_one<C: WatchpointCursor>(
    s: &mut BreakpointState,
    addr: u64,
    thread: Option<u64>,
    cursor: &mut C,
    r: Result<BreakpointId, DebugError>,
)
    requires
        old(s).wf(),
        call_ensures(BreakpointState::set_breakpoint::<C>, (s, addr, thread, cursor), r),
    ensures
        ({
            let before = old(s)@.logical.list;
            let after = final(s)@.logical.list;
            &&& r matches Ok(id) ==> {
                &&& after.len() == before.len() + 1
                &&& after.drop_last() == before
                &&& after.last().id == id && stops_execution(after.last(), addr, thread)
                &&& !after.last().temporary
                &&& forall|i: int| 0 <= i < before.len() ==> (#[trigger] before[i]).id < id
            }
            &&& r is Err ==> after == before
        }),
{
    old(s).lemma_contents_valid();
    if r is Err {
        lemma_refused(old(s)@, addr, 1, 4, BreakpointKind::Execute, thread);
    } else {
        assert(final(s)@.logical.list.drop_last() =~= old(s)@.logical.list);
    }
}

/// Setting a data breakpoint adds exactly that breakpoint, for any thread, with
/// the accesses of its kind; a refused one changes no breakpoint.
pub proof fn law_set_data_breakpoint_adds_one<C: WatchpointCursor>(
    s: &mut BreakpointState,
    addr: u64,
    len: u64,
    kind: BreakpointKind,
    cursor: &mut C,
    r: Result<BreakpointId, DebugError>,
)
    requires
        old(s).wf(),
        call_ensures(BreakpointState::set_data_breakpoint::<C>, (s, addr, len, kind, cursor), r),
    ensures
        ({
            let before = old(s)@.logical.list;
            let after = final(s)@.logical.list;
            &&& r matches Ok(id) ==> {
                &&& after.len() == before.len() + 1
                &&& after.drop_last() == before
                &&& after.last().id == id && watches_data(after.last(), addr, len, kind)
                &&& !after.last().temporary
                &&& forall|i: int| 0 <= i < before.len() ==> (#[trigger] before[i]).id < id
            }
            &&& r is Err ==> after == before
        }),
{
    old(s).lemma_contents_valid();
    if r is Err {
        lemma_refused(
            old(s)@,
            addr,
            len,
            crate::target::breakpoint::kind_mask(kind),
            kind,
            None,
        );
    } else {
        assert(final(s)@.logical.list.drop_last() =~= old(s)@.logical.list);
    }
}

proof fn lemma_refused(
    s: WatchState,
    addr: u64,
    size: u64,
    access: u8,
    kind: BreakpointKind,
    thread_id: Option<u64>,
)
    requires
        s.logical.valid(),
    ensures
        ({
            let bp = Breakpoint {
                id: s.logical.next_id as u64,
                addr,
                size,
                access,
                kind,
                thread_id,
                enabled: true,
                temporary: false,
            };
            s.logical.added(bp).removed(bp.id).list == s.logical.list
        }),
{
    let bp = Breakpoint {
        id: s.logical.next_id as u64,
        addr,
        size,
        access,
        kind,
        thread_id,
        enabled: true,
        temporary: false,
    };
    crate::target::breakpoint::law_remove_undoes_add(s.logical, bp);
}

/// Removing a breakpoint by its id removes that one and no other.
pub proof fn law_remove_breakpoint_removes_one<C: WatchpointCursor>(
    s: &mut BreakpointState,
    id: BreakpointId,
    cursor: &mut C,
    r: bool,
    b: Breakpoint,
)
    requires
        old(s).wf(),
        call_ensures(BreakpointState::remove_breakpoint::<C>, (s, id, cursor), r),
    ensures
        r <==> exists|i: int|
            0 <= i < old(s)@.logical.list.len() && (#[trigger] old(s)@.logical.list[i]).id == id,
        final(s)@.logical.list.contains(b) <==> old(s)@.logical.list.contains(b) && b.id != id,
{
    old(s).lemma_contents_valid();
    let keep = |x: Breakpoint| x.id != id;
    lemma_kept_valid(old(s)@.logical, keep);
    lemma_kept_contains(old(s)@.logical, keep, b);
    assert(final(s)@.logical.list == old(s)@.logical.kept(keep).list);
}

/// Removing the breakpoints at a place removes all of them and no other.
pub proof fn law_remove_exact_removes_the_place<C: WatchpointCursor>(
    s: &mut BreakpointState,
    addr: u64,
    size: u64,
    access: u8,
    cursor: &mut C,
    r: bool,
    b: Breakpoint,
)
    requires
        old(s).wf(),
        call_ensures(
            BreakpointState::remove_breakpoint_exact::<C>,
            (s, addr, size, access, cursor),
            r,
        ),
    ensures
        r <==> exists|i: int|
            0 <= i < old(s)@.logical.list.len() && (#[trigger] old(s)@.logical.list[i]).addr == addr
                && old(s)@.logical.list[i].size == size && old(s)@.logical.list[i].access == access,
        final(s)@.logical.list.contains(b) <==> old(s)@.logical.list.contains(b) && !(b.addr
            == addr && b.size == size && b.access == access),
{
    old(s).lemma_contents_valid();
    let keep = |x: Breakpoint| !crate::target::breakpoint::at_place(x, addr, size, access);
    lemma_kept_contains(old(s)@.logical, keep, b);
    assert(final(s)@.logical.list == old(s)@.logical.kept(keep).list);
}

proof fn lemma_kept_contains(
    all: crate::target::breakpoint::Breakpoints,
    keep: spec_fn(Breakpoint) -> bool,
    b: Breakpoint,
)
    requires
        all.valid(),
    ensures
        all.kept(keep).list.contains(b) <==> all.list.contains(b) && keep(b),
{
    lemma_kept_valid(all, keep);
    let kept = all.kept(keep).list;
    if kept.contains(b) {
        let i = choose|i: int| 0 <= i < kept.len() && kept[i] == b;
        assert(keep(kept[i]));
    }
    if all.list.contains(b) && keep(b) {
        let i = choose|i: int| 0 <= i < all.list.len() && all.list[i] == b;
        assert(kept.contains(all.list[i]));
    }
}

/// A physical watchpoint stands for an enabled breakpoint. `threads` gives the
/// engine's own id of each OS thread id.
pub open spec fn stands_for(key: WatchpointKey, b: Breakpoint, threads: Map<u32, u32>) -> bool {
    &&& b.enabled
    &&& key.addr == b.addr && key.size == b.size && key.access == b.access
    &&& b.thread_id is None ==> key.tid == 0
    &&& b.thread_id matches Some(os) ==> {
        &&& threads.contains_key(os as u32) ==> key.tid == threads[os as u32]
        &&& !threads.contains_key(os as u32) ==> key.tid == 0
    }
}

/// The engine is asked to watch what the enabled breakpoints stand for, and
/// nothing else: their bytes and accesses, on the engine's own id of their
/// thread. Any thread is 0, and so is a thread that the trace does not know.
pub proof fn law_desired_watchpoints(
    s: BreakpointState,
    keys: KeySet,
    key: WatchpointKey,
    r: bool,
)
    requires
        call_ensures(BreakpointState::desired_watchpoints, (&s,), keys),
        call_ensures(KeySet::contains, (&keys, key), r),
    ensures
        r <==> exists|i: int|
            0 <= i < s@.logical.list.len() && stands_for(
                key,
                #[trigger] s@.logical.list[i],
                s@.threads,
            ),
{
}

/// A breakpoint that was set is found by a hit on every thread that it is for,
/// and one for another thread is not hit because of it.
pub proof fn law_set_breakpoint_is_hit<C: WatchpointCursor>(
    s: &mut BreakpointState,
    addr: u64,
    thread: Option<u64>,
    cursor: &mut C,
    id: BreakpointId,
    size: u64,
    access: u8,
    on: u64,
    after: BreakpointState,
    r: Option<&Breakpoint>,
)
    requires
        old(s).wf(),
        call_ensures(
            BreakpointState::set_breakpoint::<C>,
            (s, addr, thread, cursor),
            Ok::<BreakpointId, DebugError>(id),
        ),
        after == *final(s),
        call_ensures(
            BreakpointState::find_by_watchpoint_hit_and_thread,
            (&after, addr, size, access, on),
            r,
        ),
    ensures
        thread is None || thread->0 == on ==> r is Some,
        r matches Some(b) ==> b.enabled && (b.thread_id is None || b.thread_id->0 == on),
{
    law_set_breakpoint_adds_one(s, addr, thread, cursor, Ok(id));
    let list = after@.logical.list;
    let meets = |b: Breakpoint| b.hit_on(addr, access, on);
    lemma_first_of_list(list, meets);
    if thread is None || thread->0 == on {
        assert(meets(list[list.len() - 1]));
    }
}

/// The breakpoints of a backend are a [`BreakpointState`]: setting and removing
/// them goes through its operations. `watch` says what state that is.
pub open spec fn backed_by<T: DebugTarget, C: WatchpointCursor>(
    watch: spec_fn(T) -> WatchState,
) -> bool {
    &&& forall|a: T, addr: u64, thread: Option<u64>, b: T, r: Result<u64, DebugError>| #[trigger]
        a.may_set_breakpoint(addr, thread, b, r) ==> exists|c: C, d: C| #[trigger]
            registers(
                watch(a),
                Breakpoint {
                    id: watch(a).logical.next_id as u64,
                    addr,
                    size: 1,
                    access: 4,
                    kind: BreakpointKind::Execute,
                    thread_id: thread,
                    enabled: true,
                    temporary: false,
                },
                c,
                r,
                watch(b),
                d,
            )
    &&& forall|
        a: T,
        addr: u64,
        len: u64,
        kind: BreakpointKind,
        b: T,
        r: Result<u64, DebugError>,
    | #[trigger]
        a.may_set_data_breakpoint(addr, len, kind, b, r) && r is Ok ==> exists|bp: Breakpoint|
            #[trigger] watch(b).logical.list.contains(bp) && watches_data(bp, addr, len, kind)
    &&& forall|a: T, addr: u64, size: u64, access: u8, b: T, r: bool| #[trigger]
        a.may_remove_exact(addr, size, access, b, r) ==> forall|bp: Breakpoint| #[trigger]
            watch(b).logical.list.contains(bp) <==> watch(a).logical.list.contains(bp) && !(bp.addr
                == addr && bp.size == size && bp.access == access)
}

/// A breakpoint that the client adds and the backend accepts is for every
/// thread, whichever is the current one: a hit at its address belongs to a
/// breakpoint on any thread. Software and hardware breakpoints are alike.
pub proof fn law_client_breakpoints_are_for_every_thread<T: DebugTarget, C: WatchpointCursor>(
    watch: spec_fn(T) -> WatchState,
    t: &mut GdbTarget<T>,
    addr: u64,
    hardware: bool,
    access: u8,
    on: u64,
)
    requires
        backed_by::<T, C>(watch),
        hardware ==> call_ensures(GdbTarget::<T>::add_hw_breakpoint, (t, addr), true),
        !hardware ==> call_ensures(GdbTarget::<T>::add_sw_breakpoint, (t, addr), true),
    ensures
        ({
            let list = watch(final(t)@.backend()).logical.list;
            &&& exists|b: Breakpoint| #[trigger]
                list.contains(b) && stops_execution(b, addr, None)
            &&& first_where(list, |b: Breakpoint| b.hit_on(addr, access, on)) is Some
        }),
        final(t)@.pending == old(t)@.pending,
        final(t)@.checkpoints == old(t)@.checkpoints,
{
    let (b, r) = choose|b: T, r: Result<u64, DebugError>|
        {
            &&& #[trigger] old(t)@.backend().may_set_breakpoint(addr, None, b, r)
            &&& final(t)@ == old(t)@.with_backend(b)
            &&& r is Ok
        };
    let list = watch(b).logical.list;
    let bp = list.last();
    assert(list.len() > 0 && list[list.len() - 1] == bp);
    assert(list.contains(bp));
    lemma_first_of_list(list, |x: Breakpoint| x.hit_on(addr, access, on));
    assert(bp.hit_on(addr, access, on));
}

/// The client is told that a breakpoint or a watchpoint was set exactly if the
/// backend accepted it.
pub proof fn law_client_is_told_what_was_accepted<T: DebugTarget>(
    sw: &mut GdbTarget<T>,
    hw: &mut GdbTarget<T>,
    data: &mut GdbTarget<T>,
    addr: u64,
    len: u64,
    kind: WatchKind,
    r: bool,
    q: bool,
    w: bool,
    accepts: bool,
)
    requires
        *sw == *hw && *sw == *data,
        forall|after: T, outcome: Result<u64, DebugError>| #[trigger]
            sw@.backend().may_set_breakpoint(addr, None, after, outcome) ==> outcome is Ok
                == accepts,
        forall|watched: BreakpointKind, after: T, outcome: Result<u64, DebugError>| #[trigger]
            sw@.backend().may_set_data_breakpoint(addr, len, watched, after, outcome)
                ==> outcome is Ok == accepts,
        call_ensures(GdbTarget::<T>::add_sw_breakpoint, (sw, addr), r),
        call_ensures(GdbTarget::<T>::add_hw_breakpoint, (hw, addr), q),
        call_ensures(GdbTarget::<T>::add_hw_watchpoint, (data, addr, len, kind), w),
    ensures
        r == accepts && q == accepts && w == accepts,
{
}

/// A watchpoint that the client adds and the backend accepts watches those
/// bytes for that access, on every thread.
pub proof fn law_client_watchpoints_watch<T: DebugTarget, C: WatchpointCursor>(
    watch: spec_fn(T) -> WatchState,
    t: &mut GdbTarget<T>,
    addr: u64,
    len: u64,
    kind: WatchKind,
)
    requires
        backed_by::<T, C>(watch),
        call_ensures(GdbTarget::<T>::add_hw_watchpoint, (t, addr, len, kind), true),
    ensures
        exists|b: Breakpoint| #[trigger]
            watch(final(t)@.backend()).logical.list.contains(b) && b.enabled && b.addr == addr
                && b.size == len && b.thread_id is None && b.access == (match kind {
                WatchKind::Read => 1u8,
                WatchKind::Write => 2u8,
                WatchKind::ReadWrite => 3u8,
            }),
{
    let watched = crate::gdb::mapping::breakpoint_kind(kind);
    let (b, outcome) = choose|b: T, outcome: Result<u64, DebugError>|
        {
            &&& #[trigger] old(t)@.backend().may_set_data_breakpoint(addr, len, watched, b, outcome)
            &&& final(t)@ == old(t)@.with_backend(b)
            &&& outcome is Ok
        };
    let bp = choose|bp: Breakpoint| #[trigger]
        watch(b).logical.list.contains(bp) && watches_data(bp, addr, len, watched);
    assert(watch(final(t)@.backend()).logical.list.contains(bp));
}

/// What the client removes is gone, all of it, and nothing else is.
pub proof fn law_client_removals<T: DebugTarget, C: WatchpointCursor>(
    watch: spec_fn(T) -> WatchState,
    sw: &mut GdbTarget<T>,
    hw: &mut GdbTarget<T>,
    data: &mut GdbTarget<T>,
    addr: u64,
    len: u64,
    kind: WatchKind,
    r: (bool, bool, bool),
    b: Breakpoint,
)
    requires
        backed_by::<T, C>(watch),
        call_ensures(GdbTarget::<T>::remove_sw_breakpoint, (sw, addr), r.0),
        call_ensures(GdbTarget::<T>::remove_hw_breakpoint, (hw, addr), r.1),
        call_ensures(GdbTarget::<T>::remove_hw_watchpoint, (data, addr, len, kind), r.2),
    ensures
        r == (true, true, true),
        watch(final(sw)@.backend()).logical.list.contains(b) <==> watch(
            old(sw)@.backend(),
        ).logical.list.contains(b) && !(b.addr == addr && b.size == 1 && b.access == 4),
        watch(final(hw)@.backend()).logical.list.contains(b) <==> watch(
            old(hw)@.backend(),
        ).logical.list.contains(b) && !(b.addr == addr && b.size == 1 && b.access == 4),
        watch(final(data)@.backend()).logical.list.contains(b) <==> watch(
            old(data)@.backend(),
        ).logical.list.contains(b) && !(b.addr == addr && b.size == len && b.access == (
        match kind {
            WatchKind::Read => 1u8,
            WatchKind::Write => 2u8,
            WatchKind::ReadWrite => 3u8,
        })),
{
}

/// On the target without a trace, a continue after the client's breakpoint was
/// accepted stops at it, unless there is one at a lower address.
pub proof fn law_mock_continue_stops_at_the_breakpoint(
    t: &mut GdbTarget<MockTarget>,
    running: &mut MockTarget,
    addr: u64,
    r: Result<StopReason, DebugError>,
)
    requires
        call_ensures(GdbTarget::<MockTarget>::add_sw_breakpoint, (t, addr), true),
        *running == final(t)@.backend(),
        running@.forward == crate::target::mock::ForwardStop::BreakpointOrTraceEnd,
        call_ensures(<MockTarget as DebugTarget>::continue_forward, (running,), r),
    ensures
        r matches Ok(why) && why is Breakpoint && why->Breakpoint_addr <= addr,
        old(t)@.backend()@.bps == Set::<u64>::empty() ==> r->Ok_0->Breakpoint_addr == addr,
        final(running).now() == old(running).now(),
{
    let (b, q) = choose|b: MockTarget, q: Result<u64, DebugError>|
        {
            &&& #[trigger] old(t)@.backend().may_set_breakpoint(addr, None, b, q)
            &&& final(t)@ == old(t)@.with_backend(b)
            &&& q is Ok
        };
    assert(b@.bps.contains(addr));
}

/// Adding breakpoints: each gets an id that grows, and holds what it was given.
pub proof fn law_added_breakpoint_is_the_one_given(
    m: &mut BreakpointManager,
    addr: u64,
    size: u64,
    access: u8,
    kind: BreakpointKind,
    thread: Option<u64>,
    temporary: bool,
    id: BreakpointId,
)
    requires
        m@.valid(),
        call_ensures(BreakpointManager::add, (m, addr, size, access, kind, thread, temporary), id),
    ensures
        ({
            let b = final(m)@.list.last();
            &&& final(m)@.list.drop_last() == old(m)@.list
            &&& final(m)@.list.len() == old(m)@.list.len() + 1
            &&& b.id == id && b.addr == addr && b.size == size && b.access == access
            &&& b.kind == kind && b.thread_id == thread && b.temporary == temporary && b.enabled
            &&& id >= 1
            &&& forall|i: int|
                0 <= i < old(m)@.list.len() ==> (#[trigger] old(m)@.list[i]).id < id
        }),
{
    assert(final(m)@.list.drop_last() =~= old(m)@.list);
}

/// Finding, removing and listing breakpoints of a manager.
pub proof fn law_manager_operations(
    m: BreakpointManager,
    removed: &mut BreakpointManager,
    temporary: &mut BreakpointManager,
    exact: &mut BreakpointManager,
    cleared: &mut BreakpointManager,
    id: BreakpointId,
    addr: u64,
    size: u64,
    access: u8,
    r: bool,
    q: bool,
    active: Vec<Breakpoint>,
    b: Breakpoint,
)
    requires
        m@.valid(),
        *removed == m && *temporary == m && *exact == m && *cleared == m,
        call_ensures(BreakpointManager::remove, (removed, id), r),
        call_ensures(BreakpointManager::remove_temporary, (temporary,), ()),
        call_ensures(BreakpointManager::remove_exact, (exact, addr, size, access), q),
        call_ensures(BreakpointManager::clear, (cleared,), ()),
        call_ensures(BreakpointManager::active, (&m,), active),
    ensures
        final(removed)@.list.contains(b) <==> m@.list.contains(b) && b.id != id,
        r <==> exists|i: int| 0 <= i < m@.list.len() && (#[trigger] m@.list[i]).id == id,
        final(temporary)@.list.contains(b) <==> m@.list.contains(b) && !b.temporary,
        final(exact)@.list.contains(b) <==> m@.list.contains(b) && !(b.addr == addr && b.size
            == size && b.access == access),
        q <==> exists|i: int|
            0 <= i < m@.list.len() && (#[trigger] m@.list[i]).addr == addr && m@.list[i].size
                == size && m@.list[i].access == access,
        final(cleared)@.list.len() == 0,
        final(removed)@.next_id == m@.next_id && final(cleared)@.next_id == m@.next_id,
        active@.contains(b) <==> m@.list.contains(b) && b.enabled,
{
    let by_id = |x: Breakpoint| x.id != id;
    let lasting = |x: Breakpoint| !x.temporary;
    let elsewhere = |x: Breakpoint| !crate::target::breakpoint::at_place(x, addr, size, access);
    let enabled = |x: Breakpoint| x.enabled;
    lemma_kept_contains(m@, by_id, b);
    lemma_kept_contains(m@, lasting, b);
    lemma_kept_contains(m@, elsewhere, b);
    lemma_kept_contains(m@, enabled, b);
    assert(final(removed)@.list == m@.kept(by_id).list);
    assert(final(temporary)@.list == m@.kept(lasting).list);
    assert(final(exact)@.list == m@.kept(elsewhere).list);
    assert(active@ == m@.kept(enabled).list);
}

/// A hit belongs to the breakpoint with the lowest id that is there for it; who
/// hit decides only where the thread is asked for.
pub proof fn law_manager_attributes_hits(
    m: BreakpointManager,
    addr: u64,
    size: u64,
    access: u8,
    on: u64,
    r: Option<&Breakpoint>,
    q: Option<&Breakpoint>,
)
    requires
        m@.valid(),
        call_ensures(BreakpointManager::find_by_watchpoint_hit, (&m, addr, size, access), r),
        call_ensures(
            BreakpointManager::find_by_watchpoint_hit_and_thread,
            (&m, addr, size, access, on),
            q,
        ),
    ensures
        ({
            let list = m@.list;
            let there = |b: Breakpoint|
                b.enabled && (b.kind is Execute && addr == b.addr || b.addr <= addr && addr - b.addr
                    < b.size && b.access & access != 0);
            let there_on = |b: Breakpoint|
                {
                    &&& b.enabled
                    &&& b.thread_id is None || b.thread_id->0 == on
                    &&& b.kind is Execute ==> b.addr == addr
                    &&& !(b.kind is Execute) ==> b.addr <= addr && addr - b.addr < b.size
                        && b.access & access != 0
                };
            &&& r is None ==> forall|i: int| 0 <= i < list.len() ==> !there(#[trigger] list[i])
            &&& r matches Some(b) ==> there(*b) && list.contains(*b) && forall|i: int|
                0 <= i < list.len() && there(#[trigger] list[i]) ==> b.id <= list[i].id
            &&& q is None ==> forall|i: int| 0 <= i < list.len() ==> !there_on(#[trigger] list[i])
            &&& q matches Some(b) ==> there_on(*b) && list.contains(*b) && forall|i: int|
                0 <= i < list.len() && there_on(#[trigger] list[i]) ==> b.id <= list[i].id
        }),
{
    let list = m@.list;
    let meets = |b: Breakpoint| b.hit_anywhere(addr, access);
    let meets_on = |b: Breakpoint| b.hit_on(addr, access, on);
    lemma_first_of_list(list, meets);
    lemma_first_of_list(list, meets_on);
    if r is Some {
        let b = *r->0;
        let k = choose|i: int|
            0 <= i < list.len() && list[i] == b && forall|j: int|
                0 <= j < i ==> !meets(#[trigger] list[j]);
        assert forall|i: int| 0 <= i < list.len() && meets(#[trigger] list[i]) implies b.id
            <= list[i].id by {
            if k < i {
                assert(list[k].id < list[i].id);
            }
        }
    }
    if q is Some {
        let b = *q->0;
        let k = choose|i: int|
            0 <= i < list.len() && list[i] == b && forall|j: int|
                0 <= j < i ==> !meets_on(#[trigger] list[j]);
        assert forall|i: int| 0 <= i < list.len() && meets_on(#[trigger] list[i]) implies b.id
            <= list[i].id by {
            if k < i {
                assert(list[k].id < list[i].id);
            }
        }
    }
}

/// The order of the requests to the engine: by address, by size, by access and
/// by thread.
pub open spec fn comes_first(a: WatchpointKey, b: WatchpointKey) -> bool {
    if a.addr != b.addr {
        a.addr < b.addr
    } else if a.size != b.size {
        a.size < b.size
    } else if a.access != b.access {
        a.access < b.access
    } else {
        a.tid < b.tid
    }
}

/// Keys are in a set if they were put in and not taken out. What one set has
/// and another has not comes out in order, each key once.
pub proof fn law_key_sets(
    fresh: KeySet,
    s: &mut KeySet,
    t: &mut KeySet,
    key: WatchpointKey,
    k: WatchpointKey,
    was: bool,
    now: bool,
    gone: bool,
    none: bool,
    a: KeySet,
    b: KeySet,
    r: Vec<WatchpointKey>,
    i: int,
    j: int,
)
    requires
        call_ensures(KeySet::new, (), fresh),
        call_ensures(KeySet::contains, (&fresh, k), none),
        call_ensures(KeySet::contains, (&*s, k), was),
        call_ensures(KeySet::insert, (s, key), ()),
        call_ensures(KeySet::contains, (&*final(s), k), now),
        *t == *final(s),
        call_ensures(KeySet::remove, (t, key), ()),
        call_ensures(KeySet::contains, (&*final(t), k), gone),
        call_ensures(KeySet::difference, (&a, &b), r),
    ensures
        !none,
        now <==> was || k == key,
        gone <==> was && k != key,
        r@.contains(k) <==> a@.contains(k) && !b@.contains(k),
        0 <= i < j < r@.len() ==> comes_first(r@[i], r@[j]),
{
    assert(a@.difference(b@).contains(k) <==> r@.contains(k));
    if 0 <= i < j < r@.len() {
        assert(r@[i].before(r@[j]));
    }
}

/// What has to be removed is what is registered and not wanted, and what has to
/// be added is what is wanted and not registered, each in order.
pub proof fn law_stale_and_missing(
    registry: WatchpointRegistry,
    desired: KeySet,
    stale: Vec<WatchpointKey>,
    missing: Vec<WatchpointKey>,
    k: WatchpointKey,
    i: int,
    j: int,
)
    requires
        call_ensures(WatchpointRegistry::stale, (&registry, &desired), stale),
        call_ensures(WatchpointRegistry::missing, (&registry, &desired), missing),
    ensures
        stale@.contains(k) <==> registry@.contains(k) && !desired@.contains(k),
        missing@.contains(k) <==> desired@.contains(k) && !registry@.contains(k),
        0 <= i < j < stale@.len() ==> comes_first(stale@[i], stale@[j]),
        0 <= i < j < missing@.len() ==> comes_first(missing@[i], missing@[j]),
{
    assert(registry@.difference(desired@).contains(k) <==> stale@.contains(k));
    assert(desired@.difference(registry@).contains(k) <==> missing@.contains(k));
    if 0 <= i < j < stale@.len() {
        assert(stale@[i].before(stale@[j]));
    }
    if 0 <= i < j < missing@.len() {
        assert(missing@[i].before(missing@[j]));
    }
}

/// A synchronization asks for the removal of exactly what is registered and not
/// wanted, and for the addition of exactly what is wanted and not registered,
/// each once, all removals before all additions, and both in order.
pub proof fn law_sync_requests(
    registry: &mut WatchpointRegistry,
    desired: KeySet,
    cursor: &mut RecordingCursor,
    r: (WatchpointSyncReport, Option<WatchpointSyncError>),
    k: WatchpointKey,
)
    requires
        call_ensures(
            WatchpointRegistry::sync::<RecordingCursor>,
            (registry, &desired, cursor),
            r,
        ),
    ensures
        exists|asked: Seq<WatchpointRequest>|
            {
                &&& #[trigger] (old(cursor).requests@ + asked) == final(cursor).requests@
                &&& asked.contains(WatchpointRequest::Remove(k)) <==> old(registry)@.contains(k)
                    && !desired@.contains(k)
                &&& asked.contains(WatchpointRequest::Add(k)) <==> desired@.contains(k)
                    && !old(registry)@.contains(k)
                &&& forall|i: int, j: int|
                    0 <= i < j < asked.len() ==> #[trigger] asked[i] != #[trigger] asked[j]
                &&& forall|i: int, j: int|
                    0 <= i < j < asked.len() && (#[trigger] asked[i]) is Add ==> (
                    #[trigger] asked[j]) is Add
                &&& forall|i: int, j: int|
                    0 <= i < j < asked.len() && (#[trigger] asked[i]) is Remove && (
                    #[trigger] asked[j]) is Remove ==> comes_first(
                        asked[i]->Remove_0,
                        asked[j]->Remove_0,
                    )
                &&& forall|i: int, j: int|
                    0 <= i < j < asked.len() && (#[trigger] asked[i]) is Add && (
                    #[trigger] asked[j]) is Add ==> comes_first(asked[i]->Add_0, asked[j]->Add_0)
            },
{
    let (run, states) = choose|run: SyncRun, states: Seq<RecordingCursor>|
        {
            &&& run.plans(old(registry)@, desired@)
            &&& #[trigger] run.moves(states)
            &&& states[0] == *old(cursor)
            &&& states.last() == *final(cursor)
            &&& final(registry)@ == run.leaves(old(registry)@)
            &&& r.0 == run.report()
            &&& r.1 is None <==> run.all_added()
            &&& r.1 matches Some(e) ==> run.fails_with(states, e.key, e.source)
        };
    crate::target::mock::law_sync_makes_each_request_once(run, old(registry)@, desired@, states);
    let asked = crate::target::mock::requests_of(run);
    let n = run.stale.len() as int;
    assert(old(cursor).requests@ + asked == final(cursor).requests@);
    assert(old(registry)@.difference(desired@).contains(k) <==> run.stale.contains(k));
    assert(desired@.difference(old(registry)@).contains(k) <==> run.missing.contains(k));
    if run.stale.contains(k) {
        let i = choose|i: int| 0 <= i < run.stale.len() && run.stale[i] == k;
        assert(asked[i] == WatchpointRequest::Remove(k));
    }
    if run.missing.contains(k) {
        let i = choose|i: int| 0 <= i < run.missing.len() && run.missing[i] == k;
        assert(asked[n + i] == WatchpointRequest::Add(k));
    }
    if asked.contains(WatchpointRequest::Remove(k)) {
        let i = choose|i: int| 0 <= i < asked.len() && asked[i] == WatchpointRequest::Remove(k);
        assert(i < n);
        assert(run.stale[i] == k);
    }
    if asked.contains(WatchpointRequest::Add(k)) {
        let i = choose|i: int| 0 <= i < asked.len() && asked[i] == WatchpointRequest::Add(k);
        assert(i >= n);
        assert(run.missing[i - n] == k);
    }
    assert forall|i: int, j: int| 0 <= i < j < asked.len() implies #[trigger] asked[i]
        != #[trigger] asked[j] by {
        if j < n {
            assert(run.stale[i].before(run.stale[j]));
        } else if i >= n {
            assert(run.missing[i - n].before(run.missing[j - n]));
        }
    }
    assert forall|i: int, j: int|
        0 <= i < j < asked.len() && (#[trigger] asked[i]) is Remove && (
        #[trigger] asked[j]) is Remove implies comes_first(
        asked[i]->Remove_0,
        asked[j]->Remove_0,
    ) by {
        assert(j < n);
        assert(run.stale[i].before(run.stale[j]));
    }
    assert forall|i: int, j: int|
        0 <= i < j < asked.len() && (#[trigger] asked[i]) is Add && (
        #[trigger] asked[j]) is Add implies comes_first(asked[i]->Add_0, asked[j]->Add_0) by {
        assert(i >= n);
        assert(run.missing[i - n].before(run.missing[j - n]));
    }
}

/// What is registered after a synchronization: what was wanted, where the engine
/// does what it is asked. A refused addition is not registered, and a refused
/// removal still is. The report counts what was done and what was refused.
pub proof fn law_sync_outcome(
    registry: &mut WatchpointRegistry,
    desired: KeySet,
    cursor: &mut RecordingCursor,
    r: (WatchpointSyncReport, Option<WatchpointSyncError>),
    k: WatchpointKey,
)
    requires
        call_ensures(
            WatchpointRegistry::sync::<RecordingCursor>,
            (registry, &desired, cursor),
            r,
        ),
    ensures
        ({
            let (was, now, want) = (old(registry)@, final(registry)@, desired@);
            &&& was.contains(k) && want.contains(k) ==> now.contains(k)
            &&& !was.contains(k) && !want.contains(k) ==> !now.contains(k)
            &&& !was.contains(k) && want.contains(k) ==> (now.contains(k)
                <==> !old(cursor).refuse_add)
            &&& was.contains(k) && !want.contains(k) ==> (now.contains(k)
                <==> old(cursor).refuse_remove)
            &&& old(cursor).refuse_add ==> r.0.added == 0
            &&& !old(cursor).refuse_add ==> r.0.add_failures == 0 && r.1 is None
            &&& old(cursor).refuse_remove ==> r.0.removed == 0
            &&& !old(cursor).refuse_remove ==> r.0.remove_failures == 0
            &&& !was.contains(k) && want.contains(k) && old(cursor).refuse_add ==> r.1 is Some
            &&& r.1 matches Some(e) ==> want.contains(e.key) && !was.contains(e.key)
        }),
{
    let (run, states) = choose|run: SyncRun, states: Seq<RecordingCursor>|
        {
            &&& run.plans(old(registry)@, desired@)
            &&& #[trigger] run.moves(states)
            &&& states[0] == *old(cursor)
            &&& states.last() == *final(cursor)
            &&& final(registry)@ == run.leaves(old(registry)@)
            &&& r.0 == run.report()
            &&& r.1 is None <==> run.all_added()
            &&& r.1 matches Some(e) ==> run.fails_with(states, e.key, e.source)
        };
    lemma_same_temper(run, states, (states.len() - 1) as nat);
    let n = run.stale.len() as int;
    assert forall|i: int| 0 <= i < run.gone.len() implies #[trigger] run.gone[i]
        == !old(cursor).refuse_remove by {
        lemma_same_temper(run, states, i as nat);
        assert(crate::target::watchpoint::removal_went(
            states[i],
            run.stale[i],
            states[i + 1],
            run.gone[i],
        ));
    }
    assert forall|i: int| 0 <= i < run.came.len() implies #[trigger] run.came[i]
        == !old(cursor).refuse_add by {
        lemma_same_temper(run, states, (n + i) as nat);
        assert(crate::target::watchpoint::addition_went(
            states[n + i],
            run.missing[i],
            states[n + i + 1],
            run.came[i],
        ));
    }
    lemma_tallies(run.gone, !old(cursor).refuse_remove);
    lemma_tallies(run.came, !old(cursor).refuse_add);
    crate::target::watchpoint::lemma_leaves(run, old(registry)@, desired@, k);
    assert(old(registry)@.difference(desired@).contains(k) <==> run.stale.contains(k));
    assert(desired@.difference(old(registry)@).contains(k) <==> run.missing.contains(k));
    if run.stale.contains(k) {
        let i = choose|i: int| 0 <= i < run.stale.len() && run.stale[i] == k;
        assert(run.gone[i] == !old(cursor).refuse_remove);
    }
    if run.missing.contains(k) {
        let i = choose|i: int| 0 <= i < run.missing.len() && run.missing[i] == k;
        assert(run.came[i] == !old(cursor).refuse_add);
    }
    if r.1 is Some {
        let e = r.1->0;
        let i = choose|i: int|
            {
                &&& 0 <= i < run.came.len()
                &&& !#[trigger] run.came[i]
                &&& run.missing[i] == e.key
                &&& forall|j: int| 0 <= j < i ==> #[trigger] run.came[j]
                &&& states[n + i].may_add(e.key, states[n + i + 1], Err(e.source))
            };
        assert(run.missing.contains(e.key));
        assert(desired@.difference(old(registry)@).contains(e.key));
    }
}

/// What a cursor refuses does not change while it is used.
pub proof fn lemma_same_temper(run: SyncRun, states: Seq<RecordingCursor>, n: nat)
    requires
        run.gone.len() == run.stale.len(),
        run.came.len() == run.missing.len(),
        run.moves(states),
        n < states.len(),
    ensures
        states[n as int].refuse_add == states[0].refuse_add,
        states[n as int].refuse_remove == states[0].refuse_remove,
    decreases n,
{
    if n > 0 {
        let i = n - 1;
        lemma_same_temper(run, states, i as nat);
        if i < run.stale.len() {
            assert(crate::target::watchpoint::removal_went(
                states[i],
                run.stale[i],
                states[i + 1],
                run.gone[i],
            ));
        } else {
            let k = i - run.stale.len();
            assert(crate::target::watchpoint::addition_went(
                states[i],
                run.missing[k],
                states[i + 1],
                run.came[k],
            ));
        }
    }
}

/// Outcomes that are all the same are counted on one side.
pub proof fn lemma_tallies(outcomes: Seq<bool>, all: bool)
    requires
        forall|i: int| 0 <= i < outcomes.len() ==> #[trigger] outcomes[i] == all,
    ensures
        crate::target::watchpoint::tally(outcomes, !all) == 0,
        crate::target::watchpoint::tally(outcomes, all) == outcomes.len(),
    decreases outcomes.len(),
{
    if outcomes.len() > 0 {
        assert forall|i: int| 0 <= i < outcomes.drop_last().len() implies
            #[trigger] outcomes.drop_last()[i] == all by {
            assert(outcomes[i] == all);
        }
        lemma_tallies(outcomes.drop_last(), all);
        assert(outcomes.last() == outcomes[outcomes.len() - 1]);
    }
}

/// The catalog of threads gives the engine's own id of the last thread with an
/// OS thread id, and knows no other OS thread ids.
pub proof fn law_threads_are_looked_up(
    threads: Seq<TtdThreadInfo>,
    list: &[TtdThreadInfo],
    table: ThreadTable,
    os: u32,
    r: Option<u32>,
    known: bool,
)
    requires
        list@ == threads,
        call_ensures(ThreadTable::from_engine_threads, (list,), table),
        call_ensures(ThreadTable::uid_for_os_tid, (&table, os), r),
        call_ensures(ThreadTable::contains_os_tid, (&table, os), known),
    ensures
        known == r is Some,
        known <==> exists|i: int|
            0 <= i < threads.len() && (#[trigger] threads[i]).os_thread_id == os,
        forall|i: int|
            0 <= i < threads.len() && (#[trigger] threads[i]).os_thread_id == os && (forall|j: int|
                i < j < threads.len() ==> (#[trigger] threads[j]).os_thread_id != os) ==> r == Some(
                threads[i].unique_id,
            ),
{
    law_catalog_knows_every_thread(threads, os);
    assert forall|i: int|
        0 <= i < threads.len() && (#[trigger] threads[i]).os_thread_id == os && (forall|j: int|
            i < j < threads.len() ==> (#[trigger] threads[j]).os_thread_id != os) implies r == Some(
        threads[i].unique_id,
    ) by {
        law_last_thread_wins(threads, i);
    }
}

/// The kinds of watchpoints of a client are the kinds of data breakpoints, and
/// their accesses are the same.
pub proof fn law_watch_kinds(kind: WatchKind, r: BreakpointKind, access: u8, mask: u8)
    requires
        call_ensures(crate::gdb::mapping::breakpoint_kind_from_watch_kind, (kind,), r),
        call_ensures(crate::gdb::mapping::access_mask_from_watch_kind, (kind,), access),
        call_ensures(BreakpointKind::access_mask, (r,), mask),
    ensures
        r is Read <==> kind is Read,
        r is Write <==> kind is Write,
        r is Access <==> kind is ReadWrite,
        access == mask,
{
}

/// Breakpoints are numbered from 1 on, each with a number that was not given
/// before, until the numbers run out.
pub proof fn law_breakpoint_ids(
    fresh: BreakpointManager,
    first: &mut BreakpointManager,
    id: BreakpointId,
    m: &mut BreakpointManager,
    n: &mut BreakpointManager,
    addr: u64,
    size: u64,
    access: u8,
    kind: BreakpointKind,
    thread: Option<u64>,
    temporary: bool,
    a: BreakpointId,
    b: BreakpointId,
    full: bool,
    now_full: bool,
    s: BreakpointState,
    state_full: bool,
)
    requires
        call_ensures(BreakpointManager::new, (), fresh),
        call_ensures(BreakpointManager::is_full, (&fresh,), full),
        *first == fresh,
        call_ensures(
            BreakpointManager::add,
            (first, addr, size, access, kind, thread, temporary),
            id,
        ),
        m@.valid(),
        call_ensures(BreakpointManager::add, (m, addr, size, access, kind, thread, temporary), a),
        call_ensures(BreakpointManager::is_full, (&*final(m),), now_full),
        *n == *final(m),
        call_ensures(BreakpointManager::add, (n, addr, size, access, kind, thread, temporary), b),
        call_ensures(BreakpointState::is_full, (&s,), state_full),
    ensures
        !full,
        id == 1,
        forall|i: int| 0 <= i < old(m)@.list.len() ==> (#[trigger] old(m)@.list[i]).id < a,
        b == a + 1,
        now_full <==> a + 1 == u64::MAX,
        state_full <==> s@.logical.next_id == u64::MAX,
{
}

} // verus!
