//! Logical breakpoints and the physical watchpoints that stand for them.
//!
//! Registration can fail and is then taken back; removal goes by id or by
//! place; OS thread ids are translated to the engine's unique thread ids.

use vstd::prelude::*;

use super::breakpoint::{
    at_place, first_where, kind_mask, law_remove_undoes_add, referred, Breakpoint, BreakpointId,
    BreakpointKind, BreakpointManager, Breakpoints,
};
use super::error::DebugError;
use super::threads::ThreadTable;
use super::watchpoint::{
    law_sync_converges, KeySet, SyncRun, WatchpointCursor, WatchpointKey, WatchpointRegistry,
};
use crate::ttd::types::DATA_ACCESS_EXECUTE;

verus! {

/// How often physical watchpoints were added and removed.
#[derive(Clone, Copy, Debug, PartialEq, Eq, Structural)]
pub struct WatchpointStats {
    pub adds: u64,
    pub removes: u64,
}

/// The thread filter of a breakpoint: the unique id of its thread. An unknown
/// thread falls back to any thread; hits are still told apart by OS thread id.
pub open spec fn thread_filter(thread_id: Option<u64>, threads: Map<u32, u32>) -> u32 {
    match thread_id {
        Some(os_tid) => if threads.contains_key(os_tid as u32) {
            threads[os_tid as u32]
        } else {
            0
        },
        None => 0,
    }
}

/// The physical watchpoint of a breakpoint.
pub open spec fn key_of(bp: Breakpoint, threads: Map<u32, u32>) -> WatchpointKey {
    WatchpointKey {
        addr: bp.addr,
        size: bp.size,
        access: bp.access,
        tid: thread_filter(bp.thread_id, threads),
    }
}

/// The physical watchpoints of the enabled ones among some breakpoints.
pub open spec fn keys_of(list: Seq<Breakpoint>, threads: Map<u32, u32>) -> Set<WatchpointKey> {
    Set::new(
        |k: WatchpointKey|
            exists|i: int|
                0 <= i < list.len() && (#[trigger] list[i]).enabled && key_of(list[i], threads)
                    == k,
    )
}

/// A counter that wraps around.
pub open spec fn counted(n: u64, more: u64) -> u64 {
    ((n + more) % 0x1_0000_0000_0000_0000) as u64
}

/// The contents of a [`BreakpointState`].
#[verifier::ext_equal]
pub struct WatchState {
    pub logical: Breakpoints,
    pub physical: Set<WatchpointKey>,
    pub threads: Map<u32, u32>,
    pub adds: u64,
    pub removes: u64,
}

impl WatchState {
    /// The physical watchpoints that the breakpoints call for.
    pub open spec fn desired(self) -> Set<WatchpointKey> {
        keys_of(self.logical.list, self.threads)
    }

    /// The same state with other breakpoints.
    pub open spec fn with_logical(self, logical: Breakpoints) -> WatchState {
        WatchState {
            logical,
            physical: self.physical,
            threads: self.threads,
            adds: self.adds,
            removes: self.removes,
        }
    }

    /// A synchronization of this state that takes the cursor through these
    /// states.
    pub open spec fn may_sync<C: WatchpointCursor>(self, run: SyncRun, states: Seq<C>) -> bool {
        run.plans(self.physical, self.desired()) && run.moves(states)
    }

    /// The state after a synchronization.
    pub open spec fn synced(self, run: SyncRun) -> WatchState {
        WatchState {
            logical: self.logical,
            physical: run.leaves(self.physical),
            threads: self.threads,
            adds: counted(self.adds, run.report().added),
            removes: counted(self.removes, run.report().removed),
        }
    }
}

/// The failure that a synchronization surfaces: that of the first addition
/// that failed.
pub open spec fn surfaces<C: WatchpointCursor>(
    run: SyncRun,
    states: Seq<C>,
    e: DebugError,
) -> bool {
    e matches DebugError::BreakpointRegister { addr, source } && exists|key: WatchpointKey| #[trigger]
        run.fails_with(states, key, source) && key.addr == addr
}

/// `after` is how state `s` ends when it is synchronized, and `cursor_after` how
/// the cursor ends.
pub open spec fn resyncs<C: WatchpointCursor>(
    s: WatchState,
    cursor: C,
    after: WatchState,
    cursor_after: C,
) -> bool {
    exists|run: SyncRun, states: Seq<C>|
        {
            &&& #[trigger] s.may_sync(run, states)
            &&& states[0] == cursor
            &&& states.last() == cursor_after
            &&& after == s.synced(run)
        }
}

/// `after` is how state `s` ends when `bp` is registered, `cursor_after` how the
/// cursor ends, and `r` what comes back. A failed registration removes the
/// breakpoint again and synchronizes once more, so that nothing of it stays
/// behind.
pub open spec fn registers<C: WatchpointCursor>(
    s: WatchState,
    bp: Breakpoint,
    cursor: C,
    r: Result<BreakpointId, DebugError>,
    after: WatchState,
    cursor_after: C,
) -> bool {
    let added = s.with_logical(s.logical.added(bp));
    exists|run: SyncRun, states: Seq<C>|
        {
            &&& #[trigger] added.may_sync(run, states)
            &&& states[0] == cursor
            &&& r is Ok <==> run.all_added()
            &&& r matches Ok(id) ==> id == bp.id && after == added.synced(run) && cursor_after
                == states.last()
            &&& r matches Err(e) ==> surfaces(run, states, e) && takes_back(
                added.synced(run),
                bp.id,
                states.last(),
                after,
                cursor_after,
            )
        }
}

/// `after` is how state `s` ends when breakpoint `id` is removed from it and
/// the rest synchronized, and `cursor_after` how the cursor ends.
pub open spec fn takes_back<C: WatchpointCursor>(
    s: WatchState,
    id: BreakpointId,
    cursor: C,
    after: WatchState,
    cursor_after: C,
) -> bool {
    resyncs(s.with_logical(s.logical.removed(id)), cursor, after, cursor_after)
}

/// Logical breakpoints and their physical watchpoints.
pub struct BreakpointState {
    manager: BreakpointManager,
    watchpoints: WatchpointRegistry,
    threads: ThreadTable,
    watchpoint_adds: u64,
    watchpoint_removes: u64,
}

impl View for BreakpointState {
    type V = WatchState;

    closed spec fn view(&self) -> WatchState {
        WatchState {
            logical: self.manager@,
            physical: self.watchpoints@,
            threads: self.threads@,
            adds: self.watchpoint_adds,
            removes: self.watchpoint_removes,
        }
    }
}

impl BreakpointState {
    /// The breakpoints are valid and the record of watchpoints is in order.
    pub closed spec fn wf(&self) -> bool {
        self.manager@.valid() && self.watchpoints.wf()
    }

    /// What well-formedness says of the contents.
    pub proof fn lemma_contents_valid(&self)
        requires
            self.wf(),
        ensures
            self@.logical.valid(),
    {
    }

    /// No breakpoints, for a trace with these threads.
    pub fn new(threads: ThreadTable) -> (r: BreakpointState)
        ensures
            r.wf(),
            r@.logical.list.len() == 0,
            r@.logical.next_id == 1,
            r@.physical == Set::<WatchpointKey>::empty(),
            r@.threads == threads@,
            r@.adds == 0,
            r@.removes == 0,
    {
        BreakpointState {
            manager: BreakpointManager::new(),
            watchpoints: WatchpointRegistry::new(),
            threads,
            watchpoint_adds: 0,
            watchpoint_removes: 0,
        }
    }

    /// Whether every breakpoint id has been handed out.
    pub fn is_full(&self) -> (r: bool)
        ensures
            r == (self@.logical.next_id == u64::MAX),
    {
        self.manager.is_full()
    }

    /// The breakpoint with the lowest id that a hit belongs to.
    pub fn find_by_watchpoint_hit_and_thread(
        &self,
        addr: u64,
        size: u64,
        access: u8,
        thread_id: u64,
    ) -> (r: Option<&Breakpoint>)
        ensures
            referred(r) == first_where(
                self@.logical.list,
                |b: Breakpoint| b.hit_on(addr, access, thread_id),
            ),
    {
        self.manager.find_by_watchpoint_hit_and_thread(addr, size, access, thread_id)
    }

    /// The breakpoint with this id.
    pub fn get(&self, id: BreakpointId) -> (r: Option<&Breakpoint>)
        ensures
            r is Some <==> self@.logical.has(id),
            r matches Some(b) ==> b.id == id && self@.logical.list.contains(*b),
    {
        self.manager.get(id)
    }

    /// Whether the OS thread id ever appears in the trace.
    pub fn knows_thread(&self, os_tid: u32) -> (r: bool)
        ensures
            r == self@.threads.contains_key(os_tid),
    {
        self.threads.contains_os_tid(os_tid)
    }

    /// How often physical watchpoints were added and removed.
    pub fn watchpoint_stats(&self) -> (r: WatchpointStats)
        ensures
            r.adds == self@.adds,
            r.removes == self@.removes,
    {
        WatchpointStats { adds: self.watchpoint_adds, removes: self.watchpoint_removes }
    }

    /// The physical watchpoints that the breakpoints call for.
    pub fn desired_watchpoints(&self) -> (r: KeySet)
        requires
            self.wf(),
        ensures
            r.wf(),
            r@ == self@.desired(),
    {
        let mut out = KeySet::new();
        let all = self.manager.all();
        assert(out@ =~= keys_of(all@.take(0), self.threads@));
        for i in 0..all.len()
            invariant
                all@ == self.manager@.list,
                out.wf(),
                out@ == keys_of(all@.take(i as int), self.threads@),
        {
            let bp = &all[i];
            let ghost seen = all@.take(i as int);
            let ghost now = all@.take(i as int + 1);
            let tid: u32 = match bp.thread_id {
                Some(os_tid) => match self.threads.uid_for_os_tid(os_tid as u32) {
                    Some(uid) => uid,
                    None => 0,
                },
                None => 0,
            };
            let key = WatchpointKey {
                addr: bp.addr,
                size: bp.size,
                access: bp.access_mask(),
                tid,
            };
            let ghost before = out@;
            if bp.enabled {
                out.insert(key);
            }
            proof {
                let threads = self.threads@;
                assert forall|k: WatchpointKey| keys_of(now, threads).contains(k) <==> (
                before.contains(k) || (bp.enabled && k == key)) by {
                    if keys_of(now, threads).contains(k) {
                        let j = choose|j: int|
                            0 <= j < now.len() && (#[trigger] now[j]).enabled && key_of(
                                now[j],
                                threads,
                            ) == k;
                        if j < i {
                            assert(seen[j] == now[j]);
                        }
                    }
                    if before.contains(k) {
                        let j = choose|j: int|
                            0 <= j < seen.len() && (#[trigger] seen[j]).enabled && key_of(
                                seen[j],
                                threads,
                            ) == k;
                        assert(now[j] == seen[j]);
                    }
                    if bp.enabled && k == key {
                        assert(now[i as int] == *bp);
                    }
                }
                assert(out@ =~= keys_of(now, threads));
            }
        }
        assert(all@.take(all@.len() as int) =~= all@);
        out
    }

    /// Bring the cursor's physical watchpoints in line with the breakpoints.
    /// The first addition that failed is surfaced.
    pub fn sync<C: WatchpointCursor>(&mut self, cursor: &mut C) -> (r: Result<(), DebugError>)
        requires
            old(self).wf(),
        ensures
            final(self).wf(),
            exists|run: SyncRun, states: Seq<C>|
                {
                    &&& #[trigger] old(self)@.may_sync(run, states)
                    &&& states[0] == *old(cursor)
                    &&& states.last() == *final(cursor)
                    &&& final(self)@ == old(self)@.synced(run)
                    &&& r is Ok <==> run.all_added()
                    &&& r matches Err(e) ==> surfaces(run, states, e)
                },
    {
        let desired = self.desired_watchpoints();
        let (report, first_error) = self.watchpoints.sync(&desired, cursor);
        let ghost (run, states) = choose|run: SyncRun, states: Seq<C>|
            {
                &&& run.plans(old(self).watchpoints@, desired@)
                &&& #[trigger] run.moves(states)
                &&& states[0] == *old(cursor)
                &&& states.last() == *cursor
                &&& self.watchpoints@ == run.leaves(old(self).watchpoints@)
                &&& report == run.report()
                &&& first_error is None <==> run.all_added()
                &&& first_error matches Some(e) ==> run.fails_with(states, e.key, e.source)
            };
        self.watchpoint_adds = self.watchpoint_adds.wrapping_add(report.added);
        self.watchpoint_removes = self.watchpoint_removes.wrapping_add(report.removed);
        assert(old(self)@.may_sync(run, states));
        assert(self@ =~= old(self)@.synced(run));
        match first_error {
            Some(err) => {
                let addr = err.key.addr;
                let e = DebugError::BreakpointRegister { addr, source: err.source };
                assert(surfaces(run, states, e));
                Err(e)
            },
            None => Ok(()),
        }
    }

    /// Register a breakpoint: add it, synchronize, and take it back if that
    /// fails.
    fn register<C: WatchpointCursor>(
        &mut self,
        addr: u64,
        size: u64,
        access: u8,
        kind: BreakpointKind,
        thread_id: Option<u64>,
        cursor: &mut C,
    ) -> (r: Result<BreakpointId, DebugError>)
        requires
            old(self).wf(),
            old(self)@.logical.next_id < u64::MAX,
        ensures
            final(self).wf(),
            registers(
                old(self)@,
                Breakpoint {
                    id: old(self)@.logical.next_id as u64,
                    addr,
                    size,
                    access,
                    kind,
                    thread_id,
                    enabled: true,
                    temporary: false,
                },
                *old(cursor),
                r,
                final(self)@,
                *final(cursor),
            ),
    {
        let id = self.manager.add(addr, size, access, kind, thread_id, false);
        let ghost bp = Breakpoint {
            id,
            addr,
            size,
            access,
            kind,
            thread_id,
            enabled: true,
            temporary: false,
        };
        let ghost added = self@;
        assert(added =~= old(self)@.with_logical(old(self)@.logical.added(bp)));
        let outcome = self.sync(cursor);
        let ghost (run, states) = choose|run: SyncRun, states: Seq<C>|
            {
                &&& #[trigger] added.may_sync(run, states)
                &&& states[0] == *old(cursor)
                &&& states.last() == *cursor
                &&& self@ == added.synced(run)
                &&& outcome is Ok <==> run.all_added()
                &&& outcome matches Err(e) ==> surfaces(run, states, e)
            };
        match outcome {
            Ok(_) => Ok(id),
            Err(e) => {
                let ghost failed = self@;
                self.manager.remove(id);
                let ghost without = self@;
                assert(without =~= failed.with_logical(failed.logical.removed(id)));
                let _ = self.sync(cursor);
                assert(takes_back(failed, id, states.last(), self@, *cursor));
                Err(e)
            },
        }
    }

    /// Set an execution breakpoint.
    pub fn set_breakpoint<C: WatchpointCursor>(
        &mut self,
        addr: u64,
        thread_id: Option<u64>,
        cursor: &mut C,
    ) -> (r: Result<BreakpointId, DebugError>)
        requires
            old(self).wf(),
            old(self)@.logical.next_id < u64::MAX,
        ensures
            final(self).wf(),
            registers(
                old(self)@,
                Breakpoint {
                    id: old(self)@.logical.next_id as u64,
                    addr,
                    size: 1,
                    access: DATA_ACCESS_EXECUTE,
                    kind: BreakpointKind::Execute,
                    thread_id,
                    enabled: true,
                    temporary: false,
                },
                *old(cursor),
                r,
                final(self)@,
                *final(cursor),
            ),
    {
        self.register(addr, 1, DATA_ACCESS_EXECUTE, BreakpointKind::Execute, thread_id, cursor)
    }

    /// Set a data watchpoint, on any thread.
    pub fn set_data_breakpoint<C: WatchpointCursor>(
        &mut self,
        addr: u64,
        size: u64,
        kind: BreakpointKind,
        cursor: &mut C,
    ) -> (r: Result<BreakpointId, DebugError>)
        requires
            old(self).wf(),
            old(self)@.logical.next_id < u64::MAX,
        ensures
            final(self).wf(),
            registers(
                old(self)@,
                Breakpoint {
                    id: old(self)@.logical.next_id as u64,
                    addr,
                    size,
                    access: kind_mask(kind),
                    kind,
                    thread_id: None,
                    enabled: true,
                    temporary: false,
                },
                *old(cursor),
                r,
                final(self)@,
                *final(cursor),
            ),
    {
        self.register(addr, size, kind.access_mask(), kind, None, cursor)
    }

    /// Remove one breakpoint, and synchronize if it existed. Returns whether it
    /// existed.
    pub fn remove_breakpoint<C: WatchpointCursor>(
        &mut self,
        id: BreakpointId,
        cursor: &mut C,
    ) -> (r: bool)
        requires
            old(self).wf(),
        ensures
            final(self).wf(),
            r == old(self)@.logical.has(id),
            r ==> takes_back(old(self)@, id, *old(cursor), final(self)@, *final(cursor)),
            !r ==> final(self)@ == old(self)@.with_logical(old(self)@.logical.removed(id))
                && *final(cursor) == *old(cursor),
    {
        let removed = self.manager.remove(id);
        let ghost without = self@;
        assert(without =~= old(self)@.with_logical(old(self)@.logical.removed(id)));
        if removed {
            let _ = self.sync(cursor);
        }
        removed
    }

    /// Remove every breakpoint at exactly this place, and synchronize if there
    /// was one. Returns whether there was one.
    pub fn remove_breakpoint_exact<C: WatchpointCursor>(
        &mut self,
        addr: u64,
        size: u64,
        access: u8,
        cursor: &mut C,
    ) -> (r: bool)
        requires
            old(self).wf(),
        ensures
            final(self).wf(),
            r == exists|i: int|
                0 <= i < old(self)@.logical.list.len() && at_place(
                    #[trigger] old(self)@.logical.list[i],
                    addr,
                    size,
                    access,
                ),
            ({
                let without = old(self)@.with_logical(
                    old(self)@.logical.removed_exact(addr, size, access),
                );
                if r {
                    resyncs(without, *old(cursor), final(self)@, *final(cursor))
                } else {
                    final(self)@ == without && *final(cursor) == *old(cursor)
                }
            }),
    {
        let removed = self.manager.remove_exact(addr, size, access);
        let ghost without = self@;
        assert(without =~= old(self)@.with_logical(
            old(self)@.logical.removed_exact(addr, size, access),
        ));
        if removed {
            let _ = self.sync(cursor);
        }
        removed
    }
}

/// A failed registration leaves the breakpoints as they were; only the id is
/// spent.
pub proof fn law_failed_registration_is_taken_back<C: WatchpointCursor>(
    s: WatchState,
    bp: Breakpoint,
    cursor: C,
    r: Result<BreakpointId, DebugError>,
    after: WatchState,
    cursor_after: C,
)
    requires
        s.logical.valid(),
        bp.id == s.logical.next_id,
        registers(s, bp, cursor, r, after, cursor_after),
        r is Err,
    ensures
        after.logical.list == s.logical.list,
        after.logical.next_id == s.logical.next_id + 1,
        after.desired() == s.desired(),
        after.threads == s.threads,
{
    law_remove_undoes_add(s.logical, bp);
}

/// A breakpoint whose physical watchpoint is applied already asks the engine
/// for no addition of it: logical duplicates share one physical watchpoint.
pub proof fn law_duplicates_share_a_watchpoint(s: WatchState, bp: Breakpoint)
    requires
        s.desired().contains(key_of(bp, s.threads)),
    ensures
        s.with_logical(s.logical.added(bp)).desired() == s.desired(),
{
    let old_list = s.logical.list;
    let list = s.logical.added(bp).list;
    let both = s.with_logical(s.logical.added(bp)).desired();
    assert forall|k: WatchpointKey| both.contains(k) <==> s.desired().contains(k) by {
        if both.contains(k) {
            let i = choose|i: int|
                0 <= i < list.len() && (#[trigger] list[i]).enabled && key_of(list[i], s.threads)
                    == k;
            if i < old_list.len() {
                assert(old_list[i] == list[i]);
            }
        }
        if s.desired().contains(k) {
            let i = choose|i: int|
                0 <= i < old_list.len() && (#[trigger] old_list[i]).enabled && key_of(
                    old_list[i],
                    s.threads,
                ) == k;
            assert(list[i] == old_list[i]);
        }
    }
    assert(both =~= s.desired());
}

/// Where every request to the engine succeeds, the physical watchpoints are
/// exactly those that the breakpoints call for.
pub proof fn law_registered_watchpoints_match<C: WatchpointCursor>(
    s: WatchState,
    run: SyncRun,
    states: Seq<C>,
)
    requires
        s.may_sync(run, states),
        forall|i: int| 0 <= i < run.gone.len() ==> #[trigger] run.gone[i],
        run.all_added(),
    ensures
        s.synced(run).physical == s.synced(run).desired(),
{
    law_sync_converges(run, s.physical, s.desired());
}

/// Removing the breakpoints at a place leaves none there, however many there
/// were, and keeps all others. No watchpoint is called for at the place any
/// more, and elsewhere those that were called for still are.
pub proof fn law_removal_clears_the_place(
    s: WatchState,
    addr: u64,
    size: u64,
    access: u8,
    bp: Breakpoint,
    key: WatchpointKey,
)
    ensures
        ({
            let without = s.with_logical(s.logical.removed_exact(addr, size, access));
            let at_key = key.addr == addr && key.size == size && key.access == access;
            &&& without.logical.list.contains(bp) <==> s.logical.list.contains(bp) && !at_place(
                bp,
                addr,
                size,
                access,
            )
            &&& without.desired().contains(key) <==> s.desired().contains(key) && !at_key
        }),
{
    let keep = |b: Breakpoint| !at_place(b, addr, size, access);
    let list = s.logical.list;
    let rest = s.logical.removed_exact(addr, size, access).list;
    assert(rest == list.filter(keep));
    lemma_filtered(list, keep, bp);
    let without = s.with_logical(s.logical.removed_exact(addr, size, access));
    if without.desired().contains(key) {
        let i = choose|i: int|
            0 <= i < rest.len() && (#[trigger] rest[i]).enabled && key_of(rest[i], s.threads)
                == key;
        lemma_filtered(list, keep, rest[i]);
        assert(rest.contains(rest[i]));
        let j = choose|j: int| 0 <= j < list.len() && list[j] == rest[i];
        assert(list[j].enabled);
    }
    if s.desired().contains(key) && !(key.addr == addr && key.size == size && key.access
        == access) {
        let i = choose|i: int|
            0 <= i < list.len() && (#[trigger] list[i]).enabled && key_of(list[i], s.threads)
                == key;
        lemma_filtered(list, keep, list[i]);
        assert(list.contains(list[i]));
        let j = choose|j: int| 0 <= j < rest.len() && rest[j] == list[i];
        assert(rest[j].enabled);
    }
}

/// A filtered list holds what was in the list and meets the condition.
proof fn lemma_filtered(
    list: Seq<Breakpoint>,
    keep: spec_fn(Breakpoint) -> bool,
    bp: Breakpoint,
)
    ensures
        list.filter(keep).contains(bp) <==> list.contains(bp) && keep(bp),
    decreases list.len(),
{
    reveal(Seq::filter);
    if list.len() > 0 {
        let front = list.drop_last();
        lemma_filtered(front, keep, bp);
        if front.contains(bp) {
            let i = choose|i: int| 0 <= i < front.len() && front[i] == bp;
            assert(list[i] == bp);
        }
        if list.contains(bp) && list.last() != bp {
            let i = choose|i: int| 0 <= i < list.len() && list[i] == bp;
            assert(front[i] == bp);
        }
        if keep(list.last()) {
            let shorter = front.filter(keep);
            assert(list.filter(keep) == shorter.push(list.last()));
            if shorter.contains(bp) {
                let i = choose|i: int| 0 <= i < shorter.len() && shorter[i] == bp;
                assert(list.filter(keep)[i] == bp);
            }
            assert(list.filter(keep)[shorter.len() as int] == list.last());
            assert(list.last() == list[list.len() - 1]);
        }
    }
}

} // verus!
