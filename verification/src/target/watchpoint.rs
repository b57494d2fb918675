//! Physical watchpoints and their synchronization.
//!
//! Client breakpoints are logical ids, while the engine watches physical
//! `(addr, size, access, thread)` tuples. Several logical ids can fall onto one
//! physical watchpoint. This module turns the difference between the two into
//! an ordered sequence of additions and removals.

use vstd::prelude::*;

use crate::ttd::error::TtdError;

verus! {

/// A physical watchpoint.
#[derive(Clone, Copy, Debug, PartialEq, Eq, Structural)]
pub struct WatchpointKey {
    pub addr: u64,
    pub size: u64,
    pub access: u8,
    /// The unique id of the thread to watch; 0 for any thread.
    pub tid: u32,
}

impl WatchpointKey {
    /// The order of keys: by address, size, access and thread.
    pub open spec fn before(self, other: WatchpointKey) -> bool {
        ||| self.addr < other.addr
        ||| self.addr == other.addr && self.size < other.size
        ||| self.addr == other.addr && self.size == other.size && self.access < other.access
        ||| self.addr == other.addr && self.size == other.size && self.access == other.access
            && self.tid < other.tid
    }

    fn is_before(&self, other: &WatchpointKey) -> (r: bool)
        ensures
            r == self.before(*other),
    {
        if self.addr != other.addr {
            self.addr < other.addr
        } else if self.size != other.size {
            self.size < other.size
        } else if self.access != other.access {
            self.access < other.access
        } else {
            self.tid < other.tid
        }
    }
}

/// Every key comes before the ones behind it.
pub open spec fn ascending(s: Seq<WatchpointKey>) -> bool {
    forall|i: int, j: int| 0 <= i < j < s.len() ==> (#[trigger] s[i]).before(#[trigger] s[j])
}

/// `s` lists a set, in ascending order.
pub open spec fn lists(s: Seq<WatchpointKey>, keys: Set<WatchpointKey>) -> bool {
    &&& ascending(s)
    &&& forall|k: WatchpointKey| #[trigger] keys.contains(k) <==> s.contains(k)
}

/// A set of physical watchpoints, kept in ascending order.
#[derive(Debug)]
pub struct KeySet {
    keys: Vec<WatchpointKey>,
}

impl View for KeySet {
    type V = Set<WatchpointKey>;

    closed spec fn view(&self) -> Set<WatchpointKey> {
        self.keys@.to_set()
    }
}

impl KeySet {
    /// The keys stand in ascending order.
    pub closed spec fn wf(&self) -> bool {
        ascending(self.keys@)
    }

    /// The empty set.
    pub fn new() -> (r: KeySet)
        ensures
            r.wf(),
            r@ == Set::<WatchpointKey>::empty(),
    {
        let r = KeySet { keys: Vec::new() };
        assert(r@ =~= Set::<WatchpointKey>::empty());
        r
    }

    /// Whether `key` is in the set.
    pub fn contains(&self, key: WatchpointKey) -> (r: bool)
        ensures
            r == self@.contains(key),
    {
        for i in 0..self.keys.len()
            invariant
                forall|j: int| 0 <= j < i ==> self.keys@[j] != key,
        {
            if self.keys[i] == key {
                assert(self.keys@[i as int] == key);
                return true;
            }
        }
        false
    }

    /// Put `key` into the set.
    pub fn insert(&mut self, key: WatchpointKey)
        requires
            old(self).wf(),
        ensures
            final(self).wf(),
            final(self)@ == old(self)@.insert(key),
    {
        let mut i: usize = 0;
        while i < self.keys.len() && self.keys[i].is_before(&key)
            invariant
                i <= self.keys@.len(),
                forall|j: int| 0 <= j < i ==> (#[trigger] self.keys@[j]).before(key),
            decreases self.keys@.len() - i,
        {
            i = i + 1;
        }
        let ghost before = self.keys@;
        if i < self.keys.len() && self.keys[i] == key {
            assert(self@ =~= old(self)@.insert(key));
            return;
        }
        self.keys.insert(i, key);
        proof {
            let s = self.keys@;
            assert(s == before.insert(i as int, key));
            assert forall|a: int, b: int| 0 <= a < b < s.len() implies (#[trigger] s[a]).before(
                #[trigger] s[b],
            ) by {
                let oa = if a < i {
                    a
                } else {
                    a - 1
                };
                let ob = if b < i {
                    b
                } else {
                    b - 1
                };
                if a != i && b != i {
                    assert(s[a] == before[oa] && s[b] == before[ob]);
                } else if b == i {
                    assert(s[a] == before[oa]);
                } else {
                    assert(s[b] == before[ob]);
                    if ob > i {
                        assert(before[i as int].before(before[ob]));
                    }
                }
            }
            assert forall|k: WatchpointKey| self@.contains(k) <==> old(self)@.insert(
                key,
            ).contains(k) by {
                if before.contains(k) {
                    let j = choose|j: int| 0 <= j < before.len() && before[j] == k;
                    if j < i {
                        assert(s[j] == k);
                    } else {
                        assert(s[j + 1] == k);
                    }
                }
                if s.contains(k) && k != key {
                    let j = choose|j: int| 0 <= j < s.len() && s[j] == k;
                    if j < i {
                        assert(before[j] == k);
                    } else {
                        assert(before[j - 1] == k);
                    }
                }
                assert(s[i as int] == key);
            }
            assert(self@ =~= old(self)@.insert(key));
        }
    }

    /// Take `key` out of the set.
    pub fn remove(&mut self, key: WatchpointKey)
        requires
            old(self).wf(),
        ensures
            final(self).wf(),
            final(self)@ == old(self)@.remove(key),
    {
        let ghost before = self.keys@;
        let mut i: usize = 0;
        while i < self.keys.len()
            invariant
                self.keys@ == before,
                before == old(self).keys@,
                ascending(before),
                i <= before.len(),
                forall|j: int| 0 <= j < i ==> before[j] != key,
            decreases before.len() - i,
        {
            if self.keys[i] == key {
                self.keys.remove(i);
                proof {
                    let s = self.keys@;
                    assert(s == before.remove(i as int));
                    assert forall|a: int, b: int| 0 <= a < b < s.len() implies (
                    #[trigger] s[a]).before(#[trigger] s[b]) by {
                        let oa = if a < i {
                            a
                        } else {
                            a + 1
                        };
                        let ob = if b < i {
                            b
                        } else {
                            b + 1
                        };
                        assert(s[a] == before[oa] && s[b] == before[ob]);
                    }
                    assert forall|k: WatchpointKey| self@.contains(k) <==> old(self)@.remove(
                        key,
                    ).contains(k) by {
                        if before.contains(k) && k != key {
                            let j = choose|j: int| 0 <= j < before.len() && before[j] == k;
                            if j < i {
                                assert(s[j] == k);
                            } else {
                                assert(s[j - 1] == k);
                            }
                        }
                        if s.contains(k) {
                            let j = choose|j: int| 0 <= j < s.len() && s[j] == k;
                            if j < i {
                                assert(before[j] == k);
                            } else {
                                assert(before[j + 1] == k);
                                assert(before[i as int].before(before[j + 1]));
                            }
                        }
                    }
                    assert(self@ =~= old(self)@.remove(key));
                }
                return;
            }
            i = i + 1;
        }
        assert(self@ =~= old(self)@.remove(key));
    }

    /// The keys that are not in `other`, in ascending order.
    pub fn difference(&self, other: &KeySet) -> (r: Vec<WatchpointKey>)
        requires
            self.wf(),
        ensures
            lists(r@, self@.difference(other@)),
    {
        let mut out: Vec<WatchpointKey> = Vec::new();
        for i in 0..self.keys.len()
            invariant
                self.wf(),
                ascending(out@),
                forall|k: WatchpointKey| #[trigger]
                    out@.contains(k) <==> self.keys@.take(i as int).contains(k)
                        && !other@.contains(k),
        {
            let key = self.keys[i];
            let ghost seen = self.keys@.take(i as int);
            let ghost now = self.keys@.take(i as int + 1);
            let ghost before = out@;
            assert(now =~= seen.push(key));
            let fresh = !other.contains(key);
            if fresh {
                out.push(key);
            }
            proof {
                assert forall|a: int, b: int| 0 <= a < b < out@.len() implies (
                #[trigger] out@[a]).before(#[trigger] out@[b]) by {
                    assert(out@[a] == before[a]);
                    if b < before.len() {
                        assert(out@[b] == before[b]);
                    } else {
                        assert(before.contains(before[a]));
                        let k = choose|k: int| 0 <= k < seen.len() && seen[k] == before[a];
                        assert(self.keys@[k] == before[a]);
                    }
                }
                assert forall|k: WatchpointKey| #[trigger] out@.contains(k) <==> now.contains(k)
                    && !other@.contains(k) by {
                    if out@.contains(k) {
                        let j = choose|j: int| 0 <= j < out@.len() && out@[j] == k;
                        if j < before.len() {
                            assert(before[j] == k);
                            assert(before.contains(k));
                            let m = choose|m: int| 0 <= m < seen.len() && seen[m] == k;
                            assert(now[m] == k);
                        } else {
                            assert(now[i as int] == k);
                        }
                    }
                    if now.contains(k) && !other@.contains(k) {
                        let j = choose|j: int| 0 <= j < now.len() && now[j] == k;
                        if j < i {
                            assert(seen[j] == k);
                            assert(before.contains(k));
                            let m = choose|m: int| 0 <= m < before.len() && before[m] == k;
                            assert(out@[m] == k);
                        } else {
                            assert(out@[out@.len() - 1] == k);
                        }
                    }
                }
            }
        }
        assert(self.keys@.take(self.keys@.len() as int) =~= self.keys@);
        out
    }
}

/// The small slice of cursor functionality that synchronization needs. A cursor
/// that no proof speaks of leaves the spec functions as they are.
pub trait WatchpointCursor: Sized {
    /// The cursor can end like this when it is asked to add a watchpoint.
    closed spec fn may_add(
        &self,
        key: WatchpointKey,
        after: Self,
        r: Result<(), TtdError>,
    ) -> bool {
        arbitrary()
    }

    /// The cursor can end like this when it is asked to remove a watchpoint.
    closed spec fn may_remove(
        &self,
        key: WatchpointKey,
        after: Self,
        r: Result<(), TtdError>,
    ) -> bool {
        arbitrary()
    }

    fn add_watchpoint(&mut self, key: WatchpointKey) -> (r: Result<(), TtdError>)
        ensures
            old(self).may_add(key, *final(self), r),
    ;

    fn remove_watchpoint(&mut self, key: WatchpointKey) -> (r: Result<(), TtdError>)
        ensures
            old(self).may_remove(key, *final(self), r),
    ;
}

/// The first addition that failed during a synchronization.
#[derive(Debug)]
pub struct WatchpointSyncError {
    pub key: WatchpointKey,
    pub source: TtdError,
}

/// What one synchronization did.
#[derive(Clone, Copy, Debug, PartialEq, Eq, Structural)]
pub struct WatchpointSyncReport {
    pub added: u64,
    pub removed: u64,
    pub add_failures: u64,
    pub remove_failures: u64,
}

impl Default for WatchpointSyncReport {
    fn default() -> (r: WatchpointSyncReport)
        ensures
            r == (WatchpointSyncReport {
                added: 0,
                removed: 0,
                add_failures: 0,
                remove_failures: 0,
            }),
    {
        WatchpointSyncReport { added: 0, removed: 0, add_failures: 0, remove_failures: 0 }
    }
}

/// How many outcomes are `which`.
pub open spec fn tally(outcomes: Seq<bool>, which: bool) -> nat
    decreases outcomes.len(),
{
    if outcomes.len() == 0 {
        0
    } else {
        tally(outcomes.drop_last(), which) + (if outcomes.last() == which {
            1nat
        } else {
            0
        })
    }
}

/// The watchpoints left once each of `keys` was to be removed and the removals
/// went as `outcomes` say. A removal that failed keeps its key.
pub open spec fn after_removals(
    applied: Set<WatchpointKey>,
    keys: Seq<WatchpointKey>,
    outcomes: Seq<bool>,
) -> Set<WatchpointKey>
    decreases outcomes.len(),
{
    if outcomes.len() == 0 {
        applied
    } else {
        let before = after_removals(applied, keys, outcomes.drop_last());
        if outcomes.last() {
            before.remove(keys[outcomes.len() - 1])
        } else {
            before
        }
    }
}

/// The watchpoints there are once each of `keys` was to be added and the
/// additions went as `outcomes` say. An addition that failed adds nothing.
pub open spec fn after_additions(
    applied: Set<WatchpointKey>,
    keys: Seq<WatchpointKey>,
    outcomes: Seq<bool>,
) -> Set<WatchpointKey>
    decreases outcomes.len(),
{
    if outcomes.len() == 0 {
        applied
    } else {
        let before = after_additions(applied, keys, outcomes.drop_last());
        if outcomes.last() {
            before.insert(keys[outcomes.len() - 1])
        } else {
            before
        }
    }
}

/// What a synchronization asks the cursor to do, in this order, and how each
/// request went.
pub struct SyncRun {
    pub stale: Seq<WatchpointKey>,
    pub gone: Seq<bool>,
    pub missing: Seq<WatchpointKey>,
    pub came: Seq<bool>,
}

impl SyncRun {
    /// The run removes what is applied and not desired, then adds what is
    /// desired and not applied, both in ascending order.
    pub open spec fn plans(
        self,
        applied: Set<WatchpointKey>,
        desired: Set<WatchpointKey>,
    ) -> bool {
        &&& lists(self.stale, applied.difference(desired))
        &&& lists(self.missing, desired.difference(applied))
        &&& self.gone.len() == self.stale.len()
        &&& self.came.len() == self.missing.len()
    }

    /// The watchpoints after the run.
    pub open spec fn leaves(self, applied: Set<WatchpointKey>) -> Set<WatchpointKey> {
        after_additions(after_removals(applied, self.stale, self.gone), self.missing, self.came)
    }

    /// What is reported of the run.
    pub open spec fn report(self) -> WatchpointSyncReport {
        WatchpointSyncReport {
            added: tally(self.came, true) as u64,
            removed: tally(self.gone, true) as u64,
            add_failures: tally(self.came, false) as u64,
            remove_failures: tally(self.gone, false) as u64,
        }
    }

    /// Every addition succeeded.
    pub open spec fn all_added(self) -> bool {
        forall|i: int| 0 <= i < self.came.len() ==> #[trigger] self.came[i]
    }

    /// The cursor went through these states: from each to the next by one
    /// request, first the removals and then the additions, and each went as the
    /// run says. There was no other request.
    pub open spec fn moves<C: WatchpointCursor>(self, states: Seq<C>) -> bool {
        let n = self.stale.len() as int;
        &&& states.len() == self.stale.len() + self.missing.len() + 1
        &&& forall|i: int|
            0 <= i < self.gone.len() ==> removal_went(
                states[i],
                self.stale[i],
                states[i + 1],
                #[trigger] self.gone[i],
            )
        &&& forall|i: int|
            0 <= i < self.came.len() ==> addition_went(
                states[n + i],
                self.missing[i],
                states[n + i + 1],
                #[trigger] self.came[i],
            )
    }

    /// The first addition that failed was that of `key`, with this failure.
    pub open spec fn fails_with<C: WatchpointCursor>(
        self,
        states: Seq<C>,
        key: WatchpointKey,
        source: TtdError,
    ) -> bool {
        let n = self.stale.len() as int;
        exists|i: int|
            {
                &&& 0 <= i < self.came.len()
                &&& !#[trigger] self.came[i]
                &&& self.missing[i] == key
                &&& forall|j: int| 0 <= j < i ==> #[trigger] self.came[j]
                &&& states[n + i].may_add(key, states[n + i + 1], Err(source))
            }
    }
}

/// A cursor was asked to add `key` and ended in state `after`.
pub open spec fn addition_went<C: WatchpointCursor>(
    before: C,
    key: WatchpointKey,
    after: C,
    ok: bool,
) -> bool {
    exists|r: Result<(), TtdError>| #[trigger]
        before.may_add(key, after, r) && ok == (r is Ok)
}

/// A cursor was asked to remove `key` and ended in state `after`.
pub open spec fn removal_went<C: WatchpointCursor>(
    before: C,
    key: WatchpointKey,
    after: C,
    ok: bool,
) -> bool {
    exists|r: Result<(), TtdError>| #[trigger]
        before.may_remove(key, after, r) && ok == (r is Ok)
}

/// The physical watchpoints that are registered on one cursor.
#[derive(Debug)]
pub struct WatchpointRegistry {
    applied: KeySet,
}

impl View for WatchpointRegistry {
    type V = Set<WatchpointKey>;

    closed spec fn view(&self) -> Set<WatchpointKey> {
        self.applied@
    }
}

impl WatchpointRegistry {
    /// The record of applied watchpoints is in order.
    pub closed spec fn wf(&self) -> bool {
        self.applied.wf()
    }

    /// Nothing is registered.
    pub fn new() -> (r: WatchpointRegistry)
        ensures
            r.wf(),
            r@ == Set::<WatchpointKey>::empty(),
    {
        WatchpointRegistry { applied: KeySet::new() }
    }

    /// What has to be removed to reach `desired`, in ascending order.
    pub fn stale(&self, desired: &KeySet) -> (r: Vec<WatchpointKey>)
        requires
            self.wf(),
        ensures
            lists(r@, self@.difference(desired@)),
    {
        self.applied.difference(desired)
    }

    /// What has to be added to reach `desired`, in ascending order.
    pub fn missing(&self, desired: &KeySet) -> (r: Vec<WatchpointKey>)
        requires
            desired.wf(),
        ensures
            lists(r@, desired@.difference(self@)),
    {
        desired.difference(&self.applied)
    }

    /// Bring the physical watchpoints in line with `desired`.
    ///
    /// Removals come first, and both removals and additions run in ascending
    /// key order. A failed addition is not recorded and a failed removal stays
    /// recorded, so that the next synchronization tries again. The first
    /// addition that failed is returned for the caller to surface.
    pub fn sync<C: WatchpointCursor>(&mut self, desired: &KeySet, cursor: &mut C) -> (r: (
        WatchpointSyncReport,
        Option<WatchpointSyncError>,
    ))
        requires
            old(self).wf(),
            desired.wf(),
        ensures
            final(self).wf(),
            exists|run: SyncRun, states: Seq<C>|
                {
                    &&& run.plans(old(self)@, desired@)
                    &&& #[trigger] run.moves(states)
                    &&& states[0] == *old(cursor)
                    &&& states.last() == *final(cursor)
                    &&& final(self)@ == run.leaves(old(self)@)
                    &&& r.0 == run.report()
                    &&& r.1 is None <==> run.all_added()
                    &&& r.1 matches Some(e) ==> run.fails_with(states, e.key, e.source)
                },
    {
        let stale = self.applied.difference(desired);
        let missing = desired.difference(&self.applied);
        let mut report = WatchpointSyncReport::default();
        let mut first_error: Option<WatchpointSyncError> = None;
        let ghost start = self@;
        let ghost mut gone: Seq<bool> = Seq::empty();
        let ghost mut came: Seq<bool> = Seq::empty();
        let ghost mut states: Seq<C> = seq![*cursor];
        for i in 0..stale.len()
            invariant
                self.wf(),
                gone.len() == i,
                states.len() == i + 1,
                states[0] == *old(cursor),
                states.last() == *cursor,
                forall|k: int|
                    0 <= k < gone.len() ==> removal_went(
                        states[k],
                        stale@[k],
                        states[k + 1],
                        #[trigger] gone[k],
                    ),
                self@ == after_removals(start, stale@, gone),
                report.removed == tally(gone, true),
                report.remove_failures == tally(gone, false),
                report.removed + report.remove_failures == i,
                report.added == 0,
                report.add_failures == 0,
        {
            let key = stale[i];
            let ghost before = *cursor;
            let outcome = cursor.remove_watchpoint(key);
            let ghost ok = outcome is Ok;
            match outcome {
                Ok(_) => {
                    self.applied.remove(key);
                    report.removed = report.removed + 1;
                },
                Err(_) => {
                    report.remove_failures = report.remove_failures + 1;
                },
            }
            proof {
                let longer = gone.push(ok);
                let further = states.push(*cursor);
                assert(longer.drop_last() =~= gone);
                assert(removal_went(before, key, *cursor, ok));
                assert forall|k: int| 0 <= k < longer.len() implies removal_went(
                    further[k],
                    stale@[k],
                    further[k + 1],
                    #[trigger] longer[k],
                ) by {
                    if k < gone.len() {
                        assert(removal_went(states[k], stale@[k], states[k + 1], gone[k]));
                    }
                }
                gone = longer;
                states = further;
            }
        }
        let ghost between = self@;
        let ghost n = stale@.len() as int;
        for i in 0..missing.len()
            invariant
                self.wf(),
                n == stale@.len(),
                gone.len() == n,
                came.len() == i,
                states.len() == n + i + 1,
                states[0] == *old(cursor),
                states.last() == *cursor,
                forall|k: int|
                    0 <= k < gone.len() ==> removal_went(
                        states[k],
                        stale@[k],
                        states[k + 1],
                        #[trigger] gone[k],
                    ),
                forall|k: int|
                    0 <= k < came.len() ==> addition_went(
                        states[n + k],
                        missing@[k],
                        states[n + k + 1],
                        #[trigger] came[k],
                    ),
                self@ == after_additions(between, missing@, came),
                report.added == tally(came, true),
                report.add_failures == tally(came, false),
                report.added + report.add_failures == i,
                report.removed == tally(gone, true),
                report.remove_failures == tally(gone, false),
                first_error is None <==> forall|k: int| 0 <= k < came.len() ==> #[trigger] came[k],
                first_error matches Some(e) ==> exists|k: int|
                    {
                        &&& 0 <= k < came.len()
                        &&& !#[trigger] came[k]
                        &&& missing@[k] == e.key
                        &&& forall|j: int| 0 <= j < k ==> #[trigger] came[j]
                        &&& states[n + k].may_add(e.key, states[n + k + 1], Err(e.source))
                    },
        {
            let key = missing[i];
            let ghost before = *cursor;
            let outcome = cursor.add_watchpoint(key);
            let ghost ok = outcome is Ok;
            let ghost earlier = came;
            proof {
                assert(addition_went(before, key, *cursor, ok));
                let longer = came.push(ok);
                let further = states.push(*cursor);
                assert(longer.drop_last() =~= came);
                assert forall|k: int| 0 <= k < longer.len() implies addition_went(
                    further[n + k],
                    missing@[k],
                    further[n + k + 1],
                    #[trigger] longer[k],
                ) by {
                    if k < came.len() {
                        assert(addition_went(
                            states[n + k],
                            missing@[k],
                            states[n + k + 1],
                            came[k],
                        ));
                    }
                }
                assert forall|k: int| 0 <= k < gone.len() implies removal_went(
                    further[k],
                    stale@[k],
                    further[k + 1],
                    #[trigger] gone[k],
                ) by {
                    assert(removal_went(states[k], stale@[k], states[k + 1], gone[k]));
                }
                if first_error is Some {
                    let k = choose|k: int|
                        {
                            &&& 0 <= k < came.len()
                            &&& !#[trigger] came[k]
                            &&& missing@[k] == first_error->0.key
                            &&& forall|j: int| 0 <= j < k ==> #[trigger] came[j]
                            &&& states[n + k].may_add(
                                first_error->0.key,
                                states[n + k + 1],
                                Err(first_error->0.source),
                            )
                        };
                    assert(!longer[k]);
                    assert forall|j: int| 0 <= j < k implies #[trigger] longer[j] by {
                        assert(came[j]);
                    }
                }
                came = longer;
                states = further;
                assert forall|k: int| 0 <= k < earlier.len() implies came[k] == earlier[k] by {
                }
                assert(came[i as int] == ok);
            }
            match outcome {
                Ok(_) => {
                    self.applied.insert(key);
                    report.added = report.added + 1;
                },
                Err(source) => {
                    report.add_failures = report.add_failures + 1;
                    if first_error.is_none() {
                        first_error = Some(WatchpointSyncError { key, source });
                    }
                },
            }
        }
        proof {
            let run = SyncRun { stale: stale@, gone, missing: missing@, came };
            assert(run.plans(start, desired@));
            assert(run.moves(states));
        }
        (report, first_error)
    }
}

/// One of the keys that were dealt with successfully.
pub open spec fn done(keys: Seq<WatchpointKey>, outcomes: Seq<bool>, k: WatchpointKey) -> bool {
    exists|i: int| 0 <= i < outcomes.len() && #[trigger] outcomes[i] && keys[i] == k
}

proof fn lemma_done_step(keys: Seq<WatchpointKey>, outcomes: Seq<bool>, k: WatchpointKey)
    requires
        outcomes.len() > 0,
    ensures
        done(keys, outcomes, k) <==> done(keys, outcomes.drop_last(), k) || (outcomes.last()
            && keys[outcomes.len() - 1] == k),
{
    let rest = outcomes.drop_last();
    if done(keys, outcomes, k) {
        let i = choose|i: int| 0 <= i < outcomes.len() && #[trigger] outcomes[i] && keys[i] == k;
        if i < rest.len() {
            assert(rest[i]);
        }
    }
    if done(keys, rest, k) {
        let i = choose|i: int| 0 <= i < rest.len() && #[trigger] rest[i] && keys[i] == k;
        assert(outcomes[i]);
    }
    if outcomes.last() && keys[outcomes.len() - 1] == k {
        assert(outcomes[outcomes.len() - 1]);
    }
}

proof fn lemma_after_removals(
    applied: Set<WatchpointKey>,
    keys: Seq<WatchpointKey>,
    outcomes: Seq<bool>,
    k: WatchpointKey,
)
    ensures
        after_removals(applied, keys, outcomes).contains(k) <==> applied.contains(k) && !done(
            keys,
            outcomes,
            k,
        ),
    decreases outcomes.len(),
{
    if outcomes.len() > 0 {
        lemma_after_removals(applied, keys, outcomes.drop_last(), k);
        lemma_done_step(keys, outcomes, k);
    }
}

proof fn lemma_after_additions(
    applied: Set<WatchpointKey>,
    keys: Seq<WatchpointKey>,
    outcomes: Seq<bool>,
    k: WatchpointKey,
)
    ensures
        after_additions(applied, keys, outcomes).contains(k) <==> applied.contains(k) || done(
            keys,
            outcomes,
            k,
        ),
    decreases outcomes.len(),
{
    if outcomes.len() > 0 {
        lemma_after_additions(applied, keys, outcomes.drop_last(), k);
        lemma_done_step(keys, outcomes, k);
    }
}

/// What a run leaves, key by key.
pub proof fn lemma_leaves(
    run: SyncRun,
    applied: Set<WatchpointKey>,
    desired: Set<WatchpointKey>,
    k: WatchpointKey,
)
    requires
        run.plans(applied, desired),
    ensures
        desired.contains(k) ==> (run.leaves(applied).contains(k) <==> applied.contains(k) || done(
            run.missing,
            run.came,
            k,
        )),
        !desired.contains(k) ==> (run.leaves(applied).contains(k) <==> applied.contains(k)
            && !done(run.stale, run.gone, k)),
{
    lemma_after_removals(applied, run.stale, run.gone, k);
    lemma_after_additions(
        after_removals(applied, run.stale, run.gone),
        run.missing,
        run.came,
        k,
    );
    if done(run.stale, run.gone, k) {
        assert(run.stale.contains(k));
        assert(applied.difference(desired).contains(k));
    }
    if done(run.missing, run.came, k) {
        assert(run.missing.contains(k));
        assert(desired.difference(applied).contains(k));
    }
}

/// A run in which every request succeeds ends with exactly the desired
/// watchpoints.
pub proof fn law_sync_converges(
    run: SyncRun,
    applied: Set<WatchpointKey>,
    desired: Set<WatchpointKey>,
)
    requires
        run.plans(applied, desired),
        forall|i: int| 0 <= i < run.gone.len() ==> #[trigger] run.gone[i],
        run.all_added(),
    ensures
        run.leaves(applied) == desired,
{
    assert forall|k: WatchpointKey| run.leaves(applied).contains(k) <==> desired.contains(k) by {
        lemma_leaves(run, applied, desired, k);
        if desired.contains(k) && !applied.contains(k) {
            assert(desired.difference(applied).contains(k));
            let i = choose|i: int| 0 <= i < run.missing.len() && run.missing[i] == k;
            assert(run.came[i]);
        }
        if applied.contains(k) && !desired.contains(k) {
            assert(applied.difference(desired).contains(k));
            let i = choose|i: int| 0 <= i < run.stale.len() && run.stale[i] == k;
            assert(run.gone[i]);
        }
    }
    assert(run.leaves(applied) =~= desired);
}

/// Once the desired watchpoints are applied, a run asks for nothing and changes
/// nothing.
pub proof fn law_sync_is_idempotent(run: SyncRun, desired: Set<WatchpointKey>)
    requires
        run.plans(desired, desired),
    ensures
        run.stale.len() == 0,
        run.missing.len() == 0,
        run.leaves(desired) == desired,
        run.report() == (WatchpointSyncReport {
            added: 0,
            removed: 0,
            add_failures: 0,
            remove_failures: 0,
        }),
{
    if run.stale.len() > 0 {
        assert(run.stale.contains(run.stale[0]));
        assert(desired.difference(desired).contains(run.stale[0]));
    }
    if run.missing.len() > 0 {
        assert(run.missing.contains(run.missing[0]));
        assert(desired.difference(desired).contains(run.missing[0]));
    }
}

/// The next run tries again exactly what failed: additions that failed are
/// still missing, removals that failed are still stale, and nothing else is.
pub proof fn law_failures_are_retried(
    run: SyncRun,
    applied: Set<WatchpointKey>,
    desired: Set<WatchpointKey>,
    next: SyncRun,
    k: WatchpointKey,
)
    requires
        run.plans(applied, desired),
        next.plans(run.leaves(applied), desired),
    ensures
        next.missing.contains(k) <==> exists|i: int|
            0 <= i < run.came.len() && !(#[trigger] run.came[i]) && run.missing[i] == k,
        next.stale.contains(k) <==> exists|i: int|
            0 <= i < run.gone.len() && !(#[trigger] run.gone[i]) && run.stale[i] == k,
{
    let after = run.leaves(applied);
    lemma_leaves(run, applied, desired, k);
    assert(next.missing.contains(k) <==> desired.difference(after).contains(k));
    assert(next.stale.contains(k) <==> after.difference(desired).contains(k));
    if desired.difference(after).contains(k) {
        assert(desired.difference(applied).contains(k));
        let i = choose|i: int| 0 <= i < run.missing.len() && run.missing[i] == k;
        assert(!run.came[i]);
    }
    if exists|i: int| 0 <= i < run.came.len() && !(#[trigger] run.came[i]) && run.missing[i] == k {
        let i = choose|i: int|
            0 <= i < run.came.len() && !(#[trigger] run.came[i]) && run.missing[i] == k;
        assert(run.missing.contains(k));
        assert(desired.difference(applied).contains(k));
        lemma_one_outcome(run.missing, run.came, i);
    }
    if after.difference(desired).contains(k) {
        assert(applied.difference(desired).contains(k));
        let i = choose|i: int| 0 <= i < run.stale.len() && run.stale[i] == k;
        assert(!run.gone[i]);
    }
    if exists|i: int| 0 <= i < run.gone.len() && !(#[trigger] run.gone[i]) && run.stale[i] == k {
        let i = choose|i: int|
            0 <= i < run.gone.len() && !(#[trigger] run.gone[i]) && run.stale[i] == k;
        assert(run.stale.contains(k));
        assert(applied.difference(desired).contains(k));
        lemma_one_outcome(run.stale, run.gone, i);
    }
}

/// A key is asked for once, so a failure is its only outcome.
proof fn lemma_one_outcome(keys: Seq<WatchpointKey>, outcomes: Seq<bool>, i: int)
    requires
        ascending(keys),
        keys.len() == outcomes.len(),
        0 <= i < keys.len(),
        !outcomes[i],
    ensures
        !done(keys, outcomes, keys[i]),
{
    if done(keys, outcomes, keys[i]) {
        let j = choose|j: int|
            0 <= j < outcomes.len() && #[trigger] outcomes[j] && keys[j] == keys[i];
        if i < j {
            assert(keys[i].before(keys[j]));
        } else {
            assert(keys[j].before(keys[i]));
        }
    }
}

/// The cursor gets one request for each key that differs: none twice, and none
/// both to remove and to add.
pub proof fn law_each_key_is_asked_for_once<C: WatchpointCursor>(
    run: SyncRun,
    applied: Set<WatchpointKey>,
    desired: Set<WatchpointKey>,
    states: Seq<C>,
    i: int,
    j: int,
)
    requires
        run.plans(applied, desired),
        run.moves(states),
    ensures
        states.len() - 1 == run.stale.len() + run.missing.len(),
        0 <= i < j < run.stale.len() ==> run.stale[i] != run.stale[j],
        0 <= i < j < run.missing.len() ==> run.missing[i] != run.missing[j],
        0 <= i < run.stale.len() && 0 <= j < run.missing.len() ==> run.stale[i] != run.missing[j],
{
    if 0 <= i < j < run.stale.len() {
        assert(run.stale[i].before(run.stale[j]));
    }
    if 0 <= i < j < run.missing.len() {
        assert(run.missing[i].before(run.missing[j]));
    }
    if 0 <= i < run.stale.len() && 0 <= j < run.missing.len() {
        assert(run.stale.contains(run.stale[i]));
        assert(run.missing.contains(run.missing[j]));
        assert(applied.difference(desired).contains(run.stale[i]));
        assert(desired.difference(applied).contains(run.missing[j]));
    }
}

} // verus!
