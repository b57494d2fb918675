//! The client's logical breakpoints.

use vstd::prelude::*;

use crate::ttd::types::{DATA_ACCESS_EXECUTE, DATA_ACCESS_READ, DATA_ACCESS_WRITE};

verus! {

broadcast use Seq::lemma_filter_push;

/// The number of a logical breakpoint.
pub type BreakpointId = u64;

/// What a breakpoint watches for.
#[derive(Clone, Copy, Debug, PartialEq, Eq, Structural)]
pub enum BreakpointKind {
    Execute,
    Read,
    Write,
    /// Read or write.
    Access,
}

/// The access mask of a kind.
pub open spec fn kind_mask(kind: BreakpointKind) -> u8 {
    match kind {
        BreakpointKind::Execute => DATA_ACCESS_EXECUTE,
        BreakpointKind::Read => DATA_ACCESS_READ,
        BreakpointKind::Write => DATA_ACCESS_WRITE,
        BreakpointKind::Access => 3,
    }
}

impl BreakpointKind {
    /// The access mask of the kind.
    pub fn access_mask(self) -> (r: u8)
        ensures
            r == kind_mask(self),
            self is Access ==> r == DATA_ACCESS_READ | DATA_ACCESS_WRITE,
    {
        assert(1u8 | 2u8 == 3u8) by (bit_vector);
        match self {
            BreakpointKind::Execute => DATA_ACCESS_EXECUTE,
            BreakpointKind::Read => DATA_ACCESS_READ,
            BreakpointKind::Write => DATA_ACCESS_WRITE,
            BreakpointKind::Access => DATA_ACCESS_READ | DATA_ACCESS_WRITE,
        }
    }
}

/// A logical breakpoint.
#[derive(Clone, Copy, Debug)]
pub struct Breakpoint {
    pub id: BreakpointId,
    pub addr: u64,
    pub size: u64,
    pub access: u8,
    pub kind: BreakpointKind,
    /// The OS thread that the breakpoint is for; `None` for any thread.
    pub thread_id: Option<u64>,
    pub enabled: bool,
    pub temporary: bool,
}

impl Breakpoint {
    /// The access mask that the breakpoint was registered with.
    pub fn access_mask(&self) -> (r: u8)
        ensures
            r == self.access,
    {
        self.access
    }

    /// The bytes that the breakpoint watches hold `addr`, and the access is
    /// one of those watched.
    pub open spec fn watches(self, addr: u64, access: u8) -> bool {
        self.addr <= addr < self.addr + self.size && self.access & access != 0
    }

    /// A hit on any thread belongs to the breakpoint.
    pub open spec fn hit_anywhere(self, addr: u64, access: u8) -> bool {
        self.enabled && ((self.kind is Execute && addr == self.addr) || self.watches(addr, access))
    }

    /// A hit on thread `thread_id` belongs to the breakpoint. Thread 0 stands
    /// for an unknown thread and is no wildcard.
    pub open spec fn hit_on(self, addr: u64, access: u8, thread_id: u64) -> bool {
        &&& self.enabled
        &&& if self.kind is Execute {
            addr == self.addr
        } else {
            self.watches(addr, access)
        }
        &&& self.thread_id is None || self.thread_id == Some(thread_id)
    }

    fn covers(&self, addr: u64, access: u8) -> (r: bool)
        ensures
            r == self.watches(addr, access),
    {
        addr >= self.addr && addr - self.addr < self.size && (self.access & access) != 0
    }
}

/// The breakpoints in order of their ids, and the id that the next one gets.
pub struct Breakpoints {
    pub list: Seq<Breakpoint>,
    pub next_id: nat,
}

impl Breakpoints {
    /// Ids grow along the list, start at 1 and lie below the next id.
    pub open spec fn valid(self) -> bool {
        &&& 1 <= self.next_id <= u64::MAX
        &&& forall|i: int|
            0 <= i < self.list.len() ==> 1 <= (#[trigger] self.list[i]).id < self.next_id
        &&& forall|i: int, j: int|
            0 <= i < j < self.list.len() ==> (#[trigger] self.list[i]).id < (
            #[trigger] self.list[j]).id
    }

    /// The breakpoints after adding one.
    pub open spec fn added(self, bp: Breakpoint) -> Breakpoints {
        Breakpoints { list: self.list.push(bp), next_id: self.next_id + 1 }
    }

    /// The breakpoints after keeping only some.
    pub open spec fn kept(self, keep: spec_fn(Breakpoint) -> bool) -> Breakpoints {
        Breakpoints { list: self.list.filter(keep), next_id: self.next_id }
    }

    /// The breakpoints after removing one.
    pub open spec fn removed(self, id: u64) -> Breakpoints {
        self.kept(|b: Breakpoint| b.id != id)
    }

    /// The breakpoints after removing those at one place.
    pub open spec fn removed_exact(self, addr: u64, size: u64, access: u8) -> Breakpoints {
        self.kept(|b: Breakpoint| !at_place(b, addr, size, access))
    }

    /// A breakpoint with this id exists.
    pub open spec fn has(self, id: u64) -> bool {
        exists|i: int| 0 <= i < self.list.len() && (#[trigger] self.list[i]).id == id
    }
}

/// A breakpoint stands at exactly this place.
pub open spec fn at_place(b: Breakpoint, addr: u64, size: u64, access: u8) -> bool {
    b.addr == addr && b.size == size && b.access == access
}

/// The first breakpoint of a list that meets a condition.
pub open spec fn first_where(list: Seq<Breakpoint>, meets: spec_fn(Breakpoint) -> bool) -> Option<
    Breakpoint,
>
    decreases list.len(),
{
    if list.len() == 0 {
        None
    } else {
        match first_where(list.drop_last(), meets) {
            Some(b) => Some(b),
            None => if meets(list.last()) {
                Some(list.last())
            } else {
                None
            },
        }
    }
}

/// What a reference to a breakpoint refers to.
pub open spec fn referred(r: Option<&Breakpoint>) -> Option<Breakpoint> {
    match r {
        Some(b) => Some(*b),
        None => None,
    }
}

/// The first breakpoint comes out as soon as it is met.
proof fn lemma_first_where(list: Seq<Breakpoint>, meets: spec_fn(Breakpoint) -> bool, n: int)
    requires
        0 <= n < list.len(),
        first_where(list.take(n), meets) is None,
    ensures
        first_where(list.take(n + 1), meets) == (if meets(list[n]) {
            Some(list[n])
        } else {
            None
        }),
        meets(list[n]) ==> first_where(list, meets) == Some(list[n]),
    decreases list.len(),
{
    assert(list.take(n + 1).drop_last() =~= list.take(n));
    if meets(list[n]) {
        if n + 1 == list.len() {
            assert(list.take(n + 1) =~= list);
        } else {
            assert(list.drop_last().take(n) =~= list.take(n));
            lemma_first_where(list.drop_last(), meets, n);
        }
    }
}

/// The logical breakpoints of the client.
pub struct BreakpointManager {
    breakpoints: Vec<Breakpoint>,
    next_id: BreakpointId,
}

impl View for BreakpointManager {
    type V = Breakpoints;

    closed spec fn view(&self) -> Breakpoints {
        Breakpoints { list: self.breakpoints@, next_id: self.next_id as nat }
    }
}

impl Default for BreakpointManager {
    fn default() -> (r: BreakpointManager)
        ensures
            r@.valid(),
            r@.list.len() == 0,
            r@.next_id == 1,
    {
        BreakpointManager::new()
    }
}

/// Keeping some breakpoints keeps the list valid.
pub proof fn lemma_kept_valid(b: Breakpoints, keep: spec_fn(Breakpoint) -> bool)
    requires
        b.valid(),
    ensures
        b.kept(keep).valid(),
        forall|i: int|
            0 <= i < b.kept(keep).list.len() ==> keep(#[trigger] b.kept(keep).list[i])
                && b.list.contains(b.kept(keep).list[i]),
        forall|i: int|
            0 <= i < b.list.len() && keep(#[trigger] b.list[i]) ==> b.kept(keep).list.contains(
                b.list[i],
            ),
    decreases b.list.len(),
{
    reveal(Seq::filter);
    let out = b.kept(keep).list;
    if b.list.len() > 0 {
        let rest = Breakpoints { list: b.list.drop_last(), next_id: b.next_id };
        lemma_kept_valid(rest, keep);
        let kept = rest.kept(keep).list;
        assert forall|i: int| 0 <= i < out.len() implies keep(#[trigger] out[i])
            && b.list.contains(out[i]) by {
            if i < kept.len() {
                assert(out[i] == kept[i]);
                let j = choose|j: int| 0 <= j < rest.list.len() && rest.list[j] == kept[i];
                assert(b.list[j] == out[i]);
            } else {
                assert(b.list[b.list.len() - 1] == out[i]);
            }
        }
        assert forall|i: int, j: int| 0 <= i < j < out.len() implies (#[trigger] out[i]).id < (
        #[trigger] out[j]).id by {
            assert(out[i] == kept[i]);
            if j < kept.len() {
                assert(out[j] == kept[j]);
            } else {
                let k = choose|k: int| 0 <= k < rest.list.len() && rest.list[k] == kept[i];
                assert(b.list[k] == rest.list[k]);
            }
        }
        assert forall|i: int| 0 <= i < b.list.len() && keep(#[trigger] b.list[i]) implies out
            .contains(b.list[i]) by {
            if i < rest.list.len() {
                assert(rest.list[i] == b.list[i]);
                let j = choose|j: int| 0 <= j < kept.len() && kept[j] == rest.list[i];
                assert(out[j] == b.list[i]);
            } else {
                assert(out[out.len() - 1] == b.list[i]);
            }
        }
    }
}

impl BreakpointManager {
    /// No breakpoints.
    pub fn new() -> (r: BreakpointManager)
        ensures
            r@.valid(),
            r@.list.len() == 0,
            r@.next_id == 1,
    {
        BreakpointManager { breakpoints: Vec::new(), next_id: 1 }
    }

    /// Whether every id has been handed out.
    pub fn is_full(&self) -> (r: bool)
        ensures
            r == (self@.next_id == u64::MAX),
    {
        self.next_id == u64::MAX
    }

    /// Register a breakpoint under a fresh id.
    pub fn add(
        &mut self,
        addr: u64,
        size: u64,
        access: u8,
        kind: BreakpointKind,
        thread_id: Option<u64>,
        temporary: bool,
    ) -> (r: BreakpointId)
        requires
            old(self)@.valid(),
            old(self)@.next_id < u64::MAX,
        ensures
            final(self)@.valid(),
            r == old(self)@.next_id,
            final(self)@ == old(self)@.added(
                Breakpoint {
                    id: r,
                    addr,
                    size,
                    access,
                    kind,
                    thread_id,
                    enabled: true,
                    temporary,
                },
            ),
    {
        let id = self.next_id;
        self.next_id = self.next_id + 1;
        self.breakpoints.push(
            Breakpoint { id, addr, size, access, kind, thread_id, enabled: true, temporary },
        );
        id
    }

    /// Forget breakpoint `id`. Returns whether it existed.
    pub fn remove(&mut self, id: BreakpointId) -> (r: bool)
        requires
            old(self)@.valid(),
        ensures
            final(self)@.valid(),
            r == old(self)@.has(id),
            final(self)@ == old(self)@.removed(id),
    {
        let ghost keep = |b: Breakpoint| b.id != id;
        let mut kept: Vec<Breakpoint> = Vec::new();
        let mut found = false;
        for i in 0..self.breakpoints.len()
            invariant
                self@ == old(self)@,
                keep == (|b: Breakpoint| b.id != id),
                kept@ == self.breakpoints@.take(i as int).filter(keep),
                found == exists|k: int| 0 <= k < i && (#[trigger] self.breakpoints@[k]).id == id,
        {
            let bp = self.breakpoints[i];
            assert(self.breakpoints@.take(i as int + 1) =~= self.breakpoints@.take(i as int).push(
                bp,
            ));
            if bp.id == id {
                found = true;
            } else {
                kept.push(bp);
            }
        }
        assert(self.breakpoints@.take(self.breakpoints@.len() as int) =~= self.breakpoints@);
        proof {
            lemma_kept_valid(self@, keep);
        }
        self.breakpoints = kept;
        found
    }

    /// Forget the temporary breakpoints.
    pub fn remove_temporary(&mut self)
        requires
            old(self)@.valid(),
        ensures
            final(self)@.valid(),
            final(self)@ == old(self)@.kept(|b: Breakpoint| !b.temporary),
    {
        let ghost keep = |b: Breakpoint| !b.temporary;
        let mut kept: Vec<Breakpoint> = Vec::new();
        for i in 0..self.breakpoints.len()
            invariant
                self@ == old(self)@,
                keep == (|b: Breakpoint| !b.temporary),
                kept@ == self.breakpoints@.take(i as int).filter(keep),
        {
            let bp = self.breakpoints[i];
            assert(self.breakpoints@.take(i as int + 1) =~= self.breakpoints@.take(i as int).push(
                bp,
            ));
            if !bp.temporary {
                kept.push(bp);
            }
        }
        assert(self.breakpoints@.take(self.breakpoints@.len() as int) =~= self.breakpoints@);
        proof {
            lemma_kept_valid(self@, keep);
        }
        self.breakpoints = kept;
    }

    /// Forget every breakpoint at exactly this place. Returns whether there was
    /// one.
    pub fn remove_exact(&mut self, addr: u64, size: u64, access: u8) -> (r: bool)
        requires
            old(self)@.valid(),
        ensures
            final(self)@.valid(),
            r == exists|i: int|
                0 <= i < old(self)@.list.len() && at_place(
                    #[trigger] old(self)@.list[i],
                    addr,
                    size,
                    access,
                ),
            final(self)@ == old(self)@.removed_exact(addr, size, access),
    {
        let ghost keep = |b: Breakpoint| !at_place(b, addr, size, access);
        let mut kept: Vec<Breakpoint> = Vec::new();
        let mut found = false;
        for i in 0..self.breakpoints.len()
            invariant
                self@ == old(self)@,
                keep == (|b: Breakpoint| !at_place(b, addr, size, access)),
                kept@ == self.breakpoints@.take(i as int).filter(keep),
                found == exists|k: int|
                    0 <= k < i && at_place(#[trigger] self.breakpoints@[k], addr, size, access),
        {
            let bp = self.breakpoints[i];
            assert(self.breakpoints@.take(i as int + 1) =~= self.breakpoints@.take(i as int).push(
                bp,
            ));
            if bp.addr == addr && bp.size == size && bp.access == access {
                found = true;
            } else {
                kept.push(bp);
            }
        }
        assert(self.breakpoints@.take(self.breakpoints@.len() as int) =~= self.breakpoints@);
        proof {
            lemma_kept_valid(self@, keep);
        }
        self.breakpoints = kept;
        found
    }

    /// Forget every breakpoint.
    pub fn clear(&mut self)
        requires
            old(self)@.valid(),
        ensures
            final(self)@.valid(),
            final(self)@ == (Breakpoints { list: Seq::empty(), next_id: old(self)@.next_id }),
    {
        self.breakpoints = Vec::new();
        assert(self.breakpoints@ =~= Seq::<Breakpoint>::empty());
    }

    /// The breakpoint with this id.
    pub fn get(&self, id: BreakpointId) -> (r: Option<&Breakpoint>)
        ensures
            r is Some <==> self@.has(id),
            r matches Some(b) ==> b.id == id && self@.list.contains(*b),
    {
        for i in 0..self.breakpoints.len()
            invariant
                forall|k: int| 0 <= k < i ==> (#[trigger] self.breakpoints@[k]).id != id,
        {
            if self.breakpoints[i].id == id {
                assert(self@.list[i as int] == self.breakpoints@[i as int]);
                return Some(&self.breakpoints[i]);
            }
        }
        None
    }

    /// The enabled breakpoints, by ascending id.
    pub fn active(&self) -> (r: Vec<Breakpoint>)
        ensures
            r@ == self@.list.filter(|b: Breakpoint| b.enabled),
    {
        let ghost keep = |b: Breakpoint| b.enabled;
        let mut kept: Vec<Breakpoint> = Vec::new();
        for i in 0..self.breakpoints.len()
            invariant
                keep == (|b: Breakpoint| b.enabled),
                kept@ == self.breakpoints@.take(i as int).filter(keep),
        {
            let bp = self.breakpoints[i];
            assert(self.breakpoints@.take(i as int + 1) =~= self.breakpoints@.take(i as int).push(
                bp,
            ));
            if bp.enabled {
                kept.push(bp);
            }
        }
        assert(self.breakpoints@.take(self.breakpoints@.len() as int) =~= self.breakpoints@);
        kept
    }

    /// All breakpoints, by ascending id.
    pub fn all(&self) -> (r: &[Breakpoint])
        ensures
            r@ == self@.list,
    {
        self.breakpoints.as_slice()
    }

    /// The breakpoint with the lowest id that a hit on any thread belongs to.
    pub fn find_by_watchpoint_hit(&self, addr: u64, _size: u64, access: u8) -> (r: Option<
        &Breakpoint,
    >)
        ensures
            referred(r) == first_where(
                self@.list,
                |b: Breakpoint| b.hit_anywhere(addr, access),
            ),
    {
        let ghost meets = |b: Breakpoint| b.hit_anywhere(addr, access);
        for i in 0..self.breakpoints.len()
            invariant
                meets == (|b: Breakpoint| b.hit_anywhere(addr, access)),
                first_where(self@.list.take(i as int), meets) is None,
        {
            let bp = &self.breakpoints[i];
            proof {
                lemma_first_where(self@.list, meets, i as int);
            }
            if bp.enabled && ((bp.kind == BreakpointKind::Execute && addr == bp.addr) || bp.covers(
                addr,
                access,
            )) {
                return Some(bp);
            }
        }
        assert(self@.list.take(self@.list.len() as int) =~= self@.list);
        None
    }

    /// The breakpoint with the lowest id that a hit on thread `thread_id`
    /// belongs to. A breakpoint that was set for a thread belongs to hits on
    /// that thread only.
    pub fn find_by_watchpoint_hit_and_thread(
        &self,
        addr: u64,
        _size: u64,
        access: u8,
        thread_id: u64,
    ) -> (r: Option<&Breakpoint>)
        ensures
            referred(r) == first_where(
                self@.list,
                |b: Breakpoint| b.hit_on(addr, access, thread_id),
            ),
    {
        let ghost meets = |b: Breakpoint| b.hit_on(addr, access, thread_id);
        for i in 0..self.breakpoints.len()
            invariant
                meets == (|b: Breakpoint| b.hit_on(addr, access, thread_id)),
                first_where(self@.list.take(i as int), meets) is None,
        {
            let bp = &self.breakpoints[i];
            proof {
                lemma_first_where(self@.list, meets, i as int);
            }
            let place = if bp.kind == BreakpointKind::Execute {
                addr == bp.addr
            } else {
                bp.covers(addr, access)
            };
            let thread = match bp.thread_id {
                None => true,
                Some(t) => t == thread_id,
            };
            if bp.enabled && place && thread {
                return Some(bp);
            }
        }
        assert(self@.list.take(self@.list.len() as int) =~= self@.list);
        None
    }
}

/// A new id is larger than every id that exists, and removing breakpoints does
/// not make ids available again.
pub proof fn law_breakpoint_ids_are_fresh(
    b: Breakpoints,
    bp: Breakpoint,
    keep: spec_fn(Breakpoint) -> bool,
)
    requires
        b.valid(),
        b.next_id < u64::MAX,
        bp.id == b.next_id,
    ensures
        !b.has(bp.id),
        b.added(bp).valid(),
        b.added(bp).has(bp.id),
        b.kept(keep).valid(),
        b.kept(keep).next_id == b.next_id,
{
    lemma_kept_valid(b, keep);
    assert(b.added(bp).list[b.list.len() as int] == bp);
}

/// Removing a breakpoint that was just added restores the breakpoints.
pub proof fn law_remove_undoes_add(b: Breakpoints, bp: Breakpoint)
    requires
        b.valid(),
        bp.id == b.next_id,
    ensures
        b.added(bp).removed(bp.id).list == b.list,
{
    let keep = |x: Breakpoint| x.id != bp.id;
    reveal(Seq::filter);
    lemma_filter_all(b.list, keep);
    assert(b.added(bp).list.drop_last() =~= b.list);
}

/// Filtering by what holds of every entry changes nothing.
proof fn lemma_filter_all(s: Seq<Breakpoint>, keep: spec_fn(Breakpoint) -> bool)
    requires
        forall|i: int| 0 <= i < s.len() ==> keep(#[trigger] s[i]),
    ensures
        s.filter(keep) == s,
    decreases s.len(),
{
    reveal(Seq::filter);
    if s.len() > 0 {
        assert forall|i: int| 0 <= i < s.drop_last().len() implies keep(
            #[trigger] s.drop_last()[i],
        ) by {
            assert(keep(s[i]));
        }
        lemma_filter_all(s.drop_last(), keep);
        assert(keep(s[s.len() - 1]));
        assert(s.drop_last().push(s.last()) =~= s);
    }
}

/// A removed breakpoint is gone, and every other one stays.
pub proof fn law_remove_removes_one(b: Breakpoints, id: u64, other: u64)
    requires
        b.valid(),
        other != id,
    ensures
        !b.removed(id).has(id),
        b.removed(id).has(other) == b.has(other),
{
    let keep = |x: Breakpoint| x.id != id;
    lemma_kept_valid(b, keep);
    let after = b.removed(id).list;
    if b.has(other) {
        let i = choose|i: int| 0 <= i < b.list.len() && (#[trigger] b.list[i]).id == other;
        assert(keep(b.list[i]));
        let j = choose|j: int| 0 <= j < after.len() && after[j] == b.list[i];
        assert(after[j].id == other);
    }
    if b.removed(id).has(other) {
        let i = choose|i: int| 0 <= i < after.len() && (#[trigger] after[i]).id == other;
        let j = choose|j: int| 0 <= j < b.list.len() && b.list[j] == after[i];
        assert(b.list[j].id == other);
    }
}

/// A hit is attributed exactly when some breakpoint meets it, and then to one
/// that does.
pub proof fn law_hits_are_attributed(list: Seq<Breakpoint>, meets: spec_fn(Breakpoint) -> bool)
    ensures
        first_where(list, meets) matches Some(b) ==> meets(b) && list.contains(b),
        first_where(list, meets) is None ==> forall|i: int|
            0 <= i < list.len() ==> !meets(#[trigger] list[i]),
    decreases list.len(),
{
    if list.len() > 0 {
        let rest = list.drop_last();
        law_hits_are_attributed(rest, meets);
        match first_where(list, meets) {
            Some(b) => {
                if first_where(rest, meets) is Some {
                    let i = choose|i: int| 0 <= i < rest.len() && rest[i] == b;
                    assert(list[i] == b);
                } else {
                    assert(list[list.len() - 1] == b);
                }
            },
            None => {
                assert forall|i: int| 0 <= i < list.len() implies !meets(#[trigger] list[i]) by {
                    if i < rest.len() {
                        assert(rest[i] == list[i]);
                    }
                }
            },
        }
    }
}

/// A breakpoint set for one thread never belongs to a hit on another thread,
/// not even on the unknown thread 0.
pub proof fn law_thread_breakpoints_stay_on_their_thread(
    bp: Breakpoint,
    addr: u64,
    access: u8,
    thread_id: u64,
)
    requires
        bp.thread_id is Some,
        bp.thread_id != Some(thread_id),
    ensures
        !bp.hit_on(addr, access, thread_id),
{
}

} // verus!
