//! Breakpoints and watchpoints.
//!
//! The client names breakpoints by place, so removal goes by place too: one
//! removal clears whatever has accumulated there.

use gdbstub::target::ext::breakpoints::WatchKind;
use vstd::prelude::*;

use super::{GdbState, GdbTarget};
use crate::gdb::mapping::{
    access_mask_from_watch_kind, breakpoint_kind, breakpoint_kind_from_watch_kind,
};
use crate::target::breakpoint::kind_mask;
use crate::target::error::DebugError;
use crate::target::mock::MockTarget;
use crate::target::DebugTarget;
use crate::ttd::types::DATA_ACCESS_EXECUTE;

verus! {

/// An execution breakpoint was asked for at `addr`, on any thread; `ok` says
/// whether the backend accepted it.
pub open spec fn breakpoint_added<T: DebugTarget>(
    before: GdbState<T>,
    addr: u64,
    after: GdbState<T>,
    ok: bool,
) -> bool {
    exists|b: T, r: Result<u64, DebugError>|
        {
            &&& #[trigger] before.backend().may_set_breakpoint(addr, None, b, r)
            &&& after == before.with_backend(b)
            &&& ok == (r is Ok)
        }
}

/// The breakpoints at a place were removed from the backend.
pub open spec fn place_cleared<T: DebugTarget>(
    before: GdbState<T>,
    addr: u64,
    size: u64,
    access: u8,
    after: GdbState<T>,
) -> bool {
    exists|b: T, r: bool|
        {
            &&& #[trigger] before.backend().may_remove_exact(addr, size, access, b, r)
            &&& after == before.with_backend(b)
        }
}

impl<T: DebugTarget> GdbTarget<T> {
    fn add_breakpoint(&mut self, addr: u64) -> (r: bool)
        requires
            !old(self)@.runner.running(),
        ensures
            breakpoint_added(old(self)@, addr, final(self)@, r),
            final(self).wf() == old(self).wf(),
    {
        let b = self.backend_mut();
        let outcome = b.set_breakpoint(addr, None);
        assert(old(self)@.backend().may_set_breakpoint(addr, None, *b, outcome));
        outcome.is_ok()
    }

    fn clear_place(&mut self, addr: u64, size: u64, access: u8)
        requires
            !old(self)@.runner.running(),
        ensures
            place_cleared(old(self)@, addr, size, access, final(self)@),
            final(self).wf() == old(self).wf(),
    {
        let b = self.backend_mut();
        let removed = b.remove_breakpoint_exact(addr, size, access);
        assert(old(self)@.backend().may_remove_exact(addr, size, access, *b, removed));
    }

    /// Add a software breakpoint. Returns whether the backend accepted it.
    pub fn add_sw_breakpoint(&mut self, addr: u64) -> (r: bool)
        requires
            !old(self)@.runner.running(),
        ensures
            breakpoint_added(old(self)@, addr, final(self)@, r),
            final(self).wf() == old(self).wf(),
    {
        self.add_breakpoint(addr)
    }

    /// Remove the software breakpoints at an address. That there was none is no
    /// error: clients remove stale breakpoints on every reconnect.
    pub fn remove_sw_breakpoint(&mut self, addr: u64) -> (r: bool)
        requires
            !old(self)@.runner.running(),
        ensures
            r,
            place_cleared(old(self)@, addr, 1, DATA_ACCESS_EXECUTE, final(self)@),
            final(self).wf() == old(self).wf(),
    {
        self.clear_place(addr, 1, DATA_ACCESS_EXECUTE);
        true
    }

    /// Add a hardware breakpoint; it is the same as a software breakpoint.
    pub fn add_hw_breakpoint(&mut self, addr: u64) -> (r: bool)
        requires
            !old(self)@.runner.running(),
        ensures
            breakpoint_added(old(self)@, addr, final(self)@, r),
            final(self).wf() == old(self).wf(),
    {
        self.add_breakpoint(addr)
    }

    /// Remove the hardware breakpoints at an address.
    pub fn remove_hw_breakpoint(&mut self, addr: u64) -> (r: bool)
        requires
            !old(self)@.runner.running(),
        ensures
            r,
            place_cleared(old(self)@, addr, 1, DATA_ACCESS_EXECUTE, final(self)@),
            final(self).wf() == old(self).wf(),
    {
        self.clear_place(addr, 1, DATA_ACCESS_EXECUTE);
        true
    }

    /// Add a watchpoint. Returns whether the backend accepted it.
    pub fn add_hw_watchpoint(&mut self, addr: u64, len: u64, kind: WatchKind) -> (r: bool)
        requires
            !old(self)@.runner.running(),
        ensures
            exists|b: T, outcome: Result<u64, DebugError>|
                {
                    &&& #[trigger] old(self)@.backend().may_set_data_breakpoint(
                        addr,
                        len,
                        breakpoint_kind(kind),
                        b,
                        outcome,
                    )
                    &&& final(self)@ == old(self)@.with_backend(b)
                    &&& r == (outcome is Ok)
                },
            final(self).wf() == old(self).wf(),
    {
        let watched = breakpoint_kind_from_watch_kind(kind);
        let b = self.backend_mut();
        let outcome = b.set_data_breakpoint(addr, len, watched);
        assert(old(self)@.backend().may_set_data_breakpoint(addr, len, watched, *b, outcome));
        outcome.is_ok()
    }

    /// Remove the watchpoints of a kind at a place.
    pub fn remove_hw_watchpoint(&mut self, addr: u64, len: u64, kind: WatchKind) -> (r: bool)
        requires
            !old(self)@.runner.running(),
        ensures
            r,
            place_cleared(
                old(self)@,
                addr,
                len,
                kind_mask(breakpoint_kind(kind)),
                final(self)@,
            ),
            final(self).wf() == old(self).wf(),
    {
        let access = access_mask_from_watch_kind(kind);
        self.clear_place(addr, len, access);
        true
    }
}

/// A backend that removes the execution breakpoints at an address holds none
/// there any more and keeps those at other addresses. `armed` says whether a
/// backend holds breakpoints at an address.
pub open spec fn removal_clears<T: DebugTarget>(armed: spec_fn(T, u64) -> bool) -> bool {
    forall|before: T, addr: u64, after: T, r: bool| #[trigger]
        before.may_remove_exact(addr, 1, DATA_ACCESS_EXECUTE, after, r) ==> {
            &&& !armed(after, addr)
            &&& forall|other: u64|
                other != addr ==> #[trigger] armed(after, other) == armed(before, other)
        }
}

/// However often a breakpoint was added, one removal clears its address. The
/// breakpoints at other addresses stay, and so does the rest of the session.
pub proof fn law_one_removal_clears_the_address<T: DebugTarget>(
    armed: spec_fn(T, u64) -> bool,
    before: GdbState<T>,
    addr: u64,
    after: GdbState<T>,
    other: u64,
)
    requires
        removal_clears(armed),
        place_cleared(before, addr, 1, DATA_ACCESS_EXECUTE, after),
    ensures
        !armed(after.backend(), addr),
        other != addr ==> armed(after.backend(), other) == armed(before.backend(), other),
        after == before.with_backend(after.backend()),
{
}

/// A target without a trace removes breakpoints like that.
pub proof fn law_mock_removal_clears()
    ensures
        removal_clears(|t: MockTarget, addr: u64| t@.bps.contains(addr)),
{
}

} // verus!
