//! Which callbacks a cursor of the engine holds pointers to.
//!
//! A cursor has a slot for a watchpoint callback and one for a progress
//! callback. Callbacks are owned by the cursor, and a scoped watchpoint callback
//! can stand in front of the owned one while a replay runs. What is registered
//! with the engine must never outlive its closure.

use vstd::prelude::*;

use super::error::TtdError;

verus! {

/// What is registered with the engine.
#[derive(Clone, Copy, Debug, PartialEq, Eq, Structural)]
pub enum Registration {
    Nothing,
    /// The callback that the cursor owns.
    Owned,
    /// The callback of a running scope.
    Scoped,
}

/// The callback slots of a cursor.
#[derive(Clone, Copy, Debug, PartialEq, Eq, Structural)]
pub struct TtdCursor {
    owned: bool,
    scoped: bool,
    progress: bool,
}

impl TtdCursor {
    /// The cursor owns a progress callback.
    pub closed spec fn has_progress(self) -> bool {
        self.progress
    }

    /// The cursor owns a watchpoint callback.
    pub closed spec fn is_owned(self) -> bool {
        self.owned
    }

    /// A scope is running.
    pub closed spec fn in_scope(self) -> bool {
        self.scoped
    }

    /// The watchpoint callback that has to be registered: the scoped one while a
    /// scope runs, else the owned one.
    pub open spec fn registration(self) -> Registration {
        if self.in_scope() {
            Registration::Scoped
        } else if self.is_owned() {
            Registration::Owned
        } else {
            Registration::Nothing
        }
    }

    /// No callback.
    pub fn new() -> (r: TtdCursor)
        ensures
            !r.is_owned(),
            !r.in_scope(),
            !r.has_progress(),
    {
        TtdCursor { owned: false, scoped: false, progress: false }
    }

    /// The watchpoint callback that has to be registered.
    pub fn registered(&self) -> (r: Registration)
        ensures
            r == self.registration(),
    {
        if self.scoped {
            Registration::Scoped
        } else if self.owned {
            Registration::Owned
        } else {
            Registration::Nothing
        }
    }

    /// Let the cursor own a watchpoint callback. Returns what to register.
    pub fn set_watchpoint_callback(&mut self) -> (r: Registration)
        requires
            !old(self).in_scope(),
        ensures
            final(self).is_owned(),
            !final(self).in_scope(),
            final(self).has_progress() == old(self).has_progress(),
            r == Registration::Owned,
    {
        self.owned = true;
        Registration::Owned
    }

    /// Put a scoped callback in front. Returns what to register.
    pub fn enter_scope(&mut self) -> (r: Registration)
        requires
            !old(self).in_scope(),
        ensures
            final(self).in_scope(),
            final(self).is_owned() == old(self).is_owned(),
            final(self).has_progress() == old(self).has_progress(),
            r == Registration::Scoped,
    {
        self.scoped = true;
        Registration::Scoped
    }

    /// End the scope. Returns what to register: the owned callback is armed
    /// again if there is one.
    pub fn leave_scope(&mut self) -> (r: Registration)
        ensures
            !final(self).in_scope(),
            final(self).is_owned() == old(self).is_owned(),
            final(self).has_progress() == old(self).has_progress(),
            r == final(self).registration(),
    {
        self.scoped = false;
        self.registered()
    }

    /// Give up the owned watchpoint callback. Returns what to register.
    pub fn clear_watchpoint_callback(&mut self) -> (r: Registration)
        ensures
            !final(self).is_owned(),
            !final(self).in_scope(),
            final(self).has_progress() == old(self).has_progress(),
            r == Registration::Nothing,
    {
        self.owned = false;
        self.scoped = false;
        Registration::Nothing
    }

    /// Let the cursor own a progress callback. Returns what to register.
    pub fn set_progress_callback(&mut self) -> (r: Registration)
        ensures
            final(self).has_progress(),
            final(self).is_owned() == old(self).is_owned(),
            final(self).in_scope() == old(self).in_scope(),
            r == Registration::Owned,
    {
        self.progress = true;
        Registration::Owned
    }

    /// Give up the progress callback. Returns what to register.
    pub fn clear_progress_callback(&mut self) -> (r: Registration)
        ensures
            !final(self).has_progress(),
            final(self).is_owned() == old(self).is_owned(),
            final(self).in_scope() == old(self).in_scope(),
            r == Registration::Nothing,
    {
        self.progress = false;
        Registration::Nothing
    }
}

/// A scope that has ended leaves registered what was registered before.
pub proof fn law_scope_rearms_the_owned_callback(
    before: TtdCursor,
    during: TtdCursor,
    after: TtdCursor,
)
    requires
        !before.in_scope(),
        during.in_scope(),
        during.is_owned() == before.is_owned(),
        during.has_progress() == before.has_progress(),
        !after.in_scope(),
        after.is_owned() == during.is_owned(),
        after.has_progress() == during.has_progress(),
    ensures
        during.registration() == Registration::Scoped,
        after.registration() == before.registration(),
        after == before,
{
}

/// What an engine call answers: zero for success, anything else for a failure
/// of the call.
pub fn check_call(code: i32, failure: &'static str) -> (r: Result<(), TtdError>)
    ensures
        r is Ok <==> code == 0,
        r matches Err(e) ==> e == TtdError::Ffi(failure),
{
    if code != 0 {
        Err(TtdError::Ffi(failure))
    } else {
        Ok(())
    }
}

} // verus!
