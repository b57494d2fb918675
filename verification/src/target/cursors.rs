//! Where the long-lived cursors stand.
//!
//! Moving a cursor may replay from a keyframe, so the target remembers where
//! each cursor is and moves it only when the debug position has changed.

use vstd::prelude::*;

use crate::ttd::types::TtdPosition;

verus! {

/// The position that a cursor is known to be at.
#[derive(Clone, Copy, Debug, PartialEq, Eq, Structural)]
pub struct PositionedCursor {
    at: Option<TtdPosition>,
}

impl PositionedCursor {
    /// The known position; `None` if it is unknown.
    pub closed spec fn known(self) -> Option<TtdPosition> {
        self.at
    }

    /// A cursor whose position is not known.
    pub fn new() -> (r: PositionedCursor)
        ensures
            r.known() is None,
    {
        PositionedCursor { at: None }
    }

    /// Whether the cursor has to be moved before it can be used at `pos`.
    pub fn needs_seek(&self, pos: TtdPosition) -> (r: bool)
        ensures
            r == (self.known() != Some(pos)),
    {
        match self.at {
            Some(at) => at != pos,
            None => true,
        }
    }

    /// Forget the position, after an operation that may have moved the cursor
    /// part of the way.
    pub fn invalidate(&mut self)
        ensures
            final(self).known() is None,
    {
        self.at = None;
    }

    /// Record where the cursor landed. The engine rounds to the nearest valid
    /// position, so this is what was read back and not what was asked for.
    pub fn note_position(&mut self, pos: TtdPosition)
        ensures
            final(self).known() == Some(pos),
    {
        self.at = Some(pos);
    }
}

/// The cursor that carries the client's watchpoints and answers queries, and
/// the one that steps and carries no watchpoint.
#[derive(Clone, Copy, Debug, PartialEq, Eq, Structural)]
pub struct CursorPair {
    pub persistent: PositionedCursor,
    pub step: PositionedCursor,
}

impl CursorPair {
    /// Two cursors whose positions are not known.
    pub fn new() -> (r: CursorPair)
        ensures
            r.persistent.known() is None,
            r.step.known() is None,
    {
        CursorPair { persistent: PositionedCursor::new(), step: PositionedCursor::new() }
    }
}

} // verus!
