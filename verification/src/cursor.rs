//! The navigation capability shared by every cursor-like type.

use vstd::prelude::*;
use crate::text::Position;

verus! {

/// An abstraction for cursor-like types: a stateful navigator over an
/// ordered collection of items. Implementors state what a successful seek
/// traverses through [`Cursor::seek_spec`] and keep their current coordinate
/// observable through [`Cursor::position_spec`]; a seek that cannot be
/// satisfied returns `None`.
pub trait Cursor: Sized {
    /// The value type for the items being navigated over.
    type Value;

    /// What holds of one call of [`Cursor::seek`]: how the cursor moved from
    /// `pre` to `post` when asked for `to`, and what came back.
    spec fn seek_spec(pre: Self, post: Self, to: Position, r: Option<Self::Value>) -> bool;

    /// The coordinate a cursor currently stands at.
    spec fn position_spec(&self) -> Position;

    /// Seek to a position within the collection of items, returning the
    /// traversed values, or `None` if the move cannot be satisfied. The
    /// implementor maintains its state so that the current position reflects
    /// each successful call.
    fn seek(&mut self, to: &Position) -> (r: Option<Self::Value>)
        ensures
            Self::seek_spec(*old(self), *final(self), *to, r),
    ;

    /// The current position of the cursor relative to the collection of
    /// items it is navigating over.
    fn position(&self) -> (r: &Position)
        ensures
            *r == self.position_spec(),
    ;
}

} // verus!
