//! Unique identifiers for worlds (shared stores).

use vstd::prelude::*;

verus! {

/// A unique identifier for one world.  Identifiers are unique across time:
/// the counter they are drawn from never reuses a value, so a dropped
/// identifier's value cannot come back.
#[derive(Copy, Clone, PartialEq, Eq, Structural, Debug)]
pub struct WorldId(usize);

impl WorldId {
    /// The position this identifier was drawn at.
    pub closed spec fn index(self) -> int {
        self.0 as int
    }

    /// Draw a fresh identifier from the monotone supply counter, or
    /// `None` once the supply is exhausted.  The caller keeps one counter
    /// per process, starting at zero, and hands every draw the same one.
    pub fn new(counter: &mut usize) -> (r: Option<WorldId>)
        ensures
            *old(counter) < usize::MAX ==> ({
                &&& r matches Some(w) && w.index() == *old(counter)
                &&& *final(counter) == *old(counter) + 1
            }),
            *old(counter) == usize::MAX ==> r is None && *final(counter) == *old(counter),
    {
        if *counter < usize::MAX {
            let id = WorldId(*counter);
            *counter = *counter + 1;
            Some(id)
        } else {
            None
        }
    }
}

} // verus!
