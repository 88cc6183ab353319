//! What a component asks for after it handled an event.
use vstd::prelude::*;

verus! {

/// The update that a component requests.
#[derive(Copy, Clone, Debug, PartialEq, Eq, Hash)]
pub enum Update {
    /// Nothing to do.
    Nothing,
    Relayout,
    Repaint,
}

impl Default for Update {
    fn default() -> (u: Update)
        ensures
            u == Update::Nothing,
    {
        Update::Nothing
    }
}

} // verus!
