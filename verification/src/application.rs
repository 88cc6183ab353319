//! Events that the application receives from outside the event loop.
use vstd::prelude::*;

verus! {

/// An event sent to the application from another thread or task.
pub enum ExtEvent {
    /// Triggers a recomposition
    Recompose,
}

} // verus!
