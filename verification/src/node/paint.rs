//! Options for painting nodes.
use vstd::prelude::*;

verus! {

/// Which layout bounds are drawn for debugging.
#[derive(Copy, Clone, Debug, PartialEq, Eq, Hash)]
pub enum DebugLayout {
    /// No bounds.
    Nothing,
    All,
    Hover,
}

/// Options for painting.
#[derive(Copy, Clone, Debug, PartialEq)]
pub struct PaintOptions {
    pub debug_draw_bounds: DebugLayout,
}

impl Default for PaintOptions {
    fn default() -> (o: PaintOptions)
        ensures
            o.debug_draw_bounds == DebugLayout::Nothing,
    {
        PaintOptions { debug_draw_bounds: DebugLayout::Nothing }
    }
}

} // verus!
