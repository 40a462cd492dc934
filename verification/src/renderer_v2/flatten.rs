//! The layers the render-tree renderer draws commands in.

use vstd::prelude::*;

verus! {

/// Render layer for draw command ordering, lowest first.
#[derive(Debug, Clone, Copy, PartialEq, Eq, PartialOrd, Ord, Structural)]
pub enum RenderLayer {
    /// Background shapes (filled rectangles, borders, etc.)
    Shapes,
    /// Text content
    Text,
    /// Overlay effects (ripples, highlights)
    Overlay,
}

} // verus!
