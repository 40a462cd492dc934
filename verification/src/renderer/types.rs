//! Shape styling carried to the renderer.

use vstd::prelude::*;

use crate::platform::Color;

verus! {

/// Gradient direction for linear gradients.
#[derive(Debug, Clone, Copy, PartialEq, Eq, Structural)]
pub enum GradientDir {
    Horizontal,
    Vertical,
    Diagonal,
    DiagonalReverse,
}

/// Optional gradient for shapes.
#[derive(Debug, Clone, Copy, PartialEq, Eq, Structural)]
pub struct Gradient {
    pub start_color: Color,
    pub end_color: Color,
    pub direction: GradientDir,
}

} // verus!
