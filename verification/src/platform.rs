//! Plain values shared with the platform layer: anchor edges, layers,
//! keyboard modes, output ids, and the colours and rectangles that surfaces
//! carry to the renderer.

use vstd::prelude::*;

verus! {

/// The screen edges a layer surface is attached to, as the layer-shell
/// protocol's bit set: top `1`, bottom `2`, left `4`, right `8`.
#[derive(Debug, Clone, Copy, PartialEq, Eq, Structural)]
pub struct Anchor {
    pub bits: u32,
}

impl Anchor {
    /// No edge.
    pub fn empty() -> (a: Anchor)
        ensures
            a.bits == 0,
    {
        Anchor { bits: 0 }
    }

    /// The top edge.
    pub fn top() -> (a: Anchor)
        ensures
            a.bits == 1,
    {
        Anchor { bits: 1 }
    }

    /// The bottom edge.
    pub fn bottom() -> (a: Anchor)
        ensures
            a.bits == 2,
    {
        Anchor { bits: 2 }
    }

    /// The left edge.
    pub fn left() -> (a: Anchor)
        ensures
            a.bits == 4,
    {
        Anchor { bits: 4 }
    }

    /// The right edge.
    pub fn right() -> (a: Anchor)
        ensures
            a.bits == 8,
    {
        Anchor { bits: 8 }
    }

    /// Whether every edge of `other` is among these.
    pub open spec fn has(self, other: Anchor) -> bool {
        self.bits & other.bits == other.bits
    }

    pub open spec fn has_top(self) -> bool {
        self.bits & 1 == 1
    }

    pub open spec fn has_bottom(self) -> bool {
        self.bits & 2 == 2
    }

    pub open spec fn has_left(self) -> bool {
        self.bits & 4 == 4
    }

    pub open spec fn has_right(self) -> bool {
        self.bits & 8 == 8
    }

    /// Whether every edge of `other` is among these.
    pub fn contains(self, other: Anchor) -> (b: bool)
        ensures
            b == self.has(other),
    {
        self.bits & other.bits == other.bits
    }

    /// The edges of both.
    pub fn union(self, other: Anchor) -> (a: Anchor)
        ensures
            a.bits == self.bits | other.bits,
    {
        Anchor { bits: self.bits | other.bits }
    }
}

/// Layer-shell layer, from the bottom of the stack to the top.
#[derive(Debug, Clone, Copy, PartialEq, Eq, Structural)]
pub enum Layer {
    Background,
    Bottom,
    Top,
    Overlay,
}

/// Keyboard focus policy of a layer surface.
#[derive(Debug, Clone, Copy, PartialEq, Eq, Structural)]
pub enum KeyboardInteractivity {
    /// Never receives keyboard focus (the protocol's `none`).
    NoFocus,
    /// Grabs keyboard focus exclusively.
    Exclusive,
    /// Receives focus when clicked.
    OnDemand,
}

/// Identifies a connected output (monitor).
#[derive(Debug, Clone, Copy, PartialEq, Eq, Structural)]
pub struct OutputId(pub u32);

/// A colour handed through to the renderer, each channel stored as the bit
/// pattern of its `f32` value. Nothing here computes with colours.
#[derive(Debug, Clone, Copy, PartialEq, Eq, Structural)]
pub struct Color {
    pub r_bits: u32,
    pub g_bits: u32,
    pub b_bits: u32,
    pub a_bits: u32,
}

impl Color {
    /// A colour from the bit patterns of its four `f32` channels.
    pub fn from_bits(r_bits: u32, g_bits: u32, b_bits: u32, a_bits: u32) -> (c: Color)
        ensures
            c == (Color { r_bits, g_bits, b_bits, a_bits }),
    {
        Color { r_bits, g_bits, b_bits, a_bits }
    }

    /// Fully transparent black: every channel `0.0`.
    pub fn transparent() -> (c: Color)
        ensures
            c == (Color { r_bits: 0, g_bits: 0, b_bits: 0, a_bits: 0 }),
    {
        Color { r_bits: 0, g_bits: 0, b_bits: 0, a_bits: 0 }
    }
}

/// A rectangle in logical surface coordinates, each field stored as the bit
/// pattern of its `f32` value.
#[derive(Debug, Clone, Copy, PartialEq, Eq, Structural)]
pub struct Rect {
    pub x_bits: u32,
    pub y_bits: u32,
    pub width_bits: u32,
    pub height_bits: u32,
}

impl Rect {
    /// A rectangle from the bit patterns of its four `f32` fields.
    pub fn from_bits(x_bits: u32, y_bits: u32, width_bits: u32, height_bits: u32) -> (r: Rect)
        ensures
            r == (Rect { x_bits, y_bits, width_bits, height_bits }),
    {
        Rect { x_bits, y_bits, width_bits, height_bits }
    }
}

} // verus!
