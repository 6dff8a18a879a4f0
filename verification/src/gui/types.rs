//! Colours, directions, alignments and panel positions, independent of the
//! toolkit that draws them.
use vstd::prelude::*;

verus! {

/// A colour in RGBA.
#[derive(Clone, Copy, Debug, PartialEq, Eq, Structural)]
pub struct Color {
    pub r: u8,
    pub g: u8,
    pub b: u8,
    pub a: u8,
}

impl Color {
    /// An opaque colour.
    pub fn rgb(r: u8, g: u8, b: u8) -> (c: Self)
        ensures
            c == (Color { r, g, b, a: 255 }),
    {
        Self::rgba(r, g, b, 255)
    }

    pub fn rgba(r: u8, g: u8, b: u8, a: u8) -> (c: Self)
        ensures
            c == (Color { r, g, b, a }),
    {
        Self { r, g, b, a }
    }
}

/// The direction in which a layout places its items.
#[derive(Clone, Copy, Debug, PartialEq, Eq, Structural)]
pub enum Direction {
    TopDown,
    BottomUp,
    LeftToRight,
    RightToLeft,
}

/// Alignment of items.
#[derive(Clone, Copy, Debug, PartialEq, Eq, Structural)]
pub enum Align {
    /// Left / top.
    Min,
    /// Middle.
    Center,
    /// Right / bottom.
    Max,
}

/// Where a panel is docked.
#[derive(Clone, Copy, Debug, PartialEq, Eq, Structural)]
pub enum PanelPosition {
    Top,
    Bottom,
    Left,
    Right,
    Central,
}

} // verus!
