//! Colours, grains and shape kinds.
use vstd::prelude::*;

verus! {

/// An RGBA colour, one byte per channel.
#[derive(Debug, Clone, Copy, PartialEq, Eq, Structural)]
pub struct Rgba {
    pub r: u8,
    pub g: u8,
    pub b: u8,
    pub a: u8,
}

impl Rgba {
    /// Opaque white.
    pub open spec fn white_spec() -> Rgba {
        Rgba { r: 255, g: 255, b: 255, a: 255 }
    }

    pub fn white() -> (c: Rgba)
        ensures
            c == Rgba::white_spec(),
    {
        Rgba { r: 255, g: 255, b: 255, a: 255 }
    }

    pub fn new(r: u8, g: u8, b: u8, a: u8) -> (c: Rgba)
        ensures
            c == (Rgba { r, g, b, a }),
    {
        Rgba { r, g, b, a }
    }
}

/// One slot of the grid: either empty or holding a single grain of a colour.
/// The colour is meaningful only while the slot is full.
#[derive(Debug, Clone, Copy, PartialEq, Eq, Structural)]
pub struct Grain {
    pub color: Rgba,
    pub full: bool,
}

impl Grain {
    pub fn new(color: Rgba, full: bool) -> (g: Grain)
        ensures
            g == (Grain { color, full }),
    {
        Grain { color: color, full: full }
    }
}

/// The polyomino shapes the seeder knows of; only `S` can be stamped.
#[derive(Debug, Clone, Copy, PartialEq, Eq, Structural)]
pub enum ShapeType {
    L,
    S,
    I,
    O,
}

} // verus!
