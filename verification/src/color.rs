//! Colours of faces.

use vstd::prelude::*;

verus! {

/// An opaque colour: red, green and blue, eight bits each.
#[derive(Clone, Copy, Debug, PartialEq, Eq, Structural)]
pub struct Color {
    pub r: u8,
    pub g: u8,
    pub b: u8,
}

impl Color {
    /// The colour with the given channels.
    pub fn new(r: u8, g: u8, b: u8) -> (c: Color)
        ensures
            c.r == r,
            c.g == g,
            c.b == b,
    {
        Color { r, g, b }
    }

    /// The colour of a face whose mesh names none: a pale pink.
    pub fn mesh_default() -> (c: Color)
        ensures
            c.r == 255,
            c.g == 230,
            c.b == 230,
    {
        Color { r: 255, g: 230, b: 230 }
    }
}

} // verus!
