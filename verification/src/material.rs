use vstd::prelude::*;

verus! {

/// An RGBA color with 8-bit channels.
///
/// The mesh compiler never inspects a color; it only copies the material of a
/// voxel onto the eight corner vertices of that voxel. Renderers that want
/// floating-point channels divide each channel by 255 on their side.
#[derive(Clone, Copy, Debug, PartialEq, Eq, Structural)]
pub struct Color {
    pub r: u8,
    pub g: u8,
    pub b: u8,
    pub a: u8,
}

impl Color {
    pub fn new(r: u8, g: u8, b: u8, a: u8) -> (c: Color)
        ensures
            c == (Color { r, g, b, a }),
    {
        Color { r, g, b, a }
    }
}

impl Default for Color {
    /// The default color is fully transparent black.
    fn default() -> (c: Color)
        ensures
            c == (Color { r: 0u8, g: 0u8, b: 0u8, a: 0u8 }),
    {
        Color { r: 0, g: 0, b: 0, a: 0 }
    }
}

/// The surface material of a voxel: currently just a color.
#[derive(Clone, Copy, Debug, PartialEq, Eq, Structural)]
pub struct Material {
    pub color: Color,
}

impl Material {
    pub fn new(color: Color) -> (m: Material)
        ensures
            m.color == color,
    {
        Material { color }
    }
}

impl Default for Material {
    fn default() -> (m: Material)
        ensures
            m.color == (Color { r: 0u8, g: 0u8, b: 0u8, a: 0u8 }),
    {
        Material { color: Color { r: 0, g: 0, b: 0, a: 0 } }
    }
}

} // verus!
