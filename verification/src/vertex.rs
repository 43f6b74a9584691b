use crate::material::Color;
use vstd::prelude::*;

verus! {

/// A position on the integer grid. Voxel corners always sit at integer
/// coordinates, so mesh positions are exact and two corners coincide
/// exactly when their `Pos3`s are equal.
#[derive(Clone, Copy, Debug, PartialEq, Eq, Structural)]
pub struct Pos3 {
    pub x: u32,
    pub y: u32,
    pub z: u32,
}

/// An axis direction with components in `{-1, 0, 1}`, used both for the
/// ideal (octant) direction of a cube corner and for the resolved normal
/// of a vertex. The renderer scales a nonzero direction to unit length;
/// the direction determines that unit vector exactly.
#[derive(Clone, Copy, Debug, PartialEq, Eq, Structural)]
pub struct Dir3 {
    pub x: i8,
    pub y: i8,
    pub z: i8,
}

/// One mesh vertex: an exact grid position, the color of the voxel that
/// produced it, and its resolved (unnormalized) corner normal.
#[derive(Clone, Copy, Debug, PartialEq, Eq, Structural)]
pub struct Vertex {
    pub pos: Pos3,
    pub color: Color,
    pub normal: Dir3,
}

impl Vertex {
    pub fn new(pos: Pos3, color: Color, normal: Dir3) -> (v: Vertex)
        ensures
            v == (Vertex { pos, color, normal }),
    {
        Vertex { pos, color, normal }
    }
}

/// A position after rescaling: each coordinate is the exact rational
/// `num_? / den`. All three coordinates of one vertex share the same
/// denominator, the largest bounding extent of the mesh. A mesh whose
/// every coordinate is zero has no usable extent; its scaled positions
/// carry `den == 0` and are meaningless, which mirrors the undefined
/// (division by zero) result the rescaling formula would give.
#[derive(Clone, Copy, Debug, PartialEq, Eq, Structural)]
pub struct ScaledPos3 {
    pub num_x: i128,
    pub num_y: i128,
    pub num_z: i128,
    pub den: i128,
}

/// A mesh vertex after rescaling; color and normal are untouched.
#[derive(Clone, Copy, Debug, PartialEq, Eq, Structural)]
pub struct ScaledVertex {
    pub pos: ScaledPos3,
    pub color: Color,
    pub normal: Dir3,
}

} // verus!
