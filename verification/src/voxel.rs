use crate::material::Material;
use vstd::prelude::*;

verus! {

/// One cell of the voxel grid: either filled or empty, with a material.
///
/// Voxels are plain values; their position is given by where they sit in a
/// [`crate::layer::Layer`], not by the voxel itself.
#[derive(Clone, Copy, Debug, PartialEq, Eq, Structural)]
pub struct Voxel {
    pub filled: bool,
    pub material: Material,
}

impl Voxel {
    pub fn new(filled: bool, material: Material) -> (v: Voxel)
        ensures
            v == (Voxel { filled, material }),
    {
        Voxel { filled, material }
    }

    /// The same voxel, but filled.
    pub fn filled(&self) -> (v: Voxel)
        ensures
            v == (Voxel { filled: true, material: self.material }),
    {
        Voxel { filled: true, material: self.material }
    }

    /// The same voxel, but empty.
    pub fn empty(&self) -> (v: Voxel)
        ensures
            v == (Voxel { filled: false, material: self.material }),
    {
        Voxel { filled: false, material: self.material }
    }
}

} // verus!
