use crate::vertex::Dir3;
use vstd::prelude::*;

verus! {

/// Remaps a zero component of an ideal corner direction to `-1`. Corner
/// directions arrive with components in `{0, 1}` (the corner's offsets
/// within its cube); the remap turns them into the signed direction that
/// points out of the cube's center into the corner's octant.
pub open spec fn signed_component(c: i8) -> i8 {
    if c == 0 {
        -1i8
    } else {
        c
    }
}

/// The resolved normal for one cube corner.
///
/// * `ideal` is the corner's direction with components in `{0, 1}`.
/// * `adj1` says the face on the corner's own side along the x axis is
///   exposed (its neighbor there is not filled).
/// * `adj2` says the same for the corner's side along the z axis.
/// * `vertical` says the neighbor above (for a top corner) or below (for a
///   bottom corner) is filled, so the corner's vertical face is occluded.
///
/// A corner whose two side faces are exposed and whose vertical face is
/// not occluded is a true spatial corner and keeps the full diagonal.
/// Otherwise an exposed x side biases the normal into the x/y plane, an
/// exposed z side into the y/z plane, and a corner with no exposed side
/// face falls back to a purely vertical normal; such corners belong to
/// faces that are culled anyway.
pub open spec fn normal_spec(ideal: Dir3, adj1: bool, adj2: bool, vertical: bool) -> Dir3 {
    let sx = signed_component(ideal.x);
    let sy = signed_component(ideal.y);
    let sz = signed_component(ideal.z);
    if adj1 && adj2 && !vertical {
        Dir3 { x: sx, y: sy, z: sz }
    } else if adj1 {
        Dir3 { x: sx, y: sy, z: 0 }
    } else if adj2 {
        Dir3 { x: 0, y: sy, z: sz }
    } else {
        Dir3 { x: 0, y: sy, z: 0 }
    }
}

/// Resolves the outward normal of one cube corner; see [`normal_spec`].
///
/// The result is an unnormalized direction with components in `{-1, 0, 1}`;
/// a renderer that needs unit normals scales it by the reciprocal of its
/// length, which the direction determines exactly.
pub fn get_normal(normal: Dir3, adj1: bool, adj2: bool, vertical: bool) -> (r: Dir3)
    ensures
        r == normal_spec(normal, adj1, adj2, vertical),
{
    let sx = if normal.x == 0 { -1 } else { normal.x };
    let sy = if normal.y == 0 { -1 } else { normal.y };
    let sz = if normal.z == 0 { -1 } else { normal.z };

    if adj1 && adj2 && !vertical {
        Dir3 { x: sx, y: sy, z: sz }
    } else if adj1 {
        Dir3 { x: sx, y: sy, z: 0 }
    } else if adj2 {
        Dir3 { x: 0, y: sy, z: sz }
    } else {
        Dir3 { x: 0, y: sy, z: 0 }
    }
}

} // verus!
