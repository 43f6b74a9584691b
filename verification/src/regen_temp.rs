use crate::layer::Layer;
use crate::material::Color;
use crate::model::{filled_at, vol_of, Model};
use crate::normal::{get_normal, normal_spec};
use crate::vertex::{Dir3, Pos3, Vertex};
use crate::voxel::Voxel;
use vstd::prelude::*;

verus! {

// The eight corners of a voxel's cube, in their canonical order:
// 0 left-up-back, 1 left-up-front, 2 right-up-front, 3 right-up-back,
// 4 left-down-back, 5 left-down-front, 6 right-down-front, 7 right-down-back.
// "Up" is +y (the next layer), "right" is +x (the next row), "front" is +z
// (the next column); corner `c` sits at the voxel's coordinates plus the
// offsets below.

/// The x offset of corner `c` within its cube.
pub open spec fn corner_dx(c: int) -> int {
    if c == 2 || c == 3 || c == 6 || c == 7 {
        1
    } else {
        0
    }
}

/// The y offset of corner `c` within its cube.
pub open spec fn corner_dy(c: int) -> int {
    if c < 4 {
        1
    } else {
        0
    }
}

/// The z offset of corner `c` within its cube.
pub open spec fn corner_dz(c: int) -> int {
    if c == 1 || c == 2 || c == 5 || c == 6 {
        1
    } else {
        0
    }
}

/// Face exposure: a face is exposed exactly when the neighboring cell in
/// its direction is not a filled voxel, out-of-range cells included.
pub open spec fn top_exposed(g: Seq<Seq<Seq<Voxel>>>, y: int, x: int, z: int) -> bool {
    !filled_at(g, y + 1, x, z)
}

pub open spec fn bottom_exposed(g: Seq<Seq<Seq<Voxel>>>, y: int, x: int, z: int) -> bool {
    !filled_at(g, y - 1, x, z)
}

pub open spec fn right_exposed(g: Seq<Seq<Seq<Voxel>>>, y: int, x: int, z: int) -> bool {
    !filled_at(g, y, x + 1, z)
}

pub open spec fn left_exposed(g: Seq<Seq<Seq<Voxel>>>, y: int, x: int, z: int) -> bool {
    !filled_at(g, y, x - 1, z)
}

pub open spec fn front_exposed(g: Seq<Seq<Seq<Voxel>>>, y: int, x: int, z: int) -> bool {
    !filled_at(g, y, x, z + 1)
}

pub open spec fn back_exposed(g: Seq<Seq<Seq<Voxel>>>, y: int, x: int, z: int) -> bool {
    !filled_at(g, y, x, z - 1)
}

/// The vertex that corner `c` of the filled voxel at `(y, x, z)` produces:
/// the corner's grid position, the voxel's color, and the normal resolved
/// from the corner's own two side exposures and its vertical adjacency.
pub open spec fn corner_vertex(g: Seq<Seq<Seq<Voxel>>>, y: int, x: int, z: int, c: int) -> Vertex {
    let dx = corner_dx(c);
    let dy = corner_dy(c);
    let dz = corner_dz(c);
    Vertex {
        pos: Pos3 { x: (x + dx) as u32, y: (y + dy) as u32, z: (z + dz) as u32 },
        color: g[y][x][z].material.color,
        normal: normal_spec(
            Dir3 { x: dx as i8, y: dy as i8, z: dz as i8 },
            if dx == 1 {
                right_exposed(g, y, x, z)
            } else {
                left_exposed(g, y, x, z)
            },
            if dz == 1 {
                front_exposed(g, y, x, z)
            } else {
                back_exposed(g, y, x, z)
            },
            if dy == 1 {
                filled_at(g, y + 1, x, z)
            } else {
                filled_at(g, y - 1, x, z)
            },
        ),
    }
}

/// The index of the first vertex in `verts` whose position is `p`, if any.
/// Deduplication looks at positions only: color and normal never prevent a
/// match.
pub open spec fn find_pos(verts: Seq<Vertex>, p: Pos3) -> Option<int>
    decreases verts.len(),
{
    if verts.len() == 0 {
        None
    } else if verts[0].pos == p {
        Some(0int)
    } else {
        match find_pos(verts.subrange(1, verts.len() as int), p) {
            None => None,
            Some(i) => Some(i + 1),
        }
    }
}

/// `find_pos` returns the first matching index: a match in range, with no
/// match anywhere before it, or `None` when no vertex matches at all.
pub proof fn lemma_find_pos(verts: Seq<Vertex>, p: Pos3)
    ensures
        match find_pos(verts, p) {
            Some(i) => 0 <= i < verts.len() && verts[i].pos == p && forall|j: int|
                0 <= j < i ==> verts[j].pos != p,
            None => forall|j: int| 0 <= j < verts.len() ==> verts[j].pos != p,
        },
    decreases verts.len(),
{
    if verts.len() == 0 {
    } else if verts[0].pos == p {
    } else {
        let rest = verts.subrange(1, verts.len() as int);
        lemma_find_pos(rest, p);
        match find_pos(rest, p) {
            Some(i) => {
                assert(rest[i] == verts[i + 1]);
                assert forall|j: int| 0 <= j < i + 1 implies verts[j].pos != p by {
                    if j > 0 {
                        assert(rest[j - 1] == verts[j]);
                    }
                }
            },
            None => {
                assert forall|j: int| 0 <= j < verts.len() implies verts[j].pos != p by {
                    if j > 0 {
                        assert(rest[j - 1] == verts[j]);
                    }
                }
            },
        }
    }
}

/// An `Option<usize>` as an `Option<int>`, for stating what an executable
/// search returned.
pub open spec fn opt_int(o: Option<usize>) -> Option<int> {
    match o {
        Some(i) => Some(i as int),
        None => None,
    }
}

/// Linear search of the vertex buffer by position equality.
pub fn find_vertex(vertices: &Vec<Vertex>, pos: Pos3) -> (r: Option<usize>)
    ensures
        find_pos(vertices@, pos) == opt_int(r),
{
    for i in 0..vertices.len()
        invariant
            forall|j: int| 0 <= j < i ==> vertices@[j].pos != pos,
    {
        if vertices[i].pos == pos {
            proof {
                lemma_find_pos(vertices@, pos);
            }
            return Some(i);
        }
    }
    proof {
        lemma_find_pos(vertices@, pos);
    }
    None
}

/// Builds one corner vertex from its resolved coordinates and flags.
fn build_corner(cx: u32, cy: u32, cz: u32, color: Color, ideal: Dir3, adj1: bool, adj2: bool,
    vertical: bool) -> (v: Vertex)
    ensures
        v == (Vertex {
            pos: Pos3 { x: cx, y: cy, z: cz },
            color,
            normal: normal_spec(ideal, adj1, adj2, vertical),
        }),
{
    Vertex::new(Pos3 { x: cx, y: cy, z: cz }, color, get_normal(ideal, adj1, adj2, vertical))
}

/// What a [`ModelGenTemp`] holds for the voxel at `(y, x, z)` of grid `g`,
/// resolved against the vertex buffer `verts0`: the six face exposures, the
/// eight corner vertices, and each corner's duplicate index in `verts0`.
pub open spec fn temp_matches(
    t: ModelGenTemp,
    verts0: Seq<Vertex>,
    g: Seq<Seq<Seq<Voxel>>>,
    y: int,
    x: int,
    z: int,
) -> bool {
    &&& t.top_condition == top_exposed(g, y, x, z)
    &&& t.bottom_condition == bottom_exposed(g, y, x, z)
    &&& t.right_condition == right_exposed(g, y, x, z)
    &&& t.left_condition == left_exposed(g, y, x, z)
    &&& t.front_condition == front_exposed(g, y, x, z)
    &&& t.back_condition == back_exposed(g, y, x, z)
    &&& t.left_up_back == corner_vertex(g, y, x, z, 0)
    &&& t.left_up_front == corner_vertex(g, y, x, z, 1)
    &&& t.right_up_front == corner_vertex(g, y, x, z, 2)
    &&& t.right_up_back == corner_vertex(g, y, x, z, 3)
    &&& t.left_down_back == corner_vertex(g, y, x, z, 4)
    &&& t.left_down_front == corner_vertex(g, y, x, z, 5)
    &&& t.right_down_front == corner_vertex(g, y, x, z, 6)
    &&& t.right_down_back == corner_vertex(g, y, x, z, 7)
    &&& opt_int(t.left_up_back_dup) == find_pos(verts0, corner_vertex(g, y, x, z, 0).pos)
    &&& opt_int(t.left_up_front_dup) == find_pos(verts0, corner_vertex(g, y, x, z, 1).pos)
    &&& opt_int(t.right_up_front_dup) == find_pos(verts0, corner_vertex(g, y, x, z, 2).pos)
    &&& opt_int(t.right_up_back_dup) == find_pos(verts0, corner_vertex(g, y, x, z, 3).pos)
    &&& opt_int(t.left_down_back_dup) == find_pos(verts0, corner_vertex(g, y, x, z, 4).pos)
    &&& opt_int(t.left_down_front_dup) == find_pos(verts0, corner_vertex(g, y, x, z, 5).pos)
    &&& opt_int(t.right_down_front_dup) == find_pos(verts0, corner_vertex(g, y, x, z, 6).pos)
    &&& opt_int(t.right_down_back_dup) == find_pos(verts0, corner_vertex(g, y, x, z, 7).pos)
}

/// Everything the mesh compiler needs to know about one filled voxel: which
/// of its six faces are exposed, the eight corner vertices it would emit,
/// and, for each corner, the index of an already emitted vertex at the same
/// position, if one exists.
pub struct ModelGenTemp {
    pub top_condition: bool,
    pub bottom_condition: bool,
    pub right_condition: bool,
    pub left_condition: bool,
    pub front_condition: bool,
    pub back_condition: bool,
    pub left_up_back: Vertex,
    pub left_up_front: Vertex,
    pub right_up_front: Vertex,
    pub right_up_back: Vertex,
    pub left_down_back: Vertex,
    pub left_down_front: Vertex,
    pub right_down_front: Vertex,
    pub right_down_back: Vertex,
    pub left_up_back_dup: Option<usize>,
    pub left_up_front_dup: Option<usize>,
    pub right_up_front_dup: Option<usize>,
    pub right_up_back_dup: Option<usize>,
    pub left_down_back_dup: Option<usize>,
    pub left_down_front_dup: Option<usize>,
    pub right_down_front_dup: Option<usize>,
    pub right_down_back_dup: Option<usize>,
}

impl ModelGenTemp {
    /// Analyzes the voxel at layer `layer_num`, row `ux`, column `uz`.
    /// All duplicate searches run against `vertices` as it stands when the
    /// voxel's processing begins; the eight corners of one cube have eight
    /// distinct positions, so the order of the searches does not matter.
    pub fn new(model: &Model, ux: usize, uz: usize, layer_num: usize, layer: &Layer,
        vertices: &Vec<Vertex>) -> (t: ModelGenTemp)
        requires
            layer_num < model.grid().len(),
            layer.grid() == model.grid()[layer_num as int],
            ux < layer.grid().len(),
            uz < layer.grid()[ux as int].len(),
            ux + 1 <= u32::MAX,
            uz + 1 <= u32::MAX,
            layer_num + 1 <= u32::MAX,
        ensures
            temp_matches(t, vertices@, model.grid(), layer_num as int, ux as int, uz as int),
    {
        proof {
            assert(model.grid()[layer_num as int] == model.value@[layer_num as int].grid());
            assert(layer.grid()[ux as int] == layer.value@[ux as int]@);
        }
        let x0 = ux as u32;
        let x1 = x0 + 1;
        let y0 = layer_num as u32;
        let y1 = y0 + 1;
        let z0 = uz as u32;
        let z1 = z0 + 1;

        let filled_above = is_filled_at_offset(&model.value, ux, uz, layer_num, 0, 0, 1);
        let filled_below = is_filled_at_offset(&model.value, ux, uz, layer_num, 0, 0, -1);

        let top_condition = !filled_above;
        let bottom_condition = !filled_below;
        let right_condition = !is_filled_at_offset(&model.value, ux, uz, layer_num, 1, 0, 0);
        let left_condition = !is_filled_at_offset(&model.value, ux, uz, layer_num, -1, 0, 0);
        let front_condition = !is_filled_at_offset(&model.value, ux, uz, layer_num, 0, 1, 0);
        let back_condition = !is_filled_at_offset(&model.value, ux, uz, layer_num, 0, -1, 0);

        let color = layer.value[ux][uz].material.color;

        let left_up_back = build_corner(x0, y1, z0, color, Dir3 { x: 0, y: 1, z: 0 },
            left_condition, back_condition, filled_above);
        let left_up_front = build_corner(x0, y1, z1, color, Dir3 { x: 0, y: 1, z: 1 },
            left_condition, front_condition, filled_above);
        let right_up_front = build_corner(x1, y1, z1, color, Dir3 { x: 1, y: 1, z: 1 },
            right_condition, front_condition, filled_above);
        let right_up_back = build_corner(x1, y1, z0, color, Dir3 { x: 1, y: 1, z: 0 },
            right_condition, back_condition, filled_above);
        let left_down_back = build_corner(x0, y0, z0, color, Dir3 { x: 0, y: 0, z: 0 },
            left_condition, back_condition, filled_below);
        let left_down_front = build_corner(x0, y0, z1, color, Dir3 { x: 0, y: 0, z: 1 },
            left_condition, front_condition, filled_below);
        let right_down_front = build_corner(x1, y0, z1, color, Dir3 { x: 1, y: 0, z: 1 },
            right_condition, front_condition, filled_below);
        let right_down_back = build_corner(x1, y0, z0, color, Dir3 { x: 1, y: 0, z: 0 },
            right_condition, back_condition, filled_below);

        let left_up_back_dup = find_vertex(vertices, left_up_back.pos);
        let left_up_front_dup = find_vertex(vertices, left_up_front.pos);
        let right_up_front_dup = find_vertex(vertices, right_up_front.pos);
        let right_up_back_dup = find_vertex(vertices, right_up_back.pos);
        let left_down_back_dup = find_vertex(vertices, left_down_back.pos);
        let left_down_front_dup = find_vertex(vertices, left_down_front.pos);
        let right_down_front_dup = find_vertex(vertices, right_down_front.pos);
        let right_down_back_dup = find_vertex(vertices, right_down_back.pos);

        ModelGenTemp {
            top_condition,
            bottom_condition,
            right_condition,
            left_condition,
            front_condition,
            back_condition,
            left_up_back,
            left_up_front,
            right_up_front,
            right_up_back,
            left_down_back,
            left_down_front,
            right_down_front,
            right_down_back,
            left_up_back_dup,
            left_up_front_dup,
            right_up_front_dup,
            right_up_back_dup,
            left_down_back_dup,
            left_down_front_dup,
            right_down_front_dup,
            right_down_back_dup,
        }
    }
}

/// Whether the voxel at `(layer + offset_layer, x + offset_x, z + offset_z)`
/// exists and is filled. Out-of-range positions, including negative ones,
/// are reported as unfilled rather than as an error; boundary faces of the
/// model are exposed precisely because of this.
pub fn is_filled_at_offset(tiles: &Vec<Layer>, x: usize, z: usize, layer: usize, offset_x: i32,
    offset_z: i32, offset_layer: i32) -> (r: bool)
    ensures
        r == filled_at(vol_of(tiles@), layer + offset_layer, x + offset_x, z + offset_z),
{
    let ty = layer as i128 + offset_layer as i128;
    if ty < 0 || ty >= tiles.len() as i128 {
        return false;
    }
    let a = &tiles[ty as usize];
    proof {
        assert(vol_of(tiles@)[ty as int] == tiles@[ty as int].grid());
    }
    let tx = x as i128 + offset_x as i128;
    if tx < 0 || tx >= a.value.len() as i128 {
        return false;
    }
    let b = &a.value[tx as usize];
    proof {
        assert(a.grid()[tx as int] == a.value@[tx as int]@);
    }
    let tz = z as i128 + offset_z as i128;
    if tz < 0 || tz >= b.len() as i128 {
        return false;
    }
    b[tz as usize].filled
}

} // verus!
