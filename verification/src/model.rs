use crate::layer::Layer;
use crate::material::{Color, Material};
use crate::voxel::Voxel;
use vstd::prelude::*;

verus! {

/// A volumetric model: layers stacked along the y axis, with a label.
///
/// `value[y]` is the layer at height `y`. Layers may have different row and
/// column extents; the occupancy queries treat everything outside a layer's
/// own grid as unfilled.
pub struct Model {
    pub label: String,
    pub value: Vec<Layer>,
}

/// The occupancy grid of a stack of layers: `vol_of(s)[y][x][z]` is the
/// voxel in layer `y`, row `x`, column `z`.
pub open spec fn vol_of(layers: Seq<Layer>) -> Seq<Seq<Seq<Voxel>>> {
    layers.map_values(|l: Layer| l.grid())
}

impl Model {
    /// The model's occupancy grid; see [`vol_of`].
    pub open spec fn grid(&self) -> Seq<Seq<Seq<Voxel>>> {
        vol_of(self.value@)
    }
}

/// A grid small enough that every corner coordinate (a cell coordinate
/// plus one) fits in a `u32`.
pub open spec fn grid_bounded(g: Seq<Seq<Seq<Voxel>>>) -> bool {
    &&& g.len() < u32::MAX
    &&& forall|y: int| 0 <= y < g.len() ==> #[trigger] g[y].len() < u32::MAX
    &&& forall|y: int, x: int|
        0 <= y < g.len() && 0 <= x < g[y].len() ==> #[trigger] g[y][x].len() < u32::MAX
}

/// Whether the cell at layer `y`, row `x`, column `z` exists and holds a
/// filled voxel. Every out-of-range coordinate means "not filled"; that is
/// how faces on the boundary of the model are recognized as exposed.
pub open spec fn filled_at(g: Seq<Seq<Seq<Voxel>>>, y: int, x: int, z: int) -> bool {
    &&& 0 <= y < g.len()
    &&& 0 <= x < g[y].len()
    &&& 0 <= z < g[y][x].len()
    &&& g[y][x][z].filled
}


/// The sample model's occupancy grid: a three-layer quarter pyramid with
/// two alternating materials, the top layer missing two opposite cells.
pub open spec fn sample_grid() -> Seq<Seq<Seq<Voxel>>> {
    let a = Voxel {
        filled: true,
        material: Material { color: Color { r: 77, g: 77, b: 153, a: 255 } },
    };
    let b = Voxel {
        filled: true,
        material: Material { color: Color { r: 153, g: 77, b: 77, a: 255 } },
    };
    let e = Voxel {
        filled: false,
        material: Material { color: Color { r: 77, g: 77, b: 153, a: 255 } },
    };
    seq![
        seq![seq![a, b, a], seq![b, a, b], seq![a, b, a]],
        seq![seq![a, b], seq![b, a]],
        seq![seq![b, e], seq![e, a]],
    ]
}

/// Three voxels as one row.
fn row3(v0: Voxel, v1: Voxel, v2: Voxel) -> (r: Vec<Voxel>)
    ensures
        r@ == seq![v0, v1, v2],
{
    let mut r: Vec<Voxel> = Vec::new();
    r.push(v0);
    r.push(v1);
    r.push(v2);
    proof {
        assert(r@ =~= seq![v0, v1, v2]);
    }
    r
}

/// Two voxels as one row.
fn row2(v0: Voxel, v1: Voxel) -> (r: Vec<Voxel>)
    ensures
        r@ == seq![v0, v1],
{
    let mut r: Vec<Voxel> = Vec::new();
    r.push(v0);
    r.push(v1);
    proof {
        assert(r@ =~= seq![v0, v1]);
    }
    r
}

/// The built-in sample model: a quarter pyramid with alternating materials,
/// whose occupancy grid is exactly [`sample_grid`].
pub fn get_model() -> (r: Model)
    ensures
        r.label@ == "QuarterPyramid"@,
        r.grid() == sample_grid(),
{
    let mat = Material { color: Color { r: 77, g: 77, b: 153, a: 255 } };
    let mat2 = Material { color: Color { r: 153, g: 77, b: 77, a: 255 } };
    let a = Voxel::new(true, mat);
    let b = Voxel::new(true, mat2);
    let e = Voxel::new(false, mat);

    let mut rows1: Vec<Vec<Voxel>> = Vec::new();
    rows1.push(row3(a, b, a));
    rows1.push(row3(b, a, b));
    rows1.push(row3(a, b, a));
    let layer1 = Layer { label: "layer_1".to_owned(), value: rows1 };

    let mut rows2: Vec<Vec<Voxel>> = Vec::new();
    rows2.push(row2(a, b));
    rows2.push(row2(b, a));
    let layer2 = Layer { label: "layer_2".to_owned(), value: rows2 };

    let mut rows3: Vec<Vec<Voxel>> = Vec::new();
    rows3.push(row2(b, e));
    rows3.push(row2(e, a));
    let layer3 = Layer { label: "layer_3".to_owned(), value: rows3 };

    let mut layers: Vec<Layer> = Vec::new();
    layers.push(layer1);
    layers.push(layer2);
    layers.push(layer3);
    let r = Model { label: "QuarterPyramid".to_owned(), value: layers };
    proof {
        assert(r.grid().len() == 3);
        assert(r.grid()[0] =~~= sample_grid()[0]);
        assert(r.grid()[1] =~~= sample_grid()[1]);
        assert(r.grid()[2] =~~= sample_grid()[2]);
        assert(r.grid() =~~= sample_grid());
    }
    r
}

} // verus!
