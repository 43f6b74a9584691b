//! The mesh compiler end to end: face culling, vertex deduplication,
//! index remapping, normals, and boundary queries.

use voxmesh::layer::Layer;
use voxmesh::material::{Color, Material};
use voxmesh::model::{get_model, Model};
use voxmesh::regen::{build_mesh, gen_vert_idx};
use voxmesh::regen_temp::is_filled_at_offset;
use voxmesh::vertex::{Dir3, Pos3};
use voxmesh::voxel::Voxel;

fn red() -> Material {
    Material { color: Color { r: 255, g: 0, b: 0, a: 255 } }
}

fn model_from(grids: Vec<Vec<Vec<bool>>>) -> Model {
    let layers = grids
        .into_iter()
        .enumerate()
        .map(|(i, g)| Layer {
            label: format!("layer_{}", i),
            value: g
                .into_iter()
                .map(|row| row.into_iter().map(|f| Voxel::new(f, red())).collect())
                .collect(),
        })
        .collect();
    Model { label: "test".to_string(), value: layers }
}

#[test]
fn single_voxel_mesh() {
    // One filled voxel at the origin with color (1, 0, 0, 1): eight corner
    // vertices and six faces of six indices each, every vertex carrying the
    // voxel's color.
    let model = model_from(vec![vec![vec![true]]]);
    let (vertices, indices) = gen_vert_idx(&model);
    assert_eq!(vertices.len(), 8);
    assert_eq!(indices.len(), 36);
    for v in &vertices {
        assert_eq!(v.color, Color { r: 255, g: 0, b: 0, a: 255 });
    }
}

#[test]
fn corner_normal_diagonal() {
    // For an isolated voxel, the right-up-front corner at (1, 1, 1) has all
    // three of its faces exposed: its normal is the true diagonal direction
    // (1, 1, 1), which scales to normalize(1, 1, 1).
    let model = model_from(vec![vec![vec![true]]]);
    let (vertices, _indices) = build_mesh(&model);
    let corner = Pos3 { x: 1, y: 1, z: 1 };
    let v = vertices.iter().find(|v| v.pos == corner).expect("corner vertex missing");
    assert_eq!(v.normal, Dir3 { x: 1, y: 1, z: 1 });
}

#[test]
fn isolated_voxels_triangle_count() {
    // Two voxels with an empty cell between them share nothing: every one
    // of their six faces is meshed, 6 faces x 2 triangles x 3 indices each.
    let model = model_from(vec![vec![vec![true, false, true]]]);
    let (vertices, indices) = build_mesh(&model);
    assert_eq!(indices.len(), 2 * 6 * 6);
    assert_eq!(vertices.len(), 16);
}

#[test]
fn adjacent_voxels_dedup() {
    // Two voxels sharing a face: the four corners of the shared face are
    // emitted once, and the two hidden faces are culled.
    let model = model_from(vec![vec![vec![true, true]]]);
    let (vertices, indices) = build_mesh(&model);
    assert_eq!(vertices.len(), 12);
    assert_eq!(indices.len(), 2 * 5 * 6);
    for i in 0..vertices.len() {
        for j in 0..vertices.len() {
            if i != j {
                assert_ne!(vertices[i].pos, vertices[j].pos);
            }
        }
    }
}

#[test]
fn solid_cube_culling() {
    // A solid 3x3x3 cube: only the 54 outer unit faces produce triangles;
    // the center voxel, surrounded on all six sides, contributes none.
    let row = vec![true, true, true];
    let grid = vec![row.clone(), row.clone(), row.clone()];
    let model = model_from(vec![grid.clone(), grid.clone(), grid.clone()]);
    let (vertices, indices) = build_mesh(&model);
    assert_eq!(indices.len(), 54 * 6);
    assert_eq!(vertices.len(), 64);
}

#[test]
fn indices_in_range() {
    // Every emitted index points into the vertex buffer, and indices come
    // in whole triangles.
    let model = get_model();
    let (vertices, indices) = build_mesh(&model);
    assert_eq!(indices.len() % 3, 0);
    for &i in &indices {
        assert!((i as usize) < vertices.len());
    }
}

#[test]
fn compile_deterministic() {
    // Compiling the same model twice yields identical buffers in identical
    // order.
    let (v1, i1) = gen_vert_idx(&get_model());
    let (v2, i2) = gen_vert_idx(&get_model());
    assert_eq!(v1, v2);
    assert_eq!(i1, i2);
}

#[test]
fn sample_model_mesh() {
    // The built-in quarter pyramid has 46 exposed unit faces in all.
    let model = get_model();
    let (vertices, indices) = build_mesh(&model);
    assert_eq!(indices.len(), 46 * 6);
    assert!(vertices.len() > 0);
}

#[test]
fn boundary_exposure() {
    // Occupancy queries that step off the grid in any direction answer
    // "not filled"; queries inside answer what the cell holds.
    let model = model_from(vec![vec![vec![true]]]);
    let tiles = &model.value;
    assert!(is_filled_at_offset(tiles, 0, 0, 0, 0, 0, 0));
    assert!(!is_filled_at_offset(tiles, 0, 0, 0, 0, 0, 1));
    assert!(!is_filled_at_offset(tiles, 0, 0, 0, 0, 0, -1));
    assert!(!is_filled_at_offset(tiles, 0, 0, 0, 1, 0, 0));
    assert!(!is_filled_at_offset(tiles, 0, 0, 0, -1, 0, 0));
    assert!(!is_filled_at_offset(tiles, 0, 0, 0, 0, 1, 0));
    assert!(!is_filled_at_offset(tiles, 0, 0, 0, 0, -1, 0));
}

#[test]
fn ragged_layers_exposed() {
    // Layers of different extents: a cell of the lower layer with no cell
    // above it has its top face exposed.
    let model = model_from(vec![vec![vec![true, true]], vec![vec![true]]]);
    let (_vertices, indices) = build_mesh(&model);
    // lower voxel (0,0,0): covered above and beside, 4 faces; lower voxel
    // (0,0,1): nothing above it in the smaller layer, 5 faces; upper
    // voxel: 5 faces.
    assert_eq!(indices.len(), 14 * 6);
}
