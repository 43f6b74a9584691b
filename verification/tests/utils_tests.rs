//! The scale normalizer, the wireframe expansion, the normal resolver,
//! and the small helpers.

use voxmesh::layer::Layer;
use voxmesh::log::{log_seperated, LogLevel};
use voxmesh::material::{Color, Material};
use voxmesh::model::Model;
use voxmesh::normal::get_normal;
use voxmesh::regen::build_mesh;
use voxmesh::utils::{normalize_scale, push_if_absent, wireframe_indices};
use voxmesh::vertex::Dir3;
use voxmesh::voxel::Voxel;

fn single_voxel_model() -> Model {
    let mat = Material { color: Color { r: 255, g: 0, b: 0, a: 255 } };
    Model {
        label: "one".to_string(),
        value: vec![Layer { label: "l0".to_string(), value: vec![vec![Voxel::new(true, mat)]] }],
    }
}

#[test]
fn normalize_single_voxel() {
    // A unit cube has largest extent 1; the map onto [-1, 1] sends each
    // coordinate v to 2v - 1, so every scaled coordinate is exactly -1 or 1.
    let (vertices, _) = build_mesh(&single_voxel_model());
    let scaled = normalize_scale(&vertices, -1, 1);
    assert_eq!(scaled.len(), 8);
    for (s, v) in scaled.iter().zip(vertices.iter()) {
        assert_eq!(s.pos.den, 1);
        assert_eq!(s.pos.num_x, 2 * (v.pos.x as i128) - 1);
        assert_eq!(s.pos.num_y, 2 * (v.pos.y as i128) - 1);
        assert_eq!(s.pos.num_z, 2 * (v.pos.z as i128) - 1);
        assert!(s.pos.num_x == -1 || s.pos.num_x == 1);
        assert_eq!(s.color, v.color);
        assert_eq!(s.normal, v.normal);
    }
}

#[test]
fn normalize_round_trip_range() {
    // After rescaling into [-1, 1], no coordinate's absolute value exceeds
    // the shared denominator: |num / den| <= 1 exactly.
    let mat = Material { color: Color { r: 10, g: 20, b: 30, a: 255 } };
    let f = Voxel::new(true, mat);
    let model = Model {
        label: "bar".to_string(),
        value: vec![
            Layer { label: "l0".to_string(), value: vec![vec![f, f, f, f], vec![f, f, f, f]] },
            Layer { label: "l1".to_string(), value: vec![vec![f, f]] },
        ],
    };
    let (vertices, _) = build_mesh(&model);
    let scaled = normalize_scale(&vertices, -1, 1);
    assert_eq!(scaled.len(), vertices.len());
    for s in &scaled {
        assert!(s.pos.den > 0);
        assert!(-s.pos.den <= s.pos.num_x && s.pos.num_x <= s.pos.den);
        assert!(-s.pos.den <= s.pos.num_y && s.pos.num_y <= s.pos.den);
        assert!(-s.pos.den <= s.pos.num_z && s.pos.num_z <= s.pos.den);
    }
}

#[test]
fn normalize_empty() {
    let vertices = Vec::new();
    let scaled = normalize_scale(&vertices, -1, 1);
    assert!(scaled.is_empty());
}

#[test]
fn wireframe_expansion() {
    // Each index triple (a, b, c) becomes the edges (a,b), (b,c), (c,a).
    let indices = vec![0u32, 1, 2, 3, 4, 5];
    let wire = wireframe_indices(&indices);
    assert_eq!(wire, vec![0u32, 1, 1, 2, 2, 0, 3, 4, 4, 5, 5, 3]);
}

#[test]
fn normal_resolution_cases() {
    // A corner with both side faces exposed and no filled voxel above is a
    // true corner and keeps the full diagonal.
    assert_eq!(
        get_normal(Dir3 { x: 1, y: 1, z: 1 }, true, true, false),
        Dir3 { x: 1, y: 1, z: 1 }
    );
    // A filled voxel above demotes it to an x-side edge normal.
    assert_eq!(
        get_normal(Dir3 { x: 1, y: 1, z: 1 }, true, true, true),
        Dir3 { x: 1, y: 1, z: 0 }
    );
    // Only the x side exposed: bias into the x/y plane; a zero component of
    // the ideal direction is first remapped to -1.
    assert_eq!(
        get_normal(Dir3 { x: 0, y: 1, z: 0 }, true, false, false),
        Dir3 { x: -1, y: 1, z: 0 }
    );
    // Only the z side exposed: bias into the y/z plane.
    assert_eq!(
        get_normal(Dir3 { x: 0, y: 0, z: 1 }, false, true, false),
        Dir3 { x: 0, y: -1, z: 1 }
    );
    // No side exposed: the vertical fallback.
    assert_eq!(
        get_normal(Dir3 { x: 1, y: 0, z: 1 }, false, false, true),
        Dir3 { x: 0, y: -1, z: 0 }
    );
}

#[test]
fn push_if_absent_behavior() {
    let mut v = vec![1usize, 2];
    push_if_absent(&mut v, 2);
    assert_eq!(v, vec![1usize, 2]);
    push_if_absent(&mut v, 3);
    assert_eq!(v, vec![1usize, 2, 3]);
}

#[test]
fn log_seperated_columns() {
    // Columns are truncate_len + 1 characters wide: long values are cut,
    // short ones padded.
    let values = vec!["abc".to_string(), "longest".to_string()];
    let (level, line) = log_seperated(&values, LogLevel::INFO, 4);
    assert_eq!(level, LogLevel::INFO);
    assert_eq!(line, "abc  long ");
}

#[test]
fn voxel_constructors() {
    let mat = Material { color: Color { r: 1, g: 2, b: 3, a: 4 } };
    let v = Voxel::new(false, mat);
    assert!(!v.filled);
    assert!(v.filled().filled);
    assert_eq!(v.filled().material, mat);
    assert!(!v.filled().empty().filled);
    assert_eq!(Material::default().color, Color { r: 0, g: 0, b: 0, a: 0 });
}
