//! A voxel-to-mesh compiler.
//!
//! A [`model::Model`] is a stack of [`layer::Layer`]s, each a 2-D grid of
//! [`voxel::Voxel`]s. The compiler in [`regen`] walks every filled voxel,
//! culls the faces that border another filled voxel, deduplicates corner
//! vertices by position, and emits a triangle index list whose entries are
//! corrected for the vertices that were never pushed. The normalizer in
//! [`utils`] rescales the finished vertex list into a symmetric range.
//!
//! All geometry is integral: voxel corners sit at integer coordinates, so
//! positions are exact and deduplication is plain equality. Corner normals
//! are kept as unnormalized integer directions (each component in
//! `{-1, 0, 1}`); scaling them to unit length is left to the renderer.
//! The normalizer returns exact rationals for the same reason.
//!
//! The compiler's output is pinned down completely: it equals a
//! specification-level fold over the grid, and [`laws`] proves what that
//! fold guarantees — valid indices, deduplicated vertices, six indices per
//! exposed face, nothing for buried voxels, and in-range rescaling.

pub mod laws;
pub mod layer;
pub mod log;
pub mod material;
pub mod model;
pub mod normal;
pub mod regen;
pub mod regen_temp;
pub mod utils;
pub mod vertex;
pub mod voxel;
