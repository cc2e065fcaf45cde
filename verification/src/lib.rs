//! Verified core logic of a small family of graphics and game demos.
//!
//! The heart of the crate is a marching-cubes iso-surface extraction over a
//! regular voxel grid (`extract::mesh_builder`): given one inside/outside
//! bit per lattice point, it walks the voxels in a fixed order, consults a
//! 256-row triangulation table, and emits a vertex list — each vertex named
//! by the lattice edge it lies on — together with a triangle index list,
//! deduplicating shared edge vertices through three plane-local stores.
//! Its contract pins the output to a first-occurrence deduplication model
//! (`model`), from which the mesh laws (index validity, exact sharing,
//! vertex count bounds, determinism) are proved.
//!
//! Alongside it live the rules of a two-player rock-paper-scissors match
//! (`game`) and the session state machine that drives a lobby, a match and
//! the messages between the players (`data`), lifted out of their I/O.

pub mod data;
pub mod extract;
pub mod game;
pub mod model;
pub mod table;

