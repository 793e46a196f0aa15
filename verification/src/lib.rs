//! Verified core of a voxel prototype: ambient-occlusion sampling, chunk
//! collider caching, terrain material rules and the integer side of chunk
//! meshing.

pub mod ambient_occlusion;
pub mod chunk_colliders;
pub mod face;
pub mod grid;
pub mod voxel;
pub mod shape;
pub mod terrain_meshing;
pub mod terrain_noise;
pub mod terrain;
pub mod player;
pub mod app_controls;
