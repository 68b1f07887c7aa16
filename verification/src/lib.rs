//! Terrain and physics core of a block-based voxel world.
//!
//! The library generates a deterministic, seeded landscape chunk by chunk,
//! streams chunks in and out around a moving observer, converts block grids
//! into face-culled surface meshes, and resolves rigid-body motion against
//! the block grid. Positions with sub-block precision are held in fixed-point
//! integers: one block is 1000 milliblocks.

pub mod math;
pub mod physics;
pub mod settings;
pub mod vectors;
pub mod world;

