//! Entities and their physics: axis-aligned bounding boxes and per-axis
//! swept collision against the block grid.

pub mod aabb;
pub mod entity;

pub use aabb::AABB;
pub use entity::RawEntity;
