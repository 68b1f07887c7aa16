//! Fixed-point vector types and helpers. One block is 1000 milliblocks;
//! positions, velocities and directions carry sub-block precision in plain
//! `i64` components.

use vstd::prelude::*;
use crate::world::ThreeDimPos;

verus! {

/// One spatial axis.
#[derive(Copy, Clone, Debug, PartialEq, Eq, Structural)]
pub enum Dimension {
    X,
    Y,
    Z,
}

/// A 3D vector in milliblocks.
#[derive(Copy, Clone, Debug, PartialEq, Eq, Structural)]
pub struct MilliVec3 {
    pub x: i64,
    pub y: i64,
    pub z: i64,
}

/// A lateral (X, Z) vector in milliblocks.
#[derive(Copy, Clone, Debug, PartialEq, Eq, Structural)]
pub struct MilliVec2 {
    pub x: i64,
    pub z: i64,
}

impl MilliVec3 {
    /// The zero vector.
    pub fn zero() -> (r: MilliVec3)
        ensures
            r == (MilliVec3 { x: 0, y: 0, z: 0 }),
    {
        MilliVec3 { x: 0, y: 0, z: 0 }
    }
}

/// Drops the vertical component of a vector.
pub fn xyz_to_xz(v: MilliVec3) -> (r: MilliVec2)
    ensures
        r == (MilliVec2 { x: v.x, z: v.z }),
{
    MilliVec2 { x: v.x, z: v.z }
}

/// Replaces the lateral components of a vector, keeping its vertical one.
pub fn replace_xz(v_xyz: MilliVec3, v_xz: MilliVec2) -> (r: MilliVec3)
    ensures
        r == (MilliVec3 { x: v_xz.x, y: v_xyz.y, z: v_xz.z }),
{
    MilliVec3 { x: v_xz.x, y: v_xyz.y, z: v_xz.z }
}

/// The whole-block coordinate a milliblock coordinate falls into.
pub open spec fn spec_block_coord(v: i64) -> int {
    (v as int) / 1000
}

/// The block position a precise point falls into, or `None` when its height
/// lies outside the world's vertical range.
pub open spec fn spec_point_to_pos(p: MilliVec3) -> Option<ThreeDimPos> {
    if 0 <= spec_block_coord(p.y) < 256 {
        Some(ThreeDimPos {
            x: spec_block_coord(p.x) as i64,
            y: spec_block_coord(p.y) as u8,
            z: spec_block_coord(p.z) as i64,
        })
    } else {
        None
    }
}

/// Converts a precise point to the block position containing it; `None`
/// when the point lies above or below the world.
pub fn point_to_pos(p: MilliVec3) -> (r: Option<ThreeDimPos>)
    ensures
        r == spec_point_to_pos(p),
{
    proof {
        vstd::arithmetic::div_mod::lemma_div_is_ordered(i64::MIN as int, p.x as int, 1000);
        vstd::arithmetic::div_mod::lemma_div_is_ordered(p.x as int, i64::MAX as int, 1000);
        vstd::arithmetic::div_mod::lemma_div_is_ordered(i64::MIN as int, p.z as int, 1000);
        vstd::arithmetic::div_mod::lemma_div_is_ordered(p.z as int, i64::MAX as int, 1000);
        vstd::arithmetic::div_mod::lemma_div_pos_is_pos(i64::MAX as int, 1000);
        vstd::arithmetic::div_mod::lemma_div_is_ordered(0, i64::MAX as int, 1000);
    }
    let by = crate::math::floor_div(p.y, 1000);
    if by < 0 || by > 255 {
        return None;
    }
    let bx = crate::math::floor_div(p.x, 1000);
    let bz = crate::math::floor_div(p.z, 1000);
    Some(ThreeDimPos { x: bx, y: by as u8, z: bz })
}

} // verus!
