//! A raw physics entity: position, velocity, acceleration and a bounding
//! box, advanced by a per-axis swept collision tick against the block grid.

use vstd::prelude::*;
use crate::math::clamp_add;
use crate::math::div_trunc;
use crate::math::floor_div;
use crate::math::sat_add;
use crate::math::spec_clamp_add;
use crate::math::spec_div_trunc;
use crate::math::spec_max2;
use crate::math::spec_sat_add;
use crate::physics::aabb::AABB;
use crate::settings::PHYSICS_TICK_RATE;
use crate::settings::POS_LIMIT;
use crate::vectors::Dimension;
use crate::vectors::MilliVec3;
use crate::world::ThreeDimPos;
use crate::world::block::spec_is_solid;
use crate::world::store::ChunkStore;

verus! {

/// A raw entity that only has a position, velocity, acceleration and a
/// bounding box.
pub struct RawEntity {
    /// Measured in milliblocks.
    position: MilliVec3,
    /// Measured in milliblocks per second.
    velocity: MilliVec3,
    /// Measured in milliblocks per second squared.
    acceleration: MilliVec3,
    /// Bounding box, for collision detection.
    bounding_box: AABB,
}

/// Whether the block cell at whole-block coordinates (bx, by, bz) is loaded
/// and solid; cells above or below the world collide with nothing.
pub open spec fn spec_solid_at(chunks: ChunkStore, bx: int, by: int, bz: int) -> bool {
    &&& 0 <= by < 256
    &&& match chunks.spec_block(ThreeDimPos { x: bx as i64, y: by as u8, z: bz as i64 }) {
        Some(b) => spec_is_solid(b),
        None => false,
    }
}

/// Penetration depth along the swept axis between the entity's axis window
/// `[emin, emax]` and a solid cell at axis coordinate `c`: measured against
/// the entity's leading face, opposite to the direction of travel.
pub open spec fn spec_cell_overlap(c: int, pos_move: bool, emin: int, emax: int) -> int {
    if pos_move {
        emax - c * 1000
    } else {
        (c + 1) * 1000 - emin
    }
}

/// The axis coordinate of a cell.
pub open spec fn spec_axis_coord(axis: Dimension, x: int, y: int, z: int) -> int {
    match axis {
        Dimension::X => x,
        Dimension::Y => y,
        Dimension::Z => z,
    }
}

/// The contribution of one cell to the sweep: its overlap if it is solid,
/// nothing otherwise.
pub open spec fn spec_scan_cell(
    chunks: ChunkStore, x: int, y: int, z: int,
    axis: Dimension, pos_move: bool, emin: int, emax: int,
) -> int {
    if spec_solid_at(chunks, x, y, z) {
        spec_cell_overlap(spec_axis_coord(axis, x, y, z), pos_move, emin, emax)
    } else {
        0
    }
}

/// Largest overlap among cells (x, y, z_lo .. z_lo + cnt).
pub open spec fn spec_scan_z(
    chunks: ChunkStore, x: int, y: int, z_lo: int, cnt: nat,
    axis: Dimension, pos_move: bool, emin: int, emax: int,
) -> int
    decreases cnt,
{
    if cnt == 0 {
        0
    } else {
        spec_max2(
            spec_scan_z(chunks, x, y, z_lo, (cnt - 1) as nat, axis, pos_move, emin, emax),
            spec_scan_cell(chunks, x, y, z_lo + cnt - 1, axis, pos_move, emin, emax),
        )
    }
}

/// Largest overlap among cells (x_lo .. x_lo + cnt_x, y, full z range).
pub open spec fn spec_scan_x(
    chunks: ChunkStore, x_lo: int, cnt_x: nat, y: int, z_lo: int, cnt_z: nat,
    axis: Dimension, pos_move: bool, emin: int, emax: int,
) -> int
    decreases cnt_x,
{
    if cnt_x == 0 {
        0
    } else {
        spec_max2(
            spec_scan_x(chunks, x_lo, (cnt_x - 1) as nat, y, z_lo, cnt_z,
                axis, pos_move, emin, emax),
            spec_scan_z(chunks, x_lo + cnt_x - 1, y, z_lo, cnt_z,
                axis, pos_move, emin, emax),
        )
    }
}

/// Largest overlap over the whole scanned cell box.
pub open spec fn spec_scan_y(
    chunks: ChunkStore, x_lo: int, cnt_x: nat, y_lo: int, cnt_y: nat, z_lo: int, cnt_z: nat,
    axis: Dimension, pos_move: bool, emin: int, emax: int,
) -> int
    decreases cnt_y,
{
    if cnt_y == 0 {
        0
    } else {
        spec_max2(
            spec_scan_y(chunks, x_lo, cnt_x, y_lo, (cnt_y - 1) as nat, z_lo, cnt_z,
                axis, pos_move, emin, emax),
            spec_scan_x(chunks, x_lo, cnt_x, y_lo + cnt_y - 1, z_lo, cnt_z,
                axis, pos_move, emin, emax),
        )
    }
}

/// The count of a half-open integer range.
pub open spec fn spec_cnt(lo: int, hi: int) -> nat {
    if hi > lo {
        (hi - lo) as nat
    } else {
        0
    }
}

/// The maximum penetration depth along `axis`, over every whole-block cell
/// the bounding box `[bmin, bmax]` overlaps, with the vertical scan clipped
/// to the world's height range.
pub open spec fn spec_overlap_scan(
    chunks: ChunkStore, bmin: MilliVec3, bmax: MilliVec3, axis: Dimension, pos_move: bool,
) -> int {
    let x_lo = (bmin.x as int) / 1000;
    let x_hi = (bmax.x as int + 999) / 1000;
    let y_lo0 = (bmin.y as int) / 1000;
    let y_hi0 = (bmax.y as int + 999) / 1000;
    let z_lo = (bmin.z as int) / 1000;
    let z_hi = (bmax.z as int + 999) / 1000;
    let y_lo = if y_lo0 < 0 { 0 } else { y_lo0 };
    let y_hi = if y_hi0 > 256 { 256 } else { y_hi0 };
    let emin = spec_axis_coord(axis, bmin.x as int, bmin.y as int, bmin.z as int);
    let emax = spec_axis_coord(axis, bmax.x as int, bmax.y as int, bmax.z as int);
    spec_scan_y(chunks, x_lo, spec_cnt(x_lo, x_hi), y_lo, spec_cnt(y_lo, y_hi),
        z_lo, spec_cnt(z_lo, z_hi), axis, pos_move, emin, emax)
}

/// Computes the maximum overlap of the sweep, mirroring `spec_overlap_scan`.
#[verifier::rlimit(30)]
fn max_overlap(
    chunks: &ChunkStore, bmin: MilliVec3, bmax: MilliVec3, axis: Dimension, pos_move: bool,
) -> (r: i64)
    requires
        chunks.wf(),
        -0x1000_0000_0000_0000 <= bmin.x <= 0x1000_0000_0000_0000,
        -0x1000_0000_0000_0000 <= bmin.y <= 0x1000_0000_0000_0000,
        -0x1000_0000_0000_0000 <= bmin.z <= 0x1000_0000_0000_0000,
        -0x1000_0000_0000_0000 <= bmax.x <= 0x1000_0000_0000_0000,
        -0x1000_0000_0000_0000 <= bmax.y <= 0x1000_0000_0000_0000,
        -0x1000_0000_0000_0000 <= bmax.z <= 0x1000_0000_0000_0000,
    ensures
        r == spec_overlap_scan(*chunks, bmin, bmax, axis, pos_move),
        r >= 0,
{
    proof {
        lemma_range_quotients(bmin.x as int);
        lemma_range_quotients(bmin.y as int);
        lemma_range_quotients(bmin.z as int);
        lemma_range_quotients(bmax.x as int + 999);
        lemma_range_quotients(bmax.y as int + 999);
        lemma_range_quotients(bmax.z as int + 999);
    }
    let x_lo = floor_div(bmin.x, 1000);
    let x_hi = floor_div(sat_add(bmax.x, 999), 1000);
    let y_lo0 = floor_div(bmin.y, 1000);
    let y_hi0 = floor_div(sat_add(bmax.y, 999), 1000);
    let z_lo = floor_div(bmin.z, 1000);
    let z_hi = floor_div(sat_add(bmax.z, 999), 1000);
    let y_lo = if y_lo0 < 0 { 0 } else { y_lo0 };
    let y_hi = if y_hi0 > 256 { 256 } else { y_hi0 };
    let emin = match axis {
        Dimension::X => bmin.x,
        Dimension::Y => bmin.y,
        Dimension::Z => bmin.z,
    };
    let emax = match axis {
        Dimension::X => bmax.x,
        Dimension::Y => bmax.y,
        Dimension::Z => bmax.z,
    };
    let ghost cx = spec_cnt(x_lo as int, x_hi as int);
    let ghost cy = spec_cnt(y_lo as int, y_hi as int);
    let ghost cz = spec_cnt(z_lo as int, z_hi as int);

    let mut acc: i64 = 0;
    let mut y = y_lo;
    while y < y_hi
        invariant
            chunks.wf(),
            y_lo <= y || y == y_lo,
            y_lo <= 0x8_0000_0000_0000 && y_lo >= -0x8_0000_0000_0000,
            y_hi <= 0x8_0000_0000_0000 && y_hi >= -0x8_0000_0000_0000,
            x_lo <= 0x8_0000_0000_0000 && x_lo >= -0x8_0000_0000_0000,
            x_hi <= 0x8_0000_0000_0000 && x_hi >= -0x8_0000_0000_0000,
            z_lo <= 0x8_0000_0000_0000 && z_lo >= -0x8_0000_0000_0000,
            z_hi <= 0x8_0000_0000_0000 && z_hi >= -0x8_0000_0000_0000,
            y_lo <= y <= spec_max2(y_lo as int, y_hi as int),
            cx == spec_cnt(x_lo as int, x_hi as int),
            cz == spec_cnt(z_lo as int, z_hi as int),
            -0x1000_0000_0000_0000 <= emin <= 0x1000_0000_0000_0000,
            -0x1000_0000_0000_0000 <= emax <= 0x1000_0000_0000_0000,
            acc >= 0,
            acc == spec_scan_y(*chunks, x_lo as int, cx, y_lo as int,
                spec_cnt(y_lo as int, y as int), z_lo as int, cz,
                axis, pos_move, emin as int, emax as int),
        decreases y_hi - y,
    {
        let mut x = x_lo;
        while x < x_hi
            invariant
                chunks.wf(),
                y_lo <= y < y_hi,
                y_lo <= 0x8_0000_0000_0000 && y_lo >= -0x8_0000_0000_0000,
                y_hi <= 0x8_0000_0000_0000 && y_hi >= -0x8_0000_0000_0000,
                x_lo <= 0x8_0000_0000_0000 && x_lo >= -0x8_0000_0000_0000,
                x_hi <= 0x8_0000_0000_0000 && x_hi >= -0x8_0000_0000_0000,
                z_lo <= 0x8_0000_0000_0000 && z_lo >= -0x8_0000_0000_0000,
                z_hi <= 0x8_0000_0000_0000 && z_hi >= -0x8_0000_0000_0000,
                x_lo <= x <= spec_max2(x_lo as int, x_hi as int),
                cz == spec_cnt(z_lo as int, z_hi as int),
                -0x1000_0000_0000_0000 <= emin <= 0x1000_0000_0000_0000,
                -0x1000_0000_0000_0000 <= emax <= 0x1000_0000_0000_0000,
                acc >= 0,
                acc == spec_max2(
                    spec_scan_y(*chunks, x_lo as int, spec_cnt(x_lo as int, x_hi as int),
                        y_lo as int, spec_cnt(y_lo as int, y as int), z_lo as int, cz,
                        axis, pos_move, emin as int, emax as int),
                    spec_scan_x(*chunks, x_lo as int, spec_cnt(x_lo as int, x as int),
                        y as int, z_lo as int, cz,
                        axis, pos_move, emin as int, emax as int)),
            decreases x_hi - x,
        {
            let mut z = z_lo;
            while z < z_hi
                invariant
                    chunks.wf(),
                    y_lo <= y < y_hi,
                    x_lo <= x < x_hi,
                    y_lo <= 0x8_0000_0000_0000 && y_lo >= -0x8_0000_0000_0000,
                    y_hi <= 0x8_0000_0000_0000 && y_hi >= -0x8_0000_0000_0000,
                    x_lo <= 0x8_0000_0000_0000 && x_lo >= -0x8_0000_0000_0000,
                    x_hi <= 0x8_0000_0000_0000 && x_hi >= -0x8_0000_0000_0000,
                    z_lo <= 0x8_0000_0000_0000 && z_lo >= -0x8_0000_0000_0000,
                    z_hi <= 0x8_0000_0000_0000 && z_hi >= -0x8_0000_0000_0000,
                    z_lo <= z <= spec_max2(z_lo as int, z_hi as int),
                    -0x1000_0000_0000_0000 <= emin <= 0x1000_0000_0000_0000,
                    -0x1000_0000_0000_0000 <= emax <= 0x1000_0000_0000_0000,
                    acc >= 0,
                    acc == spec_max2(
                        spec_max2(
                            spec_scan_y(*chunks, x_lo as int,
                                spec_cnt(x_lo as int, x_hi as int),
                                y_lo as int, spec_cnt(y_lo as int, y as int),
                                z_lo as int, spec_cnt(z_lo as int, z_hi as int),
                                axis, pos_move, emin as int, emax as int),
                            spec_scan_x(*chunks, x_lo as int,
                                spec_cnt(x_lo as int, x as int),
                                y as int, z_lo as int, spec_cnt(z_lo as int, z_hi as int),
                                axis, pos_move, emin as int, emax as int)),
                        spec_scan_z(*chunks, x as int, y as int, z_lo as int,
                            spec_cnt(z_lo as int, z as int),
                            axis, pos_move, emin as int, emax as int)),
                decreases z_hi - z,
            {
                let solid = if y >= 0 && y <= 255 {
                    match chunks.get_block(ThreeDimPos { x, y: y as u8, z }) {
                        Some(b) => b.is_solid(),
                        None => false,
                    }
                } else {
                    false
                };
                if solid {
                    let c: i64 = match axis {
                        Dimension::X => x,
                        Dimension::Y => y,
                        Dimension::Z => z,
                    };
                    let overlap: i64 = if pos_move {
                        emax - c * 1000
                    } else {
                        (c + 1) * 1000 - emin
                    };
                    if overlap > acc {
                        acc = overlap;
                    }
                }
                z += 1;
            }
            x += 1;
        }
        y += 1;
    }
    acc
}

/// Quotients by 1000 of coordinates in range stay far inside `i64`.
proof fn lemma_range_quotients(v: int)
    requires
        -0x1000_0000_0000_1000 <= v <= 0x1000_0000_0000_1000,
    ensures
        -0x8_0000_0000_0000 <= v / 1000 <= 0x8_0000_0000_0000,
{
    let q = v / 1000;
    let m = v % 1000;
    vstd::arithmetic::div_mod::lemma_fundamental_div_mod(v, 1000);
    vstd::arithmetic::div_mod::lemma_mod_bound(v, 1000);
    assert(-0x8_0000_0000_0000 <= q <= 0x8_0000_0000_0000) by (nonlinear_arith)
        requires
            1000 * q + m == v && 0 <= m < 1000
                && -0x1000_0000_0000_1000 <= v <= 0x1000_0000_0000_1000;
}

/// Moves one axis component, clamped to the world border.
pub open spec fn spec_move_axis(pos: MilliVec3, axis: Dimension, delta: int) -> MilliVec3 {
    match axis {
        Dimension::X => MilliVec3 {
            x: spec_clamp_add(pos.x as int, delta, POS_LIMIT as int) as i64,
            y: pos.y,
            z: pos.z,
        },
        Dimension::Y => MilliVec3 {
            x: pos.x,
            y: spec_clamp_add(pos.y as int, delta, POS_LIMIT as int) as i64,
            z: pos.z,
        },
        Dimension::Z => MilliVec3 {
            x: pos.x,
            y: pos.y,
            z: spec_clamp_add(pos.z as int, delta, POS_LIMIT as int) as i64,
        },
    }
}

/// One axis of the collision sweep: move the position along the axis by
/// `delta`, find the deepest penetration into a solid cell over the box at
/// the tentative position, and push the position back out against the
/// direction of travel. Yields the corrected position and the depth.
pub open spec fn spec_sweep_axis(
    chunks: ChunkStore, bb: AABB, pos: MilliVec3, axis: Dimension, delta: int,
) -> (MilliVec3, int) {
    let p1 = spec_move_axis(pos, axis, delta);
    let bmin = MilliVec3 {
        x: spec_sat_add(p1.x as int, bb.spec_min_off().x as int) as i64,
        y: spec_sat_add(p1.y as int, bb.spec_min_off().y as int) as i64,
        z: spec_sat_add(p1.z as int, bb.spec_min_off().z as int) as i64,
    };
    let bmax = MilliVec3 {
        x: spec_sat_add(p1.x as int, bb.spec_max_off().x as int) as i64,
        y: spec_sat_add(p1.y as int, bb.spec_max_off().y as int) as i64,
        z: spec_sat_add(p1.z as int, bb.spec_max_off().z as int) as i64,
    };
    let pos_move = delta > 0;
    let mo = spec_overlap_scan(chunks, bmin, bmax, axis, pos_move);
    let adj = if pos_move { -mo } else { mo };
    (spec_move_axis(p1, axis, adj), mo)
}

/// The velocity after integrating acceleration over one tick.
pub open spec fn spec_tick_velocity(v: MilliVec3, a: MilliVec3) -> MilliVec3 {
    MilliVec3 {
        x: spec_sat_add(v.x as int, spec_div_trunc(a.x as int, PHYSICS_TICK_RATE as int)) as i64,
        y: spec_sat_add(v.y as int, spec_div_trunc(a.y as int, PHYSICS_TICK_RATE as int)) as i64,
        z: spec_sat_add(v.z as int, spec_div_trunc(a.z as int, PHYSICS_TICK_RATE as int)) as i64,
    }
}

/// One whole physics tick: integrate acceleration into velocity, then sweep
/// the three axes in X, Y, Z order, each resolving against the position
/// already corrected by the previous axes; ground contact while falling
/// zeroes the vertical velocity. Yields the new position and velocity.
pub open spec fn spec_tick_result(e: RawEntity, chunks: ChunkStore) -> (MilliVec3, MilliVec3) {
    let v1 = spec_tick_velocity(e.spec_velocity(), e.spec_acceleration());
    let tx = spec_div_trunc(v1.x as int, PHYSICS_TICK_RATE as int);
    let ty = spec_div_trunc(v1.y as int, PHYSICS_TICK_RATE as int);
    let tz = spec_div_trunc(v1.z as int, PHYSICS_TICK_RATE as int);
    let sx = spec_sweep_axis(chunks, e.spec_box(), e.spec_position(), Dimension::X, tx);
    let sy = spec_sweep_axis(chunks, e.spec_box(), sx.0, Dimension::Y, ty);
    let vy: int = if sy.1 > 0 && ty < 0 { 0 } else { v1.y as int };
    let sz = spec_sweep_axis(chunks, e.spec_box(), sy.0, Dimension::Z, tz);
    (sz.0, MilliVec3 { x: v1.x, y: vy as i64, z: v1.z })
}

/// The whole-block position a precise position falls into, its height
/// clamped to the world's vertical range.
pub open spec fn spec_world_pos_of(p: MilliVec3) -> ThreeDimPos {
    let by = (p.y as int) / 1000;
    ThreeDimPos {
        x: ((p.x as int) / 1000) as i64,
        y: (if by < 0 { 0 } else if by > 255 { 255 } else { by }) as u8,
        z: ((p.z as int) / 1000) as i64,
    }
}

/// Mirrors `spec_sweep_axis`.
fn sweep_axis(
    chunks: &ChunkStore, bb: &AABB, pos: MilliVec3, axis: Dimension, delta: i64,
) -> (r: (MilliVec3, i64))
    requires
        chunks.wf(),
        bb.wf(),
        -POS_LIMIT <= pos.x <= POS_LIMIT,
        -POS_LIMIT <= pos.y <= POS_LIMIT,
        -POS_LIMIT <= pos.z <= POS_LIMIT,
    ensures
        (r.0, r.1 as int) == spec_sweep_axis(*chunks, *bb, pos, axis, delta as int),
        r.1 >= 0,
        -POS_LIMIT <= r.0.x <= POS_LIMIT,
        -POS_LIMIT <= r.0.y <= POS_LIMIT,
        -POS_LIMIT <= r.0.z <= POS_LIMIT,
{
    let p1 = match axis {
        Dimension::X => MilliVec3 {
            x: clamp_add(pos.x, delta, POS_LIMIT), y: pos.y, z: pos.z },
        Dimension::Y => MilliVec3 {
            x: pos.x, y: clamp_add(pos.y, delta, POS_LIMIT), z: pos.z },
        Dimension::Z => MilliVec3 {
            x: pos.x, y: pos.y, z: clamp_add(pos.z, delta, POS_LIMIT) },
    };
    let (bmin, bmax) = bb.get_bounds(p1);
    let pos_move = delta > 0;
    let mo = max_overlap(chunks, bmin, bmax, axis, pos_move);
    let adj = if pos_move { -mo } else { mo };
    let p2 = match axis {
        Dimension::X => MilliVec3 {
            x: clamp_add(p1.x, adj, POS_LIMIT), y: p1.y, z: p1.z },
        Dimension::Y => MilliVec3 {
            x: p1.x, y: clamp_add(p1.y, adj, POS_LIMIT), z: p1.z },
        Dimension::Z => MilliVec3 {
            x: p1.x, y: p1.y, z: clamp_add(p1.z, adj, POS_LIMIT) },
    };
    (p2, mo)
}

impl RawEntity {
    /// The entity's precise position.
    pub closed spec fn spec_position(&self) -> MilliVec3 {
        self.position
    }

    /// The entity's velocity.
    pub closed spec fn spec_velocity(&self) -> MilliVec3 {
        self.velocity
    }

    /// The entity's acceleration.
    pub closed spec fn spec_acceleration(&self) -> MilliVec3 {
        self.acceleration
    }

    /// The entity's bounding box.
    pub closed spec fn spec_box(&self) -> AABB {
        self.bounding_box
    }

    /// Well-formed entity: valid box, position inside the world border.
    pub open spec fn wf(&self) -> bool {
        &&& self.spec_box().wf()
        &&& -POS_LIMIT <= self.spec_position().x <= POS_LIMIT
        &&& -POS_LIMIT <= self.spec_position().y <= POS_LIMIT
        &&& -POS_LIMIT <= self.spec_position().z <= POS_LIMIT
    }

    /// A new entity at rest at the given position.
    pub fn new(position: MilliVec3, bounding_box: AABB) -> (r: RawEntity)
        requires
            bounding_box.wf(),
            -POS_LIMIT <= position.x <= POS_LIMIT,
            -POS_LIMIT <= position.y <= POS_LIMIT,
            -POS_LIMIT <= position.z <= POS_LIMIT,
        ensures
            r.wf(),
            r.spec_position() == position,
            r.spec_velocity() == (MilliVec3 { x: 0, y: 0, z: 0 }),
            r.spec_acceleration() == (MilliVec3 { x: 0, y: 0, z: 0 }),
            r.spec_box() == bounding_box,
    {
        RawEntity {
            position,
            velocity: MilliVec3 { x: 0, y: 0, z: 0 },
            acceleration: MilliVec3 { x: 0, y: 0, z: 0 },
            bounding_box,
        }
    }

    /// Computes one physics tick of the entity against the loaded chunks.
    pub fn tick(&mut self, chunks: &ChunkStore)
        requires
            old(self).wf(),
            chunks.wf(),
        ensures
            final(self).wf(),
            final(self).spec_position() == spec_tick_result(*old(self), *chunks).0,
            final(self).spec_velocity() == spec_tick_result(*old(self), *chunks).1,
            final(self).spec_acceleration() == old(self).spec_acceleration(),
            final(self).spec_box() == old(self).spec_box(),
    {
        let vx = sat_add(self.velocity.x, div_trunc(self.acceleration.x, PHYSICS_TICK_RATE));
        let vy = sat_add(self.velocity.y, div_trunc(self.acceleration.y, PHYSICS_TICK_RATE));
        let vz = sat_add(self.velocity.z, div_trunc(self.acceleration.z, PHYSICS_TICK_RATE));
        self.velocity = MilliVec3 { x: vx, y: vy, z: vz };

        let tx = div_trunc(vx, PHYSICS_TICK_RATE);
        let ty = div_trunc(vy, PHYSICS_TICK_RATE);
        let tz = div_trunc(vz, PHYSICS_TICK_RATE);

        let (p1, _mo_x) = sweep_axis(chunks, &self.bounding_box, self.position,
            Dimension::X, tx);
        self.position = p1;
        let (p2, mo_y) = sweep_axis(chunks, &self.bounding_box, self.position,
            Dimension::Y, ty);
        self.position = p2;
        if mo_y > 0 && ty < 0 {
            self.velocity = MilliVec3 { x: vx, y: 0, z: vz };
        }
        let (p3, _mo_z) = sweep_axis(chunks, &self.bounding_box, self.position,
            Dimension::Z, tz);
        self.position = p3;
    }

    /// Gets the precise position of the entity (as opposed to the whole
    /// block coordinates).
    pub fn get_precise_pos(&self) -> (r: MilliVec3)
        ensures
            r == self.spec_position(),
    {
        self.position
    }

    /// Gets the integer world position of the entity.
    pub fn get_world_pos(&self) -> (r: ThreeDimPos)
        ensures
            r == spec_world_pos_of(self.spec_position()),
    {
        proof {
            lemma_range_quotients(0);
            vstd::arithmetic::div_mod::lemma_div_is_ordered(
                i64::MIN as int, self.position.x as int, 1000);
            vstd::arithmetic::div_mod::lemma_div_is_ordered(
                self.position.x as int, i64::MAX as int, 1000);
            vstd::arithmetic::div_mod::lemma_div_is_ordered(
                i64::MIN as int, self.position.z as int, 1000);
            vstd::arithmetic::div_mod::lemma_div_is_ordered(
                self.position.z as int, i64::MAX as int, 1000);
        }
        let bx = floor_div(self.position.x, 1000);
        let by = floor_div(self.position.y, 1000);
        let bz = floor_div(self.position.z, 1000);
        let cy: u8 = if by < 0 { 0 } else if by > 255 { 255 } else { by as u8 };
        ThreeDimPos { x: bx, y: cy, z: bz }
    }

    /// Moves the entity to a position.
    pub fn set_pos(&mut self, p: MilliVec3)
        requires
            old(self).wf(),
            -POS_LIMIT <= p.x <= POS_LIMIT,
            -POS_LIMIT <= p.y <= POS_LIMIT,
            -POS_LIMIT <= p.z <= POS_LIMIT,
        ensures
            final(self).wf(),
            final(self).spec_position() == p,
            final(self).spec_velocity() == old(self).spec_velocity(),
            final(self).spec_acceleration() == old(self).spec_acceleration(),
            final(self).spec_box() == old(self).spec_box(),
    {
        self.position = p;
    }

    /// Sets the entity's acceleration.
    pub fn set_acceleration(&mut self, a: MilliVec3)
        ensures
            final(self).spec_acceleration() == a,
            final(self).spec_position() == old(self).spec_position(),
            final(self).spec_velocity() == old(self).spec_velocity(),
            final(self).spec_box() == old(self).spec_box(),
            old(self).wf() ==> final(self).wf(),
    {
        self.acceleration = a;
    }

    /// Gets the entity's velocity.
    pub fn get_velocity(&self) -> (r: MilliVec3)
        ensures
            r == self.spec_velocity(),
    {
        self.velocity
    }

    /// Sets the entity's velocity.
    pub fn set_velocity(&mut self, v: MilliVec3)
        ensures
            final(self).spec_velocity() == v,
            final(self).spec_position() == old(self).spec_position(),
            final(self).spec_acceleration() == old(self).spec_acceleration(),
            final(self).spec_box() == old(self).spec_box(),
            *final(self) == old(self).spec_with_velocity(v),
            old(self).wf() ==> final(self).wf(),
    {
        self.velocity = v;
    }
}

impl RawEntity {
    /// The same entity with its velocity replaced.
    pub closed spec fn spec_with_velocity(&self, v: MilliVec3) -> RawEntity {
        RawEntity {
            position: self.position,
            velocity: v,
            acceleration: self.acceleration,
            bounding_box: self.bounding_box,
        }
    }
}

/// Ground contact: for an entity in pure downward motion whose lateral
/// sweeps resolve nothing, if the vertical sweep's deepest penetration is
/// into the solid ground directly beneath the box — a depth reaching from
/// the box's tentative bottom up to the top of block row `beneath` — then
/// one tick leaves the vertical velocity exactly 0 and parks the entity
/// with the box's bottom exactly on that block top: its resolved height is
/// the block top plus the box's origin offset.
pub proof fn lemma_ground_contact(
    e: RawEntity, chunks: ChunkStore, beneath: int, ty: int, mo: int,
)
    requires
        e.wf(),
        e.spec_velocity().x == 0,
        e.spec_velocity().z == 0,
        e.spec_acceleration().x == 0,
        e.spec_acceleration().z == 0,
        ty == spec_div_trunc(
            spec_sat_add(e.spec_velocity().y as int,
                spec_div_trunc(e.spec_acceleration().y as int, PHYSICS_TICK_RATE as int)),
            PHYSICS_TICK_RATE as int),
        ty < 0,
        -POS_LIMIT <= e.spec_position().y + ty,
        // the sideways sweeps find no penetration
        spec_sweep_axis(chunks, e.spec_box(), e.spec_position(), Dimension::X, 0).1 == 0,
        mo == spec_sweep_axis(
            chunks, e.spec_box(), e.spec_position(), Dimension::Y, ty).1,
        // the deepest vertical penetration is into the block row `beneath`,
        // measured from the box's tentative bottom to that row's top
        mo == (beneath + 1) * 1000
            - (e.spec_position().y + ty + e.spec_box().spec_min_off().y as int),
        mo > 0,
        -POS_LIMIT <= (beneath + 1) * 1000 + e.spec_box().spec_origin().y <= POS_LIMIT,
        spec_sweep_axis(chunks, e.spec_box(),
            spec_sweep_axis(chunks, e.spec_box(), e.spec_position(), Dimension::Y, ty).0,
            Dimension::Z, 0).1 == 0,
    ensures
        spec_tick_result(e, chunks).1 == (MilliVec3 { x: 0, y: 0, z: 0 }),
        spec_tick_result(e, chunks).0.x == e.spec_position().x,
        spec_tick_result(e, chunks).0.z == e.spec_position().z,
        spec_tick_result(e, chunks).0.y
            == (beneath + 1) * 1000 + e.spec_box().spec_origin().y,
{
    let v = e.spec_velocity();
    let v1 = spec_tick_velocity(v, e.spec_acceleration());
    assert(spec_div_trunc(0, PHYSICS_TICK_RATE as int) == 0) by {
        vstd::arithmetic::div_mod::lemma_div_basics(PHYSICS_TICK_RATE as int);
    }
    assert(v1.x == 0 && v1.z == 0);
    assert(ty == spec_div_trunc(v1.y as int, PHYSICS_TICK_RATE as int));
    let p0 = e.spec_position();
    let sx = spec_sweep_axis(chunks, e.spec_box(), p0, Dimension::X, 0);
    assert(spec_move_axis(p0, Dimension::X, 0).x == p0.x);
    assert(sx.0 == p0);
    let sy = spec_sweep_axis(chunks, e.spec_box(), p0, Dimension::Y, ty);
    let p1 = spec_move_axis(p0, Dimension::Y, ty);
    assert(p1.y == p0.y + ty);
    assert(sy.0.y == p1.y + mo);
    assert(sy.0.y == (beneath + 1) * 1000 + e.spec_box().spec_origin().y) by {
        assert(e.spec_box().spec_min_off().y as int
            == -(e.spec_box().spec_origin().y as int));
    }
    assert(sy.0.x == p0.x && sy.0.z == p0.z);
    let sz = spec_sweep_axis(chunks, e.spec_box(), sy.0, Dimension::Z, 0);
    assert(sz.0 == sy.0);
    assert(spec_tick_result(e, chunks).1.y == 0);
}

} // verus!
