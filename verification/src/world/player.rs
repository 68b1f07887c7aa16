//! The player: a physics entity driven by input-intent flags and a facing
//! vector. Each tick maps the pressed keys onto a lateral velocity along
//! the facing direction, handles the edge-triggered jump, and advances the
//! body against the block grid.

use vstd::prelude::*;
use crate::math::div_trunc;
use crate::math::isqrt;
use crate::math::lemma_isqrt_is;
use crate::math::spec_div_trunc;
use crate::math::spec_isqrt;
use crate::physics::aabb::AABB;
use crate::physics::entity::RawEntity;
use crate::physics::entity::spec_tick_result;
use crate::settings::FACING_LIMIT;
use crate::settings::GRAVITY_Y;
use crate::settings::JUMP_SPEED;
use crate::settings::MOVE_SPEED;
use crate::settings::SPRINT_MULTIPLIER;
use crate::vectors::MilliVec3;
use crate::world::generation::sample_elevation;
use crate::world::generation::spec_elevation;
use crate::world::store::ChunkStore;

verus! {

/// The player.
pub struct Player {
    /// The inner physics entity determining position.
    pub entity: RawEntity,
    /// The camera's facing direction, in milli-units; components must stay
    /// within `FACING_LIMIT` for the player to remain well-formed.
    pub facing: MilliVec3,
    pub w_pressed: bool,
    pub a_pressed: bool,
    pub s_pressed: bool,
    pub d_pressed: bool,
    pub jump: bool,
    pub sprint: bool,
}

/// A lateral direction scaled to length 1000, or zero for a zero input.
pub open spec fn spec_norm1000(fx: int, fz: int) -> (int, int) {
    if fx == 0 && fz == 0 {
        (0, 0)
    } else {
        let len = spec_isqrt(fx * fx + fz * fz);
        (spec_div_trunc(fx * 1000, len), spec_div_trunc(fz * 1000, len))
    }
}

/// The velocity the controller sets before the physics step: the combined
/// intent of the pressed keys along the facing direction (doubled when
/// sprinting), the vertical component kept, except that a pending jump sets
/// it to the jump speed.
pub open spec fn spec_controller_velocity(p: Player) -> MilliVec3 {
    let dx: int = (if p.d_pressed { 1int } else { 0 }) - (if p.a_pressed { 1int } else { 0 });
    let dz: int = (if p.w_pressed { 1int } else { 0 }) - (if p.s_pressed { 1int } else { 0 });
    let f = spec_norm1000(p.spec_facing().x as int, p.spec_facing().z as int);
    let speed: int = MOVE_SPEED as int * (if p.sprint { SPRINT_MULTIPLIER as int } else { 1 });
    let cx = f.0 * dz + (-f.1) * dx;
    let cz = f.1 * dz + f.0 * dx;
    let vy: int = if p.jump { JUMP_SPEED as int } else { p.entity.spec_velocity().y as int };
    MilliVec3 {
        x: spec_div_trunc(cx * speed, 1000) as i64,
        y: vy as i64,
        z: spec_div_trunc(cz * speed, 1000) as i64,
    }
}

/// How a player tick relates the state before it to the state after it:
/// the controller velocity is set, the jump request is consumed, and the
/// body advances by one physics tick; flags and facing stay.
pub open spec fn spec_tick_post(pre: Player, post: Player, chunks: ChunkStore) -> bool {
    let e1 = pre.entity.spec_with_velocity(spec_controller_velocity(pre));
    &&& post.entity.spec_position() == spec_tick_result(e1, chunks).0
    &&& post.entity.spec_velocity() == spec_tick_result(e1, chunks).1
    &&& post.entity.spec_acceleration() == pre.entity.spec_acceleration()
    &&& post.entity.spec_box() == pre.entity.spec_box()
    &&& post.spec_facing() == pre.spec_facing()
    &&& post.w_pressed == pre.w_pressed
    &&& post.a_pressed == pre.a_pressed
    &&& post.s_pressed == pre.s_pressed
    &&& post.d_pressed == pre.d_pressed
    &&& post.jump == false
    &&& post.sprint == pre.sprint
}

/// Mirrors `spec_norm1000`.
fn norm1000(fx: i64, fz: i64) -> (r: (i64, i64))
    requires
        -FACING_LIMIT <= fx <= FACING_LIMIT,
        -FACING_LIMIT <= fz <= FACING_LIMIT,
    ensures
        (r.0 as int, r.1 as int) == spec_norm1000(fx as int, fz as int),
        -1000 <= r.0 <= 1000,
        -1000 <= r.1 <= 1000,
{
    if fx == 0 && fz == 0 {
        return (0, 0);
    }
    proof {
        assert(0 <= (fx as int) * (fx as int) <= 0x1_0000_0000_0000) by (nonlinear_arith)
            requires -0x100_0000 <= fx <= 0x100_0000;
        assert(0 <= (fz as int) * (fz as int) <= 0x1_0000_0000_0000) by (nonlinear_arith)
            requires -0x100_0000 <= fz <= 0x100_0000;
    }
    let n: u128 = ((fx as i128) * (fx as i128) + (fz as i128) * (fz as i128)) as u128;
    let len_u = isqrt(n);
    proof {
        lemma_isqrt_is(n as int, len_u as int);
        assert((len_u as int) * (len_u as int) <= n as int && (n as int) < 0x4_0000_0000_0000);
        assert(len_u < 0x200_0000) by (nonlinear_arith)
            requires
                (len_u as int) * (len_u as int) <= n as int,
                (n as int) < 0x4_0000_0000_0000,
                len_u >= 0;
        assert((n as int) >= 1) by (nonlinear_arith)
            requires
                n as int == (fx as int) * (fx as int) + (fz as int) * (fz as int),
                !(fx == 0 && fz == 0);
        if len_u == 0 {
            assert((n as int) < (len_u as int + 1) * (len_u as int + 1));
            assert((len_u as int + 1) * (len_u as int + 1) == 1) by (nonlinear_arith)
                requires len_u == 0;
            assert(false);
        }
        lemma_scaled_component_bound(fx as int, n as int, len_u as int);
        lemma_scaled_component_bound(fz as int, n as int, len_u as int);
    }
    let len = len_u as i64;
    (div_trunc(fx * 1000, len), div_trunc(fz * 1000, len))
}

/// A component of a vector, scaled by 1000 and divided by the vector's
/// length, lies within 1000 of zero.
proof fn lemma_scaled_component_bound(c: int, n: int, len: int)
    requires
        len >= 1,
        c * c <= n,
        n < (len + 1) * (len + 1),
    ensures
        -1000 <= spec_div_trunc(c * 1000, len) <= 1000,
{
    assert(-len <= c <= len) by (nonlinear_arith)
        requires c * c <= n < (len + 1) * (len + 1) && len >= 1;
    if c >= 0 {
        vstd::arithmetic::div_mod::lemma_div_pos_is_pos(c * 1000, len);
        assert(c * 1000 <= 1000 * len) by (nonlinear_arith)
            requires c <= len;
        vstd::arithmetic::div_mod::lemma_div_is_ordered(c * 1000, 1000 * len, len);
        vstd::arithmetic::div_mod::lemma_fundamental_div_mod_converse(
            1000 * len, len, 1000, 0);
    } else {
        let m = -c;
        assert(m * 1000 == -(c * 1000)) by (nonlinear_arith)
            requires m == -c;
        vstd::arithmetic::div_mod::lemma_div_pos_is_pos(m * 1000, len);
        assert(m * 1000 <= 1000 * len) by (nonlinear_arith)
            requires m <= len;
        vstd::arithmetic::div_mod::lemma_div_is_ordered(m * 1000, 1000 * len, len);
        vstd::arithmetic::div_mod::lemma_fundamental_div_mod_converse(
            1000 * len, len, 1000, 0);
    }
}

impl Player {
    /// The facing direction.
    pub open spec fn spec_facing(&self) -> MilliVec3 {
        self.facing
    }

    /// Well-formed player: valid body, bounded facing vector.
    pub open spec fn wf(&self) -> bool {
        &&& self.entity.wf()
        &&& -FACING_LIMIT <= self.spec_facing().x <= FACING_LIMIT
        &&& -FACING_LIMIT <= self.spec_facing().y <= FACING_LIMIT
        &&& -FACING_LIMIT <= self.spec_facing().z <= FACING_LIMIT
    }

    /// A new player standing two blocks above the terrain surface at the
    /// world origin, under gravity, with no input pressed.
    pub fn new() -> (r: Player)
        ensures
            r.wf(),
            r.entity.spec_position() == (MilliVec3 {
                x: 0,
                y: ((spec_elevation(0, 0) + 2) * 1000) as i64,
                z: 0,
            }),
            r.entity.spec_velocity() == (MilliVec3 { x: 0, y: 0, z: 0 }),
            r.entity.spec_acceleration() == (MilliVec3 { x: 0, y: GRAVITY_Y, z: 0 }),
            r.entity.spec_box().spec_sizes() == (MilliVec3 { x: 600, y: 1800, z: 600 }),
            r.entity.spec_box().spec_origin() == (MilliVec3 { x: 300, y: 1600, z: 300 }),
            r.spec_facing() == (MilliVec3 { x: 0, y: 0, z: 0 }),
            !r.w_pressed && !r.a_pressed && !r.s_pressed && !r.d_pressed,
            !r.jump && !r.sprint,
    {
        let y: i64 = (sample_elevation(0, 0) as i64 + 2) * 1000;
        let bb = match AABB::new(600, 1800, 600, MilliVec3 { x: 300, y: 1600, z: 300 }) {
            Some(b) => b,
            None => vstd::pervasive::unreached(),
        };
        let mut entity = RawEntity::new(MilliVec3 { x: 0, y, z: 0 }, bb);
        entity.set_acceleration(MilliVec3 { x: 0, y: GRAVITY_Y, z: 0 });
        Player {
            entity,
            facing: MilliVec3 { x: 0, y: 0, z: 0 },
            w_pressed: false,
            a_pressed: false,
            s_pressed: false,
            d_pressed: false,
            jump: false,
            sprint: false,
        }
    }

    /// Points the player's facing direction.
    pub fn set_facing(&mut self, f: MilliVec3)
        requires
            -FACING_LIMIT <= f.x <= FACING_LIMIT,
            -FACING_LIMIT <= f.y <= FACING_LIMIT,
            -FACING_LIMIT <= f.z <= FACING_LIMIT,
        ensures
            final(self).spec_facing() == f,
            final(self).entity == old(self).entity,
            final(self).w_pressed == old(self).w_pressed,
            final(self).a_pressed == old(self).a_pressed,
            final(self).s_pressed == old(self).s_pressed,
            final(self).d_pressed == old(self).d_pressed,
            final(self).jump == old(self).jump,
            final(self).sprint == old(self).sprint,
            old(self).wf() ==> final(self).wf(),
    {
        self.facing = f;
    }

    /// The facing direction.
    pub fn get_facing(&self) -> (r: MilliVec3)
        ensures
            r == self.spec_facing(),
    {
        self.facing
    }

    /// One player tick: set the controller velocity, consume a pending
    /// jump, and advance the body against the block grid.
    #[verifier::rlimit(100)]
    pub fn tick(&mut self, chunks: &ChunkStore)
        requires
            old(self).wf(),
            chunks.wf(),
        ensures
            final(self).wf(),
            spec_tick_post(*old(self), *final(self), *chunks),
    {
        let mut desired_x: i64 = 0;
        let mut desired_z: i64 = 0;
        if self.w_pressed {
            desired_z += 1;
        }
        if self.a_pressed {
            desired_x -= 1;
        }
        if self.s_pressed {
            desired_z -= 1;
        }
        if self.d_pressed {
            desired_x += 1;
        }

        let (fwd_x, fwd_z) = norm1000(self.facing.x, self.facing.z);
        let right_x = -fwd_z;
        let right_z = fwd_x;

        let speed: i64 = if self.sprint {
            MOVE_SPEED * SPRINT_MULTIPLIER
        } else {
            MOVE_SPEED
        };

        let cx: i64 = fwd_x * desired_z + right_x * desired_x;
        let cz: i64 = fwd_z * desired_z + right_z * desired_x;
        let vx = div_trunc(cx * speed, 1000);
        let vz = div_trunc(cz * speed, 1000);

        let vy = if self.jump {
            self.jump = false;
            JUMP_SPEED
        } else {
            self.entity.get_velocity().y
        };

        self.entity.set_velocity(MilliVec3 { x: vx, y: vy, z: vz });
        self.entity.tick(chunks);
    }
}

impl Default for Player {
    /// The starting player, exactly as `Player::new` builds it.
    fn default() -> (r: Player)
        ensures
            r.wf(),
            r.entity.spec_position() == (MilliVec3 {
                x: 0,
                y: ((spec_elevation(0, 0) + 2) * 1000) as i64,
                z: 0,
            }),
            r.entity.spec_velocity() == (MilliVec3 { x: 0, y: 0, z: 0 }),
            r.entity.spec_acceleration() == (MilliVec3 { x: 0, y: GRAVITY_Y, z: 0 }),
            r.entity.spec_box().spec_sizes() == (MilliVec3 { x: 600, y: 1800, z: 600 }),
            r.entity.spec_box().spec_origin() == (MilliVec3 { x: 300, y: 1600, z: 300 }),
            r.spec_facing() == (MilliVec3 { x: 0, y: 0, z: 0 }),
            !r.w_pressed && !r.a_pressed && !r.s_pressed && !r.d_pressed,
            !r.jump && !r.sprint,
    {
        Player::new()
    }
}

} // verus!
