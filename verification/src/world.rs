//! The game world: position types, chunks of blocks, procedural generation,
//! and the streaming manager that keeps chunks loaded around the player.

use vstd::prelude::*;

pub mod block;
pub mod chunk;
pub mod generation;
pub mod mesh;
pub mod player;
pub mod scratch;
pub mod store;

verus! {

/// A lateral (X, Z) position in world space, in blocks. Chunk origins are
/// always multiples of the chunk size on both axes.
#[derive(Copy, Clone, Debug, PartialEq, Eq, Structural)]
pub struct WorldPos {
    pub x: i64,
    pub z: i64,
}

/// A full 3D block coordinate; `y` is bounded because world height is fixed.
#[derive(Copy, Clone, Debug, PartialEq, Eq, Structural)]
pub struct ThreeDimPos {
    pub x: i64,
    pub y: u8,
    pub z: i64,
}


use crate::math::floor_div;
use crate::physics::entity::spec_solid_at;
use crate::settings::FACING_LIMIT;
use crate::settings::POS_LIMIT;
use crate::settings::RADIUS_SQ;
use crate::settings::TICK_NANOS;
use crate::vectors::MilliVec3;
use crate::world::block::BlockType;
use crate::world::chunk::Chunk;
use crate::world::chunk::aligned;
use crate::world::chunk::cords_to_chunk;
use crate::world::chunk::cords_to_local;
use crate::world::chunk::spec_canopy_out;
use crate::world::chunk::spec_cords_to_chunk;
use crate::world::chunk::spec_gen_base;
use crate::world::chunk::in_chunk;
use crate::world::chunk::world_cell;
use crate::world::block::BlockSide;
use crate::world::generation::spec_elevation;
use crate::settings::GRAVITY_Y;
use crate::world::mesh::Mesh;
use crate::world::player::Player;
use crate::world::player::spec_tick_post;
use crate::world::scratch::ScratchMap;
use crate::world::store::ChunkStore;


/// Squared lateral distance between two positions.
pub open spec fn spec_dist2(a: WorldPos, b: WorldPos) -> int {
    (a.x - b.x) * (a.x - b.x) + (a.z - b.z) * (a.z - b.z)
}

/// Ray-fraction comparison: each accumulator is a fraction `n / d` with a
/// non-negative numerator; a zero denominator stands for infinity.
pub open spec fn spec_frac_le(n1: int, d1: int, n2: int, d2: int) -> bool {
    if d1 == 0 {
        d2 == 0
    } else if d2 == 0 {
        true
    } else {
        n1 * d2 <= n2 * d1
    }
}

/// The grid-stepping raycast: starting from cell (bx, by, bz) with per-axis
/// parametric distances `n / d` to the next cell boundary, visit cells in
/// ray order, stopping at the first loaded solid block, or yielding `None`
/// once the step budget is spent.
pub open spec fn spec_dda(
    chunks: ChunkStore,
    bx: int, by: int, bz: int,
    nx: int, ny: int, nz: int,
    dx: int, dy: int, dz: int,
    sx: int, sy: int, sz: int,
    dist: int,
) -> Option<ThreeDimPos>
    decreases 9 - dist,
{
    if spec_solid_at(chunks, bx, by, bz) {
        Some(ThreeDimPos { x: bx as i64, y: by as u8, z: bz as i64 })
    } else if dist >= 8 || dist < 0 {
        None
    } else if spec_frac_le(nx, dx, ny, dy) && spec_frac_le(nx, dx, nz, dz) {
        spec_dda(chunks, bx + sx, by, bz, nx + 1000, ny, nz, dx, dy, dz, sx, sy, sz, dist + 1)
    } else if spec_frac_le(ny, dy, nz, dz) {
        spec_dda(chunks, bx, by + sy, bz, nx, ny + 1000, nz, dx, dy, dz, sx, sy, sz, dist + 1)
    } else {
        spec_dda(chunks, bx, by, bz + sz, nx, ny, nz + 1000, dx, dy, dz, sx, sy, sz, dist + 1)
    }
}

/// The step direction of a ray component.
pub open spec fn spec_step_of(c: int) -> int {
    if c > 0 {
        1
    } else {
        -1
    }
}

/// The magnitude of a ray component: the fraction denominator of its axis.
pub open spec fn spec_den_of(c: int) -> int {
    if c >= 0 {
        c
    } else {
        -c
    }
}

/// The distance, in milliblocks, from a starting coordinate to the first
/// cell boundary in the ray's direction: the initial fraction numerator.
pub open spec fn spec_init_num(s: int, c: int) -> int {
    let b = s / 1000;
    if c > 0 {
        (b + 1) * 1000 - s
    } else {
        s - b * 1000
    }
}

/// What the highlight becomes after a raycast from `start` along `ray`: a
/// zero ray leaves the previous highlight untouched.
pub open spec fn spec_highlight_from(
    chunks: ChunkStore, start: MilliVec3, ray: MilliVec3, prev: Option<ThreeDimPos>,
) -> Option<ThreeDimPos> {
    if ray.x == 0 && ray.y == 0 && ray.z == 0 {
        prev
    } else {
        spec_dda(
            chunks,
            (start.x as int) / 1000, (start.y as int) / 1000, (start.z as int) / 1000,
            spec_init_num(start.x as int, ray.x as int),
            spec_init_num(start.y as int, ray.y as int),
            spec_init_num(start.z as int, ray.z as int),
            spec_den_of(ray.x as int), spec_den_of(ray.y as int), spec_den_of(ray.z as int),
            spec_step_of(ray.x as int), spec_step_of(ray.y as int), spec_step_of(ray.z as int),
            0,
        )
    }
}

/// The initial fraction numerator lies within one block.
proof fn lemma_init_num_range(s: int, c: int)
    requires
        i64::MIN <= s <= i64::MAX,
    ensures
        0 <= spec_init_num(s, c) <= 1000,
{
    vstd::arithmetic::div_mod::lemma_fundamental_div_mod(s, 1000);
    vstd::arithmetic::div_mod::lemma_mod_bound(s, 1000);
}

/// Mirrors `spec_dda` for a non-zero ray.
#[verifier::rlimit(60)]
fn raycast(chunks: &ChunkStore, start: MilliVec3, ray: MilliVec3) -> (r: Option<ThreeDimPos>)
    requires
        chunks.wf(),
        !(ray.x == 0 && ray.y == 0 && ray.z == 0),
        -FACING_LIMIT <= ray.x <= FACING_LIMIT,
        -FACING_LIMIT <= ray.y <= FACING_LIMIT,
        -FACING_LIMIT <= ray.z <= FACING_LIMIT,
        -POS_LIMIT <= start.x <= POS_LIMIT,
        -POS_LIMIT <= start.y <= POS_LIMIT,
        -POS_LIMIT <= start.z <= POS_LIMIT,
    ensures
        r == spec_highlight_from(*chunks, start, ray, None),
{
    let mut bx = floor_div(start.x, 1000);
    let mut by = floor_div(start.y, 1000);
    let mut bz = floor_div(start.z, 1000);
    let sx: i64 = if ray.x > 0 { 1 } else { -1 };
    let sy: i64 = if ray.y > 0 { 1 } else { -1 };
    let sz: i64 = if ray.z > 0 { 1 } else { -1 };
    let dx: i64 = if ray.x >= 0 { ray.x } else { -ray.x };
    let dy: i64 = if ray.y >= 0 { ray.y } else { -ray.y };
    let dz: i64 = if ray.z >= 0 { ray.z } else { -ray.z };
    proof {
        lemma_init_num_range(start.x as int, ray.x as int);
        lemma_init_num_range(start.y as int, ray.y as int);
        lemma_init_num_range(start.z as int, ray.z as int);
        vstd::arithmetic::div_mod::lemma_fundamental_div_mod(start.x as int, 1000);
        vstd::arithmetic::div_mod::lemma_fundamental_div_mod(start.y as int, 1000);
        vstd::arithmetic::div_mod::lemma_fundamental_div_mod(start.z as int, 1000);
        vstd::arithmetic::div_mod::lemma_mod_bound(start.x as int, 1000);
        vstd::arithmetic::div_mod::lemma_mod_bound(start.y as int, 1000);
        vstd::arithmetic::div_mod::lemma_mod_bound(start.z as int, 1000);
    }
    let mut nx: i64 = if ray.x > 0 { (bx + 1) * 1000 - start.x } else { start.x - bx * 1000 };
    let mut ny: i64 = if ray.y > 0 { (by + 1) * 1000 - start.y } else { start.y - by * 1000 };
    let mut nz: i64 = if ray.z > 0 { (bz + 1) * 1000 - start.z } else { start.z - bz * 1000 };
    let mut dist: usize = 0;
    let ghost target = spec_dda(
        *chunks, bx as int, by as int, bz as int, nx as int, ny as int, nz as int,
        dx as int, dy as int, dz as int, sx as int, sy as int, sz as int, 0);
    loop
        invariant
            chunks.wf(),
            dist <= 8,
            0 <= nx <= 1000 + 1000 * dist,
            0 <= ny <= 1000 + 1000 * dist,
            0 <= nz <= 1000 + 1000 * dist,
            0 <= dx <= FACING_LIMIT,
            0 <= dy <= FACING_LIMIT,
            0 <= dz <= FACING_LIMIT,
            sx == 1 || sx == -1,
            sy == 1 || sy == -1,
            sz == 1 || sz == -1,
            -0x3000_0000_0000_0000 - dist <= bx <= 0x3000_0000_0000_0000 + dist,
            -0x3000_0000_0000_0000 - dist <= by <= 0x3000_0000_0000_0000 + dist,
            -0x3000_0000_0000_0000 - dist <= bz <= 0x3000_0000_0000_0000 + dist,
            target == spec_dda(
                *chunks, bx as int, by as int, bz as int,
                nx as int, ny as int, nz as int,
                dx as int, dy as int, dz as int,
                sx as int, sy as int, sz as int, dist as int),
        ensures
            target == spec_dda(
                *chunks, bx as int, by as int, bz as int,
                nx as int, ny as int, nz as int,
                dx as int, dy as int, dz as int,
                sx as int, sy as int, sz as int, dist as int),
            (spec_solid_at(*chunks, bx as int, by as int, bz as int) && target == Some(
                ThreeDimPos { x: bx, y: by as u8, z: bz })) || (dist >= 8 && target
                == Option::<ThreeDimPos>::None),
        decreases 10 - dist,
    {
        let solid = if by >= 0 && by <= 255 {
            match chunks.get_block(ThreeDimPos { x: bx, y: by as u8, z: bz }) {
                Some(b) => b.is_solid(),
                None => false,
            }
        } else {
            false
        };
        if solid {
            break;
        }
        if dist >= 8 {
            break;
        }
        proof {
            assert(0 <= (nx as int) * (dy as int) <= 0x2_0000_0000_0000
                && 0 <= (ny as int) * (dx as int) <= 0x2_0000_0000_0000
                && 0 <= (nx as int) * (dz as int) <= 0x2_0000_0000_0000
                && 0 <= (nz as int) * (dx as int) <= 0x2_0000_0000_0000
                && 0 <= (ny as int) * (dz as int) <= 0x2_0000_0000_0000
                && 0 <= (nz as int) * (dy as int) <= 0x2_0000_0000_0000)
                by (nonlinear_arith)
                requires
                    0 <= nx <= 11000 && 0 <= ny <= 11000 && 0 <= nz <= 11000
                        && 0 <= dx <= 1_000_000 && 0 <= dy <= 1_000_000
                        && 0 <= dz <= 1_000_000;
        }
        let le_xy = if dx == 0 { dy == 0 } else if dy == 0 { true } else { nx * dy <= ny * dx };
        let le_xz = if dx == 0 { dz == 0 } else if dz == 0 { true } else { nx * dz <= nz * dx };
        let le_yz = if dy == 0 { dz == 0 } else if dz == 0 { true } else { ny * dz <= nz * dy };
        if le_xy && le_xz {
            bx += sx;
            nx += 1000;
        } else if le_yz {
            by += sy;
            ny += 1000;
        } else {
            bz += sz;
            nz += 1000;
        }
        dist += 1;
    }
    if by >= 0 && by <= 255 {
        let solid = match chunks.get_block(ThreeDimPos { x: bx, y: by as u8, z: bz }) {
            Some(b) => b.is_solid(),
            None => false,
        };
        if solid {
            return Some(ThreeDimPos { x: bx, y: by as u8, z: bz });
        }
    }
    None
}


/// A chunk whose grid is procedurally faithful: every cell holds what the
/// generator produces for its absolute position, except where a claimed
/// scratch entry placed spilled-over leaves.
pub open spec fn chunk_generated(c: Chunk) -> bool {
    forall|lx: int, y: int, lz: int|
        0 <= lx < 16 && 0 <= y < 256 && 0 <= lz < 16 ==> (
            #[trigger] c.block_at(lx, y, lz) == spec_gen_base(c.origin(), lx, y, lz)
                || c.block_at(lx, y, lz) == BlockType::Leaves)
}

/// Every loaded chunk is procedurally faithful.
pub open spec fn chunks_generated(s: ChunkStore) -> bool {
    forall|i: int| 0 <= i < s.chunks_seq().len()
        ==> chunk_generated(#[trigger] s.chunks_seq()[i])
}

/// Holds state of the game world itself: loaded chunks, pending scratch
/// blocks, the player, the physics-tick gate and the current highlight.
pub struct GameWorld {
    /// Currently loaded chunks.
    chunks: ChunkStore,
    /// Blocks generated into chunks that are yet to be created.
    block_scratch: ScratchMap,
    /// The player.
    player: Player,
    /// When the last physics tick ran, in nanoseconds of the caller's
    /// monotonic clock; enforces the tick rate.
    last_tick_nanos: u64,
    /// The highlighted block, if there is one.
    highlight: Option<ThreeDimPos>,
}

impl GameWorld {
    /// The loaded chunks.
    pub closed spec fn spec_chunks(&self) -> ChunkStore {
        self.chunks
    }

    /// The pending scratch blocks.
    pub closed spec fn spec_scratch(&self) -> ScratchMap {
        self.block_scratch
    }

    /// The player.
    pub closed spec fn spec_player(&self) -> Player {
        self.player
    }

    /// The time of the last physics tick.
    pub closed spec fn spec_last_tick(&self) -> u64 {
        self.last_tick_nanos
    }

    /// The current highlight.
    pub closed spec fn spec_highlight(&self) -> Option<ThreeDimPos> {
        self.highlight
    }

    /// World invariants: well-formed chunks with unique origins, every mesh
    /// consistent with its grid, a well-formed scratch map holding only
    /// leaves, a well-formed player, and no scratch entry whose owning
    /// chunk is already loaded.
    pub open spec fn wf(&self) -> bool {
        &&& self.spec_chunks().wf()
        &&& self.spec_chunks().meshes_current()
        &&& self.spec_scratch().wf()
        &&& self.spec_player().wf()
        &&& forall|p: ThreeDimPos| #[trigger] self.spec_scratch()@.contains_key(p)
            ==> self.spec_scratch()@[p] == BlockType::Leaves
        &&& forall|p: ThreeDimPos| #[trigger] self.spec_scratch()@.contains_key(p)
            ==> !self.spec_chunks().spec_has(spec_cords_to_chunk(WorldPos { x: p.x, z: p.z }))
        &&& chunks_generated(self.spec_chunks())
    }

    /// A fresh world: no chunks, no scratch, a new player, no highlight.
    pub fn new() -> (r: GameWorld)
        ensures
            r.wf(),
            r.spec_chunks().chunks_seq() == Seq::<Chunk>::empty(),
            r.spec_scratch()@ =~= Map::<ThreeDimPos, BlockType>::empty(),
            r.spec_last_tick() == 0,
            r.spec_highlight() == Option::<ThreeDimPos>::None,
            r.spec_player().entity.spec_position() == (MilliVec3 {
                x: 0,
                y: ((spec_elevation(0, 0) + 2) * 1000) as i64,
                z: 0,
            }),
            r.spec_player().entity.spec_velocity() == (MilliVec3 { x: 0, y: 0, z: 0 }),
            r.spec_player().entity.spec_acceleration()
                == (MilliVec3 { x: 0, y: GRAVITY_Y, z: 0 }),
            r.spec_player().entity.spec_box().spec_sizes()
                == (MilliVec3 { x: 600, y: 1800, z: 600 }),
            r.spec_player().entity.spec_box().spec_origin()
                == (MilliVec3 { x: 300, y: 1600, z: 300 }),
            r.spec_player().spec_facing() == (MilliVec3 { x: 0, y: 0, z: 0 }),
            !r.spec_player().w_pressed && !r.spec_player().a_pressed
                && !r.spec_player().s_pressed && !r.spec_player().d_pressed,
            !r.spec_player().jump && !r.spec_player().sprint,
    {
        GameWorld {
            chunks: ChunkStore::new(),
            block_scratch: ScratchMap::new(),
            player: Player::new(),
            last_tick_nanos: 0,
            highlight: None,
        }
    }

    /// The meshes to be rendered, one per loaded chunk.
    pub fn get_meshes(&self) -> (r: Vec<&Mesh>)
        ensures
            r@.len() == self.spec_chunks().chunks_seq().len(),
            forall|i: int| 0 <= i < r@.len()
                ==> *r@[i] == (#[trigger] self.spec_chunks().chunks_seq()[i]).spec_mesh(),
    {
        let mut meshes: Vec<&Mesh> = Vec::new();
        let n = self.chunks.len();
        let mut i: usize = 0;
        while i < n
            invariant
                n == self.spec_chunks().chunks_seq().len(),
                i <= n,
                meshes@.len() == i,
                forall|j: int| 0 <= j < i
                    ==> *meshes@[j] == (#[trigger] self.spec_chunks().chunks_seq()[j]).spec_mesh(),
            decreases n - i,
        {
            meshes.push(self.chunks.at(i).mesh());
            i += 1;
        }
        meshes
    }

    /// The block at an absolute position; `None` when the owning chunk is
    /// not currently loaded.
    pub fn get_block(&self, pos: ThreeDimPos) -> (r: Option<BlockType>)
        requires
            self.wf(),
        ensures
            r == self.spec_chunks().spec_block(pos),
    {
        self.chunks.get_block(pos)
    }

    /// Shared access to the player.
    pub fn player(&self) -> (r: &Player)
        ensures
            *r == self.spec_player(),
    {
        &self.player
    }

    /// Mutable access to the player. A caller that leaves the player
    /// ill-formed must mend it before the next tick.
    pub fn player_mut(&mut self) -> (r: &mut Player)
        ensures
            *r == old(self).spec_player(),
            final(self).spec_player() == *final(r),
            final(self).spec_chunks() == old(self).spec_chunks(),
            final(self).spec_scratch() == old(self).spec_scratch(),
            final(self).spec_last_tick() == old(self).spec_last_tick(),
            final(self).spec_highlight() == old(self).spec_highlight(),
    {
        &mut self.player
    }

    /// The currently highlighted block position, if any.
    pub fn get_highlight(&self) -> (r: Option<ThreeDimPos>)
        ensures
            r == self.spec_highlight(),
    {
        self.highlight
    }

    /// Executes a physics tick, gated by the fixed tick period: called with
    /// the current monotonic time in nanoseconds, it does nothing until a
    /// full period has elapsed since the last tick, and then runs the
    /// highlight raycast followed by the player's rigid-body step.
    pub fn do_tick(&mut self, now_nanos: u64)
        requires
            old(self).wf(),
        ensures
            final(self).wf(),
            final(self).spec_chunks() == old(self).spec_chunks(),
            final(self).spec_scratch() == old(self).spec_scratch(),
            (now_nanos as int) < old(self).spec_last_tick() + TICK_NANOS
                ==> *final(self) == *old(self),
            (now_nanos as int) >= old(self).spec_last_tick() + TICK_NANOS ==> {
                &&& final(self).spec_last_tick() == now_nanos
                &&& final(self).spec_highlight() == spec_highlight_from(
                    old(self).spec_chunks(),
                    old(self).spec_player().entity.spec_position(),
                    old(self).spec_player().facing,
                    old(self).spec_highlight())
                &&& spec_tick_post(old(self).spec_player(), final(self).spec_player(),
                    old(self).spec_chunks())
            },
    {
        if (now_nanos as u128) < (self.last_tick_nanos as u128) + (TICK_NANOS as u128) {
            return;
        }
        self.last_tick_nanos = now_nanos;

        let f = self.player.facing;
        if !(f.x == 0 && f.y == 0 && f.z == 0) {
            let h = raycast(&self.chunks, self.player.entity.get_precise_pos(), f);
            self.highlight = h;
        }

        self.player.tick(&self.chunks);
    }
}


/// The origin of the chunk containing a player's lateral block position.
pub open spec fn spec_player_chunk(p: Player) -> WorldPos {
    spec_cords_to_chunk(WorldPos {
        x: (p.entity.spec_position().x as int / 1000) as i64,
        z: (p.entity.spec_position().z as int / 1000) as i64,
    })
}

/// The square of aligned origins the streaming update scans around the
/// player's chunk.
pub open spec fn within_load_box(o: WorldPos, pc: WorldPos) -> bool {
    pc.x - 112 <= o.x <= pc.x + 112 && pc.z - 112 <= o.z <= pc.z + 112
}

/// Whether `wc` lies in the out-of-chunk canopy of a chunk that `cur`
/// holds but `prev` did not: the provenance of a leaf block that one
/// streaming update spilled and applied.
pub open spec fn spill_source(cur: ChunkStore, prev: ChunkStore, wc: ThreeDimPos) -> bool {
    exists|o2: WorldPos|
        #[trigger] cur.spec_has(o2) && !prev.spec_has(o2) && spec_canopy_out(o2, wc)
}

/// Chunk-level account of a streaming update: every loaded chunk sits at
/// its own origin; a surviving chunk keeps its highlight marker, a created
/// one carries the marker `Chunk::new` sets.
pub open spec fn stream_chunks_accounted(cur: ChunkStore, prev: ChunkStore) -> bool {
    forall|o: WorldPos| #[trigger] cur.spec_has(o) ==> cur.spec_at(o).origin() == o
        && cur.spec_at(o).highlight_marker() == (if prev.spec_has(o) {
            prev.spec_at(o).highlight_marker()
        } else {
            Some((0usize, spec_elevation(o.x, o.z) as usize, 0usize, BlockSide::Top))
        })
}

/// Cell-level account of a streaming update: each cell holds its base
/// value — the entry state's cell for a surviving chunk, the generator's
/// output for a created one — except where an applied scratch block put
/// leaves, and each such leaf traces to a pending entry of the entry state
/// or to the canopy spill of a chunk this call created.
pub open spec fn stream_cells_accounted(
    cur: ChunkStore, prev: ChunkStore, prev_scratch: Map<ThreeDimPos, BlockType>,
) -> bool {
    forall|o: WorldPos, lx: int, y: int, lz: int|
        cur.spec_has(o) && 0 <= lx < 16 && 0 <= y < 256 && 0 <= lz < 16 ==> {
            let b = #[trigger] cur.spec_at(o).block_at(lx, y, lz);
            ||| b == (if prev.spec_has(o) {
                prev.spec_at(o).block_at(lx, y, lz)
            } else {
                spec_gen_base(o, lx, y, lz)
            })
            ||| (b == BlockType::Leaves && (
                prev_scratch.contains_key(world_cell(o, lx, y, lz))
                    || spill_source(cur, prev, world_cell(o, lx, y, lz))))
        }
}

/// Scratch provenance: every pending entry holds leaves and is either an
/// entry of the entry state or the spill of a chunk this call created.
pub open spec fn stream_scratch_accounted(
    cur_s: Map<ThreeDimPos, BlockType>, cur: ChunkStore, prev: ChunkStore,
    prev_s: Map<ThreeDimPos, BlockType>,
) -> bool {
    forall|p: ThreeDimPos| #[trigger] cur_s.contains_key(p) ==> (
        cur_s[p] == BlockType::Leaves
            && (prev_s.contains_key(p) || spill_source(cur, prev, p)))
}

/// No pending block is ever silently dropped: an entry of the entry state
/// is either still pending with its value kept, or its owning chunk is
/// loaded and holds the absorbed leaves at that position.
pub open spec fn stream_pending_accounted(
    cur_s: Map<ThreeDimPos, BlockType>, cur: ChunkStore,
    prev_s: Map<ThreeDimPos, BlockType>,
) -> bool {
    forall|p: ThreeDimPos| #[trigger] prev_s.contains_key(p) ==> (
        (cur_s.contains_key(p) && cur_s[p] == prev_s[p])
            || (cur.spec_has(spec_cords_to_chunk(WorldPos { x: p.x, z: p.z }))
                && cur.spec_block(p) == Some(BlockType::Leaves)))
}

/// An aligned origin strictly inside the loading radius of an aligned
/// centre lies within the scanned box: its offsets are multiples of 16
/// below 128.
proof fn lemma_aligned_near(o: WorldPos, pc: WorldPos)
    requires
        aligned(o),
        aligned(pc),
        spec_dist2(o, pc) < RADIUS_SQ,
    ensures
        within_load_box(o, pc),
{
    lemma_aligned_offset_small(o.x as int, pc.x as int, o.z as int - pc.z as int);
    lemma_aligned_offset_small(o.z as int, pc.z as int, o.x as int - pc.x as int);
}

/// Helper: an aligned offset whose square plus another square stays below
/// the squared radius is at most 112.
proof fn lemma_aligned_offset_small(a: int, b: int, other: int)
    requires
        a % 16 == 0,
        b % 16 == 0,
        (a - b) * (a - b) + other * other < 16384,
    ensures
        -112 <= a - b <= 112,
{
    let d = a - b;
    vstd::arithmetic::div_mod::lemma_fundamental_div_mod(a, 16);
    vstd::arithmetic::div_mod::lemma_fundamental_div_mod(b, 16);
    let q = a / 16 - b / 16;
    assert(d == 16 * q);
    assert(other * other >= 0) by (nonlinear_arith);
    assert(d * d < 16384);
    assert(-7 <= q <= 7) by (nonlinear_arith)
        requires d == 16 * q && d * d < 16384;
    assert(-112 <= 16 * q <= 112) by (nonlinear_arith)
        requires -7 <= q <= 7;
}

/// No aligned origin inside the scanned box sits at exactly the squared
/// radius from an aligned centre: 64 is not a sum of two squares of
/// magnitude at most 7.
proof fn lemma_no_ring_in_box(o: WorldPos, pc: WorldPos)
    requires
        aligned(o),
        aligned(pc),
        within_load_box(o, pc),
    ensures
        spec_dist2(o, pc) != RADIUS_SQ,
{
    let dx = o.x as int - pc.x as int;
    let dz = o.z as int - pc.z as int;
    vstd::arithmetic::div_mod::lemma_fundamental_div_mod(o.x as int, 16);
    vstd::arithmetic::div_mod::lemma_fundamental_div_mod(pc.x as int, 16);
    vstd::arithmetic::div_mod::lemma_fundamental_div_mod(o.z as int, 16);
    vstd::arithmetic::div_mod::lemma_fundamental_div_mod(pc.z as int, 16);
    let qa = o.x as int / 16 - pc.x as int / 16;
    let qb = o.z as int / 16 - pc.z as int / 16;
    assert(dx == 16 * qa && dz == 16 * qb);
    assert(-7 <= qa <= 7 && -7 <= qb <= 7) by (nonlinear_arith)
        requires
            dx == 16 * qa && dz == 16 * qb && -112 <= dx <= 112 && -112 <= dz <= 112;
    assert(dx * dx + dz * dz == 256 * (qa * qa + qb * qb)) by (nonlinear_arith)
        requires dx == 16 * qa && dz == 16 * qb;
    if dx * dx + dz * dz == 16384 {
        assert(qa * qa + qb * qb == 64);
        assert(false) by (nonlinear_arith)
            requires -7 <= qa <= 7 && -7 <= qb <= 7 && qa * qa + qb * qb == 64;
    }
}

/// A position laterally inside an aligned chunk belongs to that chunk, and
/// its local coordinates are its remainders by 16.
proof fn lemma_owner_of(origin: WorldPos, p: ThreeDimPos)
    requires
        aligned(origin),
        in_chunk(origin, p),
    ensures
        spec_cords_to_chunk(WorldPos { x: p.x, z: p.z }) == origin,
        (p.x as int) % 16 == p.x - origin.x,
        (p.z as int) % 16 == p.z - origin.z,
{
    vstd::arithmetic::div_mod::lemma_fundamental_div_mod(origin.x as int, 16);
    vstd::arithmetic::div_mod::lemma_fundamental_div_mod(origin.z as int, 16);
    vstd::arithmetic::div_mod::lemma_fundamental_div_mod_converse(
        p.x as int, 16, origin.x as int / 16, p.x - origin.x);
    vstd::arithmetic::div_mod::lemma_fundamental_div_mod_converse(
        p.z as int, 16, origin.z as int / 16, p.z - origin.z);
}

/// Two multiples of 16 within one chunk width of each other are equal.
proof fn lemma_aligned_unique(a: int, b: int)
    requires
        a % 16 == 0,
        b % 16 == 0,
        0 <= a - b < 16,
    ensures
        a == b,
{
    vstd::arithmetic::div_mod::lemma_fundamental_div_mod(a, 16);
    vstd::arithmetic::div_mod::lemma_fundamental_div_mod(b, 16);
    let qa = a / 16;
    let qb = b / 16;
    assert(a == 16 * qa && b == 16 * qb);
    assert(16 * qa - 16 * qb == 16 * (qa - qb)) by (nonlinear_arith);
    assert(0 <= 16 * (qa - qb) < 16);
    assert(qa == qb) by (nonlinear_arith)
        requires 0 <= 16 * (qa - qb) < 16;
}

/// Quotients by 1000 of in-border positions stay within the border.
proof fn lemma_block_coord_in_border(v: int)
    requires
        -POS_LIMIT <= v <= POS_LIMIT,
    ensures
        -POS_LIMIT <= v / 1000 <= POS_LIMIT,
{
    let q = v / 1000;
    let m = v % 1000;
    vstd::arithmetic::div_mod::lemma_fundamental_div_mod(v, 1000);
    vstd::arithmetic::div_mod::lemma_mod_bound(v, 1000);
    assert(-POS_LIMIT <= q <= POS_LIMIT) by (nonlinear_arith)
        requires
            1000 * q + m == v && 0 <= m < 1000 && -POS_LIMIT <= v <= POS_LIMIT
                && POS_LIMIT == 0x800_0000_0000_0000i64;
}


/// One chunk creation step of the streaming update preserves the
/// accounting of chunks, cells and scratch entries.
#[verifier::rlimit(100)]
proof fn lemma_stream_insert_step(
    pre: ChunkStore, post: ChunkStore,
    s_pre: ScratchMap, s_post: ScratchMap,
    oldc: ChunkStore, olds: ScratchMap,
    c: Chunk, pos: WorldPos, pc: WorldPos,
)
    requires
        aligned(pos),
        aligned(pc),
        within_load_box(pos, pc),
        spec_dist2(pos, pc) <= RADIUS_SQ,
        !pre.spec_has(pos),
        // survivors of the unload phase are still present
        forall|o: WorldPos| oldc.spec_has(o) && spec_dist2(o, pc) < RADIUS_SQ
            ==> #[trigger] pre.spec_has(o),
        // entry accounting
        forall|p: ThreeDimPos| #[trigger] olds@.contains_key(p)
            ==> olds@[p] == BlockType::Leaves,
        forall|p: ThreeDimPos| #[trigger] s_pre@.contains_key(p)
            ==> s_pre@[p] == BlockType::Leaves,
        stream_chunks_accounted(pre, oldc),
        stream_cells_accounted(pre, oldc, olds@),
        stream_scratch_accounted(s_pre@, pre, oldc, olds@),
        stream_pending_accounted(s_pre@, pre, olds@),
        // what the chunk constructor did
        c.wf(),
        c.origin() == pos,
        c.highlight_marker() == Some((
            0usize, spec_elevation(pos.x, pos.z) as usize, 0usize, BlockSide::Top)),
        forall|lx: int, y: int, lz: int|
            0 <= lx < 16 && 0 <= y < 256 && 0 <= lz < 16 ==>
                #[trigger] c.block_at(lx, y, lz)
                    == crate::world::chunk::spec_gen_block(pos, s_pre@, lx, y, lz),
        forall|p: ThreeDimPos| #[trigger] s_post@.contains_key(p) <==> (
            spec_canopy_out(pos, p)
                || (s_pre@.contains_key(p) && !in_chunk(pos, p))),
        forall|p: ThreeDimPos| spec_canopy_out(pos, p)
            ==> #[trigger] s_post@[p] == BlockType::Leaves,
        forall|p: ThreeDimPos| !spec_canopy_out(pos, p) && s_pre@.contains_key(p)
            && !in_chunk(pos, p) ==> #[trigger] s_post@[p] == s_pre@[p],
        // what the insert did
        forall|o: WorldPos| #[trigger] post.spec_has(o)
            <==> (pre.spec_has(o) || o == pos),
        forall|o: WorldPos| pre.spec_has(o)
            ==> #[trigger] post.spec_at(o) == pre.spec_at(o),
        post.spec_at(pos) == c,
    ensures
        !oldc.spec_has(pos),
        stream_chunks_accounted(post, oldc),
        stream_cells_accounted(post, oldc, olds@),
        stream_scratch_accounted(s_post@, post, oldc, olds@),
        stream_pending_accounted(s_post@, post, olds@),
{
    // the created chunk was not loaded when the call began
    if oldc.spec_has(pos) {
        lemma_no_ring_in_box(pos, pc);
        assert(spec_dist2(pos, pc) < RADIUS_SQ);
        assert(pre.spec_has(pos));
    }
    // spill witnesses survive the insert
    assert forall|wc: ThreeDimPos| spill_source(pre, oldc, wc)
        implies #[trigger] spill_source(post, oldc, wc) by {
        let o2 = choose|o2: WorldPos| #[trigger] pre.spec_has(o2)
            && !oldc.spec_has(o2) && spec_canopy_out(o2, wc);
        assert(post.spec_has(o2) && !oldc.spec_has(o2) && spec_canopy_out(o2, wc));
    }
    assert(stream_chunks_accounted(post, oldc)) by {
        assert forall|o: WorldPos| #[trigger] post.spec_has(o)
            implies post.spec_at(o).origin() == o
                && post.spec_at(o).highlight_marker() == (if oldc.spec_has(o) {
                    oldc.spec_at(o).highlight_marker()
                } else {
                    Some((0usize, spec_elevation(o.x, o.z) as usize, 0usize,
                        BlockSide::Top))
                }) by {
            if o != pos {
                assert(pre.spec_has(o));
                assert(post.spec_at(o) == pre.spec_at(o));
            }
        }
    }
    assert(stream_cells_accounted(post, oldc, olds@)) by {
        assert forall|o: WorldPos, lx: int, y: int, lz: int|
            post.spec_has(o) && 0 <= lx < 16 && 0 <= y < 256 && 0 <= lz < 16
            implies ({
                let b = #[trigger] post.spec_at(o).block_at(lx, y, lz);
                ||| b == (if oldc.spec_has(o) {
                    oldc.spec_at(o).block_at(lx, y, lz)
                } else {
                    spec_gen_base(o, lx, y, lz)
                })
                ||| (b == BlockType::Leaves && (
                    olds@.contains_key(world_cell(o, lx, y, lz))
                        || spill_source(post, oldc, world_cell(o, lx, y, lz))))
            }) by {
            if o == pos {
                let wc = world_cell(pos, lx, y, lz);
                assert(c.block_at(lx, y, lz)
                    == crate::world::chunk::spec_gen_block(pos, s_pre@, lx, y, lz));
                if s_pre@.contains_key(wc) {
                    assert(c.block_at(lx, y, lz) == s_pre@[wc]);
                    assert(s_pre@[wc] == BlockType::Leaves);
                    assert(olds@.contains_key(wc) || spill_source(pre, oldc, wc));
                }
            } else {
                assert(pre.spec_has(o));
                assert(post.spec_at(o) == pre.spec_at(o));
                let b = pre.spec_at(o).block_at(lx, y, lz);
                assert(
                    b == (if oldc.spec_has(o) {
                        oldc.spec_at(o).block_at(lx, y, lz)
                    } else {
                        spec_gen_base(o, lx, y, lz)
                    })
                    || (b == BlockType::Leaves && (
                        olds@.contains_key(world_cell(o, lx, y, lz))
                            || spill_source(pre, oldc, world_cell(o, lx, y, lz)))));
            }
        }
    }
    assert(stream_scratch_accounted(s_post@, post, oldc, olds@)) by {
        assert forall|p: ThreeDimPos| #[trigger] s_post@.contains_key(p)
            implies (s_post@[p] == BlockType::Leaves
                && (olds@.contains_key(p) || spill_source(post, oldc, p))) by {
            if spec_canopy_out(pos, p) {
                assert(post.spec_has(pos) && !oldc.spec_has(pos)
                    && spec_canopy_out(pos, p));
            } else {
                assert(s_pre@.contains_key(p));
                assert(s_post@[p] == s_pre@[p]);
            }
        }
    }
    assert(stream_pending_accounted(s_post@, post, olds@)) by {
        assert forall|p: ThreeDimPos| #[trigger] olds@.contains_key(p)
            implies ((s_post@.contains_key(p) && s_post@[p] == olds@[p])
                || (post.spec_has(spec_cords_to_chunk(WorldPos { x: p.x, z: p.z }))
                    && post.spec_block(p) == Some(BlockType::Leaves))) by {
            if s_pre@.contains_key(p) && s_pre@[p] == olds@[p] {
                if in_chunk(pos, p) {
                    lemma_owner_of(pos, p);
                    let lx = p.x - pos.x;
                    let lz = p.z - pos.z;
                    let y = p.y as int;
                    assert(world_cell(pos, lx, y, lz) == p);
                    assert(c.block_at(lx, y, lz)
                        == crate::world::chunk::spec_gen_block(pos, s_pre@, lx, y, lz));
                    assert(c.block_at(lx, y, lz) == s_pre@[p]);
                    assert(s_pre@[p] == BlockType::Leaves);
                    assert(post.spec_block(p) == Some(BlockType::Leaves));
                } else if spec_canopy_out(pos, p) {
                    assert(s_post@.contains_key(p));
                    assert(s_post@[p] == BlockType::Leaves);
                    assert(olds@[p] == BlockType::Leaves);
                } else {
                    assert(s_post@.contains_key(p));
                    assert(s_post@[p] == s_pre@[p]);
                }
            } else {
                // already absorbed earlier in this call
                let owner = spec_cords_to_chunk(WorldPos { x: p.x, z: p.z });
                assert(pre.spec_has(owner) && pre.spec_block(p)
                    == Some(BlockType::Leaves));
                assert(owner != pos);
                assert(post.spec_at(owner) == pre.spec_at(owner));
                assert(post.spec_block(p) == pre.spec_block(p));
            }
        }
    }
}


/// One scratch-application step of the streaming update preserves the
/// accounting of chunks, cells and scratch entries.
#[verifier::rlimit(100)]
proof fn lemma_stream_apply_step(
    pre: ChunkStore, post: ChunkStore,
    s_pre: ScratchMap, s_post: ScratchMap,
    oldc: ChunkStore, olds: ScratchMap,
    o: WorldPos, p: ThreeDimPos, b: BlockType,
    lxi: int, yi: int, lzi: int,
)
    requires
        o == spec_cords_to_chunk(WorldPos { x: p.x, z: p.z }),
        0 <= lxi < 16,
        0 <= yi < 256,
        0 <= lzi < 16,
        lxi == (p.x as int) % 16,
        lzi == (p.z as int) % 16,
        yi == p.y as int,
        world_cell(o, lxi, yi, lzi) == p,
        // the applied entry
        s_pre@.contains_key(p),
        b == s_pre@[p],
        s_post@ =~= s_pre@.remove(p),
        // entry accounting
        forall|q: ThreeDimPos| #[trigger] olds@.contains_key(q)
            ==> olds@[q] == BlockType::Leaves,
        stream_chunks_accounted(pre, oldc),
        stream_cells_accounted(pre, oldc, olds@),
        stream_scratch_accounted(s_pre@, pre, oldc, olds@),
        stream_pending_accounted(s_pre@, pre, olds@),
        // what the write did
        pre.spec_has(o),
        forall|o2: WorldPos| #[trigger] post.spec_has(o2) <==> pre.spec_has(o2),
        forall|o2: WorldPos| post.spec_has(o2) && o2 != o
            ==> #[trigger] post.spec_at(o2) == pre.spec_at(o2),
        post.spec_at(o).origin() == pre.spec_at(o).origin(),
        post.spec_at(o).highlight_marker() == pre.spec_at(o).highlight_marker(),
        post.spec_at(o).grid() == pre.spec_at(o).grid().update(
            crate::world::mesh::cell_index(lxi, yi, lzi), b),
        pre.spec_at(o).grid().len() == 65536,
    ensures
        stream_chunks_accounted(post, oldc),
        stream_cells_accounted(post, oldc, olds@),
        stream_scratch_accounted(s_post@, post, oldc, olds@),
        stream_pending_accounted(s_post@, post, olds@),
{
    assert(b == BlockType::Leaves && (olds@.contains_key(p)
        || spill_source(pre, oldc, p)));
    assert forall|wc: ThreeDimPos| spill_source(pre, oldc, wc)
        implies #[trigger] spill_source(post, oldc, wc) by {
        let o2 = choose|o2: WorldPos| #[trigger] pre.spec_has(o2)
            && !oldc.spec_has(o2) && spec_canopy_out(o2, wc);
        assert(post.spec_has(o2) && !oldc.spec_has(o2) && spec_canopy_out(o2, wc));
    }
    assert(stream_chunks_accounted(post, oldc)) by {
        assert forall|o2: WorldPos| #[trigger] post.spec_has(o2)
            implies post.spec_at(o2).origin() == o2
                && post.spec_at(o2).highlight_marker() == (if oldc.spec_has(o2) {
                    oldc.spec_at(o2).highlight_marker()
                } else {
                    Some((0usize, spec_elevation(o2.x, o2.z) as usize, 0usize,
                        BlockSide::Top))
                }) by {
            if o2 != o {
                assert(post.spec_at(o2) == pre.spec_at(o2));
            }
        }
    }
    assert(stream_cells_accounted(post, oldc, olds@)) by {
        assert forall|o2: WorldPos, lx: int, y: int, lz: int|
            post.spec_has(o2) && 0 <= lx < 16 && 0 <= y < 256 && 0 <= lz < 16
            implies ({
                let bb = #[trigger] post.spec_at(o2).block_at(lx, y, lz);
                ||| bb == (if oldc.spec_has(o2) {
                    oldc.spec_at(o2).block_at(lx, y, lz)
                } else {
                    spec_gen_base(o2, lx, y, lz)
                })
                ||| (bb == BlockType::Leaves && (
                    olds@.contains_key(world_cell(o2, lx, y, lz))
                        || spill_source(post, oldc, world_cell(o2, lx, y, lz))))
            }) by {
            if o2 == o {
                if crate::world::mesh::cell_index(lx, y, lz)
                    == crate::world::mesh::cell_index(lxi, yi, lzi) {
                    crate::world::mesh::lemma_cell_index_injective(lx, y, lz, lxi, yi, lzi);
                    assert(post.spec_at(o).block_at(lx, y, lz) == b);
                    assert(world_cell(o, lx, y, lz) == p);
                } else {
                    assert(post.spec_at(o).block_at(lx, y, lz)
                        == pre.spec_at(o).block_at(lx, y, lz));
                }
            } else {
                assert(post.spec_at(o2) == pre.spec_at(o2));
            }
        }
    }
    assert(stream_scratch_accounted(s_post@, post, oldc, olds@)) by {
        assert forall|q: ThreeDimPos| #[trigger] s_post@.contains_key(q)
            implies (s_post@[q] == BlockType::Leaves
                && (olds@.contains_key(q) || spill_source(post, oldc, q))) by {
            assert(s_pre@.contains_key(q) && s_post@[q] == s_pre@[q]);
        }
    }
    assert(stream_pending_accounted(s_post@, post, olds@)) by {
        assert forall|q: ThreeDimPos| #[trigger] olds@.contains_key(q)
            implies ((s_post@.contains_key(q) && s_post@[q] == olds@[q])
                || (post.spec_has(spec_cords_to_chunk(WorldPos { x: q.x, z: q.z }))
                    && post.spec_block(q) == Some(BlockType::Leaves))) by {
            let owner = spec_cords_to_chunk(WorldPos { x: q.x, z: q.z });
            if s_pre@.contains_key(q) && s_pre@[q] == olds@[q] {
                if q == p {
                    assert(post.spec_at(o).block_at(lxi, yi, lzi) == b);
                    assert(post.spec_block(p) == Some(BlockType::Leaves));
                } else {
                    assert(s_post@.contains_key(q) && s_post@[q] == s_pre@[q]);
                }
            } else {
                assert(pre.spec_has(owner)
                    && pre.spec_block(q) == Some(BlockType::Leaves));
                if owner == o {
                    let qlx = (q.x as int) % 16;
                    let qlz = (q.z as int) % 16;
                    if crate::world::mesh::cell_index(qlx, q.y as int, qlz)
                        == crate::world::mesh::cell_index(lxi, yi, lzi) {
                        crate::world::mesh::lemma_cell_index_injective(
                            qlx, q.y as int, qlz, lxi, yi, lzi);
                        lemma_local_coords_pin(o, q, p);
                        assert(post.spec_block(q) == Some(b));
                    } else {
                        assert(post.spec_at(o).block_at(qlx, q.y as int, qlz)
                            == pre.spec_at(o).block_at(qlx, q.y as int, qlz));
                    }
                } else {
                    assert(post.spec_at(owner) == pre.spec_at(owner));
                }
            }
        }
    }
}

/// Two positions of the same chunk with the same local coordinates are the
/// same position.
proof fn lemma_local_coords_pin(o: WorldPos, q: ThreeDimPos, p: ThreeDimPos)
    requires
        o == spec_cords_to_chunk(WorldPos { x: q.x, z: q.z }),
        o == spec_cords_to_chunk(WorldPos { x: p.x, z: p.z }),
        (q.x as int) % 16 == (p.x as int) % 16,
        (q.z as int) % 16 == (p.z as int) % 16,
        q.y == p.y,
    ensures
        q == p,
{
}


/// Regenerating one chunk's mesh changes no grid, origin or highlight, so
/// every accounting predicate of the streaming update is preserved.
proof fn lemma_stream_mesh_step(
    pre: ChunkStore, post: ChunkStore,
    oldc: ChunkStore, olds: ScratchMap,
    o: WorldPos,
)
    requires
        stream_chunks_accounted(pre, oldc),
        stream_cells_accounted(pre, oldc, olds@),
        pre.spec_has(o),
        forall|o2: WorldPos| #[trigger] post.spec_has(o2) <==> pre.spec_has(o2),
        forall|o2: WorldPos| post.spec_has(o2) && o2 != o
            ==> #[trigger] post.spec_at(o2) == pre.spec_at(o2),
        post.spec_at(o).origin() == pre.spec_at(o).origin(),
        post.spec_at(o).highlight_marker() == pre.spec_at(o).highlight_marker(),
        post.spec_at(o).grid() == pre.spec_at(o).grid(),
    ensures
        stream_chunks_accounted(post, oldc),
        stream_cells_accounted(post, oldc, olds@),
        forall|wc: ThreeDimPos| #[trigger] spill_source(pre, oldc, wc)
            ==> spill_source(post, oldc, wc),
        forall|p: ThreeDimPos|
            pre.spec_block(p) == Some(BlockType::Leaves)
            ==> #[trigger] post.spec_block(p) == Some(BlockType::Leaves),
{
    assert forall|wc: ThreeDimPos| #[trigger] spill_source(pre, oldc, wc)
        implies spill_source(post, oldc, wc) by {
        let o2 = choose|o2: WorldPos| #[trigger] pre.spec_has(o2)
            && !oldc.spec_has(o2) && spec_canopy_out(o2, wc);
        assert(post.spec_has(o2) && !oldc.spec_has(o2) && spec_canopy_out(o2, wc));
    }
    assert forall|o2: WorldPos| #[trigger] post.spec_has(o2)
        implies post.spec_at(o2).origin() == pre.spec_at(o2).origin()
            && post.spec_at(o2).highlight_marker()
                == pre.spec_at(o2).highlight_marker()
            && post.spec_at(o2).grid() == pre.spec_at(o2).grid() by {
        if o2 != o {
            assert(post.spec_at(o2) == pre.spec_at(o2));
        }
    }
    assert(stream_cells_accounted(post, oldc, olds@)) by {
        assert forall|o2: WorldPos, lx: int, y: int, lz: int|
            post.spec_has(o2) && 0 <= lx < 16 && 0 <= y < 256 && 0 <= lz < 16
            implies ({
                let b = #[trigger] post.spec_at(o2).block_at(lx, y, lz);
                ||| b == (if oldc.spec_has(o2) {
                    oldc.spec_at(o2).block_at(lx, y, lz)
                } else {
                    spec_gen_base(o2, lx, y, lz)
                })
                ||| (b == BlockType::Leaves && (
                    olds@.contains_key(world_cell(o2, lx, y, lz))
                        || spill_source(post, oldc, world_cell(o2, lx, y, lz))))
            }) by {
            assert(post.spec_at(o2).block_at(lx, y, lz)
                == pre.spec_at(o2).block_at(lx, y, lz));
        }
    }
}

impl GameWorld {
    /// Streams chunks around the player: unloads every chunk at or beyond
    /// the loading radius from the player's chunk, generates every aligned
    /// position within the radius that is not yet loaded, and then applies
    /// every pending scratch block whose owning chunk is now loaded,
    /// remeshing each absorbing chunk exactly once. With the player's chunk
    /// unchanged, a repeated call finds nothing to unload, create or apply,
    /// and leaves the world as it stands.
    #[verifier::rlimit(100)]
    pub fn update_chunks_to_player(&mut self)
        requires
            old(self).wf(),
        ensures
            final(self).wf(),
            final(self).spec_player() == old(self).spec_player(),
            final(self).spec_last_tick() == old(self).spec_last_tick(),
            final(self).spec_highlight() == old(self).spec_highlight(),
            forall|o: WorldPos| #[trigger] final(self).spec_chunks().spec_has(o) <==> (
                aligned(o) && within_load_box(o, spec_player_chunk(old(self).spec_player()))
                    && spec_dist2(o, spec_player_chunk(old(self).spec_player()))
                        <= RADIUS_SQ),
            stream_chunks_accounted(final(self).spec_chunks(), old(self).spec_chunks()),
            stream_cells_accounted(final(self).spec_chunks(), old(self).spec_chunks(),
                old(self).spec_scratch()@),
            stream_scratch_accounted(final(self).spec_scratch()@, final(self).spec_chunks(),
                old(self).spec_chunks(), old(self).spec_scratch()@),
            stream_pending_accounted(final(self).spec_scratch()@, final(self).spec_chunks(),
                old(self).spec_scratch()@),
            forall|p: ThreeDimPos| #[trigger] old(self).spec_scratch()@.contains_key(p)
                && final(self).spec_chunks().spec_has(
                    spec_cords_to_chunk(WorldPos { x: p.x, z: p.z }))
                ==> final(self).spec_chunks().spec_block(p)
                    == Some(old(self).spec_scratch()@[p]),
    {
        let ppos = self.player.entity.get_world_pos();
        proof {
            lemma_block_coord_in_border(self.player.entity.spec_position().x as int);
            lemma_block_coord_in_border(self.player.entity.spec_position().z as int);
        }
        let player_chunk = cords_to_chunk(WorldPos { x: ppos.x, z: ppos.z });
        let ghost pc = player_chunk;

        // Remove chunks no longer in range.
        let mut i: usize = 0;
        loop
            invariant
                self.wf(),
                i <= self.chunks.chunks_seq().len(),
                self.block_scratch == old(self).spec_scratch(),
                self.player == old(self).spec_player(),
                self.last_tick_nanos == old(self).spec_last_tick(),
                self.highlight == old(self).spec_highlight(),
                -POS_LIMIT - 16 <= pc.x <= POS_LIMIT,
                -POS_LIMIT - 16 <= pc.z <= POS_LIMIT,
                aligned(pc),
                player_chunk == pc,
                forall|j: int| 0 <= j < i ==> spec_dist2(
                    (#[trigger] self.chunks.chunks_seq()[j]).origin(), pc) < RADIUS_SQ,
                forall|o: WorldPos| #[trigger] self.chunks.spec_has(o)
                    ==> old(self).spec_chunks().spec_has(o)
                        && self.chunks.spec_at(o) == old(self).spec_chunks().spec_at(o),
                forall|o: WorldPos| old(self).spec_chunks().spec_has(o)
                    && spec_dist2(o, pc) < RADIUS_SQ
                    ==> #[trigger] self.chunks.spec_has(o),
            ensures
                i == self.chunks.chunks_seq().len(),
            decreases self.chunks.chunks_seq().len() - i,
        {
            if i >= self.chunks.len() {
                break;
            }
            let o = self.chunks.at(i).origin_pos();
            proof {
                assert(self.chunks.chunks_seq()[i as int].wf());
            }
            let ddx: i128 = (o.x as i128) - (player_chunk.x as i128);
            let ddz: i128 = (o.z as i128) - (player_chunk.z as i128);
            proof {
                assert(0 <= ddx * ddx <= 0x1000_0000_0000_0000_0000_0000_0000_0000
                    && 0 <= ddz * ddz <= 0x1000_0000_0000_0000_0000_0000_0000_0000)
                    by (nonlinear_arith)
                    requires
                        -0x2000_0000_0000_0000 <= ddx <= 0x2000_0000_0000_0000
                            && -0x2000_0000_0000_0000 <= ddz <= 0x2000_0000_0000_0000;
            }
            let d2: i128 = ddx * ddx + ddz * ddz;
            proof {
                assert(d2 == spec_dist2(o, pc));
            }
            if d2 >= RADIUS_SQ as i128 {
                let ghost seq_pre = self.chunks.chunks_seq();
                let ghost store_pre = self.chunks;
                self.chunks.remove_at(i);
                proof {
                    assert forall|o2: WorldPos| old(self).spec_chunks().spec_has(o2)
                        && spec_dist2(o2, pc) < RADIUS_SQ
                        implies #[trigger] self.chunks.spec_has(o2) by {
                        assert(store_pre.spec_has(o2));
                        assert(o2 != o);
                    }
                }
                proof {
                    assert forall|j: int| 0 <= j < i implies spec_dist2(
                        (#[trigger] self.chunks.chunks_seq()[j]).origin(), pc)
                        < RADIUS_SQ by {
                        assert(self.chunks.chunks_seq()[j] == seq_pre[j]);
                    }
                    assert forall|j: int| 0 <= j < self.chunks.chunks_seq().len()
                        implies chunk_generated(#[trigger] self.chunks.chunks_seq()[j]) by {
                        let j0: int = if j == i as int { seq_pre.len() - 1 } else { j };
                        assert(self.chunks.chunks_seq()[j] == seq_pre[j0]);
                        assert(chunk_generated(seq_pre[j0]));
                    }
                }
            } else {
                i += 1;
            }
        }
        proof {
            assert forall|o: WorldPos| #[trigger] self.chunks.spec_has(o)
                implies spec_dist2(o, pc) < RADIUS_SQ && aligned(o)
                    && within_load_box(o, pc) by {
                let j = choose|j: int| 0 <= j < self.chunks.chunks_seq().len()
                    && (#[trigger] self.chunks.chunks_seq()[j]).origin() == o;
                assert(self.chunks.chunks_seq()[j].wf());
                lemma_aligned_near(o, pc);
            }
            assert forall|o: WorldPos| #[trigger] self.chunks.spec_has(o)
                implies self.chunks.spec_at(o).origin() == o by {
                let j = choose|j: int| 0 <= j < self.chunks.chunks_seq().len()
                    && (#[trigger] self.chunks.chunks_seq()[j]).origin() == o;
            }
            assert(stream_chunks_accounted(self.chunks, old(self).spec_chunks()));
            assert(stream_cells_accounted(self.chunks, old(self).spec_chunks(),
                old(self).spec_scratch()@));
            assert(stream_scratch_accounted(self.block_scratch@, self.chunks,
                old(self).spec_chunks(), old(self).spec_scratch()@));
            assert(stream_pending_accounted(self.block_scratch@, self.chunks,
                old(self).spec_scratch()@));
        }

        // Generate new chunks within the radius.
        let ghost chunks_after_remove = self.chunks;
        let x_start: i64 = player_chunk.x - 112;
        let z_start: i64 = player_chunk.z - 112;
        let mut x: i64 = x_start;
        proof {
            assert((x_start as int) % 16 == 0) by {
                vstd::arithmetic::div_mod::lemma_mod_multiples_vanish(
                    -7, pc.x as int, 16);
            }
            assert((z_start as int) % 16 == 0) by {
                vstd::arithmetic::div_mod::lemma_mod_multiples_vanish(
                    -7, pc.z as int, 16);
            }
        }
        while x <= player_chunk.x + 112
            invariant
                self.chunks.wf(),
                self.chunks.meshes_current(),
                self.block_scratch.wf(),
                self.player.wf(),
                self.player == old(self).spec_player(),
                self.last_tick_nanos == old(self).spec_last_tick(),
                self.highlight == old(self).spec_highlight(),
                -POS_LIMIT - 16 <= pc.x <= POS_LIMIT,
                -POS_LIMIT - 16 <= pc.z <= POS_LIMIT,
                aligned(pc),
                player_chunk == pc,
                z_start == pc.z - 112,
                (z_start as int) % 16 == 0,
                pc.x - 112 <= x <= pc.x + 128,
                (x as int) % 16 == 0,
                forall|o: WorldPos| #[trigger] self.chunks.spec_has(o)
                    ==> spec_dist2(o, pc) <= RADIUS_SQ,
                forall|o: WorldPos|
                    (aligned(o) && pc.x - 112 <= o.x && o.x < x && o.x <= pc.x + 112
                        && pc.z - 112 <= o.z <= pc.z + 112
                        && spec_dist2(o, pc) <= RADIUS_SQ)
                        ==> #[trigger] self.chunks.spec_has(o),
                forall|p: ThreeDimPos| #[trigger] self.block_scratch@.contains_key(p)
                    ==> self.block_scratch@[p] == BlockType::Leaves,
                chunks_generated(self.chunks),
                forall|o: WorldPos| #[trigger] self.chunks.spec_has(o)
                    ==> aligned(o) && within_load_box(o, pc),
                forall|o: WorldPos| old(self).spec_chunks().spec_has(o)
                    && spec_dist2(o, pc) < RADIUS_SQ
                    ==> #[trigger] self.chunks.spec_has(o),
                forall|p: ThreeDimPos| #[trigger] old(self).spec_scratch()@.contains_key(p)
                    ==> old(self).spec_scratch()@[p] == BlockType::Leaves,
                stream_chunks_accounted(self.chunks, old(self).spec_chunks()),
                stream_cells_accounted(self.chunks, old(self).spec_chunks(),
                    old(self).spec_scratch()@),
                stream_scratch_accounted(self.block_scratch@, self.chunks,
                    old(self).spec_chunks(), old(self).spec_scratch()@),
                stream_pending_accounted(self.block_scratch@, self.chunks,
                    old(self).spec_scratch()@),
            decreases pc.x + 128 - x,
        {
            let mut z: i64 = z_start;
            while z <= player_chunk.z + 112
                invariant
                    self.chunks.wf(),
                    self.chunks.meshes_current(),
                    self.block_scratch.wf(),
                    self.player.wf(),
                    self.player == old(self).spec_player(),
                    self.last_tick_nanos == old(self).spec_last_tick(),
                    self.highlight == old(self).spec_highlight(),
                    -POS_LIMIT - 16 <= pc.x <= POS_LIMIT,
                    -POS_LIMIT - 16 <= pc.z <= POS_LIMIT,
                    aligned(pc),
                    player_chunk == pc,
                    pc.x - 112 <= x <= pc.x + 112,
                    (x as int) % 16 == 0,
                    pc.z - 112 <= z <= pc.z + 128,
                    (z as int) % 16 == 0,
                    forall|o: WorldPos| #[trigger] self.chunks.spec_has(o)
                        ==> spec_dist2(o, pc) <= RADIUS_SQ,
                    forall|o: WorldPos|
                        (aligned(o) && pc.x - 112 <= o.x && o.x < x && o.x <= pc.x + 112
                            && pc.z - 112 <= o.z <= pc.z + 112
                            && spec_dist2(o, pc) <= RADIUS_SQ)
                            ==> #[trigger] self.chunks.spec_has(o),
                    forall|o: WorldPos|
                        (aligned(o) && o.x == x
                            && pc.z - 112 <= o.z && o.z < z && o.z <= pc.z + 112
                            && spec_dist2(o, pc) <= RADIUS_SQ)
                            ==> #[trigger] self.chunks.spec_has(o),
                    forall|p: ThreeDimPos| #[trigger] self.block_scratch@.contains_key(p)
                        ==> self.block_scratch@[p] == BlockType::Leaves,
                    chunks_generated(self.chunks),
                    forall|o: WorldPos| #[trigger] self.chunks.spec_has(o)
                        ==> aligned(o) && within_load_box(o, pc),
                    forall|o: WorldPos| old(self).spec_chunks().spec_has(o)
                        && spec_dist2(o, pc) < RADIUS_SQ
                        ==> #[trigger] self.chunks.spec_has(o),
                    forall|p: ThreeDimPos| #[trigger] old(self).spec_scratch()@.contains_key(p)
                        ==> old(self).spec_scratch()@[p] == BlockType::Leaves,
                    stream_chunks_accounted(self.chunks, old(self).spec_chunks()),
                    stream_cells_accounted(self.chunks, old(self).spec_chunks(),
                        old(self).spec_scratch()@),
                    stream_scratch_accounted(self.block_scratch@, self.chunks,
                        old(self).spec_chunks(), old(self).spec_scratch()@),
                    stream_pending_accounted(self.block_scratch@, self.chunks,
                        old(self).spec_scratch()@),
                decreases pc.z + 128 - z,
            {
                let ddx: i128 = (x as i128) - (player_chunk.x as i128);
                let ddz: i128 = (z as i128) - (player_chunk.z as i128);
                proof {
                    assert(0 <= ddx * ddx <= 40000 && 0 <= ddz * ddz <= 40000)
                        by (nonlinear_arith)
                        requires -200 <= ddx <= 200 && -200 <= ddz <= 200;
                }
                let d2: i128 = ddx * ddx + ddz * ddz;
                proof {
                    assert(d2 == spec_dist2(WorldPos { x, z }, pc));
                }
                if d2 <= RADIUS_SQ as i128 {
                    let pos = WorldPos { x, z };
                    if self.chunks.find(pos).is_none() {
                        let ghost s_pre = self.block_scratch;
                        let c = match Chunk::new(pos, &mut self.block_scratch) {
                            Ok(c) => c,
                            Err(_) => vstd::pervasive::unreached(),
                        };
                        proof {
                            assert forall|p: ThreeDimPos|
                                #[trigger] self.block_scratch@.contains_key(p)
                                implies self.block_scratch@[p] == BlockType::Leaves by {
                                if !spec_canopy_out(pos, p) {
                                    assert(s_pre@.contains_key(p));
                                    assert(self.block_scratch@[p] == s_pre@[p]);
                                }
                            }
                        }
                        proof {
                            assert(chunk_generated(c)) by {
                                assert forall|lx: int, y: int, lz: int|
                                    0 <= lx < 16 && 0 <= y < 256 && 0 <= lz < 16
                                    implies (#[trigger] c.block_at(lx, y, lz)
                                        == spec_gen_base(c.origin(), lx, y, lz)
                                        || c.block_at(lx, y, lz) == BlockType::Leaves) by {
                                    if s_pre@.contains_key(
                                        crate::world::chunk::world_cell(pos, lx, y, lz)) {
                                        assert(s_pre@[crate::world::chunk::world_cell(
                                            pos, lx, y, lz)] == BlockType::Leaves);
                                    }
                                }
                            }
                        }
                        let ghost seq_pre2 = self.chunks.chunks_seq();
                        let ghost store_pre = self.chunks;
                        self.chunks.insert(c);
                        proof {
                            assert forall|j: int| 0 <= j < self.chunks.chunks_seq().len()
                                implies chunk_generated(
                                    #[trigger] self.chunks.chunks_seq()[j]) by {
                                if j < seq_pre2.len() {
                                    assert(self.chunks.chunks_seq()[j] == seq_pre2[j]);
                                    assert(chunk_generated(seq_pre2[j]));
                                } else {
                                    assert(self.chunks.chunks_seq()[j] == c);
                                }
                            }
                            lemma_stream_insert_step(
                                store_pre, self.chunks, s_pre, self.block_scratch,
                                old(self).spec_chunks(), old(self).spec_scratch(),
                                c, pos, pc);
                        }
                    }
                }
                z += 16;
                proof {
                    vstd::arithmetic::div_mod::lemma_mod_multiples_vanish(
                        1, z as int - 16, 16);
                    assert forall|o: WorldPos|
                        (aligned(o) && o.x == x
                            && pc.z - 112 <= o.z && o.z < z && o.z <= pc.z + 112
                            && spec_dist2(o, pc) <= RADIUS_SQ)
                        implies #[trigger] self.chunks.spec_has(o) by {
                        if o.z >= z - 16 {
                            lemma_aligned_unique(o.z as int, z as int - 16);
                            assert(o == WorldPos { x, z: (z - 16) as i64 });
                        }
                    }
                }
            }
            x += 16;
            proof {
                vstd::arithmetic::div_mod::lemma_mod_multiples_vanish(
                    1, x as int - 16, 16);
                assert forall|o: WorldPos|
                    (aligned(o) && pc.x - 112 <= o.x && o.x < x && o.x <= pc.x + 112
                        && pc.z - 112 <= o.z <= pc.z + 112
                        && spec_dist2(o, pc) <= RADIUS_SQ)
                    implies #[trigger] self.chunks.spec_has(o) by {
                    if o.x >= x - 16 {
                        lemma_aligned_unique(o.x as int, x as int - 16);
                    }
                }
            }
        }

        // Apply scratch blocks now owned by a loaded chunk, chunk by
        // chunk: a chunk that absorbs cells is marked dirty and remeshed
        // exactly once, however many cells it absorbed.
        let ghost oldc = old(self).spec_chunks();
        let ghost olds = old(self).spec_scratch();
        let ghost n_chunks = self.chunks.chunks_seq().len();
        let mut ci: usize = 0;
        loop
            invariant
                self.chunks.chunks_seq().len() == n_chunks,
                ci <= self.chunks.chunks_seq().len(),
                self.chunks.wf(),
                self.chunks.meshes_current(),
                self.block_scratch.wf(),
                self.player.wf(),
                self.player == old(self).spec_player(),
                self.last_tick_nanos == old(self).spec_last_tick(),
                self.highlight == old(self).spec_highlight(),
                oldc == old(self).spec_chunks(),
                olds == old(self).spec_scratch(),
                forall|j: int, m: int|
                    0 <= j < self.block_scratch.entries_seq().len() && 0 <= m < ci
                    ==> spec_cords_to_chunk(WorldPos {
                        x: (#[trigger] self.block_scratch.entries_seq()[j]).0.x,
                        z: self.block_scratch.entries_seq()[j].0.z,
                    }) != (#[trigger] self.chunks.chunks_seq()[m]).origin(),
                forall|o: WorldPos| #[trigger] self.chunks.spec_has(o)
                    ==> spec_dist2(o, pc) <= RADIUS_SQ,
                forall|o: WorldPos|
                    (aligned(o) && pc.x - 112 <= o.x <= pc.x + 112
                        && pc.z - 112 <= o.z <= pc.z + 112
                        && spec_dist2(o, pc) <= RADIUS_SQ)
                        ==> #[trigger] self.chunks.spec_has(o),
                forall|p: ThreeDimPos| #[trigger] self.block_scratch@.contains_key(p)
                    ==> self.block_scratch@[p] == BlockType::Leaves,
                chunks_generated(self.chunks),
                forall|o: WorldPos| #[trigger] self.chunks.spec_has(o)
                    ==> aligned(o) && within_load_box(o, pc),
                forall|p: ThreeDimPos| #[trigger] olds@.contains_key(p)
                    ==> olds@[p] == BlockType::Leaves,
                stream_chunks_accounted(self.chunks, oldc),
                stream_cells_accounted(self.chunks, oldc, olds@),
                stream_scratch_accounted(self.block_scratch@, self.chunks, oldc, olds@),
                stream_pending_accounted(self.block_scratch@, self.chunks, olds@),
            ensures
                ci == self.chunks.chunks_seq().len(),
            decreases self.chunks.chunks_seq().len() - ci,
        {
            if ci >= self.chunks.len() {
                break;
            }
            let o = self.chunks.at(ci).origin_pos();
            let mut dirty = false;
            let mut j: usize = 0;
            loop
                invariant
                    self.chunks.chunks_seq().len() == n_chunks,
                    ci < self.chunks.chunks_seq().len(),
                    j <= self.block_scratch.entries_seq().len(),
                    self.chunks.wf(),
                    self.block_scratch.wf(),
                    self.player.wf(),
                    self.player == old(self).spec_player(),
                    self.last_tick_nanos == old(self).spec_last_tick(),
                    self.highlight == old(self).spec_highlight(),
                    oldc == old(self).spec_chunks(),
                    olds == old(self).spec_scratch(),
                    o == self.chunks.chunks_seq()[ci as int].origin(),
                    forall|k: int| 0 <= k < self.chunks.chunks_seq().len() && k != ci
                        ==> (#[trigger] self.chunks.chunks_seq()[k]).mesh_current(),
                    !dirty ==> self.chunks.chunks_seq()[ci as int].mesh_current(),
                    forall|jj: int| 0 <= jj < j ==> spec_cords_to_chunk(WorldPos {
                        x: (#[trigger] self.block_scratch.entries_seq()[jj]).0.x,
                        z: self.block_scratch.entries_seq()[jj].0.z,
                    }) != o,
                    forall|jj: int, m: int|
                        0 <= jj < self.block_scratch.entries_seq().len() && 0 <= m < ci
                        ==> spec_cords_to_chunk(WorldPos {
                            x: (#[trigger] self.block_scratch.entries_seq()[jj]).0.x,
                            z: self.block_scratch.entries_seq()[jj].0.z,
                        }) != (#[trigger] self.chunks.chunks_seq()[m]).origin(),
                    forall|o2: WorldPos| #[trigger] self.chunks.spec_has(o2)
                        ==> spec_dist2(o2, pc) <= RADIUS_SQ,
                    forall|o2: WorldPos|
                        (aligned(o2) && pc.x - 112 <= o2.x <= pc.x + 112
                            && pc.z - 112 <= o2.z <= pc.z + 112
                            && spec_dist2(o2, pc) <= RADIUS_SQ)
                            ==> #[trigger] self.chunks.spec_has(o2),
                    forall|p: ThreeDimPos| #[trigger] self.block_scratch@.contains_key(p)
                        ==> self.block_scratch@[p] == BlockType::Leaves,
                    chunks_generated(self.chunks),
                    forall|o2: WorldPos| #[trigger] self.chunks.spec_has(o2)
                        ==> aligned(o2) && within_load_box(o2, pc),
                    forall|p: ThreeDimPos| #[trigger] olds@.contains_key(p)
                        ==> olds@[p] == BlockType::Leaves,
                    stream_chunks_accounted(self.chunks, oldc),
                    stream_cells_accounted(self.chunks, oldc, olds@),
                    stream_scratch_accounted(self.block_scratch@, self.chunks,
                        oldc, olds@),
                    stream_pending_accounted(self.block_scratch@, self.chunks, olds@),
                ensures
                    j == self.block_scratch.entries_seq().len(),
                decreases self.block_scratch.entries_seq().len() - j,
            {
                if j >= self.block_scratch.len() {
                    break;
                }
                let (p, b) = self.block_scratch.entry_at(j);
                let po = cords_to_chunk(WorldPos { x: p.x, z: p.z });
                if po.x == o.x && po.z == o.z {
                    proof {
                        crate::world::scratch::lemma_map_of_get(
                            self.block_scratch.entries_seq(), j as int);
                    }
                    let ghost scratch_pre = self.block_scratch;
                    self.block_scratch.remove_at(j);
                    let (lx, lz) = cords_to_local(WorldPos { x: p.x, z: p.z });
                    let ghost chunks_pre = self.chunks;
                    let c = self.chunks.at_mut(ci);
                    c.set_block(lx, p.y as usize, lz, b);
                    dirty = true;
                    proof {
                        assert forall|a: int, bb2: int|
                            0 <= a < bb2 < self.chunks.chunks_seq().len()
                            implies (#[trigger] self.chunks.chunks_seq()[a]).origin()
                                != (#[trigger] self.chunks.chunks_seq()[bb2]).origin() by {
                            assert(chunks_pre.chunks_seq()[a].origin()
                                == self.chunks.chunks_seq()[a].origin());
                            assert(chunks_pre.chunks_seq()[bb2].origin()
                                == self.chunks.chunks_seq()[bb2].origin());
                        }
                        assert forall|o2: WorldPos| #[trigger] self.chunks.spec_has(o2)
                            implies chunks_pre.spec_has(o2) by {
                            let k = choose|k: int| 0 <= k < self.chunks.chunks_seq().len()
                                && (#[trigger] self.chunks.chunks_seq()[k]).origin() == o2;
                            assert(chunks_pre.chunks_seq()[k].origin() == o2);
                        }
                        assert forall|o2: WorldPos| #[trigger] chunks_pre.spec_has(o2)
                            implies self.chunks.spec_has(o2) by {
                            let k = choose|k: int| 0 <= k < chunks_pre.chunks_seq().len()
                                && (#[trigger] chunks_pre.chunks_seq()[k]).origin() == o2;
                            assert(self.chunks.chunks_seq()[k].origin() == o2);
                        }
                        assert forall|o2: WorldPos|
                            self.chunks.spec_has(o2) && o2 != o
                            implies #[trigger] self.chunks.spec_at(o2)
                                == chunks_pre.spec_at(o2) by {
                            let k = choose|k: int|
                                0 <= k < self.chunks.chunks_seq().len()
                                    && (#[trigger] self.chunks.chunks_seq()[k]).origin()
                                        == o2;
                            let k2 = choose|k2: int|
                                0 <= k2 < chunks_pre.chunks_seq().len()
                                    && (#[trigger] chunks_pre.chunks_seq()[k2]).origin()
                                        == o2;
                            assert(self.chunks.chunks_seq()[ci as int].origin() == o);
                            assert(k != ci as int);
                            assert(self.chunks.chunks_seq()[k]
                                == chunks_pre.chunks_seq()[k]);
                            assert(chunks_pre.chunks_seq()[k].origin() == o2);
                            assert(k2 == k);
                        }
                        assert(self.chunks.spec_at(o)
                            == self.chunks.chunks_seq()[ci as int]) by {
                            let k = choose|k: int|
                                0 <= k < self.chunks.chunks_seq().len()
                                    && (#[trigger] self.chunks.chunks_seq()[k]).origin()
                                        == o;
                            assert(self.chunks.chunks_seq()[ci as int].origin() == o);
                            assert(k == ci as int);
                        }
                        assert(chunks_pre.spec_at(o)
                            == chunks_pre.chunks_seq()[ci as int]) by {
                            let k = choose|k: int|
                                0 <= k < chunks_pre.chunks_seq().len()
                                    && (#[trigger] chunks_pre.chunks_seq()[k]).origin()
                                        == o;
                            assert(chunks_pre.chunks_seq()[ci as int].origin() == o);
                            assert(k == ci as int);
                        }
                        assert forall|k: int|
                            0 <= k < self.chunks.chunks_seq().len() && k != ci
                            implies chunk_generated(#[trigger] self.chunks.chunks_seq()[k])
                                && self.chunks.chunks_seq()[k].mesh_current() by {
                            assert(self.chunks.chunks_seq()[k]
                                == chunks_pre.chunks_seq()[k]);
                            assert(chunk_generated(chunks_pre.chunks_seq()[k]));
                        }
                        assert(chunk_generated(self.chunks.chunks_seq()[ci as int])) by {
                            let cpre = chunks_pre.chunks_seq()[ci as int];
                            let cnew = self.chunks.chunks_seq()[ci as int];
                            assert(chunk_generated(cpre));
                            assert forall|lx2: int, y2: int, lz2: int|
                                0 <= lx2 < 16 && 0 <= y2 < 256 && 0 <= lz2 < 16
                                implies (#[trigger] cnew.block_at(lx2, y2, lz2)
                                    == spec_gen_base(cnew.origin(), lx2, y2, lz2)
                                    || cnew.block_at(lx2, y2, lz2)
                                        == BlockType::Leaves) by {
                                if crate::world::mesh::cell_index(lx2, y2, lz2)
                                    == crate::world::mesh::cell_index(
                                        lx as int, p.y as int, lz as int) {
                                    assert(cnew.block_at(lx2, y2, lz2) == b);
                                } else {
                                    assert(cnew.block_at(lx2, y2, lz2)
                                        == cpre.block_at(lx2, y2, lz2));
                                }
                            }
                        }
                        assert forall|o2: WorldPos| #[trigger] self.chunks.spec_has(o2)
                            implies spec_dist2(o2, pc) <= RADIUS_SQ && aligned(o2)
                                && within_load_box(o2, pc) by {
                            assert(chunks_pre.spec_has(o2));
                        }
                        assert forall|o2: WorldPos|
                            (aligned(o2) && pc.x - 112 <= o2.x <= pc.x + 112
                                && pc.z - 112 <= o2.z <= pc.z + 112
                                && spec_dist2(o2, pc) <= RADIUS_SQ)
                            implies #[trigger] self.chunks.spec_has(o2) by {
                            assert(chunks_pre.spec_has(o2));
                        }
                        assert(world_cell(o, lx as int, p.y as int, lz as int) == p);
                        lemma_stream_apply_step(
                            chunks_pre, self.chunks, scratch_pre, self.block_scratch,
                            oldc, olds, o, p, b, lx as int, p.y as int, lz as int);
                    }
                } else {
                    j += 1;
                }
            }
            if dirty {
                let ghost chunks_pre = self.chunks;
                let c = self.chunks.at_mut(ci);
                c.update_mesh();
                proof {
                    assert forall|a: int, bb2: int|
                        0 <= a < bb2 < self.chunks.chunks_seq().len()
                        implies (#[trigger] self.chunks.chunks_seq()[a]).origin()
                            != (#[trigger] self.chunks.chunks_seq()[bb2]).origin() by {
                        assert(chunks_pre.chunks_seq()[a].origin()
                            == self.chunks.chunks_seq()[a].origin());
                        assert(chunks_pre.chunks_seq()[bb2].origin()
                            == self.chunks.chunks_seq()[bb2].origin());
                    }
                    assert forall|o2: WorldPos| #[trigger] self.chunks.spec_has(o2)
                        implies chunks_pre.spec_has(o2) by {
                        let k = choose|k: int| 0 <= k < self.chunks.chunks_seq().len()
                            && (#[trigger] self.chunks.chunks_seq()[k]).origin() == o2;
                        assert(chunks_pre.chunks_seq()[k].origin() == o2);
                    }
                    assert forall|o2: WorldPos| #[trigger] chunks_pre.spec_has(o2)
                        implies self.chunks.spec_has(o2) by {
                        let k = choose|k: int| 0 <= k < chunks_pre.chunks_seq().len()
                            && (#[trigger] chunks_pre.chunks_seq()[k]).origin() == o2;
                        assert(self.chunks.chunks_seq()[k].origin() == o2);
                    }
                    assert forall|o2: WorldPos|
                        self.chunks.spec_has(o2) && o2 != o
                        implies #[trigger] self.chunks.spec_at(o2)
                            == chunks_pre.spec_at(o2) by {
                        let k = choose|k: int|
                            0 <= k < self.chunks.chunks_seq().len()
                                && (#[trigger] self.chunks.chunks_seq()[k]).origin() == o2;
                        let k2 = choose|k2: int|
                            0 <= k2 < chunks_pre.chunks_seq().len()
                                && (#[trigger] chunks_pre.chunks_seq()[k2]).origin() == o2;
                        assert(self.chunks.chunks_seq()[ci as int].origin() == o);
                        assert(k != ci as int);
                        assert(self.chunks.chunks_seq()[k] == chunks_pre.chunks_seq()[k]);
                        assert(chunks_pre.chunks_seq()[k].origin() == o2);
                        assert(k2 == k);
                    }
                    assert(self.chunks.spec_at(o)
                        == self.chunks.chunks_seq()[ci as int]) by {
                        let k = choose|k: int|
                            0 <= k < self.chunks.chunks_seq().len()
                                && (#[trigger] self.chunks.chunks_seq()[k]).origin() == o;
                        assert(self.chunks.chunks_seq()[ci as int].origin() == o);
                        assert(k == ci as int);
                    }
                    assert(chunks_pre.spec_at(o)
                        == chunks_pre.chunks_seq()[ci as int]) by {
                        let k = choose|k: int|
                            0 <= k < chunks_pre.chunks_seq().len()
                                && (#[trigger] chunks_pre.chunks_seq()[k]).origin() == o;
                        assert(chunks_pre.chunks_seq()[ci as int].origin() == o);
                        assert(k == ci as int);
                    }
                    assert forall|k: int|
                        0 <= k < self.chunks.chunks_seq().len() && k != ci
                        implies chunk_generated(#[trigger] self.chunks.chunks_seq()[k])
                            && self.chunks.chunks_seq()[k].mesh_current() by {
                        assert(self.chunks.chunks_seq()[k] == chunks_pre.chunks_seq()[k]);
                        assert(chunk_generated(chunks_pre.chunks_seq()[k]));
                    }
                    assert(chunk_generated(self.chunks.chunks_seq()[ci as int])) by {
                        let cpre = chunks_pre.chunks_seq()[ci as int];
                        assert(chunk_generated(cpre));
                        assert forall|lx2: int, y2: int, lz2: int|
                            0 <= lx2 < 16 && 0 <= y2 < 256 && 0 <= lz2 < 16
                            implies (#[trigger] self.chunks.chunks_seq()[
                                ci as int].block_at(lx2, y2, lz2)
                                == spec_gen_base(
                                    self.chunks.chunks_seq()[ci as int].origin(),
                                    lx2, y2, lz2)
                                || self.chunks.chunks_seq()[ci as int].block_at(
                                    lx2, y2, lz2) == BlockType::Leaves) by {
                            assert(self.chunks.chunks_seq()[ci as int].block_at(
                                lx2, y2, lz2) == cpre.block_at(lx2, y2, lz2));
                        }
                    }
                    assert forall|o2: WorldPos| #[trigger] self.chunks.spec_has(o2)
                        implies spec_dist2(o2, pc) <= RADIUS_SQ && aligned(o2)
                            && within_load_box(o2, pc) by {
                        assert(chunks_pre.spec_has(o2));
                    }
                    assert forall|o2: WorldPos|
                        (aligned(o2) && pc.x - 112 <= o2.x <= pc.x + 112
                            && pc.z - 112 <= o2.z <= pc.z + 112
                            && spec_dist2(o2, pc) <= RADIUS_SQ)
                        implies #[trigger] self.chunks.spec_has(o2) by {
                        assert(chunks_pre.spec_has(o2));
                    }
                    lemma_stream_mesh_step(chunks_pre, self.chunks, oldc, olds, o);
                    assert(stream_pending_accounted(self.block_scratch@, self.chunks,
                        olds@)) by {
                        assert forall|q: ThreeDimPos| #[trigger] olds@.contains_key(q)
                            implies ((self.block_scratch@.contains_key(q)
                                && self.block_scratch@[q] == olds@[q])
                                || (self.chunks.spec_has(spec_cords_to_chunk(
                                    WorldPos { x: q.x, z: q.z }))
                                    && self.chunks.spec_block(q)
                                        == Some(BlockType::Leaves))) by {
                            if !(self.block_scratch@.contains_key(q)
                                && self.block_scratch@[q] == olds@[q]) {
                                assert(chunks_pre.spec_block(q)
                                    == Some(BlockType::Leaves));
                            }
                        }
                    }
                }
            }
            proof {
                assert forall|jj: int, m: int|
                    0 <= jj < self.block_scratch.entries_seq().len() && 0 <= m < ci + 1
                    implies spec_cords_to_chunk(WorldPos {
                        x: (#[trigger] self.block_scratch.entries_seq()[jj]).0.x,
                        z: self.block_scratch.entries_seq()[jj].0.z,
                    }) != (#[trigger] self.chunks.chunks_seq()[m]).origin() by {
                    if m == ci as int {
                        assert(spec_cords_to_chunk(WorldPos {
                            x: self.block_scratch.entries_seq()[jj].0.x,
                            z: self.block_scratch.entries_seq()[jj].0.z,
                        }) != o);
                    }
                }
            }
            ci += 1;
        }
        proof {
            assert forall|p: ThreeDimPos| #[trigger] self.block_scratch@.contains_key(p)
                implies !self.chunks.spec_has(spec_cords_to_chunk(
                    WorldPos { x: p.x, z: p.z })) by {
                crate::world::scratch::lemma_map_of_dom(
                    self.block_scratch.entries_seq(), p);
                let j = choose|j: int| 0 <= j < self.block_scratch.entries_seq().len()
                    && (#[trigger] self.block_scratch.entries_seq()[j]).0 == p;
                let owner = spec_cords_to_chunk(WorldPos { x: p.x, z: p.z });
                if self.chunks.spec_has(owner) {
                    let m = choose|m: int| 0 <= m < self.chunks.chunks_seq().len()
                        && (#[trigger] self.chunks.chunks_seq()[m]).origin() == owner;
                }
            }
        }
    }
}

/// A vertical-only ray steps straight down: with `k` empty cells below the
/// start and solid ground at depth `k`, the traversal lands exactly there.
proof fn lemma_dda_down(
    chunks: ChunkStore, bx: int, by: int, bz: int,
    nx: int, ny: int, nz: int, dy: int, sx: int, sz: int, dist: int, k: int,
)
    requires
        dy > 0,
        0 <= dist,
        0 <= k,
        dist + k <= 8,
        i64::MIN <= bx <= i64::MAX,
        i64::MIN <= bz <= i64::MAX,
        forall|j: int| 0 <= j < k ==> !#[trigger] spec_solid_at(chunks, bx, by - j, bz),
        spec_solid_at(chunks, bx, by - k, bz),
    ensures
        spec_dda(chunks, bx, by, bz, nx, ny, nz, 0, dy, 0, sx, -1, sz, dist)
            == Some(ThreeDimPos { x: bx as i64, y: (by - k) as u8, z: bz as i64 }),
    decreases k,
{
    if k == 0 {
    } else {
        assert(!spec_solid_at(chunks, bx, by - 0, bz));
        assert(!spec_frac_le(nx, 0, ny, dy));
        assert(spec_frac_le(ny, dy, nz, 0));
        assert forall|j: int| 0 <= j < k - 1
            implies !#[trigger] spec_solid_at(chunks, bx, (by - 1) - j, bz) by {
            assert(!spec_solid_at(chunks, bx, by - (j + 1), bz));
        }
        assert(spec_solid_at(chunks, bx, (by - 1) - (k - 1), bz));
        lemma_dda_down(chunks, bx, by - 1, bz, nx, ny + 1000, nz, dy, sx, sz,
            dist + 1, k - 1);
    }
}

/// A vertical-only ray that finds no solid cell within its step budget
/// clears the highlight.
proof fn lemma_dda_down_none(
    chunks: ChunkStore, bx: int, by: int, bz: int,
    nx: int, ny: int, nz: int, dy: int, sx: int, sz: int, dist: int,
)
    requires
        dy > 0,
        0 <= dist <= 8,
        forall|j: int| 0 <= j <= 8 - dist ==> !#[trigger] spec_solid_at(chunks, bx, by - j, bz),
    ensures
        spec_dda(chunks, bx, by, bz, nx, ny, nz, 0, dy, 0, sx, -1, sz, dist)
            == Option::<ThreeDimPos>::None,
    decreases 9 - dist,
{
    assert(!spec_solid_at(chunks, bx, by - 0, bz));
    if dist <= 7 {
        assert(!spec_frac_le(nx, 0, ny, dy));
        assert(spec_frac_le(ny, dy, nz, 0));
        assert forall|j: int| 0 <= j <= 8 - (dist + 1)
            implies !#[trigger] spec_solid_at(chunks, bx, (by - 1) - j, bz) by {
            assert(!spec_solid_at(chunks, bx, by - (j + 1), bz));
        }
        lemma_dda_down_none(chunks, bx, by - 1, bz, nx, ny + 1000, nz, dy, sx, sz,
            dist + 1);
    }
}

/// A player facing straight down directly above a solid block at depth `d`
/// within the highlight range has the highlight resolve to exactly that
/// block; with only empty cells in reach below, it resolves to none.
pub proof fn lemma_raycast_straight_down(
    chunks: ChunkStore, start: MilliVec3, c: i64, d: int, prev: Option<ThreeDimPos>,
)
    requires
        c < 0,
        0 <= d <= 8,
        forall|j: int| 0 <= j < d ==> !#[trigger] spec_solid_at(
            chunks, start.x as int / 1000, start.y as int / 1000 - j,
            start.z as int / 1000),
        spec_solid_at(chunks, start.x as int / 1000, start.y as int / 1000 - d,
            start.z as int / 1000),
    ensures
        spec_highlight_from(chunks, start, MilliVec3 { x: 0, y: c, z: 0 }, prev)
            == Some(ThreeDimPos {
                x: (start.x as int / 1000) as i64,
                y: (start.y as int / 1000 - d) as u8,
                z: (start.z as int / 1000) as i64,
            }),
{
    vstd::arithmetic::div_mod::lemma_div_is_ordered(
        i64::MIN as int, start.x as int, 1000);
    vstd::arithmetic::div_mod::lemma_div_is_ordered(start.x as int, i64::MAX as int, 1000);
    vstd::arithmetic::div_mod::lemma_div_is_ordered(
        i64::MIN as int, start.z as int, 1000);
    vstd::arithmetic::div_mod::lemma_div_is_ordered(start.z as int, i64::MAX as int, 1000);
    vstd::arithmetic::div_mod::lemma_div_pos_is_pos(i64::MAX as int, 1000);
    vstd::arithmetic::div_mod::lemma_div_is_ordered(0, i64::MAX as int, 1000);
    lemma_dda_down(
        chunks,
        start.x as int / 1000, start.y as int / 1000, start.z as int / 1000,
        spec_init_num(start.x as int, 0),
        spec_init_num(start.y as int, c as int),
        spec_init_num(start.z as int, 0),
        -(c as int), spec_step_of(0), spec_step_of(0), 0, d);
}

/// The miss half of the straight-down raycast: with only empty cells at
/// every reachable depth, the highlight resolves to none.
pub proof fn lemma_raycast_straight_down_miss(
    chunks: ChunkStore, start: MilliVec3, c: i64, prev: Option<ThreeDimPos>,
)
    requires
        c < 0,
        forall|j: int| 0 <= j <= 8 ==> !#[trigger] spec_solid_at(
            chunks, start.x as int / 1000, start.y as int / 1000 - j,
            start.z as int / 1000),
    ensures
        spec_highlight_from(chunks, start, MilliVec3 { x: 0, y: c, z: 0 }, prev)
            == Option::<ThreeDimPos>::None,
{
    lemma_dda_down_none(
        chunks,
        start.x as int / 1000, start.y as int / 1000, start.z as int / 1000,
        spec_init_num(start.x as int, 0),
        spec_init_num(start.y as int, c as int),
        spec_init_num(start.z as int, 0),
        -(c as int), spec_step_of(0), spec_step_of(0), 0);
}

} // verus!
