//! Build-time constants of the world: grid dimensions, streaming radius,
//! generation seed, and fixed-point physics parameters.

use vstd::prelude::*;

verus! {

/// Lateral side length of a chunk, in blocks.
pub const CHUNK_SIZE: usize = 16;
/// Fixed world height, in blocks; block `y` coordinates fit in a byte.
pub const WORLD_HEIGHT: usize = 256;
/// Blocks at or below this height flood with water; beaches form at it.
pub const SEA_LEVEL: usize = 64;
/// How many chunks away from the player's chunk are kept loaded.
pub const RENDER_DIST: usize = 8;
/// Global seed of the procedural generator.
pub const SEED: u32 = 613;
/// Maximum number of grid steps a highlight ray is traced.
pub const MAX_HIGHLIGHT_DIST: usize = 8;

/// Physics steps per second.
pub const PHYSICS_TICK_RATE: i64 = 60;
/// Minimum nanoseconds between two physics steps.
pub const TICK_NANOS: u64 = 1_000_000_000 / 60;
/// Lateral walking speed, milliblocks per second.
pub const MOVE_SPEED: i64 = 7000;
/// Upward velocity set by a jump, milliblocks per second.
pub const JUMP_SPEED: i64 = 9000;
/// Vertical acceleration of gravity, milliblocks per second squared.
pub const GRAVITY_Y: i64 = -30000;
/// Sprinting multiplies walking speed by this.
pub const SPRINT_MULTIPLIER: i64 = 2;

/// Chance of a tree at a column: a seeded draw below this threshold, out of
/// the full `u64` range, places a tree (about 0.8%).
pub const TREE_THRESHOLD: u64 = 0xFFFF_FFFF_FFFF_FFFF / 125;

/// Positions are clamped to this many milliblocks from the origin: a world
/// border far beyond anything reachable, keeping every coordinate
/// computation inside the machine range.
pub const POS_LIMIT: i64 = 0x800_0000_0000_0000;

/// Bounding boxes extend at most this many milliblocks on each axis.
pub const SIZE_LIMIT: i64 = 1_000_000_000;

/// Facing-vector components stay within this bound.
pub const FACING_LIMIT: i64 = 1_000_000;

/// The loading radius in blocks: `RENDER_DIST` chunks of `CHUNK_SIZE`.
pub const RADIUS: i64 = 128;

/// The loading radius, squared.
pub const RADIUS_SQ: i64 = 16384;

} // verus!
