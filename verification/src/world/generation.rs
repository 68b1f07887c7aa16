//! Deterministic, seeded, position-keyed sampling for terrain elevation and
//! tree placement. Elevation is the sum of three octaves of a coherent
//! integer value-noise field plus a fixed base height; tree placement is a
//! per-position seeded draw with a fixed low probability. Both are pure
//! functions of the global seed and the absolute lateral position, so
//! neighbouring chunks agree on shared values without communication.

use vstd::prelude::*;
use crate::math::floor_div;
use crate::math::rem_euclid_i64;
use crate::settings::SEED;
use crate::settings::TREE_THRESHOLD;

verus! {

/// Mixing step of the position hash (two xor-shift-multiply rounds).
closed spec fn spec_mix64(h0: u64) -> u64 {
    let h1 = h0 ^ (h0 >> 33u64);
    let h2 = vstd::wrapping::u64_specs::wrapping_mul(h1, 0xff51afd7ed558ccdu64);
    let h3 = h2 ^ (h2 >> 33u64);
    let h4 = vstd::wrapping::u64_specs::wrapping_mul(h3, 0xc4ceb9fe1a85ec53u64);
    h4 ^ (h4 >> 33u64)
}

fn mix64(h: u64) -> (r: u64)
    ensures
        r == spec_mix64(h),
{
    let h1 = h ^ (h >> 33u64);
    let h2 = h1.wrapping_mul(0xff51afd7ed558ccd);
    let h3 = h2 ^ (h2 >> 33u64);
    let h4 = h3.wrapping_mul(0xc4ceb9fe1a85ec53);
    h4 ^ (h4 >> 33u64)
}

/// The two's-complement image of a signed coordinate, so negative positions
/// hash just as well as positive ones.
closed spec fn spec_u64_of_i64(x: i64) -> u64 {
    if x >= 0 {
        x as u64
    } else {
        (x + 0x1_0000_0000_0000_0000) as u64
    }
}

fn u64_of_i64(x: i64) -> (r: u64)
    ensures
        r == spec_u64_of_i64(x),
{
    if x >= 0 {
        x as u64
    } else {
        ((x as i128) + 0x1_0000_0000_0000_0000) as u64
    }
}

/// Position hash: a pure function of seed, salt and lateral position.
closed spec fn spec_hash_pos(seed: u64, salt: u64, x: i64, z: i64) -> u64 {
    spec_mix64(spec_mix64(spec_mix64(seed ^ salt) ^ spec_u64_of_i64(x)) ^ spec_u64_of_i64(z))
}

fn hash_pos(seed: u64, salt: u64, x: i64, z: i64) -> (r: u64)
    ensures
        r == spec_hash_pos(seed, salt, x, z),
{
    mix64(mix64(mix64(seed ^ salt) ^ u64_of_i64(x)) ^ u64_of_i64(z))
}

/// Noise value pinned at an integer lattice point, in `[-1024, 1024]`.
closed spec fn spec_lattice(salt: u64, xi: i64, zi: i64) -> i64 {
    ((spec_hash_pos(SEED as u64, salt, xi, zi) % 2049u64) - 1024) as i64
}

fn lattice(salt: u64, xi: i64, zi: i64) -> (r: i64)
    ensures
        r == spec_lattice(salt, xi, zi),
        -1024 <= r <= 1024,
{
    let h = hash_pos(SEED as u64, salt, xi, zi);
    (h % 2049) as i64 - 1024
}

/// Linear interpolation between `a` and `b` at fraction `f / s`, rounded
/// toward negative infinity; the result stays between `a` and `b`.
spec fn spec_lerp(a: int, b: int, f: int, s: int) -> int
    recommends
        0 <= f < s,
{
    a + (b - a) * f / s
}

proof fn lemma_lerp_bounds(a: int, b: int, f: int, s: int)
    requires
        0 <= f < s,
    ensures
        a <= b ==> a <= spec_lerp(a, b, f, s) <= b,
        a > b ==> b <= spec_lerp(a, b, f, s) <= a,
{
    let num = (b - a) * f;
    // (b - a) * s divided by s is b - a again, whatever the sign.
    vstd::arithmetic::div_mod::lemma_fundamental_div_mod_converse(
        (b - a) * s, s, b - a, 0);
    vstd::arithmetic::div_mod::lemma_div_basics(s);
    if a <= b {
        vstd::arithmetic::mul::lemma_mul_nonnegative(b - a, f);
        vstd::arithmetic::div_mod::lemma_div_pos_is_pos(num, s);
        assert(num <= (b - a) * s) by (nonlinear_arith)
            requires num == (b - a) * f && 0 <= f < s && b - a >= 0;
        vstd::arithmetic::div_mod::lemma_div_is_ordered(num, (b - a) * s, s);
    } else {
        assert((b - a) * s <= num <= 0) by (nonlinear_arith)
            requires num == (b - a) * f && 0 <= f < s && b - a < 0;
        vstd::arithmetic::div_mod::lemma_div_is_ordered((b - a) * s, num, s);
        vstd::arithmetic::div_mod::lemma_div_is_ordered(num, 0, s);
    }
}

fn lerp(a: i64, b: i64, f: i64, s: i64) -> (r: i64)
    requires
        -1024 <= a <= 1024,
        -1024 <= b <= 1024,
        0 <= f < s,
        s <= 256,
    ensures
        r == spec_lerp(a as int, b as int, f as int, s as int),
        -1024 <= r <= 1024,
{
    proof {
        lemma_lerp_bounds(a as int, b as int, f as int, s as int);
        assert(-0x8_0000 <= (b - a) * f <= 0x8_0000) by (nonlinear_arith)
            requires -2048 <= b - a <= 2048 && 0 <= f < s <= 256;
    }
    a + floor_div((b - a) * f, s)
}

/// One octave of coherent value noise: bilinear interpolation between the
/// four surrounding lattice points at the given lattice spacing.
closed spec fn spec_octave(salt: u64, x: i64, z: i64, s: i64) -> int
    recommends
        2 <= s <= 256,
{
    let x0 = ((x as int) / (s as int)) as i64;
    let z0 = ((z as int) / (s as int)) as i64;
    let fx = (x as int) % (s as int);
    let fz = (z as int) % (s as int);
    let v0 = spec_lerp(
        spec_lattice(salt, x0, z0) as int,
        spec_lattice(salt, (x0 + 1) as i64, z0) as int, fx, s as int);
    let v1 = spec_lerp(
        spec_lattice(salt, x0, (z0 + 1) as i64) as int,
        spec_lattice(salt, (x0 + 1) as i64, (z0 + 1) as i64) as int, fx, s as int);
    spec_lerp(v0, v1, fz, s as int)
}

fn octave(salt: u64, x: i64, z: i64, s: i64) -> (r: i64)
    requires
        2 <= s <= 256,
    ensures
        r == spec_octave(salt, x, z, s),
        -1024 <= r <= 1024,
{
    proof {
        lemma_quotient_in_range(x as int, s as int);
        lemma_quotient_in_range(z as int, s as int);
    }
    let x0 = floor_div(x, s);
    let z0 = floor_div(z, s);
    let fx = rem_euclid_i64(x, s);
    let fz = rem_euclid_i64(z, s);
    let v00 = lattice(salt, x0, z0);
    let v10 = lattice(salt, x0 + 1, z0);
    let v01 = lattice(salt, x0, z0 + 1);
    let v11 = lattice(salt, x0 + 1, z0 + 1);
    let v0 = lerp(v00, v10, fx, s);
    let v1 = lerp(v01, v11, fx, s);
    proof {
        lemma_lerp_bounds(v0 as int, v1 as int, fz as int, s as int);
    }
    lerp(v0, v1, fz, s)
}

/// Terrain elevation at an absolute lateral position: a fixed base height of
/// 70 plus three noise octaves of amplitudes 30, 20 and 5 at lattice spacings
/// 200, 100 and 20, rounded to the nearest block. Always in `[15, 125]`.
pub closed spec fn spec_elevation(x: i64, z: i64) -> u8 {
    let sum = 30 * spec_octave(2, x, z, 200)
        + 20 * spec_octave(0, x, z, 100)
        + 5 * spec_octave(1, x, z, 20);
    (70 + (sum + 512) / 1024) as u8
}

/// Elevation lies in `[15, 125]`, so the surface and anything a tree adds to
/// it fit under the fixed world height.
pub proof fn lemma_elevation_bounds(x: i64, z: i64)
    ensures
        15 <= spec_elevation(x, z) <= 125,
{
    let sum = 30 * spec_octave(2, x, z, 200)
        + 20 * spec_octave(0, x, z, 100)
        + 5 * spec_octave(1, x, z, 20);
    lemma_octave_bounds(2, x, z, 200);
    lemma_octave_bounds(0, x, z, 100);
    lemma_octave_bounds(1, x, z, 20);
    assert(-56320 <= sum <= 56320);
    vstd::arithmetic::div_mod::lemma_div_is_ordered(-55808, sum + 512, 1024);
    vstd::arithmetic::div_mod::lemma_div_is_ordered(sum + 512, 56832, 1024);
    assert((-55808int) / 1024 == -55);
    assert(56832int / 1024 == 55);
}

proof fn lemma_octave_bounds(salt: u64, x: i64, z: i64, s: i64)
    requires
        2 <= s <= 256,
    ensures
        -1024 <= spec_octave(salt, x, z, s) <= 1024,
{
    let x0 = ((x as int) / (s as int)) as i64;
    let z0 = ((z as int) / (s as int)) as i64;
    let fx = (x as int) % (s as int);
    let fz = (z as int) % (s as int);
    vstd::arithmetic::div_mod::lemma_mod_bound(x as int, s as int);
    vstd::arithmetic::div_mod::lemma_mod_bound(z as int, s as int);
    let v00 = spec_lattice(salt, x0, z0) as int;
    let v10 = spec_lattice(salt, (x0 + 1) as i64, z0) as int;
    let v01 = spec_lattice(salt, x0, (z0 + 1) as i64) as int;
    let v11 = spec_lattice(salt, (x0 + 1) as i64, (z0 + 1) as i64) as int;
    lemma_lattice_bounds(salt, x0, z0);
    lemma_lattice_bounds(salt, (x0 + 1) as i64, z0);
    lemma_lattice_bounds(salt, x0, (z0 + 1) as i64);
    lemma_lattice_bounds(salt, (x0 + 1) as i64, (z0 + 1) as i64);
    lemma_lerp_bounds(v00, v10, fx, s as int);
    lemma_lerp_bounds(v01, v11, fx, s as int);
    lemma_lerp_bounds(
        spec_lerp(v00, v10, fx, s as int), spec_lerp(v01, v11, fx, s as int),
        fz, s as int);
}

/// Dividing an `i64` by a spacing of at least 2 leaves room for the next
/// lattice point `x0 + 1` within `i64`.
proof fn lemma_quotient_in_range(x: int, s: int)
    requires
        2 <= s <= 256,
        i64::MIN <= x <= i64::MAX,
    ensures
        -0x4000_0000_0000_0000 - 256 <= x / s <= 0x4000_0000_0000_0000,
{
    let q = x / s;
    let m = x % s;
    vstd::arithmetic::div_mod::lemma_fundamental_div_mod(x, s);
    vstd::arithmetic::div_mod::lemma_mod_bound(x, s);
    assert(-0x4000_0000_0000_0000 - 256 <= q <= 0x4000_0000_0000_0000)
        by (nonlinear_arith)
        requires
            s * q + m == x && 0 <= m < s && 2 <= s <= 256
                && -0x8000_0000_0000_0000 <= x <= 0x7FFF_FFFF_FFFF_FFFF;
}

proof fn lemma_lattice_bounds(salt: u64, xi: i64, zi: i64)
    ensures
        -1024 <= spec_lattice(salt, xi, zi) <= 1024,
{
    let h = spec_hash_pos(SEED as u64, salt, xi, zi);
    vstd::arithmetic::div_mod::lemma_mod_bound(h as int, 2049);
}

/// Samples the terrain elevation at an absolute lateral position. A pure
/// function of the build-time seed and the position: identical arguments
/// always yield the identical height, across chunk boundaries.
pub fn sample_elevation(x: i64, z: i64) -> (r: u8)
    ensures
        r == spec_elevation(x, z),
        15 <= r <= 125,
{
    let oa = octave(2, x, z, 200);
    let ob = octave(0, x, z, 100);
    let oc = octave(1, x, z, 20);
    proof {
        lemma_elevation_bounds(x, z);
    }
    let sum: i64 = 30 * oa + 20 * ob + 5 * oc;
    let r = 70 + floor_div(sum + 512, 1024);
    r as u8
}

/// The first value drawn from rand's standard generator seeded with `seed`:
/// a function of the seed alone.
pub uninterp spec fn rng_of(seed: u64) -> u64;

/// Relies on rand's `StdRng::seed_from_u64` and `Rng::random::<u64>`: in the
/// version built against, `StdRng` is the ChaCha12 generator, and seeding and
/// drawing are deterministic in the seed, with no other input.
#[verifier::external_body]
fn rng_draw(seed: u64) -> (r: u64)
    ensures
        r == rng_of(seed),
{
    let mut rng = <rand::rngs::StdRng as rand::SeedableRng>::seed_from_u64(seed);
    rand::Rng::random::<u64>(&mut rng)
}

/// Whether a tree is placed at an absolute lateral position: a seeded draw,
/// keyed by a hash of seed and position, falls below a fixed threshold of
/// about 0.8%. Independent of the elevation noise.
pub closed spec fn spec_tree(x: i64, z: i64) -> bool {
    rng_of(spec_hash_pos(SEED as u64, 3, x, z)) < TREE_THRESHOLD
}

/// Samples the deterministic tree-placement decision at an absolute lateral
/// position.
pub fn sample_tree(x: i64, z: i64) -> (r: bool)
    ensures
        r == spec_tree(x, z),
{
    let h = hash_pos(SEED as u64, 3, x, z);
    rng_draw(h) < TREE_THRESHOLD
}

} // verus!
