//! Verified integer arithmetic helpers: floor division and Euclidean
//! remainder for signed coordinates, truncating division for velocity
//! integration, saturating addition, and an integer square root.

use vstd::prelude::*;

verus! {

/// Quotient of `a / d` rounded toward negative infinity. For a positive
/// divisor this is exactly the mathematical integer division of Verus.
pub fn floor_div(a: i64, d: i64) -> (r: i64)
    requires
        d > 0,
    ensures
        r == a as int / d as int,
{
    if a >= 0 {
        let q: u64 = (a as u64) / (d as u64);
        proof {
            assert(a as int / d as int == (a as u64) as int / (d as u64) as int);
        }
        q as i64
    } else {
        let na: u128 = (-(a as i128)) as u128;
        let du: u128 = d as u128;
        let q: u128 = (na + du - 1) / du;
        proof {
            lemma_neg_ceil_is_floor(na as int, d as int);
            assert(-(q as int) == (a as int) / (d as int));
        }
        (-(q as i128)) as i64
    }
}

/// For `n > 0, d > 0`: `-((n + d - 1) / d) == (-n) / d` (floor division),
/// and the rounded-up quotient lies in `[1, n]`.
proof fn lemma_neg_ceil_is_floor(n: int, d: int)
    requires
        n > 0,
        d > 0,
    ensures
        -((n + d - 1) / d) == (-n) / d,
        1 <= (n + d - 1) / d <= n,
{
    let q = (n + d - 1) / d;
    let m = (n + d - 1) % d;
    vstd::arithmetic::div_mod::lemma_fundamental_div_mod(n + d - 1, d);
    vstd::arithmetic::div_mod::lemma_mod_bound(n + d - 1, d);
    assert(n + d - 1 == d * q + m);
    assert(1 <= q <= n) by (nonlinear_arith)
        requires n + d - 1 == d * q + m && 0 <= m < d && n > 0 && d > 0;
    // -n == (-q) * d + (d - 1 - m), with d - 1 - m in [0, d).
    assert(-n == (-q) * d + (d - 1 - m)) by (nonlinear_arith)
        requires n + d - 1 == d * q + m;
    vstd::arithmetic::div_mod::lemma_fundamental_div_mod_converse(
        -n, d, -q, d - 1 - m);
}

/// Euclidean remainder of `a` by a positive divisor `d`: the unique value in
/// `[0, d)` with `a == d * (a / d) + r`.
pub fn rem_euclid_i64(a: i64, d: i64) -> (r: i64)
    requires
        d > 0,
    ensures
        r == a as int % d as int,
        0 <= r < d,
{
    let q: i64 = floor_div(a, d);
    proof {
        assert(-0x4000_0000_0000_0000_0000_0000_0000_0000 < (q as int) * (d as int)
            < 0x4000_0000_0000_0000_0000_0000_0000_0000) by (nonlinear_arith)
            requires i64::MIN <= q <= i64::MAX && 0 < d <= i64::MAX;
        vstd::arithmetic::div_mod::lemma_fundamental_div_mod(a as int, d as int);
        vstd::arithmetic::div_mod::lemma_mod_bound(a as int, d as int);
    }
    let m: i128 = (a as i128) - (q as i128) * (d as i128);
    m as i64
}

/// Division rounding toward zero, as `/` does on hardware integers.
pub open spec fn spec_div_trunc(a: int, d: int) -> int
    recommends
        d > 0,
{
    if a >= 0 {
        a / d
    } else {
        -((-a) / d)
    }
}

/// Quotient of `a / d` rounded toward zero.
pub fn div_trunc(a: i64, d: i64) -> (r: i64)
    requires
        d > 0,
    ensures
        r == spec_div_trunc(a as int, d as int),
{
    if a >= 0 {
        let q: u64 = (a as u64) / (d as u64);
        q as i64
    } else {
        let na: u128 = (-(a as i128)) as u128;
        let q: u128 = na / (d as u128);
        proof {
            vstd::arithmetic::div_mod::lemma_div_is_ordered(0, na as int, d as int);
            vstd::arithmetic::div_mod::lemma_div_is_ordered_by_denominator(
                na as int, 1, d as int);
        }
        (-(q as i128)) as i64
    }
}

/// `a + b` clamped to the `i64` range.
pub open spec fn spec_sat_add(a: int, b: int) -> int {
    if a + b > i64::MAX {
        i64::MAX as int
    } else if a + b < i64::MIN {
        i64::MIN as int
    } else {
        a + b
    }
}

/// Saturating addition on `i64`.
pub fn sat_add(a: i64, b: i64) -> (r: i64)
    ensures
        r == spec_sat_add(a as int, b as int),
{
    match a.checked_add(b) {
        Some(v) => v,
        None => {
            if b > 0 {
                i64::MAX
            } else {
                i64::MIN
            }
        },
    }
}

/// Integer square root: the largest `r` with `r * r <= n`.
pub fn isqrt(n: u128) -> (r: u64)
    ensures
        (r as int) * (r as int) <= n as int,
        (n as int) < (r as int + 1) * (r as int + 1),
{
    if n == 0 {
        return 0;
    }
    let mut lo: u128 = 0;
    let mut hi: u128 = 0x1_0000_0000_0000_0000;
    proof {
        assert((hi as int) * (hi as int) > n as int) by (nonlinear_arith)
            requires hi == 0x1_0000_0000_0000_0000u128 && n <= u128::MAX;
    }
    while hi - lo > 1
        invariant
            lo < hi <= 0x1_0000_0000_0000_0000,
            (lo as int) * (lo as int) <= n as int,
            (n as int) < (hi as int) * (hi as int),
        decreases hi - lo,
    {
        let mid: u128 = lo + (hi - lo) / 2;
        proof {
            assert((mid as int) * (mid as int) < 0x1_0000_0000_0000_0000_0000_0000_0000_0000)
                by (nonlinear_arith)
                requires mid < 0x1_0000_0000_0000_0000u128;
        }
        if mid * mid <= n {
            lo = mid;
        } else {
            hi = mid;
        }
    }
    lo as u64
}

/// `a + b` clamped to `[-lim, lim]`.
pub open spec fn spec_clamp_add(a: int, b: int, lim: int) -> int {
    if a + b > lim {
        lim
    } else if a + b < -lim {
        -lim
    } else {
        a + b
    }
}

/// Addition clamped to a symmetric range.
pub fn clamp_add(a: i64, b: i64, lim: i64) -> (r: i64)
    requires
        lim >= 0,
    ensures
        r == spec_clamp_add(a as int, b as int, lim as int),
{
    let s: i128 = a as i128 + b as i128;
    if s > lim as i128 {
        lim
    } else if s < -(lim as i128) {
        -lim
    } else {
        s as i64
    }
}

/// The larger of two values.
pub open spec fn spec_max2(a: int, b: int) -> int {
    if a >= b {
        a
    } else {
        b
    }
}

/// The integer square root, as a mathematical function.
pub closed spec fn spec_isqrt(n: int) -> int {
    choose|r: int| r >= 0 && #[trigger] (r * r) <= n < (r + 1) * (r + 1)
}

/// Any value with the square-root property is the integer square root.
pub proof fn lemma_isqrt_is(n: int, r: int)
    requires
        r >= 0,
        r * r <= n,
        n < (r + 1) * (r + 1),
    ensures
        spec_isqrt(n) == r,
{
    assert(exists|s: int| s >= 0 && #[trigger] (s * s) <= n < (s + 1) * (s + 1)) by {
        assert(r >= 0 && #[trigger] (r * r) <= n < (r + 1) * (r + 1));
    }
    let s = spec_isqrt(n);
    assert(s >= 0 && s * s <= n < (s + 1) * (s + 1));
    if s < r {
        assert((s + 1) * (s + 1) <= r * r) by (nonlinear_arith)
            requires 0 <= s < r;
    }
    if r < s {
        assert((r + 1) * (r + 1) <= s * s) by (nonlinear_arith)
            requires 0 <= r < s;
    }
}

} // verus!
