//! Integer roots.
//!
//! The loudness meter needs a square root (root-mean-square energy) and the
//! perceptual curve needs a fifth root (to raise a value to the power 8/5).
//! Both are floor roots of non-negative integers, specified through the one
//! spec function [`root_floor`] and computed by binary search.
use vstd::prelude::*;
use vstd::arithmetic::mul::{
    lemma_mul_inequality, lemma_mul_nonnegative, lemma_mul_strict_inequality,
    lemma_mul_upper_bound,
};
use vstd::arithmetic::power::{
    lemma0_pow, lemma1_pow, lemma_pow1, lemma_pow_adds, lemma_square_is_pow2, pow,
};

verus! {

/// The largest `r` with `r^e <= m`, for `e >= 1`: the floor of the `e`-th
/// root of `m`.
pub open spec fn root_floor(m: nat, e: nat) -> nat
    decreases m,
{
    if m == 0 {
        0
    } else {
        let p = root_floor((m - 1) as nat, e);
        if pow(p as int + 1, e) <= m {
            p + 1
        } else {
            p
        }
    }
}

/// A power of a non-negative base is non-negative.
pub proof fn lemma_pow_nonneg(b: int, e: nat)
    requires
        0 <= b,
    ensures
        0 <= pow(b, e),
    decreases e,
{
    reveal(pow);
    if e > 0 {
        lemma_pow_nonneg(b, (e - 1) as nat);
        lemma_mul_nonnegative(b, pow(b, (e - 1) as nat));
    }
}

/// Raising to a fixed power preserves the order of non-negative bases.
pub proof fn lemma_pow_base_le(a: int, b: int, e: nat)
    requires
        0 <= a <= b,
    ensures
        pow(a, e) <= pow(b, e),
    decreases e,
{
    reveal(pow);
    if e > 0 {
        lemma_pow_base_le(a, b, (e - 1) as nat);
        lemma_pow_nonneg(a, (e - 1) as nat);
        lemma_pow_nonneg(b, (e - 1) as nat);
        lemma_mul_inequality(pow(a, (e - 1) as nat), pow(b, (e - 1) as nat), a);
        assert(pow(a, (e - 1) as nat) * a == a * pow(a, (e - 1) as nat)) by (nonlinear_arith);
        assert(pow(b, (e - 1) as nat) * a == a * pow(b, (e - 1) as nat)) by (nonlinear_arith);
        if b > 0 {
            lemma_mul_inequality(a, b, pow(b, (e - 1) as nat));
        } else {
            assert(a == 0 && b == 0);
        }
    }
}

/// Raising to a fixed positive power preserves strict order of non-negative
/// bases.
pub proof fn lemma_pow_base_lt(a: int, b: int, e: nat)
    requires
        0 <= a < b,
        1 <= e,
    ensures
        pow(a, e) < pow(b, e),
    decreases e,
{
    reveal(pow);
    if e == 1 {
        lemma_pow1(a);
        lemma_pow1(b);
    } else {
        lemma_pow_base_lt(a, b, (e - 1) as nat);
        lemma_pow_nonneg(a, (e - 1) as nat);
        lemma_mul_inequality(pow(a, (e - 1) as nat), pow(b, (e - 1) as nat), a);
        assert(pow(a, (e - 1) as nat) * a == a * pow(a, (e - 1) as nat)) by (nonlinear_arith);
        assert(pow(b, (e - 1) as nat) * a == a * pow(b, (e - 1) as nat)) by (nonlinear_arith);
        assert(0 < pow(b, (e - 1) as nat)) by {
            vstd::arithmetic::power::lemma_pow_positive(b, (e - 1) as nat);
        }
        lemma_mul_strict_inequality(a, b, pow(b, (e - 1) as nat));
    }
}

/// `root_floor(m, e)` is indeed the floor of the `e`-th root: its `e`-th
/// power is at most `m`, and the next power is above `m`.
pub proof fn lemma_root_floor_bounds(m: nat, e: nat)
    requires
        1 <= e,
    ensures
        pow(root_floor(m, e) as int, e) <= m as int,
        (m as int) < pow(root_floor(m, e) as int + 1, e),
    decreases m,
{
    if m == 0 {
        lemma0_pow(e);
        lemma1_pow(e);
    } else {
        lemma_root_floor_bounds((m - 1) as nat, e);
        let p = root_floor((m - 1) as nat, e) as int;
        if pow(p + 1, e) <= m as int {
            lemma_pow_base_lt(p + 1, p + 2, e);
        }
    }
}

/// Any `r >= 0` whose `e`-th power is at most `m` while `(r+1)^e` is above
/// `m` equals `root_floor(m, e)`.
pub proof fn lemma_root_floor_unique(m: nat, e: nat, r: int)
    requires
        1 <= e,
        0 <= r,
        pow(r, e) <= m as int,
        (m as int) < pow(r + 1, e),
    ensures
        r == root_floor(m, e) as int,
{
    let q = root_floor(m, e) as int;
    lemma_root_floor_bounds(m, e);
    if r < q {
        lemma_pow_base_le(r + 1, q, e);
    }
    if q < r {
        lemma_pow_base_le(q + 1, r, e);
    }
}

/// The floor root is monotone in its argument.
pub proof fn lemma_root_floor_monotone(m1: nat, m2: nat, e: nat)
    requires
        1 <= e,
        m1 <= m2,
    ensures
        root_floor(m1, e) <= root_floor(m2, e),
{
    let r1 = root_floor(m1, e) as int;
    let r2 = root_floor(m2, e) as int;
    lemma_root_floor_bounds(m1, e);
    lemma_root_floor_bounds(m2, e);
    if r2 < r1 {
        lemma_pow_base_le(r2 + 1, r1, e);
    }
}

/// Floor square root of a `u64`, by binary search.
pub fn isqrt_u64(x: u64) -> (r: u32)
    ensures
        r as int == root_floor(x as nat, 2) as int,
        (r as int) * (r as int) <= x as int,
        (x as int) < (r as int + 1) * (r as int + 1),
{
    let mut lo: u64 = 0;
    let mut hi: u64 = 0x1_0000_0000;
    proof {
        lemma0_pow(2);
        lemma_square_is_pow2(0x1_0000_0000);
    }
    while lo + 1 < hi
        invariant
            lo < hi <= 0x1_0000_0000,
            pow(lo as int, 2) <= x as int,
            (x as int) < pow(hi as int, 2),
        decreases hi - lo,
    {
        let mid: u64 = lo + (hi - lo) / 2;
        proof {
            lemma_square_is_pow2(mid as int);
            lemma_mul_upper_bound(mid as int, 0xFFFF_FFFF, mid as int, 0xFFFF_FFFF);
        }
        if mid * mid <= x {
            lo = mid;
        } else {
            hi = mid;
        }
    }
    proof {
        lemma_root_floor_unique(x as nat, 2, lo as int);
        lemma_square_is_pow2(lo as int);
        lemma_square_is_pow2(lo as int + 1);
    }
    lo as u32
}

/// Floor fifth root of a `u128` below `10^27`, by binary search.
pub fn root5_u128(t: u128) -> (r: u64)
    requires
        t <= 1_000_000_000_000_000_000_000_000_000u128,
    ensures
        r as int == root_floor(t as nat, 5) as int,
        pow(r as int, 5) <= t as int,
        (t as int) < pow(r as int + 1, 5),
        r < 262_144,
{
    let mut lo: u64 = 0;
    let mut hi: u64 = 262_144;
    proof {
        lemma0_pow(5);
        lemma_pow5_value(262_144);
        assert(pow(262_144, 5) == 1237940039285380274899124224int);
    }
    while lo + 1 < hi
        invariant
            lo < hi <= 262_144,
            pow(lo as int, 5) <= t as int,
            (t as int) < pow(hi as int, 5),
        decreases hi - lo,
    {
        let mid: u64 = lo + (hi - lo) / 2;
        let m: u128 = mid as u128;
        proof {
            lemma_mul_upper_bound(m as int, 0x3FFFF, m as int, 0x3FFFF);
        }
        let m2: u128 = m * m;
        proof {
            lemma_mul_upper_bound(m2 as int, 0xF_FFFF_FFFF, m2 as int, 0xF_FFFF_FFFF);
        }
        let m4: u128 = m2 * m2;
        proof {
            lemma_mul_upper_bound(m4 as int, 0xFF_FFFF_FFFF_FFFF_FFFF, m as int, 0x3FFFF);
            lemma_pow5_value(mid as int);
        }
        let m5: u128 = m4 * m;
        if m5 <= t {
            lo = mid;
        } else {
            hi = mid;
        }
    }
    proof {
        lemma_root_floor_unique(t as nat, 5, lo as int);
    }
    lo
}

/// The fifth power written out as the products the searches compute.
pub proof fn lemma_pow5_value(b: int)
    ensures
        pow(b, 5) == ((b * b) * (b * b)) * b,
{
    lemma_square_is_pow2(b);
    lemma_pow_adds(b, 2, 2);
    lemma_pow_adds(b, 4, 1);
    lemma_pow1(b);
}

/// The eighth power written out as the products the curve computes.
pub proof fn lemma_pow8_value(b: int)
    ensures
        pow(b, 8) == ((b * b) * (b * b)) * ((b * b) * (b * b)),
{
    lemma_square_is_pow2(b);
    lemma_pow_adds(b, 2, 2);
    lemma_pow_adds(b, 4, 4);
}

} // verus!
