//! Rescaling loudness into the observed dynamic range, and the perceptual
//! boost curve.
//!
//! Normalization maps the instantaneous loudness onto `[0, 100]` (carried in
//! hundredths of a percent point) relative to the minimum and maximum
//! loudness observed so far, which removes any dependency on absolute
//! microphone gain. The boost curve then raises the normalized value to the
//! power `8/5 = 1.6`, suppressing the low end and emphasizing loud events.
use vstd::prelude::*;
use vstd::arithmetic::div_mod::{
    lemma_div_is_ordered, lemma_div_multiples_vanish, lemma_div_pos_is_pos,
};
use vstd::arithmetic::mul::{lemma_mul_inequality, lemma_mul_upper_bound};
use vstd::arithmetic::power::pow;
use crate::roots::{
    lemma_pow8_value, lemma_pow_base_le, lemma_pow_nonneg, lemma_root_floor_monotone,
    root5_u128, root_floor,
};
use crate::FULL_SCALE;

verus! {

/// Loudness rescaled against the observed range: 0 at the observed minimum,
/// full scale at the observed maximum, and defined as 0 while no dynamic
/// range has been observed at all (`max_rms == min_rms`).
pub open spec fn normalized_spec(rms: int, min_rms: int, max_rms: int) -> int {
    if max_rms > min_rms {
        (rms - min_rms) * (FULL_SCALE as int) / (max_rms - min_rms)
    } else {
        0
    }
}

/// The perceptual curve: the normalized value raised to the power
/// `8/5 = 1.6`, kept in the same hundredths-of-a-percent scale. For an
/// argument `n` in hundredths of a percent the exact real value is
/// `(n^8 / 100^3)^(1/5)`; this is its floor.
pub open spec fn boost_spec(n: int) -> int {
    root_floor((pow(n, 8) / 1_000_000) as nat, 5) as int
}

/// Rescales one loudness value against the observed range.
///
/// A degenerate range (`max_rms == min_rms`) is not an error: the result is
/// then exactly 0. Integer arithmetic has no NaN or infinity to guard
/// against, so the result is always a value in `[0, FULL_SCALE]`.
pub fn normalized_rms(rms: u32, min_rms: u32, max_rms: u32) -> (n: u64)
    requires
        min_rms <= rms,
        rms <= max_rms,
    ensures
        n as int == normalized_spec(rms as int, min_rms as int, max_rms as int),
        n <= FULL_SCALE,
{
    if max_rms > min_rms {
        let a: u64 = (rms - min_rms) as u64;
        let d: u64 = (max_rms - min_rms) as u64;
        let n: u64 = a * FULL_SCALE / d;
        proof {
            lemma_mul_inequality(a as int, d as int, FULL_SCALE as int);
            lemma_div_is_ordered(
                (a as int) * (FULL_SCALE as int),
                (d as int) * (FULL_SCALE as int),
                d as int,
            );
            lemma_div_multiples_vanish(FULL_SCALE as int, d as int);
            assert((d as int) * (FULL_SCALE as int) == (FULL_SCALE as int) * (d as int));
        }
        n
    } else {
        0
    }
}

/// Applies the perceptual curve to a normalized loudness value.
pub fn boost_curve(n: u64) -> (b: u64)
    requires
        n <= FULL_SCALE,
    ensures
        b as int == boost_spec(n as int),
{
    proof {
        lemma_mul_upper_bound(n as int, 10_000, n as int, 10_000);
    }
    let n2: u64 = n * n;
    let m2: u128 = n2 as u128;
    proof {
        lemma_mul_upper_bound(m2 as int, 100_000_000, m2 as int, 100_000_000);
    }
    let n4: u128 = m2 * m2;
    proof {
        lemma_mul_upper_bound(
            n4 as int,
            10_000_000_000_000_000,
            n4 as int,
            10_000_000_000_000_000,
        );
        lemma_pow8_value(n as int);
    }
    let n8: u128 = n4 * n4;
    let t: u128 = n8 / 1_000_000;
    proof {
        lemma_div_is_ordered(
            n8 as int,
            100_000_000_000_000_000_000_000_000_000_000,
            1_000_000,
        );
    }
    let b = root5_u128(t);
    b
}

/// Boost curve is monotonic: of two normalized loudness values, the louder
/// one never maps to the dimmer boosted value.
pub proof fn lemma_boost_monotonic(n1: int, n2: int)
    requires
        0 <= n1 <= n2,
    ensures
        boost_spec(n1) <= boost_spec(n2),
{
    lemma_pow_base_le(n1, n2, 8);
    lemma_pow_nonneg(n1, 8);
    lemma_pow_nonneg(n2, 8);
    lemma_div_pos_is_pos(pow(n1, 8), 1_000_000);
    lemma_div_is_ordered(pow(n1, 8), pow(n2, 8), 1_000_000);
    lemma_root_floor_monotone(
        (pow(n1, 8) / 1_000_000) as nat,
        (pow(n2, 8) / 1_000_000) as nat,
        5,
    );
}

} // verus!
