//! Loudness measurement: root-mean-square energy of one audio chunk.
//!
//! Samples are fixed-point integers (micro-units of full scale). The RMS of a
//! chunk is the floor square root of the mean of the squared samples, with
//! the mean rounded up; rounding up keeps the measure faithful to the one
//! property that matters downstream: the loudness is zero exactly when every
//! sample is zero.
use vstd::prelude::*;
use vstd::arithmetic::div_mod::{
    lemma_basic_div, lemma_div_by_self, lemma_div_is_ordered, lemma_multiply_divide_lt,
};
use crate::roots::isqrt_u64;
use crate::roots::root_floor;

verus! {

/// Sum of the squared samples of a chunk.
pub open spec fn sum_sq(s: Seq<i32>) -> int
    decreases s.len(),
{
    if s.len() == 0 {
        0
    } else {
        sum_sq(s.drop_last()) + s.last() * s.last()
    }
}

/// Mean of the squared samples, rounded up; meaningful only for non-empty
/// chunks.
pub open spec fn mean_sq_ceil(s: Seq<i32>) -> int {
    (sum_sq(s) + s.len() - 1) / (s.len() as int)
}

/// The RMS loudness of a chunk: floor square root of the rounded-up mean of
/// the squared samples, and 0 for an empty chunk.
pub open spec fn rms_spec(s: Seq<i32>) -> int {
    if s.len() == 0 {
        0
    } else {
        root_floor(mean_sq_ceil(s) as nat, 2) as int
    }
}

/// The sum of squares is non-negative, and zero exactly when every sample is
/// zero.
pub proof fn lemma_sum_sq_zero(s: Seq<i32>)
    ensures
        0 <= sum_sq(s),
        sum_sq(s) == 0 <==> (forall|i: int| 0 <= i < s.len() ==> s[i] == 0),
    decreases s.len(),
{
    if s.len() > 0 {
        let t = s.drop_last();
        let x = s.last() as int;
        lemma_sum_sq_zero(t);
        assert(0 <= x * x && (x * x == 0 <==> x == 0)) by (nonlinear_arith);
        if sum_sq(s) == 0 {
            assert forall|i: int| 0 <= i < s.len() implies s[i] == 0 by {
                if i < s.len() - 1 {
                    assert(s[i] == t[i]);
                } else {
                    assert(s[i] == s.last());
                }
            }
        }
        if forall|i: int| 0 <= i < s.len() ==> s[i] == 0 {
            assert(forall|i: int| 0 <= i < t.len() ==> #[trigger] t[i] == s[i]);
        }
    }
}

/// Every squared `i32` sample is at most `2^62`, so the sum of squares is at
/// most `len * 2^62`.
pub proof fn lemma_sum_sq_bound(s: Seq<i32>)
    ensures
        sum_sq(s) <= s.len() * 0x4000_0000_0000_0000,
    decreases s.len(),
{
    if s.len() > 0 {
        lemma_sum_sq_bound(s.drop_last());
        let x = s.last() as int;
        assert(x * x <= 0x4000_0000_0000_0000) by (nonlinear_arith)
            requires
                -0x8000_0000 <= x <= 0x7FFF_FFFF,
        ;
    }
}

/// Computes the RMS loudness of one chunk of samples.
///
/// The result is non-negative by type, and it is zero exactly when every
/// sample of the chunk is zero. An empty chunk would have no mean, so it is
/// answered with the sentinel loudness 0 instead of failing; the chunker
/// never produces one.
pub fn calc_rms(data: &Vec<i32>) -> (r: u32)
    ensures
        r as int == rms_spec(data@),
        r == 0 <==> (forall|i: int| 0 <= i < data@.len() ==> data@[i] == 0),
{
    let ghost s = data@;
    if data.len() == 0 {
        return 0;
    }
    let mut sum: u128 = 0;
    let mut i: usize = 0;
    while i < data.len()
        invariant
            i <= s.len(),
            s == data@,
            sum as int == sum_sq(s.subrange(0, i as int)),
            sum as int <= (i as int) * 0x4000_0000_0000_0000,
        decreases s.len() - i,
    {
        let x: i32 = data[i];
        let xl: i64 = x as i64;
        proof {
            assert(0 <= xl * xl <= 0x4000_0000_0000_0000) by (nonlinear_arith)
                requires
                    -0x8000_0000 <= xl <= 0x7FFF_FFFF,
            ;
        }
        let sq: u64 = (xl * xl) as u64;
        proof {
            let pre = s.subrange(0, i as int);
            let post = s.subrange(0, i as int + 1);
            assert(post.drop_last() =~= pre);
            assert(post.last() == s[i as int]);
        }
        sum = sum + sq as u128;
        i = i + 1;
    }
    proof {
        assert(s.subrange(0, s.len() as int) =~= s);
    }
    let len: u128 = data.len() as u128;
    let num: u128 = sum + (len - 1);
    let m: u128 = num / len;
    proof {
        lemma_multiply_divide_lt(num as int, len as int, 0x4000_0000_0000_0001);
        assert(m as int == mean_sq_ceil(s));
        lemma_sum_sq_zero(s);
        if sum == 0 {
            lemma_basic_div(num as int, len as int);
        }
        if sum > 0 {
            lemma_div_is_ordered(len as int, num as int, len as int);
            lemma_div_by_self(len as int);
        }
    }
    let r = isqrt_u64(m as u64);
    proof {
        if m == 0 {
            assert(r as int * r as int <= 0);
            assert(r == 0) by (nonlinear_arith)
                requires
                    r as int * r as int <= 0,
            ;
        }
        if r == 0 {
            assert((r as int + 1) * (r as int + 1) == 1) by (nonlinear_arith)
                requires
                    r == 0u32,
            ;
            assert((m as int) < 1);
        }
    }
    r
}

} // verus!
