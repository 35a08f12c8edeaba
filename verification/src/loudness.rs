//! Loudness estimation: the root-mean-square magnitude of one channel's
//! samples within one frame.
//!
//! Samples are signed fixed-point amplitudes. Each sample is widened before
//! squaring and the squares are summed exactly. The mean of the squares is
//! rounded up before its integer square root is taken, so a channel holding
//! any nonzero sample keeps a nonzero loudness, while a constant sequence
//! still yields exactly the sample magnitude.

use vstd::prelude::*;
use vstd::arithmetic::div_mod::{
    lemma_basic_div, lemma_div_by_self, lemma_div_is_ordered,
    lemma_fundamental_div_mod_converse_div, lemma_multiply_divide_lt,
};
use vstd::math::abs;

use crate::RenderError;

verus! {

/// The integer square root: the greatest `r` with `r * r <= x`.
pub open spec fn spec_isqrt(x: nat) -> nat
    decreases x,
{
    if x == 0 {
        0
    } else {
        let r = spec_isqrt((x - 1) as nat);
        if (r + 1) * (r + 1) <= x {
            r + 1
        } else {
            r
        }
    }
}

pub proof fn lemma_isqrt_bounds(x: nat)
    ensures
        spec_isqrt(x) * spec_isqrt(x) <= x,
        x < (spec_isqrt(x) + 1) * (spec_isqrt(x) + 1),
    decreases x,
{
    if x == 0 {
        assert(spec_isqrt(0) == 0);
        assert(x < (spec_isqrt(x) + 1) * (spec_isqrt(x) + 1)) by (nonlinear_arith)
            requires x == 0 && spec_isqrt(x) == 0;
    } else {
        lemma_isqrt_bounds((x - 1) as nat);
        let r = spec_isqrt((x - 1) as nat);
        if (r + 1) * (r + 1) <= x {
            assert(spec_isqrt(x) == r + 1);
            assert((r + 1) * (r + 1) < (r + 1 + 1) * (r + 1 + 1)) by (nonlinear_arith)
                requires r >= 0;
            assert(x < (r + 1 + 1) * (r + 1 + 1));
            assert(x < (spec_isqrt(x) + 1) * (spec_isqrt(x) + 1));
        } else {
            assert(spec_isqrt(x) == r);
            assert(r * r <= (x - 1) as nat);
            assert(x < (r + 1) * (r + 1));
            assert(x < (spec_isqrt(x) + 1) * (spec_isqrt(x) + 1));
        }
    }
}

pub proof fn lemma_isqrt_unique(x: nat, r: nat)
    requires
        r * r <= x,
        x < (r + 1) * (r + 1),
    ensures
        r == spec_isqrt(x),
{
    lemma_isqrt_bounds(x);
    let s = spec_isqrt(x);
    if r < s {
        assert((r + 1) * (r + 1) <= s * s) by (nonlinear_arith)
            requires r + 1 <= s;
    } else if s < r {
        assert((s + 1) * (s + 1) <= r * r) by (nonlinear_arith)
            requires s + 1 <= r;
    }
}

/// The sum of the squares of a sequence of samples.
pub open spec fn sum_squares(s: Seq<i32>) -> int
    decreases s.len(),
{
    if s.len() == 0 {
        0
    } else {
        sum_squares(s.drop_last()) + (s.last() as int) * (s.last() as int)
    }
}

/// The root-mean-square of a non-empty sequence of samples: the integer
/// square root of the mean of the squared samples. The mean is rounded up,
/// so the loudness of a sequence holding any nonzero sample never vanishes
/// to zero; on a constant sequence the result is still exactly the sample
/// magnitude.
pub open spec fn spec_rms(s: Seq<i32>) -> int {
    spec_isqrt(((sum_squares(s) + s.len() - 1) / s.len() as int) as nat) as int
}

pub proof fn lemma_sum_squares_nonneg(s: Seq<i32>)
    ensures
        sum_squares(s) >= 0,
    decreases s.len(),
{
    if s.len() != 0 {
        lemma_sum_squares_nonneg(s.drop_last());
        assert((s.last() as int) * (s.last() as int) >= 0) by (nonlinear_arith);
    }
}

/// Root-mean-square of one channel's samples within one frame.
///
/// Fails with `InvalidInput` exactly when the sample sequence is empty;
/// otherwise returns the RMS of the samples.
pub fn rms(samples: &Vec<i32>) -> (r: Result<u64, RenderError>)
    ensures
        match r {
            Ok(v) => samples@.len() > 0 && v == spec_rms(samples@),
            Err(e) => samples@.len() == 0 && e == RenderError::InvalidInput,
        },
{
    let n = samples.len();
    if n == 0 {
        return Err(RenderError::InvalidInput);
    }
    let mut sum: u128 = 0;
    let mut i: usize = 0;
    while i < n
        invariant
            n == samples@.len(),
            i <= n,
            sum == sum_squares(samples@.take(i as int)),
            sum <= (i as int) * 0x4000_0000_0000_0000,
        decreases n - i,
    {
        let v = samples[i];
        let wide: i64 = v as i64;
        proof {
            assert(0 <= (wide as int) * (wide as int) <= 0x4000_0000_0000_0000)
                by (nonlinear_arith)
                requires -0x8000_0000 <= wide as int <= 0x7FFF_FFFF;
            assert(samples@.take(i + 1).drop_last() =~= samples@.take(i as int));
            assert(samples@.take(i + 1).last() == samples@[i as int]);
        }
        let sq: u64 = (wide * wide) as u64;
        sum = sum + sq as u128;
        i = i + 1;
    }
    proof {
        assert(samples@.take(n as int) =~= samples@);
        assert(sum as int + n as int - 1 < (n as int) * (0x4000_0000_0000_0000int + 1))
            by (nonlinear_arith)
            requires 1 <= n as int && sum as int <= (n as int) * 0x4000_0000_0000_0000int;
        assert((n as int) * 0x4000_0000_0000_0000int <= 0xFFFF_FFFF_FFFF_FFFFint
            * 0x4000_0000_0000_0000int) by (nonlinear_arith)
            requires 0 <= n as int <= 0xFFFF_FFFF_FFFF_FFFFint;
        lemma_multiply_divide_lt(
            sum as int + n as int - 1,
            n as int,
            0x4000_0000_0000_0000int + 1,
        );
    }
    let mean: u64 = ((sum + n as u128 - 1) / (n as u128)) as u64;
    Ok(isqrt(mean))
}

/// The integer square root of `x`, found by binary search.
pub fn isqrt(x: u64) -> (r: u64)
    ensures
        r == spec_isqrt(x as nat),
        r * r <= x < (r + 1) * (r + 1),
{
    let mut lo: u64 = 0;
    let mut hi: u64 = 0x1_0000_0000;
    while lo + 1 < hi
        invariant
            lo < hi <= 0x1_0000_0000u64,
            (lo as int) * (lo as int) <= x as int,
            (x as int) < (hi as int) * (hi as int),
        decreases hi - lo,
    {
        let mid = lo + (hi - lo) / 2;
        proof {
            assert((mid as int) * (mid as int) < 0x1_0000_0000_0000_0000)
                by (nonlinear_arith)
                requires 0 <= mid as int <= 0xFFFF_FFFF;
        }
        if mid * mid <= x {
            lo = mid;
        } else {
            hi = mid;
        }
    }
    proof {
        lemma_isqrt_unique(x as nat, lo as nat);
    }
    lo
}

pub proof fn lemma_sum_squares_constant(s: Seq<i32>, c: i32)
    requires
        forall|i: int| 0 <= i < s.len() ==> s[i] == c,
    ensures
        sum_squares(s) == s.len() * ((c as int) * (c as int)),
    decreases s.len(),
{
    if s.len() == 0 {
        assert(sum_squares(s) == 0);
    } else {
        lemma_sum_squares_constant(s.drop_last(), c);
        assert(s.last() == c);
        assert((s.len() - 1) * ((c as int) * (c as int)) + (c as int) * (c as int)
            == s.len() * ((c as int) * (c as int))) by (nonlinear_arith);
    }
}

/// Law: the RMS of a constant sequence `[c, c, ..., c]` is `|c|`; in
/// particular the RMS of an all-zero sequence is exactly 0.
pub proof fn lemma_rms_constant(s: Seq<i32>, c: i32)
    requires
        s.len() > 0,
        forall|i: int| 0 <= i < s.len() ==> s[i] == c,
    ensures
        spec_rms(s) == abs(c as int),
{
    lemma_sum_squares_constant(s, c);
    let sq = (c as int) * (c as int);
    let n = s.len() as int;
    assert(s.len() * sq == n * sq);
    assert(n * sq == sq * n) by (nonlinear_arith);
    assert(n * sq + n - 1 == sq * n + (n - 1));
    lemma_fundamental_div_mod_converse_div(n * sq + n - 1, n, sq, n - 1);
    assert((n * sq + n - 1) / n == sq);
    let ci = c as int;
    let a = abs(ci) as int;
    if ci >= 0 {
        assert(a == ci);
    } else {
        assert(a == -ci);
        assert((-ci) * (-ci) == ci * ci) by (nonlinear_arith);
    }
    assert(a * a == sq);
    assert(sq < (a + 1) * (a + 1)) by (nonlinear_arith)
        requires a >= 0 && a * a == sq;
    lemma_isqrt_unique(sq as nat, a as nat);
}

/// Law: the RMS of a non-empty sample sequence is zero exactly when every
/// sample in it is zero.
pub proof fn lemma_rms_zero_iff_silent(s: Seq<i32>)
    requires
        s.len() > 0,
    ensures
        spec_rms(s) == 0 <==> (forall|i: int| 0 <= i < s.len() ==> s[i] == 0),
{
    let n = s.len() as int;
    if forall|i: int| 0 <= i < s.len() ==> s[i] == 0 {
        lemma_sum_squares_constant(s, 0);
        assert(sum_squares(s) == 0);
        lemma_basic_div(n - 1, n);
        assert(spec_isqrt(0) == 0);
    } else {
        assert(exists|i: int| 0 <= i < s.len() && s[i] != 0);
        let i = choose|i: int| 0 <= i < s.len() && s[i] != 0;
        lemma_sum_squares_remove(s, i);
        lemma_sum_squares_nonneg(s.remove(i));
        assert((s[i] as int) * (s[i] as int) >= 1) by (nonlinear_arith)
            requires s[i] as int != 0;
        assert(sum_squares(s) + n - 1 >= n);
        lemma_div_is_ordered(n, sum_squares(s) + n - 1, n);
        lemma_div_by_self(n);
        let m = ((sum_squares(s) + n - 1) / n) as nat;
        assert(m >= 1);
        lemma_isqrt_bounds(m);
        if spec_isqrt(m) == 0 {
            assert(m < (spec_isqrt(m) + 1) * (spec_isqrt(m) + 1));
            assert(m < 1) by (nonlinear_arith)
                requires m < (spec_isqrt(m) + 1) * (spec_isqrt(m) + 1) && spec_isqrt(m) == 0;
        }
    }
}

pub proof fn lemma_sum_squares_remove(s: Seq<i32>, i: int)
    requires
        0 <= i < s.len(),
    ensures
        sum_squares(s) == sum_squares(s.remove(i)) + (s[i] as int) * (s[i] as int),
    decreases s.len(),
{
    let n = s.len() as int;
    if i == n - 1 {
        assert(s.remove(i) =~= s.drop_last());
    } else {
        let t = s.drop_last();
        lemma_sum_squares_remove(t, i);
        assert(s.remove(i).drop_last() =~= t.remove(i));
        assert(s.remove(i).last() == s.last());
    }
}

pub proof fn lemma_sum_squares_permutation(s1: Seq<i32>, s2: Seq<i32>)
    requires
        s1.to_multiset() == s2.to_multiset(),
    ensures
        sum_squares(s1) == sum_squares(s2),
    decreases s1.len(),
{
    s1.to_multiset_ensures();
    s2.to_multiset_ensures();
    if s1.len() == 0 {
        assert(s2.len() == 0);
    } else {
        let n = s1.len() as int;
        let a = s1.last();
        assert(s1.contains(a));
        assert(s2.to_multiset().count(a) > 0);
        assert(s2.contains(a));
        let j = choose|j: int| 0 <= j < s2.len() && s2[j] == a;
        lemma_sum_squares_remove(s2, j);
        assert(s1.drop_last() =~= s1.remove(n - 1));
        assert(s1.remove(n - 1).to_multiset() == s1.to_multiset().remove(a));
        assert(s2.remove(j).to_multiset() == s2.to_multiset().remove(a));
        lemma_sum_squares_permutation(s1.drop_last(), s2.remove(j));
    }
}

/// Law: RMS is invariant under permutation of the samples. Two sample
/// sequences holding the same samples, in any order, have the same RMS.
pub proof fn lemma_rms_permutation_invariant(s1: Seq<i32>, s2: Seq<i32>)
    requires
        s1.to_multiset() == s2.to_multiset(),
    ensures
        spec_rms(s1) == spec_rms(s2),
{
    s1.to_multiset_ensures();
    s2.to_multiset_ensures();
    lemma_sum_squares_permutation(s1, s2);
}

} // verus!
