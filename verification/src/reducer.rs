//! Waveform reduction: map the track magnitude sequence of length `N` onto a
//! fixed number of image columns `W`, one representative magnitude per
//! column, preserving temporal order.

use vstd::prelude::*;
use vstd::arithmetic::div_mod::{lemma_div_pos_is_pos, lemma_multiply_divide_lt};
use vstd::arithmetic::mul::lemma_mul_inequality;

use crate::RenderError;

verus! {

/// The source index column `x` is assigned: the first index of the column's
/// bucket, `floor(n * x / w)`.
pub open spec fn spec_column_index(n: int, x: int, w: int) -> int {
    n * x / w
}

/// The reduced column magnitudes: column `x` holds the magnitude at source
/// index `floor(track.len() * x / w)`.
pub open spec fn spec_reduce(track: Seq<int>, w: int) -> Seq<int> {
    Seq::new(w as nat, |x: int| track[spec_column_index(track.len() as int, x, w)])
}

/// Law: every column's source index is in range, so the reducer always
/// produces exactly `w` columns, whatever the track length `n >= 1`; when
/// `n < w`, consecutive columns repeat source indices rather than failing.
pub proof fn lemma_column_index_in_range(n: int, x: int, w: int)
    requires
        1 <= n,
        1 <= w,
        0 <= x < w,
    ensures
        0 <= spec_column_index(n, x, w) < n,
{
    lemma_mul_inequality(x, w - 1, n);
    assert(x * n == n * x) by (nonlinear_arith);
    assert((w - 1) * n < w * n) by (nonlinear_arith)
        requires n >= 1;
    assert(n * x < n * w) by (nonlinear_arith)
        requires n * x <= (w - 1) * n && (w - 1) * n < w * n;
    lemma_multiply_divide_lt(n * x, w, n);
    assert(w * n == n * w) by (nonlinear_arith);
    lemma_div_pos_is_pos(n * x, w);
}

/// Downsample the finalized track magnitude sequence to exactly `width`
/// column magnitudes.
///
/// Fails with `InvalidDimensions` when `width` is zero, and with
/// `EmptyTrack` when no frame was decoded successfully (an empty track);
/// otherwise returns exactly `width` magnitudes, column `x` holding the
/// magnitude at source index `floor(track.len() * x / width)`.
pub fn reduce(track: &Vec<u64>, width: u32) -> (r: Result<Vec<u64>, RenderError>)
    ensures
        match r {
            Ok(cols) => {
                &&& width >= 1
                &&& track@.len() >= 1
                &&& cols@.len() == width
                &&& forall|x: int|
                    0 <= x < width ==> cols@[x] == track@[spec_column_index(
                        track@.len() as int,
                        x,
                        width as int,
                    )]
            },
            Err(e) => if width == 0 {
                e == RenderError::InvalidDimensions
            } else {
                track@.len() == 0 && e == RenderError::EmptyTrack
            },
        },
{
    if width == 0 {
        return Err(RenderError::InvalidDimensions);
    }
    let n = track.len();
    if n == 0 {
        return Err(RenderError::EmptyTrack);
    }
    let mut cols: Vec<u64> = Vec::new();
    let mut x: u32 = 0;
    while x < width
        invariant
            n == track@.len(),
            1 <= n,
            1 <= width,
            x <= width,
            cols@.len() == x,
            forall|j: int|
                0 <= j < x ==> cols@[j] == track@[spec_column_index(
                    n as int,
                    j,
                    width as int,
                )],
        decreases width - x,
    {
        proof {
            lemma_column_index_in_range(n as int, x as int, width as int);
            assert((n as int) * (x as int) <= 0xFFFF_FFFF_FFFF_FFFFint * 0xFFFF_FFFFint)
                by (nonlinear_arith)
                requires 0 <= n as int <= 0xFFFF_FFFF_FFFF_FFFFint
                    && 0 <= x as int <= 0xFFFF_FFFFint;
        }
        let idx: usize = ((n as u128 * x as u128) / (width as u128)) as usize;
        cols.push(track[idx]);
        x = x + 1;
    }
    Ok(cols)
}

} // verus!
