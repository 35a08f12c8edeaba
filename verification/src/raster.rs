//! Normalization and rasterization: find the global peak magnitude, scale
//! every column's magnitude to a bar height, and draw each column as a
//! centered vertical bar of foreground color on a background-filled canvas.
//!
//! The peak is read from the whole column sequence before any bar height is
//! computed (a two-pass design), so a loud late column can never invalidate
//! an earlier bar. A fully silent track (peak zero) fails with
//! `SilentTrack` rather than rendering a degenerate image.

use vstd::prelude::*;
use vstd::arithmetic::div_mod::{
    lemma_div_multiples_vanish, lemma_div_nonincreasing, lemma_div_pos_is_pos,
    lemma_multiply_divide_le,
};
use vstd::arithmetic::mul::lemma_mul_inequality;
use vstd::math::max;

use crate::RenderError;
use crate::mixer::{
    Frame, all_frames_accepted, count_decoded, spec_first_frame_error, spec_track,
    track_magnitudes,
};
use crate::reducer::{lemma_column_index_in_range, reduce, spec_column_index, spec_reduce};

verus! {

/// One pixel's color.
#[derive(Clone, Copy, Debug, PartialEq, Eq, Structural)]
pub struct Color {
    pub red: u8,
    pub green: u8,
    pub blue: u8,
}

/// A grid of pixels, `width` columns by `height` rows, stored row by row.
#[derive(Debug)]
pub struct Canvas {
    width: u32,
    height: u32,
    rows: Vec<Vec<Color>>,
}

impl Canvas {
    pub closed spec fn spec_width(self) -> u32 {
        self.width
    }

    pub closed spec fn spec_height(self) -> u32 {
        self.height
    }

    /// Well-formed: one row per unit of height, each row one pixel per
    /// unit of width.
    pub closed spec fn wf(self) -> bool {
        &&& self.rows@.len() == self.height
        &&& forall|y: int|
            0 <= y < self.height ==> (#[trigger] self.rows@[y])@.len() == self.width
    }

    /// The color of the pixel in column `x` of row `y`.
    pub closed spec fn spec_pixel(self, x: int, y: int) -> Color {
        self.rows@[y]@[x]
    }

    pub fn width(&self) -> (w: u32)
        ensures
            w == self.spec_width(),
    {
        self.width
    }

    pub fn height(&self) -> (h: u32)
        ensures
            h == self.spec_height(),
    {
        self.height
    }

    /// Read one pixel.
    pub fn pixel(&self, x: u32, y: u32) -> (c: Color)
        requires
            self.wf(),
            x < self.spec_width(),
            y < self.spec_height(),
        ensures
            c == self.spec_pixel(x as int, y as int),
    {
        self.rows[y as usize][x as usize]
    }
}

/// The magnitudes of a column vector, as mathematical integers.
pub open spec fn view_ints(v: Seq<u64>) -> Seq<int> {
    v.map_values(|m: u64| m as int)
}

/// The global peak: the greatest magnitude among the columns (0 for none).
pub open spec fn spec_peak(cols: Seq<int>) -> int
    decreases cols.len(),
{
    if cols.len() == 0 {
        0
    } else {
        max(spec_peak(cols.drop_last()), cols.last())
    }
}

pub proof fn lemma_peak_ge(cols: Seq<int>, x: int)
    requires
        0 <= x < cols.len(),
    ensures
        cols[x] <= spec_peak(cols),
    decreases cols.len(),
{
    if x < cols.len() - 1 {
        lemma_peak_ge(cols.drop_last(), x);
    }
}

/// The height in pixels of the bar for a column of magnitude `mag`: the
/// magnitude scaled against the global peak, clamped up to one pixel so
/// every column stays visible.
pub open spec fn spec_bar_height(mag: int, height: int, peak: int) -> int {
    let raw = mag * height / peak;
    if raw == 0 {
        1
    } else {
        raw
    }
}

/// The topmost row of a bar: bars are centered vertically.
pub open spec fn spec_bar_top(height: int, bar: int) -> int {
    (height - bar) / 2
}

/// The color of pixel row `y` in a column of magnitude `mag`: foreground
/// inside the centered bar, background outside it.
pub open spec fn spec_column_pixel(
    mag: int,
    height: int,
    peak: int,
    background: Color,
    foreground: Color,
    y: int,
) -> Color {
    let bar = spec_bar_height(mag, height, peak);
    let top = spec_bar_top(height, bar);
    if top <= y < top + bar {
        foreground
    } else {
        background
    }
}

/// Law: no bar overruns the canvas: for any magnitude between zero and the
/// peak, the bar's rows lie within `[0, height)`, and the bar is at least
/// one pixel tall.
pub proof fn lemma_bar_within_canvas(mag: int, height: int, peak: int)
    requires
        1 <= height,
        1 <= peak,
        0 <= mag <= peak,
    ensures
        1 <= spec_bar_height(mag, height, peak) <= height,
        0 <= spec_bar_top(height, spec_bar_height(mag, height, peak)),
        spec_bar_top(height, spec_bar_height(mag, height, peak)) + spec_bar_height(
            mag,
            height,
            peak,
        ) <= height,
{
    assert(0 <= mag * height) by (nonlinear_arith)
        requires 0 <= mag && 0 <= height;
    lemma_div_pos_is_pos(mag * height, peak);
    lemma_mul_inequality(mag, peak, height);
    lemma_multiply_divide_le(mag * height, peak, height);
    assert(peak * height == height * peak) by (nonlinear_arith);
    let bar = spec_bar_height(mag, height, peak);
    assert(1 <= bar <= height);
    lemma_div_pos_is_pos(height - bar, 2);
    lemma_div_nonincreasing(height - bar, 2);
}

/// Law: the column holding the global peak magnitude gets the full canvas
/// height.
pub proof fn lemma_peak_column_full_height(height: int, peak: int)
    requires
        1 <= height,
        1 <= peak,
    ensures
        spec_bar_height(peak, height, peak) == height,
{
    lemma_div_multiples_vanish(height, peak);
    assert(peak * height / peak == height);
}

/// Law: minimum visibility: every column's bar is at least one pixel tall,
/// however far its magnitude lies below the peak.
pub proof fn lemma_minimum_visibility(mag: int, height: int, peak: int)
    requires
        1 <= height,
        1 <= peak,
        0 <= mag,
    ensures
        spec_bar_height(mag, height, peak) >= 1,
{
    assert(0 <= mag * height) by (nonlinear_arith)
        requires 0 <= mag && 0 <= height;
    lemma_div_pos_is_pos(mag * height, peak);
}

/// Paint the canvas: fill with the background color and draw one centered
/// vertical bar per column, scaled against the global peak magnitude.
///
/// Fails with `InvalidDimensions` when there are no columns or the height
/// is zero, and with `SilentTrack` when every magnitude is zero; otherwise
/// every pixel of the result is determined by `spec_column_pixel`.
pub fn rasterize(columns: &Vec<u64>, height: u32, background: Color, foreground: Color) -> (r:
    Result<Canvas, RenderError>)
    requires
        columns@.len() <= 0xFFFF_FFFF,
    ensures
        match r {
            Ok(c) => {
                &&& columns@.len() >= 1 && height >= 1
                &&& spec_peak(view_ints(columns@)) > 0
                &&& c.wf()
                &&& c.spec_width() == columns@.len()
                &&& c.spec_height() == height
                &&& forall|x: int, y: int|
                    0 <= x < columns@.len() && 0 <= y < height ==> c.spec_pixel(x, y)
                        == spec_column_pixel(
                        columns@[x] as int,
                        height as int,
                        spec_peak(view_ints(columns@)),
                        background,
                        foreground,
                        y,
                    )
            },
            Err(e) => if columns@.len() == 0 || height == 0 {
                e == RenderError::InvalidDimensions
            } else {
                spec_peak(view_ints(columns@)) == 0 && e == RenderError::SilentTrack
            },
        },
{
    let wlen = columns.len();
    if wlen == 0 || height == 0 {
        return Err(RenderError::InvalidDimensions);
    }
    let width: u32 = wlen as u32;
    let mut peak: u64 = 0;
    let mut i: usize = 0;
    while i < wlen
        invariant
            wlen == columns@.len(),
            i <= wlen,
            peak == spec_peak(view_ints(columns@.take(i as int))),
        decreases wlen - i,
    {
        proof {
            assert(view_ints(columns@.take(i + 1)).drop_last() =~= view_ints(
                columns@.take(i as int),
            ));
            assert(view_ints(columns@.take(i + 1)).last() == columns@[i as int] as int);
        }
        let c = columns[i];
        if c > peak {
            peak = c;
        }
        i = i + 1;
    }
    proof {
        assert(columns@.take(wlen as int) =~= columns@);
    }
    if peak == 0 {
        return Err(RenderError::SilentTrack);
    }
    let mut rows: Vec<Vec<Color>> = Vec::new();
    let mut y: u32 = 0;
    while y < height
        invariant
            wlen == columns@.len(),
            1 <= wlen <= 0xFFFF_FFFF,
            width == wlen,
            1 <= height,
            peak == spec_peak(view_ints(columns@)),
            peak > 0,
            y <= height,
            rows@.len() == y,
            forall|yy: int| 0 <= yy < y ==> (#[trigger] rows@[yy])@.len() == wlen,
            forall|yy: int, xx: int|
                0 <= yy < y && 0 <= xx < wlen ==> rows@[yy]@[xx] == spec_column_pixel(
                    columns@[xx] as int,
                    height as int,
                    peak as int,
                    background,
                    foreground,
                    yy,
                ),
        decreases height - y,
    {
        let mut row: Vec<Color> = Vec::new();
        let mut x: usize = 0;
        while x < wlen
            invariant
                wlen == columns@.len(),
                1 <= wlen,
                1 <= height,
                peak == spec_peak(view_ints(columns@)),
                peak > 0,
                y < height,
                x <= wlen,
                row@.len() == x,
                forall|xx: int|
                    0 <= xx < x ==> row@[xx] == spec_column_pixel(
                        columns@[xx] as int,
                        height as int,
                        peak as int,
                        background,
                        foreground,
                        y as int,
                    ),
            decreases wlen - x,
        {
            let mag = columns[x];
            proof {
                assert(view_ints(columns@)[x as int] == mag as int);
                lemma_peak_ge(view_ints(columns@), x as int);
                lemma_bar_within_canvas(mag as int, height as int, peak as int);
                assert((mag as int) * (height as int) <= 0xFFFF_FFFF_FFFF_FFFFint
                    * 0xFFFF_FFFFint) by (nonlinear_arith)
                    requires 0 <= mag as int <= 0xFFFF_FFFF_FFFF_FFFFint && 0 <= height as int
                        <= 0xFFFF_FFFFint;
            }
            let raw: u128 = (mag as u128 * height as u128) / (peak as u128);
            let mut bar: u32 = raw as u32;
            if bar == 0 {
                bar = 1;
            }
            let top: u32 = (height - bar) / 2;
            let pix = if top <= y && y < top + bar {
                foreground
            } else {
                background
            };
            row.push(pix);
            x = x + 1;
        }
        rows.push(row);
        y = y + 1;
    }
    Ok(Canvas { width, height, rows })
}

/// A successful render of the given decode results, dimensions and colors:
/// the canvas is fully painted, each pixel determined by the column
/// magnitudes reduced from the track magnitude sequence and normalized
/// against their global peak.
pub open spec fn spec_render_ok(
    c: Canvas,
    frames: Seq<Option<Frame>>,
    width: u32,
    height: u32,
    background: Color,
    foreground: Color,
) -> bool {
    let cols = spec_reduce(spec_track(frames), width as int);
    &&& c.wf()
    &&& c.spec_width() == width
    &&& c.spec_height() == height
    &&& forall|x: int, y: int|
        0 <= x < width && 0 <= y < height ==> c.spec_pixel(x, y) == spec_column_pixel(
            cols[x],
            height as int,
            spec_peak(cols),
            background,
            foreground,
            y,
        )
}

/// Render a waveform image from a whole track's decode results.
///
/// Validates the dimensions before anything else, folds the decoded frames
/// into the track magnitude sequence (skipping frames the decoder failed
/// on), reduces the sequence to one magnitude per column, and rasterizes
/// the columns normalized against their global peak.
pub fn render(
    frames: &Vec<Option<Frame>>,
    width: u32,
    height: u32,
    background: Color,
    foreground: Color,
) -> (r: Result<Canvas, RenderError>)
    ensures
        match r {
            Ok(c) => {
                &&& width >= 1 && height >= 1
                &&& all_frames_accepted(frames@)
                &&& count_decoded(frames@) >= 1
                &&& spec_peak(spec_reduce(spec_track(frames@), width as int)) > 0
                &&& spec_render_ok(c, frames@, width, height, background, foreground)
            },
            Err(e) => if width == 0 || height == 0 {
                e == RenderError::InvalidDimensions
            } else if spec_first_frame_error(frames@) is Some {
                Some(e) == spec_first_frame_error(frames@)
            } else if count_decoded(frames@) == 0 {
                e == RenderError::EmptyTrack
            } else {
                spec_peak(spec_reduce(spec_track(frames@), width as int)) == 0 && e
                    == RenderError::SilentTrack
            },
        },
{
    if width == 0 || height == 0 {
        return Err(RenderError::InvalidDimensions);
    }
    let track = match track_magnitudes(frames) {
        Ok(t) => t,
        Err(e) => {
            return Err(e);
        },
    };
    proof {
        crate::mixer::lemma_first_frame_error_none(frames@);
    }
    let cols = match reduce(&track, width) {
        Ok(c) => c,
        Err(e) => {
            return Err(e);
        },
    };
    proof {
        assert forall|x: int| 0 <= x < width implies view_ints(cols@)[x] == spec_reduce(
            spec_track(frames@),
            width as int,
        )[x] by {
            lemma_column_index_in_range(track@.len() as int, x, width as int);
        }
        assert(view_ints(cols@) =~= spec_reduce(spec_track(frames@), width as int));
    }
    match rasterize(&cols, height, background, foreground) {
        Ok(c) => Ok(c),
        Err(e) => Err(e),
    }
}

/// Law: on a rendered canvas, a column whose magnitude is the global peak
/// is painted foreground over the full canvas height.
pub proof fn lemma_peak_column_fully_painted(
    c: Canvas,
    frames: Seq<Option<Frame>>,
    width: u32,
    height: u32,
    background: Color,
    foreground: Color,
    x: int,
)
    requires
        spec_render_ok(c, frames, width, height, background, foreground),
        height >= 1,
        0 <= x < width,
        spec_reduce(spec_track(frames), width as int)[x] == spec_peak(
            spec_reduce(spec_track(frames), width as int),
        ),
        spec_peak(spec_reduce(spec_track(frames), width as int)) >= 1,
    ensures
        forall|y: int| 0 <= y < height ==> c.spec_pixel(x, y) == foreground,
{
    let cols = spec_reduce(spec_track(frames), width as int);
    lemma_peak_column_full_height(height as int, spec_peak(cols));
    assert(spec_bar_top(height as int, height as int) == 0);
}

/// Law: minimum visibility on the image: every column of a rendered canvas
/// holds at least one foreground pixel, however small its magnitude.
pub proof fn lemma_every_column_visible(
    c: Canvas,
    frames: Seq<Option<Frame>>,
    width: u32,
    height: u32,
    background: Color,
    foreground: Color,
    x: int,
)
    requires
        spec_render_ok(c, frames, width, height, background, foreground),
        height >= 1,
        0 <= x < width,
        spec_track(frames).len() >= 1,
        spec_peak(spec_reduce(spec_track(frames), width as int)) >= 1,
    ensures
        exists|y: int| 0 <= y < height && c.spec_pixel(x, y) == foreground,
{
    let track = spec_track(frames);
    let cols = spec_reduce(track, width as int);
    lemma_column_index_in_range(track.len() as int, x, width as int);
    crate::mixer::lemma_track_nonneg(frames);
    assert(cols[x] == track[spec_column_index(track.len() as int, x, width as int)]);
    assert(cols[x] >= 0);
    lemma_peak_ge(cols, x);
    lemma_bar_within_canvas(cols[x], height as int, spec_peak(cols));
    let bar = spec_bar_height(cols[x], height as int, spec_peak(cols));
    let top = spec_bar_top(height as int, bar);
    assert(0 <= top < height);
    assert(c.spec_pixel(x, top) == foreground);
}

/// Law: rendering is deterministic: two canvases rendered from the same
/// decode results, dimensions and colors are pixel-identical.
pub proof fn lemma_render_deterministic(
    c1: Canvas,
    c2: Canvas,
    frames: Seq<Option<Frame>>,
    width: u32,
    height: u32,
    background: Color,
    foreground: Color,
)
    requires
        spec_render_ok(c1, frames, width, height, background, foreground),
        spec_render_ok(c2, frames, width, height, background, foreground),
    ensures
        c1.spec_width() == c2.spec_width(),
        c1.spec_height() == c2.spec_height(),
        forall|x: int, y: int|
            0 <= x < width && 0 <= y < height ==> c1.spec_pixel(x, y) == c2.spec_pixel(x, y),
{
}

} // verus!
