use waveform::RenderError;
use waveform::loudness::{isqrt, rms};
use waveform::mixer::{frame_magnitude, mix_channels, track_magnitudes, Frame};
use waveform::raster::{rasterize, render, Canvas, Color};
use waveform::reducer::reduce;

fn frame(left: Vec<i32>, right: Vec<i32>) -> Frame {
    Frame { channels: vec![left, right] }
}

fn bg() -> Color {
    Color { red: 0, green: 0, blue: 0 }
}

fn fg() -> Color {
    Color { red: 255, green: 255, blue: 255 }
}

/// The topmost foreground row and the count of foreground rows in column x.
fn bar_extent(canvas: &Canvas, x: u32) -> (u32, u32) {
    let h = canvas.height();
    let mut top = h;
    let mut count = 0;
    for y in 0..h {
        if canvas.pixel(x, y) == fg() {
            if top == h {
                top = y;
            }
            count += 1;
        }
    }
    (top, count)
}

#[test]
fn isqrt_rounds_down() {
    assert_eq!(isqrt(0), 0);
    assert_eq!(isqrt(1), 1);
    assert_eq!(isqrt(2), 1);
    assert_eq!(isqrt(4), 2);
    assert_eq!(isqrt(99), 9);
    assert_eq!(isqrt(u64::MAX), 0xFFFF_FFFF);
}

#[test]
fn rms_of_zeros_is_zero() {
    assert_eq!(rms(&vec![0, 0, 0, 0]), Ok(0));
}

#[test]
fn rms_of_constant_is_magnitude() {
    assert_eq!(rms(&vec![7, 7, 7]), Ok(7));
    assert_eq!(rms(&vec![-4, -4]), Ok(4));
    assert_eq!(rms(&vec![i32::MIN, i32::MIN]), Ok(0x8000_0000));
}

#[test]
fn rms_of_nonzero_samples_is_nonzero() {
    // the mean of squares is rounded up, so one nonzero sample keeps the
    // channel loudness from vanishing
    assert_eq!(rms(&vec![1, 0]), Ok(1));
    assert_eq!(rms(&vec![0, 0, 0, -1]), Ok(1));
}

#[test]
fn rms_of_empty_fails() {
    assert_eq!(rms(&Vec::<i32>::new()), Err(RenderError::InvalidInput));
}

#[test]
fn rms_is_permutation_invariant() {
    assert_eq!(rms(&vec![3, -1, 4, 1, 5]), rms(&vec![5, 4, 3, -1, 1]));
    assert_eq!(rms(&vec![9, 0, 0]), rms(&vec![0, 0, 9]));
}

#[test]
fn mix_is_arithmetic_mean() {
    assert_eq!(mix_channels(3, 5), 4);
    assert_eq!(mix_channels(0, 0), 0);
    assert_eq!(mix_channels(u64::MAX, u64::MAX), u64::MAX);
    // an odd sum rounds up, so mixing a silent and an audible channel
    // stays audible
    assert_eq!(mix_channels(1, 0), 1);
}

#[test]
fn frame_with_any_nonzero_sample_has_nonzero_magnitude() {
    assert_eq!(frame_magnitude(&frame(vec![1], vec![0])), Ok(1));
    assert_eq!(frame_magnitude(&frame(vec![0, 0], vec![0, 1])), Ok(1));
    assert_eq!(frame_magnitude(&frame(vec![0, 0], vec![0, 0])), Ok(0));
}

#[test]
fn frame_magnitude_is_mean_of_channel_rms() {
    // left RMS 3, right RMS 5: the frame magnitude is 4
    assert_eq!(frame_magnitude(&frame(vec![3, 3], vec![5, 5])), Ok(4));
}

#[test]
fn frame_with_one_channel_is_unsupported() {
    let mono = Frame { channels: vec![vec![1, 2, 3]] };
    assert_eq!(frame_magnitude(&mono), Err(RenderError::UnsupportedFormat));
}

#[test]
fn frame_with_empty_channel_is_invalid() {
    assert_eq!(
        frame_magnitude(&frame(vec![], vec![1])),
        Err(RenderError::InvalidInput)
    );
}

#[test]
fn track_skips_failed_frames() {
    // two decode failures among five frames: the track has three entries
    let frames = vec![
        Some(frame(vec![1, 1], vec![1, 1])),
        None,
        Some(frame(vec![2, 2], vec![2, 2])),
        None,
        Some(frame(vec![3, 3], vec![3, 3])),
    ];
    assert_eq!(track_magnitudes(&frames), Ok(vec![1, 2, 3]));
}

#[test]
fn track_propagates_first_frame_error() {
    let frames = vec![
        Some(frame(vec![1, 1], vec![1, 1])),
        Some(Frame { channels: vec![vec![1]] }),
        Some(frame(vec![], vec![1])),
    ];
    assert_eq!(track_magnitudes(&frames), Err(RenderError::UnsupportedFormat));
}

#[test]
fn reducer_fails_on_empty_track() {
    assert_eq!(reduce(&Vec::<u64>::new(), 10), Err(RenderError::EmptyTrack));
}

#[test]
fn reducer_fails_on_zero_width() {
    assert_eq!(reduce(&vec![1, 2, 3], 0), Err(RenderError::InvalidDimensions));
}

#[test]
fn reducer_repeats_a_single_magnitude() {
    assert_eq!(reduce(&vec![7], 10), Ok(vec![7; 10]));
}

#[test]
fn reducer_samples_bucket_starts() {
    let track: Vec<u64> = (0..1000).collect();
    let cols = reduce(&track, 10).unwrap();
    assert_eq!(cols, vec![0, 100, 200, 300, 400, 500, 600, 700, 800, 900]);
}

#[test]
fn rasterize_fails_on_silent_track() {
    assert_eq!(
        rasterize(&vec![0, 0, 0], 100, bg(), fg()).unwrap_err(),
        RenderError::SilentTrack
    );
}

#[test]
fn rasterize_fails_on_zero_height() {
    assert_eq!(
        rasterize(&vec![1, 2], 0, bg(), fg()).unwrap_err(),
        RenderError::InvalidDimensions
    );
}

fn scenario_frames() -> Vec<Option<Frame>> {
    vec![
        Some(frame(vec![1, 1], vec![1, 1])),
        Some(frame(vec![2, 2], vec![2, 2])),
        Some(frame(vec![0, 0], vec![0, 0])),
        Some(frame(vec![3, 3], vec![3, 3])),
    ]
}

#[test]
fn render_rejects_invalid_dimensions() {
    // zero width with a valid sequence fails before any pixel is touched
    assert_eq!(
        render(&scenario_frames(), 0, 100, bg(), fg()).unwrap_err(),
        RenderError::InvalidDimensions
    );
    assert_eq!(
        render(&scenario_frames(), 4, 0, bg(), fg()).unwrap_err(),
        RenderError::InvalidDimensions
    );
}

#[test]
fn render_fails_on_empty_track() {
    let frames: Vec<Option<Frame>> = vec![None, None];
    assert_eq!(
        render(&frames, 4, 100, bg(), fg()).unwrap_err(),
        RenderError::EmptyTrack
    );
}

#[test]
fn render_fails_on_silent_track() {
    let frames = vec![Some(frame(vec![0, 0], vec![0, 0]))];
    assert_eq!(
        render(&frames, 4, 100, bg(), fg()).unwrap_err(),
        RenderError::SilentTrack
    );
}

#[test]
fn render_is_deterministic() {
    let c1 = render(&scenario_frames(), 4, 100, bg(), fg()).unwrap();
    let c2 = render(&scenario_frames(), 4, 100, bg(), fg()).unwrap();
    assert_eq!(c1.width(), c2.width());
    assert_eq!(c1.height(), c2.height());
    for x in 0..c1.width() {
        for y in 0..c1.height() {
            assert_eq!(c1.pixel(x, y), c2.pixel(x, y));
        }
    }
}

#[test]
fn render_end_to_end() {
    // track magnitude sequence [1, 2, 0, 3]
    let track = track_magnitudes(&scenario_frames()).unwrap();
    assert_eq!(track, vec![1, 2, 0, 3]);
    // reduced to width 4: the same four columns
    assert_eq!(reduce(&track, 4).unwrap(), vec![1, 2, 0, 3]);
    // peak 3, height 100: bars scale proportionally against the peak
    let canvas = render(&scenario_frames(), 4, 100, bg(), fg()).unwrap();
    assert_eq!(canvas.width(), 4);
    assert_eq!(canvas.height(), 100);
    let (top0, bar0) = bar_extent(&canvas, 0);
    let (top1, bar1) = bar_extent(&canvas, 1);
    let (_, bar2) = bar_extent(&canvas, 2);
    let (top3, bar3) = bar_extent(&canvas, 3);
    assert_eq!(bar0, 33); // 1 * 100 / 3
    assert_eq!(bar1, 66); // 2 * 100 / 3
    assert_eq!(bar2, 1); // silent column, clamped to the 1-pixel minimum
    assert_eq!(bar3, 100); // the peak column fills the canvas
    assert_eq!(top0, 33); // (100 - 33) / 2, centered
    assert_eq!(top1, 17);
    assert_eq!(top3, 0);
}

#[test]
fn render_peak_column_reaches_full_height() {
    let canvas = render(&scenario_frames(), 4, 100, bg(), fg()).unwrap();
    let (_, bar) = bar_extent(&canvas, 3);
    assert_eq!(bar, canvas.height());
    // and no column exceeds the canvas height
    for x in 0..canvas.width() {
        let (_, b) = bar_extent(&canvas, x);
        assert!(b <= canvas.height());
    }
}

#[test]
fn render_keeps_every_column_visible() {
    // a magnitude far below the peak still draws a 1-pixel bar
    let frames = vec![
        Some(frame(vec![1, 1], vec![1, 1])),
        Some(frame(vec![10000, 10000], vec![10000, 10000])),
    ];
    let canvas = render(&frames, 2, 50, bg(), fg()).unwrap();
    let (_, bar0) = bar_extent(&canvas, 0);
    assert_eq!(bar0, 1);
    let (_, bar1) = bar_extent(&canvas, 1);
    assert_eq!(bar1, 50);
}

#[test]
fn render_fills_background_outside_bars() {
    let canvas = render(&scenario_frames(), 4, 100, bg(), fg()).unwrap();
    // column 0 bears a centered bar of 33 rows; the corners stay background
    assert_eq!(canvas.pixel(0, 0), bg());
    assert_eq!(canvas.pixel(0, 99), bg());
    assert_eq!(canvas.pixel(3, 0), fg());
}
