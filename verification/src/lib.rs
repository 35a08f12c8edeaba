//! Renders a waveform bar chart from decoded audio samples.
//!
//! The pipeline estimates per-frame loudness (root mean square over each
//! stereo channel), collapses the two channels to one magnitude per frame,
//! downsamples the resulting track magnitude sequence to one representative
//! magnitude per image column, normalizes against the global peak, and
//! rasterizes each column as a centered vertical bar on a pixel canvas.
//! Decoding audio files and encoding the canvas to an image file are left
//! to the caller.

use vstd::prelude::*;

pub mod color;
pub mod loudness;
pub mod mixer;
pub mod paths;
pub mod raster;
pub mod reducer;

verus! {

/// The ways a waveform render can fail.
#[derive(Clone, Copy, Debug, PartialEq, Eq, Structural)]
pub enum RenderError {
    /// An empty sample sequence reached the loudness estimator.
    InvalidInput,
    /// A frame carried fewer than two channels.
    UnsupportedFormat,
    /// No frame was decoded successfully.
    EmptyTrack,
    /// Every magnitude in the track is zero.
    SilentTrack,
    /// A zero width or height was requested.
    InvalidDimensions,
}

} // verus!
