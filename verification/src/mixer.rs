//! Channel mixing: collapse the two channel loudness values of each frame to
//! one mono magnitude, and fold a whole track's decoded frames into the track
//! magnitude sequence, in decode order.

use vstd::prelude::*;

use crate::RenderError;
use crate::loudness::{rms, spec_rms};

verus! {

/// One decoded unit of audio: for each channel, an ordered sequence of
/// signed fixed-point amplitude samples.
pub struct Frame {
    pub channels: Vec<Vec<i32>>,
}

impl Frame {
    /// The channels as a sequence of sample sequences.
    pub open spec fn view_channels(self) -> Seq<Seq<i32>> {
        self.channels.deep_view()
    }
}

/// The error a frame is rejected with, if any: fewer than two channels is an
/// unsupported format, and an empty channel is invalid input to the loudness
/// estimator.
pub open spec fn spec_frame_error(f: Frame) -> Option<RenderError> {
    if f.view_channels().len() < 2 {
        Some(RenderError::UnsupportedFormat)
    } else if f.view_channels()[0].len() == 0 || f.view_channels()[1].len() == 0 {
        Some(RenderError::InvalidInput)
    } else {
        None
    }
}

/// The mono magnitude of a frame: the arithmetic mean of the two channel
/// RMS values, rounded up on an odd sum, so a frame whose channels carry
/// any loudness never collapses to a zero magnitude.
pub open spec fn spec_frame_magnitude(f: Frame) -> int {
    (spec_rms(f.view_channels()[0]) + spec_rms(f.view_channels()[1]) + 1) / 2
}

/// The arithmetic mean of the two channel loudness values of one frame,
/// rounded up on an odd sum.
pub fn mix_channels(left: u64, right: u64) -> (m: u64)
    ensures
        m == (left + right + 1) / 2,
{
    proof {
        vstd::arithmetic::div_mod::lemma_div_is_ordered(
            left as int + right as int + 1,
            2int * 0xFFFF_FFFF_FFFF_FFFFint + 1,
            2,
        );
    }
    ((left as u128 + right as u128 + 1) / 2) as u64
}

/// The mono magnitude of one frame.
///
/// Fails with `UnsupportedFormat` when the frame has fewer than two
/// channels, and with `InvalidInput` when either of the first two channels
/// is empty; otherwise returns the mean of the two channel RMS values.
pub fn frame_magnitude(frame: &Frame) -> (r: Result<u64, RenderError>)
    ensures
        match r {
            Ok(v) => spec_frame_error(*frame) is None && v == spec_frame_magnitude(*frame),
            Err(e) => spec_frame_error(*frame) == Some(e),
        },
{
    if frame.channels.len() < 2 {
        return Err(RenderError::UnsupportedFormat);
    }
    proof {
        assert(frame.view_channels()[0] =~= frame.channels@[0]@);
        assert(frame.view_channels()[1] =~= frame.channels@[1]@);
    }
    let left = match rms(&frame.channels[0]) {
        Ok(v) => v,
        Err(e) => {
            return Err(e);
        },
    };
    let right = match rms(&frame.channels[1]) {
        Ok(v) => v,
        Err(e) => {
            return Err(e);
        },
    };
    Ok(mix_channels(left, right))
}

/// The track magnitude sequence of a sequence of decode results: one mono
/// magnitude per successfully decoded frame, in decode order; a frame the
/// decoder failed on (`None`) contributes no entry.
pub open spec fn spec_track(frames: Seq<Option<Frame>>) -> Seq<int>
    decreases frames.len(),
{
    if frames.len() == 0 {
        Seq::empty()
    } else {
        let rest = spec_track(frames.drop_last());
        match frames.last() {
            None => rest,
            Some(f) => rest.push(spec_frame_magnitude(f)),
        }
    }
}

/// The number of successfully decoded frames among the decode results.
pub open spec fn count_decoded(frames: Seq<Option<Frame>>) -> int
    decreases frames.len(),
{
    if frames.len() == 0 {
        0
    } else {
        count_decoded(frames.drop_last()) + if frames.last() is Some {
            1int
        } else {
            0int
        }
    }
}

/// Whether no decoded frame among the results is rejected.
pub open spec fn all_frames_accepted(frames: Seq<Option<Frame>>) -> bool {
    forall|i: int|
        0 <= i < frames.len() ==> (#[trigger] frames[i] matches Some(f) ==> spec_frame_error(f)
            is None)
}

/// The error of the first rejected frame among the results, if any.
pub open spec fn spec_first_frame_error(frames: Seq<Option<Frame>>) -> Option<RenderError>
    decreases frames.len(),
{
    if frames.len() == 0 {
        None
    } else {
        match frames.first() {
            None => spec_first_frame_error(frames.drop_first()),
            Some(f) => match spec_frame_error(f) {
                Some(e) => Some(e),
                None => spec_first_frame_error(frames.drop_first()),
            },
        }
    }
}

pub proof fn lemma_frame_magnitude_nonneg(f: Frame)
    ensures
        spec_frame_magnitude(f) >= 0,
{
    vstd::arithmetic::div_mod::lemma_div_pos_is_pos(
        spec_rms(f.view_channels()[0]) + spec_rms(f.view_channels()[1]) + 1,
        2,
    );
}

/// Law: a frame's magnitude is zero exactly when every sample on both of
/// the two channels it is mixed from is zero.
pub proof fn lemma_frame_magnitude_zero_iff_silent(f: Frame)
    requires
        spec_frame_error(f) is None,
    ensures
        spec_frame_magnitude(f) == 0 <==> ((forall|i: int|
            0 <= i < f.view_channels()[0].len() ==> f.view_channels()[0][i] == 0) && (forall|j: int|
            0 <= j < f.view_channels()[1].len() ==> f.view_channels()[1][j] == 0)),
{
    let l = spec_rms(f.view_channels()[0]);
    let r = spec_rms(f.view_channels()[1]);
    crate::loudness::lemma_rms_zero_iff_silent(f.view_channels()[0]);
    crate::loudness::lemma_rms_zero_iff_silent(f.view_channels()[1]);
    if l + r == 0 {
        assert((0int + 1) / 2 == 0);
    } else {
        vstd::arithmetic::div_mod::lemma_div_is_ordered(2, l + r + 1, 2);
        vstd::arithmetic::div_mod::lemma_div_by_self(2);
    }
}

pub proof fn lemma_track_nonneg(frames: Seq<Option<Frame>>)
    ensures
        forall|j: int| 0 <= j < spec_track(frames).len() ==> spec_track(frames)[j] >= 0,
    decreases frames.len(),
{
    if frames.len() == 0 {
        assert(spec_track(frames).len() == 0);
    } else {
        lemma_track_nonneg(frames.drop_last());
        match frames.last() {
            None => {
                assert(spec_track(frames) == spec_track(frames.drop_last()));
                assert(forall|j: int|
                    0 <= j < spec_track(frames).len() ==> spec_track(frames)[j] >= 0);
            },
            Some(f) => {
                lemma_frame_magnitude_nonneg(f);
                let rest = spec_track(frames.drop_last());
                assert(spec_track(frames) == rest.push(spec_frame_magnitude(f)));
                assert forall|j: int|
                    0 <= j < spec_track(frames).len() implies spec_track(frames)[j] >= 0 by {
                    if j < rest.len() {
                        assert(spec_track(frames)[j] == rest[j]);
                    } else {
                        assert(spec_track(frames)[j] == spec_frame_magnitude(f));
                    }
                }
            },
        }
    }
}

/// Law: the track magnitude sequence has exactly one entry per successfully
/// decoded frame, whatever mix of decoded frames and decode failures arrives.
pub proof fn lemma_track_len(frames: Seq<Option<Frame>>)
    ensures
        spec_track(frames).len() == count_decoded(frames),
    decreases frames.len(),
{
    if frames.len() != 0 {
        lemma_track_len(frames.drop_last());
    }
}

pub proof fn lemma_first_frame_error_none(frames: Seq<Option<Frame>>)
    requires
        all_frames_accepted(frames),
    ensures
        spec_first_frame_error(frames) is None,
    decreases frames.len(),
{
    if frames.len() != 0 {
        assert(frames[0] == frames.first());
        assert(forall|i: int|
            0 <= i < frames.drop_first().len() ==> frames.drop_first()[i] == frames[i + 1]);
        lemma_first_frame_error_none(frames.drop_first());
    }
}

pub proof fn lemma_first_frame_error_at(frames: Seq<Option<Frame>>, i: int, e: RenderError)
    requires
        0 <= i < frames.len(),
        all_frames_accepted(frames.take(i)),
        frames[i] matches Some(f) && spec_frame_error(f) == Some(e),
    ensures
        spec_first_frame_error(frames) == Some(e),
    decreases i,
{
    if i == 0 {
        assert(frames[0] == frames.first());
    } else {
        assert(frames[0] == frames.first());
        assert(frames.take(i)[0] == frames[0]);
        let rest = frames.drop_first();
        assert(forall|j: int| 0 <= j < rest.len() ==> rest[j] == frames[j + 1]);
        assert(rest.take(i - 1) =~= frames.take(i).drop_first());
        assert(forall|j: int|
            0 <= j < i - 1 ==> #[trigger] rest.take(i - 1)[j] == frames.take(i)[j + 1]);
        lemma_first_frame_error_at(rest, i - 1, e);
    }
}

/// The track magnitude sequence of a whole track's decode results.
///
/// A `None` entry (a frame the decoder failed on) is skipped and contributes
/// no magnitude, so the result's length is the count of successfully decoded
/// frames. Fails with the error of the first rejected frame, if any frame is
/// rejected.
pub fn track_magnitudes(frames: &Vec<Option<Frame>>) -> (r: Result<Vec<u64>, RenderError>)
    ensures
        match r {
            Ok(t) => {
                &&& all_frames_accepted(frames@)
                &&& t@.len() == spec_track(frames@).len()
                &&& t@.len() == count_decoded(frames@)
                &&& forall|j: int| 0 <= j < t@.len() ==> t@[j] == spec_track(frames@)[j]
            },
            Err(e) => spec_first_frame_error(frames@) == Some(e),
        },
{
    let mut out: Vec<u64> = Vec::new();
    let n = frames.len();
    let mut i: usize = 0;
    while i < n
        invariant
            n == frames@.len(),
            i <= n,
            all_frames_accepted(frames@.take(i as int)),
            out@.len() == spec_track(frames@.take(i as int)).len(),
            forall|j: int|
                0 <= j < out@.len() ==> out@[j] == spec_track(frames@.take(i as int))[j],
        decreases n - i,
    {
        proof {
            assert(frames@.take(i + 1).drop_last() =~= frames@.take(i as int));
            assert(frames@.take(i + 1).last() == frames@[i as int]);
        }
        match &frames[i] {
            None => {},
            Some(f) => {
                match frame_magnitude(f) {
                    Ok(m) => {
                        out.push(m);
                    },
                    Err(e) => {
                        proof {
                            lemma_first_frame_error_at(frames@, i as int, e);
                        }
                        return Err(e);
                    },
                }
            },
        }
        i = i + 1;
    }
    proof {
        assert(frames@.take(n as int) =~= frames@);
        lemma_first_frame_error_none(frames@);
        lemma_track_len(frames@);
    }
    Ok(out)
}

} // verus!
