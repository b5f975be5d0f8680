//! The verified stages of the analysis of one byte buffer: decoding and
//! framing ahead of the scoring model, detection after it.
use crate::detector::markers_of;
use crate::g711::{decode, decoded};
use crate::window::{frame_count, frame_len_of, frame_of, frames_of, get_window_size, window};
use vstd::prelude::*;

verus! {

/// Sample rate of the telephony input, in Hz.
pub const SAMPLE_RATE: i32 = 8000;

/// Decodes a µ-law byte buffer and splits the samples into 100 ms frames at
/// `sample_rate`, ready for scoring in order.
pub fn decode_frames(data: Vec<u8>, sample_rate: i32) -> (frames: Vec<Vec<i16>>)
    requires
        sample_rate >= 10,
    ensures
        frames@.len() == frame_count(data@.len() as int, frame_len_of(sample_rate as int)),
        forall|k: int|
            0 <= k < frames@.len() ==> #[trigger] frames@[k]@ == frame_of(
                decoded(data@),
                frame_len_of(sample_rate as int),
                k,
            ),
{
    let samples = decode(data);
    let frame_len = get_window_size(sample_rate);
    window(&samples, frame_len)
}

/// Analysis keeps no state between runs: the same bytes give the same
/// frames, and the same frame scores give the same markers.
pub proof fn lemma_analysis_repeatable(
    first: Seq<u8>,
    second: Seq<u8>,
    first_scores: Seq<u32>,
    second_scores: Seq<u32>,
    sample_rate: int,
)
    requires
        first == second,
        first_scores == second_scores,
    ensures
        frames_of(decoded(first), frame_len_of(sample_rate)) == frames_of(
            decoded(second),
            frame_len_of(sample_rate),
        ),
        markers_of(first_scores) == markers_of(second_scores),
{
}

} // verus!
