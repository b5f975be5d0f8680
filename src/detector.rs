//! Hysteresis detector: turns a stream of per-frame speech probabilities into
//! alternating "speech started" / "speech ended" markers.
//!
//! A probability is carried as the bit pattern of an IEEE-754 single-precision
//! value (what `f32::to_bits` returns). For values of positive sign the order
//! of the numbers is the order of their bit patterns; every value of negative
//! sign, `-0.0` included, lies below every positive threshold; a NaN compares
//! false with everything.
use vstd::prelude::*;

verus! {

/// Bit pattern of `0.5f32`: a frame scoring above it starts speech.
pub const START_THRESHOLD_BITS: u32 = 0x3f00_0000;

/// Bit pattern of `0.35f32`: a frame scoring below it ends speech.
pub const END_THRESHOLD_BITS: u32 = 0x3eb3_3333;

/// Duration of one frame in milliseconds.
pub const FRAME_MS: i32 = 100;

/// Largest frame index whose start time fits an `i32` millisecond count.
pub const MAX_FRAME_INDEX: u32 = 21_474_836;

/// Sign bit of a single-precision value.
pub const SIGN_BIT: u32 = 0x8000_0000;

/// Bit pattern of positive infinity; patterns above it (in either sign) are NaN.
pub const INFINITY_BITS: u32 = 0x7f80_0000;

/// The value is a NaN: all exponent bits set and a non-zero mantissa.
pub open spec fn is_nan(p: u32) -> bool {
    (INFINITY_BITS < p < SIGN_BIT) || (p > SIGN_BIT + INFINITY_BITS)
}

/// The value has its sign bit set (it is negative or `-0.0`).
pub open spec fn is_negative(p: u32) -> bool {
    p >= SIGN_BIT
}

/// The value compares greater than `0.5`.
pub open spec fn above_start(p: u32) -> bool {
    !is_negative(p) && !is_nan(p) && p > START_THRESHOLD_BITS
}

/// The value compares less than `0.35`.
pub open spec fn below_end(p: u32) -> bool {
    !is_nan(p) && (is_negative(p) || p < END_THRESHOLD_BITS)
}

/// The value lies in the band `[0.35, 0.5]`, where neither threshold is crossed.
pub open spec fn in_dead_zone(p: u32) -> bool {
    !is_nan(p) && !is_negative(p) && END_THRESHOLD_BITS <= p <= START_THRESHOLD_BITS
}

/// The kind of a speech boundary.
#[derive(Clone, Copy, Debug, PartialEq, Eq, Structural)]
pub enum SpeechEvent {
    SpeechStarted,
    SpeechEnded,
}

/// One boundary event: its kind and the start time of the frame that
/// triggered it.
#[derive(Clone, Copy, Debug, PartialEq, Eq, Structural)]
pub struct Marker {
    pub kind: SpeechEvent,
    pub time_in_ms: i32,
}

/// Whether speech is active after a frame scoring `p`, given whether it was
/// active before.
pub open spec fn next_active(active: bool, p: u32) -> bool {
    if !active && above_start(p) {
        true
    } else if active && below_end(p) {
        false
    } else {
        active
    }
}

/// Start time of frame `k`.
pub open spec fn frame_time(k: int) -> i32 {
    (k * 100) as i32
}

/// The marker that frame `k` scoring `p` emits, if any.
pub open spec fn marker_at(active: bool, p: u32, k: int) -> Option<Marker> {
    if !active && above_start(p) {
        Some(Marker { kind: SpeechEvent::SpeechStarted, time_in_ms: frame_time(k) })
    } else if active && below_end(p) {
        Some(Marker { kind: SpeechEvent::SpeechEnded, time_in_ms: frame_time(k) })
    } else {
        None
    }
}

/// Whether speech is active after the frames scored `probs`, from silence.
pub open spec fn active_after(probs: Seq<u32>) -> bool
    decreases probs.len(),
{
    if probs.len() == 0 {
        false
    } else {
        next_active(active_after(probs.drop_last()), probs.last())
    }
}

/// The markers emitted over the frames scored `probs`, from silence, in order.
pub open spec fn markers_of(probs: Seq<u32>) -> Seq<Marker>
    decreases probs.len(),
{
    if probs.len() == 0 {
        Seq::empty()
    } else {
        let prev = probs.drop_last();
        match marker_at(active_after(prev), probs.last(), prev.len() as int) {
            Some(m) => markers_of(prev).push(m),
            None => markers_of(prev),
        }
    }
}

/// The running state of the detector over one stream.
pub struct Detector {
    /// Whether speech is currently active.
    pub speech_active: bool,
    /// Number of frames consumed so far; also the index of the next frame.
    pub frame_index: u32,
}

impl Detector {
    /// A detector in silence, before the first frame.
    pub fn new() -> (d: Detector)
        ensures
            !d.speech_active,
            d.frame_index == 0,
    {
        Detector { speech_active: false, frame_index: 0 }
    }

    /// Consumes the score of the next frame and returns the marker it
    /// triggers, if any: a start when silent and the score exceeds `0.5`, an
    /// end when speaking and the score is below `0.35`.
    pub fn push(&mut self, p: u32) -> (m: Option<Marker>)
        requires
            old(self).frame_index <= MAX_FRAME_INDEX,
        ensures
            final(self).speech_active == next_active(old(self).speech_active, p),
            final(self).frame_index == old(self).frame_index + 1,
            m == marker_at(old(self).speech_active, p, old(self).frame_index as int),
    {
        let time_in_ms: i32 = (self.frame_index as i32) * FRAME_MS;
        let negative = p >= SIGN_BIT;
        let nan = (p > INFINITY_BITS && p < SIGN_BIT) || p > SIGN_BIT + INFINITY_BITS;
        let m = if !self.speech_active && !negative && !nan && p > START_THRESHOLD_BITS {
            self.speech_active = true;
            Some(Marker { kind: SpeechEvent::SpeechStarted, time_in_ms })
        } else if self.speech_active && !nan && (negative || p < END_THRESHOLD_BITS) {
            self.speech_active = false;
            Some(Marker { kind: SpeechEvent::SpeechEnded, time_in_ms })
        } else {
            None
        };
        self.frame_index = self.frame_index + 1;
        m
    }
}

/// Runs a fresh detector over the scores of consecutive frames and returns
/// the markers, in order.
pub fn detect(probs: &Vec<u32>) -> (markers: Vec<Marker>)
    requires
        probs@.len() <= MAX_FRAME_INDEX + 1,
    ensures
        markers@ == markers_of(probs@),
{
    let mut d = Detector::new();
    let mut markers: Vec<Marker> = Vec::new();
    let mut i: usize = 0;
    while i < probs.len()
        invariant
            i <= probs@.len() <= MAX_FRAME_INDEX + 1,
            d.frame_index == i,
            d.speech_active == active_after(probs@.take(i as int)),
            markers@ == markers_of(probs@.take(i as int)),
        decreases probs@.len() - i,
    {
        proof {
            assert(probs@.take(i + 1).drop_last() =~= probs@.take(i as int));
        }
        if let Some(m) = d.push(probs[i]) {
            markers.push(m);
        }
        i = i + 1;
    }
    proof {
        assert(probs@.take(i as int) =~= probs@);
    }
    markers
}

/// The kind that the `i`-th marker of a stream must have for kinds to
/// alternate from a start.
pub open spec fn alternating_kind(i: int) -> SpeechEvent {
    if i % 2 == 0 {
        SpeechEvent::SpeechStarted
    } else {
        SpeechEvent::SpeechEnded
    }
}

proof fn lemma_markers_parity(probs: Seq<u32>)
    ensures
        active_after(probs) == (markers_of(probs).len() % 2 == 1),
        forall|i: int|
            0 <= i < markers_of(probs).len() ==> #[trigger] markers_of(probs)[i].kind
                == alternating_kind(i),
    decreases probs.len(),
{
    if probs.len() > 0 {
        let prev = probs.drop_last();
        lemma_markers_parity(prev);
    }
}

/// Marker kinds strictly alternate, starting with a start: for any score
/// sequence the first marker (if any) is `SpeechStarted` and no two
/// consecutive markers have the same kind.
pub proof fn lemma_markers_alternate(probs: Seq<u32>)
    ensures
        markers_of(probs).len() > 0 ==> markers_of(probs)[0].kind == SpeechEvent::SpeechStarted,
        forall|i: int|
            0 <= i < markers_of(probs).len() - 1 ==> #[trigger] markers_of(probs)[i].kind
                != markers_of(probs)[i + 1].kind,
{
    lemma_markers_parity(probs);
    let ms = markers_of(probs);
    assert forall|i: int| 0 <= i < ms.len() - 1 implies #[trigger] ms[i].kind != ms[i + 1].kind by {
        assert(ms[i].kind == alternating_kind(i));
        assert(ms[i + 1].kind == alternating_kind(i + 1));
    }
}

proof fn lemma_dead_zone_prefix(probs: Seq<u32>, k: int, j: int)
    requires
        0 <= k < probs.len(),
        forall|i: int| 0 <= i < k ==> !above_start(#[trigger] probs[i]),
        above_start(probs[k]),
        forall|i: int| k < i < probs.len() ==> in_dead_zone(#[trigger] probs[i]),
        0 <= j <= probs.len(),
    ensures
        j <= k ==> !active_after(probs.take(j)) && markers_of(probs.take(j)).len() == 0,
        j > k ==> active_after(probs.take(j)) && markers_of(probs.take(j)) == seq![
            Marker { kind: SpeechEvent::SpeechStarted, time_in_ms: frame_time(k) },
        ],
    decreases j,
{
    if j > 0 {
        lemma_dead_zone_prefix(probs, k, j - 1);
        assert(probs.take(j).drop_last() =~= probs.take(j - 1));
        assert(probs.take(j).last() == probs[j - 1]);
    }
}

/// Scores that stay in the band `[0.35, 0.5]` after the first one above
/// `0.5` cause no marker beyond the start that this one triggered.
pub proof fn lemma_dead_zone_stable(probs: Seq<u32>, k: int)
    requires
        0 <= k < probs.len(),
        forall|i: int| 0 <= i < k ==> !above_start(#[trigger] probs[i]),
        above_start(probs[k]),
        forall|i: int| k < i < probs.len() ==> in_dead_zone(#[trigger] probs[i]),
    ensures
        markers_of(probs) == seq![
            Marker { kind: SpeechEvent::SpeechStarted, time_in_ms: frame_time(k) },
        ],
{
    lemma_dead_zone_prefix(probs, k, probs.len() as int);
    assert(probs.take(probs.len() as int) =~= probs);
}

/// Markers come in strictly increasing time order, each at the start of a
/// frame of the stream (times are exact while frame starts fit an `i32`).
pub proof fn lemma_marker_times_increase(probs: Seq<u32>)
    requires
        probs.len() <= MAX_FRAME_INDEX + 1,
    ensures
        forall|i: int, j: int|
            0 <= i < j < markers_of(probs).len() ==> #[trigger] markers_of(probs)[i].time_in_ms
                < #[trigger] markers_of(probs)[j].time_in_ms,
        forall|i: int|
            0 <= i < markers_of(probs).len() ==> {
                let t = #[trigger] markers_of(probs)[i].time_in_ms;
                0 <= t < probs.len() * 100 && t % 100 == 0
            },
    decreases probs.len(),
{
    if probs.len() > 0 {
        let prev = probs.drop_last();
        lemma_marker_times_increase(prev);
        let k = prev.len() as int;
        assert(frame_time(k) == k * 100);
        assert((k * 100) % 100 == 0);
    }
}

/// A stream in which no score exceeds `0.5` (silence scored near zero, say)
/// emits no marker.
pub proof fn lemma_no_rise_no_markers(probs: Seq<u32>)
    requires
        forall|i: int| 0 <= i < probs.len() ==> !above_start(#[trigger] probs[i]),
    ensures
        markers_of(probs).len() == 0,
        !active_after(probs),
    decreases probs.len(),
{
    if probs.len() > 0 {
        let prev = probs.drop_last();
        assert forall|i: int| 0 <= i < prev.len() implies !above_start(#[trigger] prev[i]) by {
            assert(prev[i] == probs[i]);
        }
        lemma_no_rise_no_markers(prev);
        assert(probs.last() == probs[probs.len() - 1]);
    }
}

} // verus!
