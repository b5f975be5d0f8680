//! Slicing a linear PCM sample stream into fixed-duration frames.
use vstd::prelude::*;

verus! {

/// Number of frames per second: each frame holds 100 ms of audio.
pub const FRAMES_PER_SECOND: i32 = 10;

/// Samples in one 100 ms frame at the given rate, rounded down.
pub open spec fn frame_len_of(sample_rate: int) -> int {
    sample_rate / 10
}

/// Number of frames that `n` samples fill: the last may be partial.
pub open spec fn frame_count(n: int, frame_len: int) -> int {
    (n + frame_len - 1) / frame_len
}

/// Start of frame `k`.
pub open spec fn frame_start(k: int, frame_len: int) -> int {
    k * frame_len
}

/// End (exclusive) of frame `k` in a stream of `n` samples.
pub open spec fn frame_end(n: int, k: int, frame_len: int) -> int {
    if (k + 1) * frame_len <= n {
        (k + 1) * frame_len
    } else {
        n
    }
}

/// Frame `k` of `samples`: consecutive, non-overlapping windows of
/// `frame_len` samples, the last one holding what is left.
pub open spec fn frame_of(samples: Seq<i16>, frame_len: int, k: int) -> Seq<i16> {
    samples.subrange(frame_start(k, frame_len), frame_end(samples.len() as int, k, frame_len))
}

/// All frames of `samples`, in order.
pub open spec fn frames_of(samples: Seq<i16>, frame_len: int) -> Seq<Seq<i16>> {
    Seq::new(
        frame_count(samples.len() as int, frame_len) as nat,
        |k: int| frame_of(samples, frame_len, k),
    )
}

/// Total number of samples held by a sequence of frames.
pub open spec fn total_len(frames: Seq<Seq<i16>>) -> nat
    decreases frames.len(),
{
    if frames.len() == 0 {
        0
    } else {
        total_len(frames.drop_last()) + frames.last().len()
    }
}

/// Returns a chunk size of 100 ms at the given sample rate.
pub fn get_window_size(sample_rate: i32) -> (r: usize)
    requires
        sample_rate >= 0,
    ensures
        r as int == frame_len_of(sample_rate as int),
{
    (sample_rate / FRAMES_PER_SECOND) as usize
}

proof fn lemma_frame_bounds(n: int, frame_len: int, k: int)
    requires
        frame_len > 0,
        n >= 0,
        0 <= k < frame_count(n, frame_len),
    ensures
        0 <= frame_start(k, frame_len) < frame_end(n, k, frame_len) <= n,
        frame_end(n, k, frame_len) - frame_start(k, frame_len) <= frame_len,
{
    assert(k * frame_len < n) by (nonlinear_arith)
        requires
            frame_len > 0,
            n >= 0,
            0 <= k < (n + frame_len - 1) / frame_len,
    ;
    assert(0 <= k * frame_len) by (nonlinear_arith)
        requires
            frame_len > 0,
            0 <= k,
    ;
    assert((k + 1) * frame_len == k * frame_len + frame_len) by (nonlinear_arith);
}

/// Splits `samples` into frames of `frame_len` samples, in source order, the
/// last one shorter when `frame_len` does not divide the length. Nothing is
/// dropped or padded.
pub fn window(samples: &Vec<i16>, frame_len: usize) -> (frames: Vec<Vec<i16>>)
    requires
        frame_len > 0,
    ensures
        frames@.len() == frame_count(samples@.len() as int, frame_len as int),
        forall|k: int|
            0 <= k < frames@.len() ==> #[trigger] frames@[k]@ == frame_of(
                samples@,
                frame_len as int,
                k,
            ),
{
    let n = samples.len();
    let mut frames: Vec<Vec<i16>> = Vec::new();
    let mut start: usize = 0;
    proof {
        if n > 0 {
            assert(0 < frame_count(n as int, frame_len as int)) by (nonlinear_arith)
                requires
                    n > 0,
                    frame_len > 0,
            ;
        } else {
            assert(frame_count(n as int, frame_len as int) == 0) by (nonlinear_arith)
                requires
                    n == 0,
                    frame_len > 0,
            ;
        }
    }
    while start < n
        invariant
            n == samples@.len(),
            frame_len > 0,
            start <= n,
            start < n ==> start == frames@.len() * frame_len && frames@.len() < frame_count(
                n as int,
                frame_len as int,
            ),
            start == n ==> frames@.len() == frame_count(n as int, frame_len as int),
            forall|k: int|
                0 <= k < frames@.len() ==> #[trigger] frames@[k]@ == frame_of(
                    samples@,
                    frame_len as int,
                    k,
                ),
        decreases n - start,
    {
        let k: Ghost<int> = Ghost(frames@.len() as int);
        proof {
            lemma_frame_bounds(n as int, frame_len as int, k@);
        }
        let end: usize = if n - start > frame_len {
            start + frame_len
        } else {
            n
        };
        let mut frame: Vec<i16> = Vec::new();
        let mut i: usize = start;
        while i < end
            invariant
                start <= i <= end <= n,
                n == samples@.len(),
                frame@ == samples@.subrange(start as int, i as int),
            decreases end - i,
        {
            frame.push(samples[i]);
            i = i + 1;
        }
        proof {
            assert((k@ + 1) * frame_len == k@ * frame_len + frame_len) by (nonlinear_arith);
            assert(end as int == frame_end(n as int, k@, frame_len as int));
        }
        frames.push(frame);
        proof {
            if end < n {
                assert(frames@.len() < frame_count(n as int, frame_len as int)) by (nonlinear_arith)
                    requires
                        end == frames@.len() * frame_len,
                        end < n,
                        frame_len > 0,
                ;
            } else {
                assert(frames@.len() == frame_count(n as int, frame_len as int)) by (nonlinear_arith)
                    requires
                        frames@.len() * frame_len >= n,
                        (frames@.len() - 1) * frame_len < n,
                        frame_len > 0,
                ;
            }
        }
        start = end;
    }
    frames
}

proof fn lemma_prefix_total(samples: Seq<i16>, frame_len: int, j: int)
    requires
        frame_len > 0,
        0 <= j <= frame_count(samples.len() as int, frame_len),
    ensures
        total_len(frames_of(samples, frame_len).take(j)) == if j * frame_len <= samples.len() {
            j * frame_len
        } else {
            samples.len() as int
        },
    decreases j,
{
    let frames = frames_of(samples, frame_len);
    let n = samples.len() as int;
    if j > 0 {
        lemma_prefix_total(samples, frame_len, j - 1);
        lemma_frame_bounds(n, frame_len, j - 1);
        assert(frames.take(j).drop_last() =~= frames.take(j - 1));
        assert(frames.take(j).last() == frames[j - 1]);
        assert(frames[j - 1].len() == frame_end(n, j - 1, frame_len) - frame_start(j - 1, frame_len));
        assert(j * frame_len == (j - 1) * frame_len + frame_len) by (nonlinear_arith);
        assert((j - 1 + 1) * frame_len == j * frame_len);
        assert(total_len(frames.take(j)) == total_len(frames.take(j - 1)) + frames[j - 1].len());

    } else {
        assert(frames.take(0) =~= Seq::<Seq<i16>>::empty());
        assert(j * frame_len == 0) by (nonlinear_arith)
            requires
                j == 0,
        ;
    }
}

/// Framing covers its input exactly: for a sample rate of at least 10 Hz
/// (so that a frame holds at least one sample), the frames' lengths add up
/// to the input length, every frame but the last holds exactly
/// `sample_rate / 10` samples, the last holds between one and that many,
/// and there are `ceil(len / frame_len)` frames.
pub proof fn lemma_window_coverage(samples: Seq<i16>, sample_rate: int)
    requires
        sample_rate >= 10,
    ensures
        ({
            let frame_len = frame_len_of(sample_rate);
            let frames = frames_of(samples, frame_len);
            &&& total_len(frames) == samples.len()
            &&& frames.len() == (samples.len() + frame_len - 1) / frame_len
            &&& forall|k: int| 0 <= k < frames.len() - 1 ==> #[trigger] frames[k].len() == frame_len
            &&& frames.len() > 0 ==> 0 < frames.last().len() <= frame_len
        }),
{
    let frame_len = frame_len_of(sample_rate);
    let frames = frames_of(samples, frame_len);
    let n = samples.len() as int;
    let count = frame_count(n, frame_len);
    assert(count >= 0) by (nonlinear_arith)
        requires
            frame_len > 0,
            n >= 0,
            count == (n + frame_len - 1) / frame_len,
    ;
    lemma_prefix_total(samples, frame_len, count);
    assert(frames.take(count) =~= frames);
    assert(count * frame_len >= n) by (nonlinear_arith)
        requires
            frame_len > 0,
            n >= 0,
            count == (n + frame_len - 1) / frame_len,
    ;
    assert forall|k: int| 0 <= k < frames.len() - 1 implies #[trigger] frames[k].len()
        == frame_len by {
        lemma_frame_bounds(n, frame_len, k);
        lemma_frame_bounds(n, frame_len, k + 1);
        assert((k + 1) * frame_len == k * frame_len + frame_len) by (nonlinear_arith);
    }
    if count > 0 {
        lemma_frame_bounds(n, frame_len, count - 1);
    }
}

} // verus!
