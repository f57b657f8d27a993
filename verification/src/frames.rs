//! The frame assembler: turns chunks of any length into analysis windows
//! of one fixed length.
//!
//! Samples are signed integers. A chunk with several channels is mixed down
//! to one channel by averaging the samples of each frame; the mono samples
//! are queued behind what earlier chunks left over, and every full window
//! at the front of the queue is handed out. No sample is dropped.

use vstd::prelude::*;
use crate::fixed::{div_toward_zero, lemma_div_bounds, lemma_mul_le, min_int, trunc_div};

verus! {

/// The sum of the samples `lo..hi`.
pub open spec fn frame_sum(samples: Seq<i32>, lo: int, hi: int) -> int
    decreases hi - lo,
{
    if lo >= hi {
        0
    } else {
        frame_sum(samples, lo, hi - 1) + samples[hi - 1]
    }
}

/// Number of mono samples that a chunk of `len` samples yields. A last
/// frame that lacks some channels still counts.
pub open spec fn mono_len(len: int, channels: int) -> int {
    if channels <= 1 {
        len
    } else {
        (len + channels - 1) / channels
    }
}

/// Mono sample `k` of a chunk: the sum of frame `k` divided by the number
/// of channels, rounded toward zero.
pub open spec fn mono_sample(samples: Seq<i32>, channels: int, k: int) -> int {
    if channels <= 1 {
        samples[k] as int
    } else {
        trunc_div(
            frame_sum(samples, k * channels, min_int(samples.len() as int, (k + 1) * channels)),
            channels,
        )
    }
}

/// The mono signal of an interleaved chunk. One channel or none: the chunk
/// itself.
pub open spec fn downmix_spec(samples: Seq<i32>, channels: int) -> Seq<i32> {
    Seq::new(
        mono_len(samples.len() as int, channels) as nat,
        |k: int| mono_sample(samples, channels, k) as i32,
    )
}

/// The full windows of length `w` at the front of the queue `total`.
pub open spec fn frames_of(total: Seq<i32>, w: int) -> Seq<Seq<i32>> {
    Seq::new((total.len() as int / w) as nat, |k: int| total.subrange(k * w, k * w + w))
}

/// What is left of the queue `total` behind its full windows.
pub open spec fn carry_of(total: Seq<i32>, w: int) -> Seq<i32> {
    total.subrange((total.len() as int / w) * w, total.len() as int)
}

/// The windows of `frames` laid end to end.
pub open spec fn joined(frames: Seq<Seq<i32>>) -> Seq<i32>
    decreases frames.len(),
{
    if frames.len() == 0 {
        Seq::empty()
    } else {
        joined(frames.drop_last()) + frames.last()
    }
}

/// The sum of a frame lies between the extremes of as many samples.
pub proof fn lemma_frame_sum_bounds(samples: Seq<i32>, lo: int, hi: int)
    requires
        0 <= lo <= hi <= samples.len(),
    ensures
        (hi - lo) * (i32::MIN as int) <= frame_sum(samples, lo, hi) <= (hi - lo) * (i32::MAX as int),
    decreases hi - lo,
{
    if lo < hi {
        lemma_frame_sum_bounds(samples, lo, hi - 1);
    }
}

/// A frame of two samples that cancel sums to zero.
pub proof fn lemma_frame_sum_pair(samples: Seq<i32>, lo: int)
    requires
        0 <= lo,
        lo + 2 <= samples.len(),
    ensures
        frame_sum(samples, lo, lo + 2) == samples[lo] + samples[lo + 1],
{
    assert(frame_sum(samples, lo, lo) == 0);
    assert(frame_sum(samples, lo, lo + 1) == frame_sum(samples, lo, lo) + samples[lo]);
    assert(frame_sum(samples, lo, lo + 2) == frame_sum(samples, lo, lo + 1) + samples[lo + 1]);
}

/// The average of at most `channels` samples is a sample value again.
pub proof fn lemma_average_in_range(sum: int, n: int, channels: int)
    requires
        0 <= n <= channels,
        channels >= 1,
        n * (i32::MIN as int) <= sum <= n * (i32::MAX as int),
    ensures
        i32::MIN <= trunc_div(sum, channels) <= i32::MAX,
{
    assert(n * (i32::MAX as int) <= channels * (i32::MAX as int)) by (nonlinear_arith)
        requires
            0 <= n <= channels,
    ;
    assert(n * (i32::MIN as int) >= channels * (i32::MIN as int)) by (nonlinear_arith)
        requires
            0 <= n <= channels,
    ;
    if sum >= 0 {
        assert(sum / channels <= i32::MAX) by (nonlinear_arith)
            requires
                0 <= sum <= channels * (i32::MAX as int),
                channels >= 1,
        ;
        assert(sum / channels >= 0) by (nonlinear_arith)
            requires
                0 <= sum,
                channels >= 1,
        ;
    } else {
        assert((-sum) / channels <= -(i32::MIN as int)) by (nonlinear_arith)
            requires
                0 <= -sum <= channels * (-(i32::MIN as int)),
                channels >= 1,
        ;
        assert((-sum) / channels >= 0) by (nonlinear_arith)
            requires
                0 <= -sum,
                channels >= 1,
        ;
    }
}

/// The number of frames of a chunk, from the frame that holds its end.
pub proof fn lemma_frame_count(len: int, channels: int, k: int)
    by (nonlinear_arith)
    requires
        channels >= 1,
        k >= 0,
        k == 0 ==> len == 0,
        k > 0 ==> (k - 1) * channels < len <= k * channels,
    ensures
        (len + channels - 1) / channels == k,
{
}

/// The number of full windows in a queue, from the window that holds its end.
pub proof fn lemma_window_count(len: int, w: int, n: int)
    by (nonlinear_arith)
    requires
        w >= 1,
        n >= 0,
        n * w <= len < n * w + w,
    ensures
        len / w == n,
{
}

/// Laying the first `n` windows of a queue end to end gives back the first
/// `n * w` samples of the queue.
pub proof fn lemma_joined_prefix(total: Seq<i32>, w: int, n: int)
    requires
        w >= 1,
        0 <= n <= total.len() as int / w,
    ensures
        n * w <= total.len(),
        joined(frames_of(total, w).subrange(0, n)) == total.subrange(0, n * w),
    decreases n,
{
    let count = total.len() as int / w;
    lemma_div_bounds(total.len() as int, total.len() as int, w);
    assert(n * w <= count * w) by {
        lemma_mul_le(n, w, count, w);
    }
    let frames = frames_of(total, w).subrange(0, n);
    if n == 0 {
        assert(n * w == 0) by (nonlinear_arith)
            requires
                n == 0,
        ;
        assert(joined(frames) =~= total.subrange(0, 0));
    } else {
        lemma_joined_prefix(total, w, n - 1);
        assert((n - 1) * w + w == n * w) by (nonlinear_arith);
        assert(frames.drop_last() =~= frames_of(total, w).subrange(0, n - 1));
        assert(frames.last() == total.subrange((n - 1) * w, (n - 1) * w + w));
        assert(joined(frames) =~= total.subrange(0, n * w));
    }
}

/// No sample is dropped: the windows handed out, laid end to end and
/// followed by what is carried over, are the queue itself.
pub proof fn lemma_no_sample_dropped(total: Seq<i32>, w: int)
    requires
        w >= 1,
    ensures
        joined(frames_of(total, w)) + carry_of(total, w) == total,
        carry_of(total, w).len() < w,
{
    let n = total.len() as int / w;
    lemma_div_bounds(total.len() as int, total.len() as int, w);
    lemma_joined_prefix(total, w, n);
    assert((n + 1) * w == n * w + w) by (nonlinear_arith);
    assert(frames_of(total, w).subrange(0, n) =~= frames_of(total, w));
    assert(total.subrange(0, n * w) + total.subrange(n * w, total.len() as int) =~= total);
}

/// Two channels that carry opposite signals mix down to silence.
pub proof fn lemma_opposite_channels_cancel(samples: Seq<i32>)
    requires
        samples.len() % 2 == 0,
        forall|k: int|
            0 <= k < samples.len() as int / 2 ==> #[trigger] samples[2 * k] + samples[2 * k + 1]
                == 0,
    ensures
        downmix_spec(samples, 2).len() == samples.len() / 2,
        forall|k: int| 0 <= k < samples.len() as int / 2 ==> #[trigger] downmix_spec(samples, 2)[k] == 0,
{
    assert forall|k: int| 0 <= k < samples.len() as int / 2 implies #[trigger] downmix_spec(
        samples,
        2,
    )[k] == 0 by {
        lemma_frame_sum_pair(samples, 2 * k);
        assert(samples[2 * k] + samples[2 * k + 1] == 0);
        assert(k * 2 == 2 * k);
        assert((k + 1) * 2 == 2 * k + 2);
        assert(min_int(samples.len() as int, (k + 1) * 2) == 2 * k + 2);
        assert(mono_sample(samples, 2, k) == 0);
    }
}

/// Mixes an interleaved chunk down to one channel: each mono sample is the
/// sum of one frame divided by the number of channels, rounded toward zero.
/// A last frame that lacks some channels is summed as it is. With one
/// channel or none the chunk is copied.
pub fn stereo_to_mono(samples: &Vec<i32>, channels: usize) -> (mono: Vec<i32>)
    ensures
        mono@ == downmix_spec(samples@, channels as int),
{
    let len: usize = samples.len();
    let mut mono: Vec<i32> = Vec::new();
    if channels <= 1 {
        let mut i: usize = 0;
        while i < len
            invariant
                0 <= i <= len,
                len == samples@.len(),
                mono@ == samples@.subrange(0, i as int),
            decreases len - i,
        {
            mono.push(samples[i]);
            i += 1;
            assert(mono@ =~= samples@.subrange(0, i as int));
        }
        assert(mono@ =~= downmix_spec(samples@, channels as int));
        return mono;
    }
    let mut base: usize = 0;
    let ghost mut k: int = 0;
    while base < len
        invariant
            channels >= 2,
            len == samples@.len(),
            0 <= base <= len,
            0 <= k,
            base == min_int(len as int, k * channels),
            k > 0 ==> (k - 1) * channels < len,
            mono@.len() == k,
            forall|j: int| 0 <= j < k ==> #[trigger] mono@[j] == mono_sample(samples@, channels as int, j),
        decreases len - base,
    {
        let end: usize = if len - base < channels {
            len
        } else {
            base + channels
        };
        proof {
            assert((k + 1) * channels == k * channels + channels) by (nonlinear_arith);
            assert(base == k * channels);
            assert(end == min_int(len as int, (k + 1) * channels));
        }
        let mut sum: i128 = 0;
        let mut i: usize = base;
        while i < end
            invariant
                base <= i <= end <= len,
                len == samples@.len(),
                end - base <= channels,
                sum == frame_sum(samples@, base as int, i as int),
                (i - base) * (i32::MIN as int) <= sum <= (i - base) * (i32::MAX as int),
            decreases end - i,
        {
            proof {
                lemma_frame_sum_bounds(samples@, base as int, i as int + 1);
                lemma_mul_le((i + 1 - base) as int, i32::MAX as int, u64::MAX as int, i32::MAX as int);
                lemma_mul_le(
                    (i + 1 - base) as int,
                    -(i32::MIN as int),
                    u64::MAX as int,
                    -(i32::MIN as int),
                );
                assert((i + 1 - base) * (i32::MIN as int) == -((i + 1 - base) * (-(i32::MIN as int))))
                    by (nonlinear_arith);
            }
            sum = sum + samples[i] as i128;
            i += 1;
        }
        proof {
            lemma_average_in_range(sum as int, (end - base) as int, channels as int);
        }
        let avg: i128 = div_toward_zero(sum, channels as i128);
        mono.push(avg as i32);
        proof {
            assert(mono@[k] == mono_sample(samples@, channels as int, k));
            k = k + 1;
        }
        base = end;
    }
    proof {
        if k > 0 {
            assert(len <= k * channels);
        }
        lemma_frame_count(len as int, channels as int, k);
        assert(mono@ =~= downmix_spec(samples@, channels as int));
    }
    mono
}

/// The queue between chunks: the samples that did not fill a window yet,
/// and the length of a window.
pub struct FrameAssembler {
    carry: Vec<i32>,
    window: usize,
}

impl FrameAssembler {
    /// The samples that wait for the next chunk.
    pub closed spec fn carry(&self) -> Seq<i32> {
        self.carry@
    }

    /// The number of samples in one window.
    pub closed spec fn window_size(&self) -> int {
        self.window as int
    }

    /// A window has at least one sample, and fewer samples than that wait.
    pub open spec fn wf(&self) -> bool {
        &&& self.window_size() >= 1
        &&& self.carry().len() < self.window_size()
    }

    /// An assembler with an empty queue for windows of `window` samples.
    /// A window length of zero is refused.
    pub fn new(window: usize) -> (r: Option<FrameAssembler>)
        ensures
            r.is_some() <==> window >= 1,
            r.is_some() ==> r.unwrap().wf() && r.unwrap().window_size() == window
                && r.unwrap().carry() == Seq::<i32>::empty(),
    {
        if window == 0 {
            None
        } else {
            Some(FrameAssembler { carry: Vec::new(), window })
        }
    }

    /// The number of samples in one window.
    pub fn window_len(&self) -> (w: usize)
        ensures
            w == self.window_size(),
    {
        self.window
    }

    /// The number of samples that wait for the next chunk.
    pub fn pending(&self) -> (n: usize)
        ensures
            n == self.carry().len(),
    {
        self.carry.len()
    }

    /// Takes in one chunk: mixes it down to one channel, queues it behind
    /// the samples that wait, and hands out every full window at the front
    /// of the queue, oldest first. What does not fill a window waits.
    pub fn push(&mut self, chunk: &Vec<i32>, channels: usize) -> (windows: Vec<Vec<i32>>)
        requires
            old(self).wf(),
        ensures
            final(self).wf(),
            final(self).window_size() == old(self).window_size(),
            windows@.len() == frames_of(
                old(self).carry() + downmix_spec(chunk@, channels as int),
                old(self).window_size(),
            ).len(),
            forall|k: int|
                0 <= k < windows@.len() ==> (#[trigger] windows@[k])@ == frames_of(
                    old(self).carry() + downmix_spec(chunk@, channels as int),
                    old(self).window_size(),
                )[k],
            final(self).carry() == carry_of(
                old(self).carry() + downmix_spec(chunk@, channels as int),
                old(self).window_size(),
            ),
    {
        let mono: Vec<i32> = stereo_to_mono(chunk, channels);
        let w: usize = self.window;
        let ghost total = self.carry@ + mono@;
        let ghost c0 = self.carry@.len() as int;
        let mut current: Vec<i32> = Vec::new();
        current.append(&mut self.carry);
        let mut windows: Vec<Vec<i32>> = Vec::new();
        let ghost mut emitted: int = 0;
        let n: usize = mono.len();
        let mut j: usize = 0;
        assert(current@ =~= total.subrange(0, c0));
        assert(0 * (w as int) == 0) by (nonlinear_arith);
        while j < n
            invariant
                0 <= j <= n,
                n == mono@.len(),
                w >= 1,
                w == self.window,
                c0 + n == total.len(),
                forall|i: int| 0 <= i < n ==> total[c0 + i] == mono@[i],
                emitted == windows@.len() * w,
                emitted <= c0 + j < emitted + w,
                current@ == total.subrange(emitted, c0 + j),
                forall|k: int|
                    0 <= k < windows@.len() ==> (#[trigger] windows@[k])@ == total.subrange(
                        k * w,
                        k * w + w,
                    ),
            decreases n - j,
        {
            current.push(mono[j]);
            j += 1;
            assert(current@ =~= total.subrange(emitted, c0 + j));
            if current.len() == w {
                let ghost count = windows@.len() as int;
                let mut full: Vec<i32> = Vec::new();
                full.append(&mut current);
                windows.push(full);
                proof {
                    assert((count + 1) * w == count * w + w) by (nonlinear_arith);
                    assert(windows@[count]@ == total.subrange(count * w, count * w + w));
                    emitted = emitted + w;
                    assert(current@ =~= total.subrange(emitted, c0 + j));
                }
            }
        }
        self.carry = current;
        proof {
            lemma_window_count(total.len() as int, w as int, windows@.len() as int);
        }
        windows
    }
}

} // verus!
