//! The loudness of a window of samples.
//!
//! Samples are counted in millionths of full scale. Before analysis a
//! window is scaled so that its loudest sample stands at four tenths of
//! full scale, by a factor of at most one thousand, so that a quiet source
//! still moves the bars.

use vstd::prelude::*;
use crate::fixed::{abs_int, div_toward_zero, lemma_mul_abs_le, trunc_div};

verus! {

/// The level that the loudest sample of a window is brought to.
pub const NORMAL_PEAK: u32 = 400_000;

/// The largest factor by which a window is scaled.
pub const MAX_SCALE: u32 = 1000;

/// The loudest sample at which a window counts as sound.
pub const AUDIBLE_PEAK: u32 = 1;

/// The largest absolute value among the first `n` samples.
pub open spec fn peak_of(samples: Seq<i32>, n: int) -> int
    decreases n,
{
    if n <= 0 {
        0
    } else {
        let before = peak_of(samples, n - 1);
        let here = abs_int(samples[n - 1] as int);
        if here > before {
            here
        } else {
            before
        }
    }
}

/// A sample of a window of peak `peak` after scaling: silence stays as it
/// is, a very quiet window is scaled by the largest factor, any other
/// window so that its peak stands at `NORMAL_PEAK`.
pub open spec fn scaled_sample(sample: int, peak: int) -> int {
    if peak <= 0 {
        sample
    } else if peak * MAX_SCALE <= NORMAL_PEAK {
        sample * MAX_SCALE
    } else {
        trunc_div(sample * NORMAL_PEAK, peak)
    }
}

/// A window after scaling.
pub open spec fn normalized_spec(samples: Seq<i32>) -> Seq<i32> {
    Seq::new(
        samples.len(),
        |i: int| scaled_sample(samples[i] as int, peak_of(samples, samples.len() as int)) as i32,
    )
}

/// The peak bounds every sample, and is zero only for silence.
pub proof fn lemma_peak_bounds(samples: Seq<i32>, n: int)
    requires
        0 <= n <= samples.len(),
    ensures
        0 <= peak_of(samples, n) <= 0x8000_0000,
        forall|i: int| 0 <= i < n ==> abs_int(#[trigger] samples[i] as int) <= peak_of(samples, n),
    decreases n,
{
    if n > 0 {
        lemma_peak_bounds(samples, n - 1);
    }
}

/// A scaled sample is no louder than `NORMAL_PEAK`, whatever came in.
pub proof fn lemma_scaled_sample_bounded(sample: int, peak: int)
    requires
        abs_int(sample) <= peak,
        peak > 0,
    ensures
        abs_int(scaled_sample(sample, peak)) <= NORMAL_PEAK,
{
    if peak * MAX_SCALE <= NORMAL_PEAK {
        assert(abs_int(sample * MAX_SCALE) <= NORMAL_PEAK) by (nonlinear_arith)
            requires
                abs_int(sample) <= peak,
                peak * MAX_SCALE <= NORMAL_PEAK,
                MAX_SCALE == 1000,
        ;
    } else {
        let a = abs_int(sample);
        assert(abs_int(sample * NORMAL_PEAK) == a * NORMAL_PEAK) by (nonlinear_arith)
            requires
                a == abs_int(sample),
                NORMAL_PEAK == 400_000,
        ;
        assert((a * NORMAL_PEAK) / peak <= NORMAL_PEAK) by (nonlinear_arith)
            requires
                0 <= a <= peak,
                peak > 0,
                NORMAL_PEAK == 400_000,
        ;
        assert((a * NORMAL_PEAK) / peak >= 0) by (nonlinear_arith)
            requires
                0 <= a,
                peak > 0,
                NORMAL_PEAK == 400_000,
        ;
    }
}

/// The largest absolute value among the samples of a window.
pub fn peak_level(samples: &Vec<i32>) -> (peak: u32)
    ensures
        peak == peak_of(samples@, samples@.len() as int),
{
    let mut peak: u32 = 0;
    let mut i: usize = 0;
    while i < samples.len()
        invariant
            0 <= i <= samples@.len(),
            peak == peak_of(samples@, i as int),
        decreases samples@.len() - i,
    {
        let s: i64 = samples[i] as i64;
        let a: u32 = if s < 0 {
            (-s) as u32
        } else {
            s as u32
        };
        if a > peak {
            peak = a;
        }
        i += 1;
    }
    peak
}

/// Whether a window is loud enough to count as sound.
pub fn is_audible(samples: &Vec<i32>) -> (audible: bool)
    ensures
        audible == (peak_of(samples@, samples@.len() as int) >= AUDIBLE_PEAK),
{
    peak_level(samples) >= AUDIBLE_PEAK
}

/// A window scaled so that its loudest sample stands at `NORMAL_PEAK`,
/// by a factor of at most `MAX_SCALE`. Silence stays silence.
pub fn normalized(samples: &Vec<i32>) -> (out: Vec<i32>)
    ensures
        out@ == normalized_spec(samples@),
{
    let peak: u32 = peak_level(samples);
    let n: usize = samples.len();
    let mut out: Vec<i32> = Vec::new();
    let mut i: usize = 0;
    proof {
        lemma_peak_bounds(samples@, n as int);
    }
    while i < n
        invariant
            0 <= i <= n,
            n == samples@.len(),
            peak == peak_of(samples@, n as int),
            forall|j: int| 0 <= j < n ==> abs_int(#[trigger] samples@[j] as int) <= peak,
            out@.len() == i,
            forall|j: int|
                0 <= j < i ==> #[trigger] out@[j] == scaled_sample(samples@[j] as int, peak as int),
        decreases n - i,
    {
        let s: i32 = samples[i];
        assert(abs_int(samples@[i as int] as int) <= peak);
        let scaled: i32 = if peak == 0 {
            s
        } else {
            proof {
                lemma_scaled_sample_bounded(s as int, peak as int);
            }
            if (peak as u64) * (MAX_SCALE as u64) <= NORMAL_PEAK as u64 {
                s * (MAX_SCALE as i32)
            } else {
                proof {
                    lemma_mul_abs_le(s as int, NORMAL_PEAK as int, 0x8000_0000, 400_000);
                }
                div_toward_zero((s as i128) * (NORMAL_PEAK as i128), peak as i128) as i32
            }
        };
        out.push(scaled);
        i += 1;
    }
    assert(out@ =~= normalized_spec(samples@));
    out
}

} // verus!
