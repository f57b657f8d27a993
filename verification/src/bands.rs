//! Mapping of transform bins to display bands, and the tilt curve.
//!
//! The 64 bands are split into three regions: 10 low bands (20 Hz to 500 Hz),
//! 44 middle bands (500 Hz to 3.5 kHz) and 10 high bands (3.5 kHz to 15 kHz).
//! A layout is built either from band edge frequencies that the caller
//! spaces inside each region, or with the same number of bins in every band.
//! Frequencies are counted in thousandths of a hertz.
//!
//! The tilt of a band is fixed by its index and its edges and never
//! depends on the signal. Its first part, `index_tilt`, rises with the index
//! from the lowest band to the last middle band and again over the high
//! bands; the first high band starts below the lifted voice bands. Its
//! second part, `guitar_cut`, lowers the bands around two ranges of centre
//! frequencies, so the tilt as a whole does not rise from band to band
//! everywhere.

use vstd::prelude::*;
use crate::fixed::{lemma_div_bounds, lemma_mul_le, max_int, min_int};

verus! {

/// Number of samples in one analysis window.
pub const FFT_SIZE: usize = 2048;

/// Number of usable transform bins (up to the Nyquist frequency).
pub const BINS: usize = 1024;

/// Number of display bands.
pub const BAR_COUNT: usize = 64;

/// Sampling rate of the analysed signal, in hertz.
pub const SAMPLE_RATE: u64 = 44100;

/// Number of bands in the low region.
pub const BASS_LOW_BARS: usize = 10;

/// Number of bands in the middle region.
pub const MIDS_BARS: usize = 44;

/// Number of bands in the high region.
pub const HIGH_BARS: usize = 10;

/// Lower edge of the low region, in thousandths of a hertz.
pub const BASS_LOW_START: u64 = 20_000;

/// Edge between the low and the middle region.
pub const MIDS_START: u64 = 500_000;

/// Edge between the middle and the high region.
pub const HIGH_START: u64 = 3_500_000;

/// Upper edge of the high region.
pub const HIGH_END: u64 = 15_000_000;

/// Number of bins in each band of the uniform layout.
pub const UNIFORM_WIDTH: usize = 16;

/// Upper bound of every tilt factor, in millionths.
pub const TILT_LIMIT: u64 = 5_000_000;

/// One display band: the bins `start..end` and its tilt factor in millionths.
#[derive(Clone, Copy, Debug, PartialEq, Eq, Structural)]
pub struct Band {
    pub start: usize,
    pub end: usize,
    pub tilt: u64,
}

/// Where an edge lies inside its region: the region runs from `lo` to `hi`
/// and the edge is at `lo * (hi / lo)^(step / count)`.
#[derive(Clone, Copy, Debug, PartialEq, Eq, Structural)]
pub struct EdgePosition {
    pub lo: u64,
    pub hi: u64,
    pub step: usize,
    pub count: usize,
}

/// The bin that holds the frequency `freq` (thousandths of a hertz).
pub open spec fn bin_of(freq: int) -> int {
    freq * (FFT_SIZE as int) / (SAMPLE_RATE as int * 1000)
}

/// The frequency at which bin `bin` starts, rounded down.
pub open spec fn freq_of_bin(bin: int) -> int {
    bin * (SAMPLE_RATE as int * 1000) / (FFT_SIZE as int)
}

/// First bin of a band that starts at frequency `f_start`.
pub open spec fn band_start(f_start: int) -> int {
    min_int(bin_of(f_start), BINS as int - 1)
}

/// End bin (exclusive) of a band between `f_start` and `f_end`: never past
/// the last usable bin, and always at least one bin after the start.
pub open spec fn band_end(f_start: int, f_end: int) -> int {
    max_int(min_int(bin_of(f_end), BINS as int), band_start(f_start) + 1)
}

/// Extra lift of the middle bands that carry voice, in thousandths.
pub open spec fn vocal_boost(j: int) -> int {
    if 28 <= j <= 43 {
        1900
    } else if 12 <= j <= 40 {
        1750
    } else {
        1000
    }
}

/// The part of the tilt that depends on the band index alone, in millionths:
/// low bands are attenuated, middle and high bands are lifted. It rises
/// with the index up to the last middle band, and again over the high
/// bands (`lemma_index_tilt_rises`).
pub open spec fn index_tilt(i: int) -> int {
    if i < BASS_LOW_BARS as int {
        (220 + 15 * i) * 1000
    } else if i < (BASS_LOW_BARS + MIDS_BARS) as int {
        let j = i - BASS_LOW_BARS as int;
        (440 + 4 * j) * vocal_boost(j) * 1000 / 440
    } else {
        let j = i - (BASS_LOW_BARS + MIDS_BARS) as int;
        (2400 + 220 * j) * 1000
    }
}

/// Attenuation of the bands where guitars dominate, in thousandths, from
/// twice the band's centre frequency.
pub open spec fn guitar_cut(center2: int) -> int {
    if 2 * 180_000 <= center2 < 2 * 520_000 {
        720
    } else if 2 * 800_000 <= center2 < 2 * 4_200_000 {
        780
    } else {
        1000
    }
}

/// The tilt factor of band `i` whose edges add up to `center2`, in
/// millionths. It is fixed by the index and the edges of the band, lies
/// between 0.72 times and once the `index_tilt` of the band, and is at most
/// `TILT_LIMIT` (`lemma_band_tilt_bounded`). It is not monotonic in the
/// index: the cut lowers some bands below their lower neighbours, and the
/// first high band lies below the last middle band.
pub open spec fn band_tilt(i: int, center2: int) -> int {
    index_tilt(i) * guitar_cut(center2) / 1000
}

/// The band with index `i` between the frequencies `f_start` and `f_end`.
pub open spec fn band_from_edges(i: int, f_start: int, f_end: int) -> Band {
    Band {
        start: band_start(f_start) as usize,
        end: band_end(f_start, f_end) as usize,
        tilt: band_tilt(i, f_start + f_end) as u64,
    }
}

/// The band with index `i` when every band holds the same number of bins.
pub open spec fn uniform_band(i: int) -> Band {
    let width = UNIFORM_WIDTH as int;
    Band {
        start: (i * width) as usize,
        end: ((i + 1) * width) as usize,
        tilt: band_tilt(i, freq_of_bin(i * width) + freq_of_bin((i + 1) * width)) as u64,
    }
}

/// A band lies inside the usable bins, is not empty, and has a bounded tilt.
pub open spec fn band_wf(b: Band) -> bool {
    &&& b.start < b.end <= BINS
    &&& b.tilt <= TILT_LIMIT
}

/// Position of edge `k` (0 to 64) inside its region.
pub open spec fn edge_position_spec(k: int) -> EdgePosition {
    if k <= BASS_LOW_BARS as int {
        EdgePosition { lo: BASS_LOW_START, hi: MIDS_START, step: k as usize, count: BASS_LOW_BARS }
    } else if k <= (BASS_LOW_BARS + MIDS_BARS) as int {
        EdgePosition {
            lo: MIDS_START,
            hi: HIGH_START,
            step: (k - BASS_LOW_BARS as int) as usize,
            count: MIDS_BARS,
        }
    } else {
        EdgePosition {
            lo: HIGH_START,
            hi: HIGH_END,
            step: (k - (BASS_LOW_BARS + MIDS_BARS) as int) as usize,
            count: HIGH_BARS,
        }
    }
}

/// Position of edge `k` inside its region, for the caller that computes the
/// logarithmically spaced edge frequencies. `None` past the last edge.
pub fn edge_position(k: usize) -> (r: Option<EdgePosition>)
    ensures
        r.is_some() <==> k <= BAR_COUNT,
        r.is_some() ==> r.unwrap() == edge_position_spec(k as int),
{
    if k > BAR_COUNT {
        None
    } else if k <= BASS_LOW_BARS {
        Some(EdgePosition { lo: BASS_LOW_START, hi: MIDS_START, step: k, count: BASS_LOW_BARS })
    } else if k <= BASS_LOW_BARS + MIDS_BARS {
        Some(
            EdgePosition {
                lo: MIDS_START,
                hi: HIGH_START,
                step: k - BASS_LOW_BARS,
                count: MIDS_BARS,
            },
        )
    } else {
        Some(
            EdgePosition {
                lo: HIGH_START,
                hi: HIGH_END,
                step: k - (BASS_LOW_BARS + MIDS_BARS),
                count: HIGH_BARS,
            },
        )
    }
}

/// Every tilt factor is at most `TILT_LIMIT`.
pub proof fn lemma_band_tilt_bounded(i: int, center2: int)
    requires
        0 <= i < BAR_COUNT,
    ensures
        0 <= index_tilt(i) <= TILT_LIMIT,
        0 <= band_tilt(i, center2) <= index_tilt(i),
        band_tilt(i, center2) >= index_tilt(i) * 720 / 1000,
{
    let t = index_tilt(i);
    if BASS_LOW_BARS as int <= i < (BASS_LOW_BARS + MIDS_BARS) as int {
        let j = i - BASS_LOW_BARS as int;
        assert(0 <= (440 + 4 * j) * vocal_boost(j) * 1000 <= 612 * 1900 * 1000) by {
            lemma_mul_le(440 + 4 * j, vocal_boost(j), 612, 1900);
        }
    }
    let c = guitar_cut(center2);
    assert(0 <= t * c <= t * 1000) by {
        lemma_mul_le(t, c, t, 1000);
    }
}

/// The lift of the voice bands never falls as the band index rises.
pub proof fn lemma_vocal_boost_rises(a: int, b: int)
    requires
        0 <= a <= b < MIDS_BARS,
    ensures
        1000 <= vocal_boost(a) <= vocal_boost(b) <= 1900,
{
}

/// The part of the tilt that depends on the index alone rises with the
/// index, as long as both bands lie below the high region or both in it.
pub proof fn lemma_index_tilt_rises(i: int, j: int)
    requires
        0 <= i <= j < BAR_COUNT,
        j < BASS_LOW_BARS + MIDS_BARS || i >= BASS_LOW_BARS + MIDS_BARS,
    ensures
        index_tilt(i) <= index_tilt(j),
{
    let low = BASS_LOW_BARS as int;
    let mid = (BASS_LOW_BARS + MIDS_BARS) as int;
    if j < low || i >= mid {
    } else if i >= low {
        let a = i - low;
        let b = j - low;
        lemma_vocal_boost_rises(a, b);
        lemma_mul_le(440 + 4 * a, vocal_boost(a), 440 + 4 * b, vocal_boost(b));
        lemma_div_bounds(
            (440 + 4 * a) * vocal_boost(a) * 1000,
            (440 + 4 * b) * vocal_boost(b) * 1000,
            440,
        );
    } else {
        let b = j - low;
        lemma_vocal_boost_rises(0, b);
        lemma_mul_le(440, 1000, 440 + 4 * b, vocal_boost(b));
        lemma_div_bounds(440_000_000int, (440 + 4 * b) * vocal_boost(b) * 1000, 440);
    }
}

/// The tilt factor of band `i` whose edge frequencies add up to `center2`.
pub fn tilt_of(i: usize, center2: u128) -> (t: u64)
    requires
        i < BAR_COUNT,
    ensures
        t == band_tilt(i as int, center2 as int),
        t <= TILT_LIMIT,
{
    let base: u64 = if i < BASS_LOW_BARS {
        (220 + 15 * (i as u64)) * 1000
    } else if i < BASS_LOW_BARS + MIDS_BARS {
        let j: u64 = (i - BASS_LOW_BARS) as u64;
        let boost: u64 = if 28 <= j && j <= 43 {
            1900
        } else if 12 <= j && j <= 40 {
            1750
        } else {
            1000
        };
        assert((440 + 4 * j) * boost <= 612 * 1900) by {
            lemma_mul_le((440 + 4 * j) as int, boost as int, 612, 1900);
        }
        (440 + 4 * j) * boost * 1000 / 440
    } else {
        let j: u64 = (i - BASS_LOW_BARS - MIDS_BARS) as u64;
        (2400 + 220 * j) * 1000
    };
    let cut: u64 = if 2 * 180_000 <= center2 && center2 < 2 * 520_000 {
        720
    } else if 2 * 800_000 <= center2 && center2 < 2 * 4_200_000 {
        780
    } else {
        1000
    };
    proof {
        lemma_band_tilt_bounded(i as int, center2 as int);
        lemma_mul_le(base as int, cut as int, TILT_LIMIT as int, 1000);
    }
    base * cut / 1000
}

/// The bin that holds the frequency `freq`.
pub fn bin_index(freq: u64) -> (b: u128)
    ensures
        b == bin_of(freq as int),
{
    (freq as u128) * (FFT_SIZE as u128) / (SAMPLE_RATE as u128 * 1000)
}

/// The frequency at which bin `bin` starts, rounded down.
pub fn bin_frequency(bin: usize) -> (f: u128)
    ensures
        f == freq_of_bin(bin as int),
        f <= bin * 44_100_000,
{
    let rate: u128 = SAMPLE_RATE as u128 * 1000;
    assert(rate == 44_100_000);
    proof {
        lemma_mul_le(bin as int, rate as int, u64::MAX as int, 44_100_000);
    }
    (bin as u128) * rate / (FFT_SIZE as u128)
}

/// The table that maps each display band to its bins and its tilt factor.
pub struct BandLayout {
    bands: Vec<Band>,
}

impl View for BandLayout {
    type V = Seq<Band>;

    closed spec fn view(&self) -> Seq<Band> {
        self.bands@
    }
}

impl BandLayout {
    /// The layout holds one well-formed band for each display band.
    pub open spec fn wf(&self) -> bool {
        &&& self@.len() == BAR_COUNT
        &&& forall|i: int| 0 <= i < BAR_COUNT ==> band_wf(#[trigger] self@[i])
    }

    /// Builds the layout from the 65 band edges, given in thousandths of a
    /// hertz: band `i` runs from `edges[i]` to `edges[i + 1]`. Any other
    /// number of edges is refused.
    pub fn three_region(edges: &Vec<u64>) -> (r: Option<BandLayout>)
        ensures
            r.is_some() <==> edges@.len() == BAR_COUNT + 1,
            r.is_some() ==> r.unwrap().wf(),
            r.is_some() ==> forall|i: int|
                0 <= i < BAR_COUNT ==> #[trigger] r.unwrap()@[i] == band_from_edges(
                    i,
                    edges@[i] as int,
                    edges@[i + 1] as int,
                ),
    {
        if edges.len() != BAR_COUNT + 1 {
            return None;
        }
        let mut bands: Vec<Band> = Vec::new();
        let mut i: usize = 0;
        while i < BAR_COUNT
            invariant
                0 <= i <= BAR_COUNT,
                edges@.len() == BAR_COUNT + 1,
                bands@.len() == i,
                forall|k: int| 0 <= k < i ==> band_wf(#[trigger] bands@[k]),
                forall|k: int|
                    0 <= k < i ==> #[trigger] bands@[k] == band_from_edges(
                        k,
                        edges@[k] as int,
                        edges@[k + 1] as int,
                    ),
            decreases BAR_COUNT - i,
        {
            let f_start: u64 = edges[i];
            let f_end: u64 = edges[i + 1];
            let raw_start: u128 = bin_index(f_start);
            let raw_end: u128 = bin_index(f_end);
            let start: usize = if raw_start < (BINS - 1) as u128 {
                raw_start as usize
            } else {
                BINS - 1
            };
            let capped_end: usize = if raw_end < BINS as u128 {
                raw_end as usize
            } else {
                BINS
            };
            let end: usize = if capped_end > start + 1 {
                capped_end
            } else {
                start + 1
            };
            let tilt: u64 = tilt_of(i, f_start as u128 + f_end as u128);
            bands.push(Band { start, end, tilt });
            i += 1;
        }
        Some(BandLayout { bands })
    }

    /// Builds the layout in which every band holds the same number of bins.
    pub fn uniform() -> (r: BandLayout)
        ensures
            r.wf(),
            forall|i: int| 0 <= i < BAR_COUNT ==> #[trigger] r@[i] == uniform_band(i),
    {
        let mut bands: Vec<Band> = Vec::new();
        let mut i: usize = 0;
        while i < BAR_COUNT
            invariant
                0 <= i <= BAR_COUNT,
                bands@.len() == i,
                forall|k: int| 0 <= k < i ==> band_wf(#[trigger] bands@[k]),
                forall|k: int| 0 <= k < i ==> #[trigger] bands@[k] == uniform_band(k),
            decreases BAR_COUNT - i,
        {
            let start: usize = i * UNIFORM_WIDTH;
            let end: usize = (i + 1) * UNIFORM_WIDTH;
            let f_start: u128 = bin_frequency(start);
            let f_end: u128 = bin_frequency(end);
            let tilt: u64 = tilt_of(i, f_start + f_end);
            bands.push(Band { start, end, tilt });
            i += 1;
        }
        BandLayout { bands }
    }

    /// The band with index `i`.
    pub fn band(&self, i: usize) -> (b: Band)
        requires
            i < self@.len(),
        ensures
            b == self@[i as int],
    {
        self.bands[i]
    }

    /// The number of bands in the table.
    pub fn len(&self) -> (n: usize)
        ensures
            n == self@.len(),
    {
        self.bands.len()
    }
}

} // verus!
