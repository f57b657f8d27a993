//! The spectral analyzer and its transient detector.
//!
//! `VisualizerState` takes one magnitude spectrum per analysis window and
//! keeps, for each display band, a smoothed bar height, a peak-hold height
//! and a cooldown counter. A slowly moving estimate of the loudest recent
//! magnitude above the bass normalises the levels. A band whose level jumps
//! past its peak fires an event, at most once per cooldown period.

use vstd::prelude::*;
use crate::bands::{
    band_wf,
    bin_of,
    Band,
    BandLayout,
    BAR_COUNT,
    BASS_LOW_BARS,
    BINS,
    FFT_SIZE,
    SAMPLE_RATE,
    TILT_LIMIT,
};
use crate::fixed::{lemma_mul_le, max_int, min_int, UNIT};
use crate::spectrum::{
    band_magnitude,
    lemma_band_magnitude,
    lemma_range_max,
    magnitude_of_band,
    max_in_range,
    range_max,
};

verus! {

/// The frequency from which on bins count for the gain estimate, in
/// thousandths of a hertz: a loud bass must not hold down the treble.
pub const BASS_CUTOFF: u64 = 800_000;

/// First bin that counts for the gain estimate: the bin that holds the
/// cutoff frequency.
pub const BASS_CUTOFF_BIN: usize = 37;

/// The gain estimate of a fresh or reset analyzer, in millionths.
pub const GAIN_REST: u64 = 10_000;

/// The gain estimate at or below which the fallback gain applies.
pub const GAIN_FLOOR: u64 = 100;

/// The level that the loudest recent magnitude is mapped to, in millionths.
pub const TARGET_LEVEL: u64 = 210_000;

/// The gain used while the estimate is at or below its floor.
pub const FALLBACK_GAIN: u64 = 500;

/// Weight of the old estimate in the gain tracker, in thousandths.
pub const GAIN_KEEP: u64 = 995;

/// Weight of the old bar height in the smoothing filter, in thousandths.
pub const SMOOTHING: u64 = 800;

/// Weight of the old peak when a rising level pulls the peak up.
pub const PEAK_KEEP: u64 = 600;

/// A level must pass the peak by more than this to count as a rise.
pub const PEAK_HYSTERESIS: u64 = 50_000;

/// A rise is a transient if it passes the smoothed bar by more than this.
pub const TRANSIENT_MARGIN: u64 = 20_000;

/// Number of frames during which a band that fired stays silent.
pub const COOLDOWN_TICKS: u8 = 8;

/// Part of a peak that is left after one frame, for the low bands.
pub const PEAK_DECAY_LOW: u64 = 985;

/// Part of a peak that is left after one frame, for the other bands.
pub const PEAK_DECAY: u64 = 980;

/// What the analyzer remembers between windows.
pub struct AnalyzerState {
    pub bar_heights: Seq<u64>,
    pub peak_heights: Seq<u64>,
    pub fire_cooldown: Seq<u8>,
    pub peak_fired: Seq<usize>,
    pub peak_magnitude: u64,
}

/// What one window does to one band.
pub struct BandStep {
    pub bar: int,
    pub peak: int,
    pub cooldown: int,
    pub fired: bool,
}

/// The gain estimate after a window whose loudest magnitude above the bass
/// is `max_mag`. It never falls below one millionth.
pub open spec fn track_gain(estimate: int, max_mag: int) -> int {
    max_int(1, (estimate * GAIN_KEEP + max_mag * (1000 - GAIN_KEEP)) / 1000)
}

/// Numerator of the gain that belongs to a gain estimate.
pub open spec fn gain_num(estimate: int) -> int {
    if estimate > GAIN_FLOOR {
        TARGET_LEVEL as int
    } else {
        FALLBACK_GAIN as int
    }
}

/// Denominator of the gain that belongs to a gain estimate.
pub open spec fn gain_den(estimate: int) -> int {
    if estimate > GAIN_FLOOR {
        estimate
    } else {
        1
    }
}

/// The level a band is driven toward: its magnitude times gain and tilt,
/// limited to 1.0.
pub open spec fn target_height(mag: int, estimate: int, tilt: int) -> int {
    min_int(UNIT as int, mag * gain_num(estimate) * tilt / (gain_den(estimate) * UNIT))
}

/// The level that `spectrum` gives to `band` under a gain estimate.
pub open spec fn band_target(spectrum: Seq<u64>, band: Band, estimate: int) -> int {
    target_height(
        band_magnitude(spectrum, band.start as int, band.end as int),
        estimate,
        band.tilt as int,
    )
}

/// A bar height after one step of the smoothing filter.
pub open spec fn smooth(bar: int, target: int) -> int {
    (bar * SMOOTHING + target * (1000 - SMOOTHING)) / 1000
}

/// A peak after a rising level pulled it up.
pub open spec fn attack(peak: int, target: int) -> int {
    (peak * PEAK_KEEP + target * (1000 - PEAK_KEEP)) / 1000
}

/// A peak after one frame of release; it never sinks below the bar.
pub open spec fn decay(i: int, peak: int, bar: int) -> int {
    let kept = if i < BASS_LOW_BARS {
        peak * PEAK_DECAY_LOW / 1000
    } else {
        peak * PEAK_DECAY / 1000
    };
    max_int(kept, bar)
}

/// What a window that drives band `i` toward `target` does to the band.
pub open spec fn band_step(i: int, bar: int, peak: int, cooldown: int, target: int) -> BandStep {
    let new_bar = smooth(bar, target);
    if target > peak + PEAK_HYSTERESIS {
        let fired = cooldown == 0 && (target > new_bar + TRANSIENT_MARGIN || i < BASS_LOW_BARS);
        BandStep {
            bar: new_bar,
            peak: attack(peak, target),
            cooldown: if fired {
                COOLDOWN_TICKS as int
            } else {
                cooldown
            },
            fired,
        }
    } else {
        BandStep { bar: new_bar, peak, cooldown, fired: false }
    }
}

/// What a window with spectrum `spectrum` does to band `i` of state `s`.
pub open spec fn step_of(
    s: AnalyzerState,
    layout: Seq<Band>,
    spectrum: Seq<u64>,
    estimate: int,
    i: int,
) -> BandStep {
    band_step(
        i,
        s.bar_heights[i] as int,
        s.peak_heights[i] as int,
        s.fire_cooldown[i] as int,
        band_target(spectrum, layout[i], estimate),
    )
}

/// The bands below `n` that fire on a window, in rising order.
pub open spec fn fired_bands(
    s: AnalyzerState,
    layout: Seq<Band>,
    spectrum: Seq<u64>,
    estimate: int,
    n: int,
) -> Seq<usize>
    decreases n,
{
    if n <= 0 {
        Seq::empty()
    } else {
        let before = fired_bands(s, layout, spectrum, estimate, n - 1);
        if step_of(s, layout, spectrum, estimate, n - 1).fired {
            before.push((n - 1) as usize)
        } else {
            before
        }
    }
}

/// The gain estimate after a window with spectrum `spectrum`.
pub open spec fn next_estimate(s: AnalyzerState, spectrum: Seq<u64>) -> int {
    track_gain(s.peak_magnitude as int, range_max(spectrum, BASS_CUTOFF_BIN as int, BINS as int))
}

/// The state after a window with spectrum `spectrum`. A spectrum with fewer
/// bins than the analyzer uses changes nothing.
pub open spec fn update_spec(s: AnalyzerState, layout: Seq<Band>, spectrum: Seq<u64>)
    -> AnalyzerState {
    if spectrum.len() < BINS {
        s
    } else {
        let estimate = next_estimate(s, spectrum);
        AnalyzerState {
            bar_heights: Seq::new(
                BAR_COUNT as nat,
                |i: int| step_of(s, layout, spectrum, estimate, i).bar as u64,
            ),
            peak_heights: Seq::new(
                BAR_COUNT as nat,
                |i: int| step_of(s, layout, spectrum, estimate, i).peak as u64,
            ),
            fire_cooldown: Seq::new(
                BAR_COUNT as nat,
                |i: int| step_of(s, layout, spectrum, estimate, i).cooldown as u8,
            ),
            peak_fired: s.peak_fired + fired_bands(s, layout, spectrum, estimate, BAR_COUNT as int),
            peak_magnitude: estimate as u64,
        }
    }
}

/// The state of a fresh analyzer.
pub open spec fn fresh_state() -> AnalyzerState {
    AnalyzerState {
        bar_heights: Seq::new(BAR_COUNT as nat, |i: int| 0u64),
        peak_heights: Seq::new(BAR_COUNT as nat, |i: int| 0u64),
        fire_cooldown: Seq::new(BAR_COUNT as nat, |i: int| 0u8),
        peak_fired: Seq::empty(),
        peak_magnitude: GAIN_REST,
    }
}

/// The state after a reset: the state of a fresh analyzer, whatever the
/// state was.
pub open spec fn reset_spec(s: AnalyzerState) -> AnalyzerState {
    fresh_state()
}

/// The state after one frame of cooldown: every counter above zero loses one.
pub open spec fn tick_spec(s: AnalyzerState) -> AnalyzerState {
    AnalyzerState {
        fire_cooldown: Seq::new(
            s.fire_cooldown.len(),
            |i: int|
                if s.fire_cooldown[i] > 0 {
                    (s.fire_cooldown[i] - 1) as u8
                } else {
                    0u8
                },
        ),
        ..s
    }
}

/// The state after one frame of peak release.
pub open spec fn decay_spec(s: AnalyzerState) -> AnalyzerState {
    AnalyzerState {
        peak_heights: Seq::new(
            s.peak_heights.len(),
            |i: int| decay(i, s.peak_heights[i] as int, s.bar_heights[i] as int) as u64,
        ),
        ..s
    }
}

/// The state after the pending events were taken.
pub open spec fn cleared_spec(s: AnalyzerState) -> AnalyzerState {
    AnalyzerState { peak_fired: Seq::empty(), ..s }
}

/// Every band has its three values, every height lies in `[0, 1]`, the
/// gain estimate is positive, and every pending event names a band.
pub open spec fn state_wf(s: AnalyzerState) -> bool {
    &&& s.bar_heights.len() == BAR_COUNT
    &&& s.peak_heights.len() == BAR_COUNT
    &&& s.fire_cooldown.len() == BAR_COUNT
    &&& forall|i: int| 0 <= i < BAR_COUNT ==> #[trigger] s.bar_heights[i] <= UNIT
    &&& forall|i: int| 0 <= i < BAR_COUNT ==> #[trigger] s.peak_heights[i] <= UNIT
    &&& forall|k: int| 0 <= k < s.peak_fired.len() ==> #[trigger] s.peak_fired[k] < BAR_COUNT
    &&& s.peak_magnitude >= 1
}

/// Every peak is at least as high as the bar of its band.
pub open spec fn peaks_cover_bars(s: AnalyzerState) -> bool {
    forall|i: int| 0 <= i < BAR_COUNT ==> #[trigger] s.peak_heights[i] >= s.bar_heights[i]
}

/// The table holds one well-formed band for each display band.
pub open spec fn layout_wf(layout: Seq<Band>) -> bool {
    &&& layout.len() == BAR_COUNT
    &&& forall|i: int| 0 <= i < BAR_COUNT ==> band_wf(#[trigger] layout[i])
}

/// The first bin of the gain estimate is the bin of the cutoff frequency.
pub proof fn lemma_cutoff_bin()
    ensures
        BASS_CUTOFF_BIN == bin_of(BASS_CUTOFF as int),
        BASS_CUTOFF_BIN <= BINS,
{
    assert(BASS_CUTOFF as int * (FFT_SIZE as int) == 1_638_400_000) by (nonlinear_arith)
        requires
            BASS_CUTOFF == 800_000,
            FFT_SIZE == 2048,
    ;
    assert(SAMPLE_RATE as int * 1000 == 44_100_000);
}

/// The gain estimate stays positive and moves between its old value and
/// the loudest magnitude of the window.
pub proof fn lemma_track_gain(estimate: int, max_mag: int)
    requires
        1 <= estimate <= u64::MAX,
        0 <= max_mag <= u64::MAX,
    ensures
        1 <= track_gain(estimate, max_mag) <= u64::MAX,
        track_gain(estimate, max_mag) <= max_int(estimate, max_mag),
        track_gain(estimate, max_mag) >= min_int(estimate, max_int(1, max_mag)),
{
}

/// A target level lies in `[0, 1]`, and a silent band has target level 0.
pub proof fn lemma_target_height(mag: int, estimate: int, tilt: int)
    requires
        0 <= mag,
        1 <= estimate,
        0 <= tilt,
    ensures
        0 <= target_height(mag, estimate, tilt) <= UNIT,
        mag == 0 ==> target_height(mag, estimate, tilt) == 0,
{
    let num = gain_num(estimate);
    let den = gain_den(estimate) * UNIT;
    assert(0 <= mag * num) by {
        lemma_mul_le(0, 0, mag, num);
    }
    assert(0 <= mag * num * tilt) by {
        lemma_mul_le(0, 0, mag * num, tilt);
    }
    assert(den > 0) by (nonlinear_arith)
        requires
            den == gain_den(estimate) * UNIT,
            gain_den(estimate) >= 1,
    ;
    assert(mag * num * tilt / den >= 0) by (nonlinear_arith)
        requires
            mag * num * tilt >= 0,
            den > 0,
    ;
    if mag == 0 {
        assert(mag * num * tilt == 0) by (nonlinear_arith)
            requires
                mag == 0,
        ;
    }
}

/// One window keeps the values of a band in range, and a band fires only
/// from a counter of zero, which the firing sets to the full cooldown.
pub proof fn lemma_band_step(i: int, bar: int, peak: int, cooldown: int, target: int)
    requires
        0 <= bar <= UNIT,
        0 <= peak <= UNIT,
        0 <= cooldown <= u8::MAX,
        0 <= target <= UNIT,
    ensures
        0 <= band_step(i, bar, peak, cooldown, target).bar <= UNIT,
        0 <= band_step(i, bar, peak, cooldown, target).peak <= UNIT,
        0 <= band_step(i, bar, peak, cooldown, target).cooldown <= u8::MAX,
        band_step(i, bar, peak, cooldown, target).peak >= peak,
        band_step(i, bar, peak, cooldown, target).fired ==> cooldown == 0 && band_step(
            i,
            bar,
            peak,
            cooldown,
            target,
        ).cooldown == COOLDOWN_TICKS,
        !band_step(i, bar, peak, cooldown, target).fired ==> band_step(
            i,
            bar,
            peak,
            cooldown,
            target,
        ).cooldown == cooldown,
{
}

/// The bands that fire on a window are valid band indices, and there are at
/// most `n` of them below `n`.
pub proof fn lemma_fired_bands(
    s: AnalyzerState,
    layout: Seq<Band>,
    spectrum: Seq<u64>,
    estimate: int,
    n: int,
)
    requires
        0 <= n <= BAR_COUNT,
    ensures
        fired_bands(s, layout, spectrum, estimate, n).len() <= n,
        forall|k: int|
            0 <= k < fired_bands(s, layout, spectrum, estimate, n).len() ==> #[trigger] fired_bands(
                s,
                layout,
                spectrum,
                estimate,
                n,
            )[k] < n,
    decreases n,
{
    if n > 0 {
        lemma_fired_bands(s, layout, spectrum, estimate, n - 1);
    }
}

/// The level that `spectrum` gives to `band`, in `[0, 1]`.
pub fn target_of_band(spectrum: &Vec<u64>, band: Band, estimate: u64) -> (target: u64)
    requires
        band_wf(band),
        spectrum@.len() >= BINS,
        estimate >= 1,
    ensures
        target == band_target(spectrum@, band, estimate as int),
        target <= UNIT,
{
    let mag: u64 = magnitude_of_band(spectrum, band.start, band.end);
    let (num, den): (u64, u64) = if estimate > GAIN_FLOOR {
        (TARGET_LEVEL, estimate)
    } else {
        (FALLBACK_GAIN, 1)
    };
    proof {
        lemma_band_magnitude(spectrum@, band.start as int, band.end as int);
        lemma_target_height(mag as int, estimate as int, band.tilt as int);
        lemma_mul_le(mag as int, num as int, u64::MAX as int, TARGET_LEVEL as int);
        lemma_mul_le(
            mag as int * num as int,
            band.tilt as int,
            u64::MAX as int * TARGET_LEVEL as int,
            TILT_LIMIT as int,
        );
        lemma_mul_le(den as int, UNIT as int, u64::MAX as int, UNIT as int);
    }
    let scaled: u128 = (mag as u128) * (num as u128) * (band.tilt as u128);
    let level: u128 = scaled / ((den as u128) * (UNIT as u128));
    if level > UNIT as u128 {
        UNIT
    } else {
        level as u64
    }
}

/// The analyzer: bar heights, peak-hold heights, cooldown counters, the
/// events that wait to be taken, and the gain estimate.
pub struct VisualizerState {
    bar_heights: Vec<u64>,
    peak_heights: Vec<u64>,
    peak_fired: Vec<usize>,
    fire_cooldown: Vec<u8>,
    peak_magnitude: u64,
    layout: BandLayout,
}

impl View for VisualizerState {
    type V = AnalyzerState;

    closed spec fn view(&self) -> AnalyzerState {
        AnalyzerState {
            bar_heights: self.bar_heights@,
            peak_heights: self.peak_heights@,
            fire_cooldown: self.fire_cooldown@,
            peak_fired: self.peak_fired@,
            peak_magnitude: self.peak_magnitude,
        }
    }
}

impl VisualizerState {
    /// The band table that was given when the analyzer was built.
    pub closed spec fn layout(&self) -> Seq<Band> {
        self.layout@
    }

    /// The analyzer holds a well-formed state and a well-formed band table.
    pub open spec fn wf(&self) -> bool {
        &&& state_wf(self@)
        &&& layout_wf(self.layout())
    }

    /// A fresh analyzer over the band table `layout`: all heights and
    /// counters at zero, no event pending, the gain estimate at rest.
    pub fn new(layout: BandLayout) -> (r: VisualizerState)
        requires
            layout.wf(),
        ensures
            r.wf(),
            r@ == fresh_state(),
            r.layout() == layout@,
    {
        let r = VisualizerState {
            bar_heights: vec![0u64; BAR_COUNT],
            peak_heights: vec![0u64; BAR_COUNT],
            peak_fired: Vec::new(),
            fire_cooldown: vec![0u8; BAR_COUNT],
            peak_magnitude: GAIN_REST,
            layout,
        };
        assert(r@.bar_heights =~= fresh_state().bar_heights);
        assert(r@.peak_heights =~= fresh_state().peak_heights);
        assert(r@.fire_cooldown =~= fresh_state().fire_cooldown);
        r
    }

    /// Takes in the magnitude spectrum of one analysis window: moves the
    /// gain estimate, drives every bar toward its new level, pulls up the
    /// peaks that the level passed and records the bands that fire. A
    /// spectrum with fewer than `BINS` bins is skipped.
    pub fn update(&mut self, spectrum: &Vec<u64>)
        requires
            old(self).wf(),
        ensures
            final(self).wf(),
            final(self).layout() == old(self).layout(),
            final(self)@ == update_spec(old(self)@, old(self).layout(), spectrum@),
    {
        if spectrum.len() < BINS {
            return ;
        }
        let ghost s0 = self@;
        let ghost layout = self.layout();
        let max_mag: u64 = max_in_range(spectrum, BASS_CUTOFF_BIN, BINS);
        proof {
            lemma_cutoff_bin();
            lemma_range_max(spectrum@, BASS_CUTOFF_BIN as int, BINS as int);
            lemma_track_gain(self.peak_magnitude as int, max_mag as int);
        }
        let blended: u128 = ((self.peak_magnitude as u128) * (GAIN_KEEP as u128) + (max_mag as u128) * (
            1000 - GAIN_KEEP as u128
        )) / 1000;
        let estimate: u64 = if blended < 1 {
            1
        } else {
            blended as u64
        };
        assert(estimate == next_estimate(s0, spectrum@));
        self.peak_magnitude = estimate;
        let mut i: usize = 0;
        while i < BAR_COUNT
            invariant
                0 <= i <= BAR_COUNT,
                spectrum@.len() >= BINS,
                state_wf(s0),
                layout_wf(layout),
                self.layout() == layout,
                estimate >= 1,
                self.peak_magnitude == estimate,
                self.bar_heights@.len() == BAR_COUNT,
                self.peak_heights@.len() == BAR_COUNT,
                self.fire_cooldown@.len() == BAR_COUNT,
                forall|k: int|
                    0 <= k < i ==> #[trigger] self.bar_heights@[k] == step_of(
                        s0,
                        layout,
                        spectrum@,
                        estimate as int,
                        k,
                    ).bar,
                forall|k: int|
                    0 <= k < i ==> #[trigger] self.peak_heights@[k] == step_of(
                        s0,
                        layout,
                        spectrum@,
                        estimate as int,
                        k,
                    ).peak,
                forall|k: int|
                    0 <= k < i ==> #[trigger] self.fire_cooldown@[k] == step_of(
                        s0,
                        layout,
                        spectrum@,
                        estimate as int,
                        k,
                    ).cooldown,
                forall|k: int| i <= k < BAR_COUNT ==> self.bar_heights@[k] == s0.bar_heights[k],
                forall|k: int| i <= k < BAR_COUNT ==> self.peak_heights@[k] == s0.peak_heights[k],
                forall|k: int| i <= k < BAR_COUNT ==> self.fire_cooldown@[k] == s0.fire_cooldown[k],
                forall|k: int| 0 <= k < BAR_COUNT ==> #[trigger] self.bar_heights@[k] <= UNIT,
                forall|k: int| 0 <= k < BAR_COUNT ==> #[trigger] self.peak_heights@[k] <= UNIT,
                self.peak_fired@ == s0.peak_fired + fired_bands(
                    s0,
                    layout,
                    spectrum@,
                    estimate as int,
                    i as int,
                ),
            decreases BAR_COUNT - i,
        {
            let band: Band = self.layout.band(i);
            let target: u64 = target_of_band(spectrum, band, estimate);
            let bar: u64 = self.bar_heights[i];
            let peak: u64 = self.peak_heights[i];
            let cooldown: u8 = self.fire_cooldown[i];
            proof {
                lemma_band_step(i as int, bar as int, peak as int, cooldown as int, target as int);
            }
            let new_bar: u64 = (bar * SMOOTHING + target * (1000 - SMOOTHING)) / 1000;
            self.bar_heights.set(i, new_bar);
            if target > peak + PEAK_HYSTERESIS {
                self.peak_heights.set(i, (peak * PEAK_KEEP + target * (1000 - PEAK_KEEP)) / 1000);
                let is_transient: bool = target > new_bar + TRANSIENT_MARGIN;
                let is_bass: bool = i < BASS_LOW_BARS;
                if cooldown == 0 && (is_transient || is_bass) {
                    self.peak_fired.push(i);
                    self.fire_cooldown.set(i, COOLDOWN_TICKS);
                }
            }
            i += 1;
        }
        proof {
            let goal = update_spec(s0, layout, spectrum@);
            lemma_fired_bands(s0, layout, spectrum@, estimate as int, BAR_COUNT as int);
            assert(self@.bar_heights =~= goal.bar_heights);
            assert(self@.peak_heights =~= goal.peak_heights);
            assert(self@.fire_cooldown =~= goal.fire_cooldown);
            assert(self@.peak_fired =~= goal.peak_fired);
        }
    }

    /// Back to the state of a fresh analyzer; the band table stays.
    pub fn reset_bars(&mut self)
        requires
            old(self).wf(),
        ensures
            final(self).wf(),
            final(self).layout() == old(self).layout(),
            final(self)@ == reset_spec(old(self)@),
    {
        self.bar_heights = vec![0u64; BAR_COUNT];
        self.peak_heights = vec![0u64; BAR_COUNT];
        self.peak_fired.clear();
        self.fire_cooldown = vec![0u8; BAR_COUNT];
        self.peak_magnitude = GAIN_REST;
        assert(self@.bar_heights =~= fresh_state().bar_heights);
        assert(self@.peak_heights =~= fresh_state().peak_heights);
        assert(self@.fire_cooldown =~= fresh_state().fire_cooldown);
    }

    /// One frame of cooldown: every counter above zero loses one.
    pub fn tick_cooldowns(&mut self)
        requires
            old(self).wf(),
        ensures
            final(self).wf(),
            final(self).layout() == old(self).layout(),
            final(self)@ == tick_spec(old(self)@),
    {
        let ghost s0 = self@;
        let mut i: usize = 0;
        while i < BAR_COUNT
            invariant
                0 <= i <= BAR_COUNT,
                state_wf(s0),
                self.layout() == old(self).layout(),
                self.fire_cooldown@.len() == BAR_COUNT,
                self.bar_heights@ == s0.bar_heights,
                self.peak_heights@ == s0.peak_heights,
                self.peak_fired@ == s0.peak_fired,
                self.peak_magnitude == s0.peak_magnitude,
                forall|k: int|
                    0 <= k < i ==> #[trigger] self.fire_cooldown@[k] == tick_spec(
                        s0,
                    ).fire_cooldown[k],
                forall|k: int| i <= k < BAR_COUNT ==> self.fire_cooldown@[k] == s0.fire_cooldown[k],
            decreases BAR_COUNT - i,
        {
            let c: u8 = self.fire_cooldown[i];
            if c > 0 {
                self.fire_cooldown.set(i, c - 1);
            }
            i += 1;
        }
        assert(self@.fire_cooldown =~= tick_spec(s0).fire_cooldown);
    }

    /// One frame of peak release: every peak keeps a fixed part of its
    /// height, a larger part in the low bands, and never sinks below its bar.
    pub fn decay_peaks(&mut self)
        requires
            old(self).wf(),
        ensures
            final(self).wf(),
            final(self).layout() == old(self).layout(),
            final(self)@ == decay_spec(old(self)@),
            peaks_cover_bars(final(self)@),
    {
        let ghost s0 = self@;
        let mut i: usize = 0;
        while i < BAR_COUNT
            invariant
                0 <= i <= BAR_COUNT,
                state_wf(s0),
                self.layout() == old(self).layout(),
                self.peak_heights@.len() == BAR_COUNT,
                self.bar_heights@ == s0.bar_heights,
                self.fire_cooldown@ == s0.fire_cooldown,
                self.peak_fired@ == s0.peak_fired,
                self.peak_magnitude == s0.peak_magnitude,
                forall|k: int|
                    0 <= k < i ==> #[trigger] self.peak_heights@[k] == decay_spec(
                        s0,
                    ).peak_heights[k],
                forall|k: int| i <= k < BAR_COUNT ==> self.peak_heights@[k] == s0.peak_heights[k],
                forall|k: int| 0 <= k < BAR_COUNT ==> #[trigger] self.peak_heights@[k] <= UNIT,
            decreases BAR_COUNT - i,
        {
            let peak: u64 = self.peak_heights[i];
            let bar: u64 = self.bar_heights[i];
            let kept: u64 = if i < BASS_LOW_BARS {
                peak * PEAK_DECAY_LOW / 1000
            } else {
                peak * PEAK_DECAY / 1000
            };
            if kept > bar {
                self.peak_heights.set(i, kept);
            } else {
                self.peak_heights.set(i, bar);
            }
            i += 1;
        }
        assert(self@.peak_heights =~= decay_spec(s0).peak_heights);
    }

    /// Hands out the events that wait, oldest first, and leaves none.
    pub fn take_fired(&mut self) -> (fired: Vec<usize>)
        requires
            old(self).wf(),
        ensures
            final(self).wf(),
            final(self).layout() == old(self).layout(),
            fired@ == old(self)@.peak_fired,
            final(self)@ == cleared_spec(old(self)@),
    {
        let mut fired: Vec<usize> = Vec::new();
        let n: usize = self.peak_fired.len();
        let mut k: usize = 0;
        while k < n
            invariant
                0 <= k <= n,
                n == self.peak_fired@.len(),
                fired@ == self.peak_fired@.subrange(0, k as int),
            decreases n - k,
        {
            fired.push(self.peak_fired[k]);
            k += 1;
            assert(fired@ =~= self.peak_fired@.subrange(0, k as int));
        }
        assert(fired@ =~= self.peak_fired@);
        self.peak_fired.clear();
        fired
    }

    /// The smoothed height of every band, in millionths.
    pub fn bar_heights(&self) -> (r: &Vec<u64>)
        ensures
            r@ == self@.bar_heights,
    {
        &self.bar_heights
    }

    /// The peak-hold height of every band, in millionths.
    pub fn peak_heights(&self) -> (r: &Vec<u64>)
        ensures
            r@ == self@.peak_heights,
    {
        &self.peak_heights
    }

    /// The bands that fired and were not taken yet, oldest first.
    pub fn peak_fired(&self) -> (r: &Vec<usize>)
        ensures
            r@ == self@.peak_fired,
    {
        &self.peak_fired
    }

    /// The cooldown counter of every band, in frames.
    pub fn fire_cooldown(&self) -> (r: &Vec<u8>)
        ensures
            r@ == self@.fire_cooldown,
    {
        &self.fire_cooldown
    }

    /// The gain estimate, in millionths.
    pub fn peak_magnitude(&self) -> (r: u64)
        ensures
            r == self@.peak_magnitude,
    {
        self.peak_magnitude
    }
}

} // verus!
