//! What holds of the analyzer over whole runs: every height stays in
//! `[0, 1]`, silence lets the bars sink to zero without any event, a band
//! that fired stays silent for a full cooldown, and a reset analyzer
//! behaves like a fresh one.

use vstd::prelude::*;
use crate::analyzer::{
    band_target,
    cleared_spec,
    decay_spec,
    fired_bands,
    fresh_state,
    layout_wf,
    lemma_band_step,
    lemma_fired_bands,
    lemma_target_height,
    lemma_track_gain,
    next_estimate,
    reset_spec,
    state_wf,
    step_of,
    tick_spec,
    update_spec,
    AnalyzerState,
    BandStep,
    BASS_CUTOFF_BIN,
    COOLDOWN_TICKS,
    PEAK_HYSTERESIS,
};
use crate::bands::{band_wf, Band, BAR_COUNT, BINS};
use crate::fixed::UNIT;
use crate::spectrum::{lemma_band_magnitude, lemma_range_max, lemma_silent_range};

verus! {

/// One thing that happens to the analyzer.
pub enum Step {
    /// The spectrum of one analysis window is taken in.
    Window(Seq<u64>),
    /// One frame of cooldown passes.
    Tick,
    /// One frame of peak release passes.
    Release,
    /// The pending events are taken.
    Take,
}

/// The state after one step.
pub open spec fn apply(s: AnalyzerState, layout: Seq<Band>, step: Step) -> AnalyzerState {
    match step {
        Step::Window(spectrum) => update_spec(s, layout, spectrum),
        Step::Tick => tick_spec(s),
        Step::Release => decay_spec(s),
        Step::Take => cleared_spec(s),
    }
}

/// The state after a run of steps.
pub open spec fn run(s: AnalyzerState, layout: Seq<Band>, steps: Seq<Step>) -> AnalyzerState
    decreases steps.len(),
{
    if steps.len() == 0 {
        s
    } else {
        apply(run(s, layout, steps.drop_last()), layout, steps.last())
    }
}

/// The number of cooldown frames in a run of steps.
pub open spec fn ticks_in(steps: Seq<Step>) -> int
    decreases steps.len(),
{
    if steps.len() == 0 {
        0
    } else {
        ticks_in(steps.drop_last()) + if steps.last() is Tick {
            1int
        } else {
            0int
        }
    }
}

/// Whether `step`, taken in state `s`, makes band `i` fire.
pub open spec fn fires(s: AnalyzerState, layout: Seq<Band>, step: Step, i: int) -> bool {
    match step {
        Step::Window(spectrum) => spectrum.len() >= BINS && step_of(
            s,
            layout,
            spectrum,
            next_estimate(s, spectrum),
            i,
        ).fired,
        _ => false,
    }
}

/// How often band `i` fires during a run of steps that starts in state `s`.
pub open spec fn fire_count(s: AnalyzerState, layout: Seq<Band>, steps: Seq<Step>, i: int) -> int
    decreases steps.len(),
{
    if steps.len() == 0 {
        0
    } else {
        fire_count(s, layout, steps.drop_last(), i) + if fires(
            run(s, layout, steps.drop_last()),
            layout,
            steps.last(),
            i,
        ) {
            1int
        } else {
            0int
        }
    }
}

/// Every bin that the analyzer reads is silent.
pub open spec fn silent(spectrum: Seq<u64>) -> bool {
    &&& spectrum.len() >= BINS
    &&& forall|k: int| 0 <= k < BINS ==> #[trigger] spectrum[k] == 0
}

/// The state after `n` silent windows.
pub open spec fn after_silence(s: AnalyzerState, layout: Seq<Band>, spectrum: Seq<u64>, n: nat)
    -> AnalyzerState
    decreases n,
{
    if n == 0 {
        s
    } else {
        update_spec(after_silence(s, layout, spectrum, (n - 1) as nat), layout, spectrum)
    }
}

/// The highest bar that `n` silent windows can leave.
pub open spec fn silence_bound(n: nat) -> int
    decreases n,
{
    if n == 0 {
        UNIT as int
    } else {
        silence_bound((n - 1) as nat) * 800 / 1000
    }
}

/// The level that a window gives to a band lies in `[0, 1]`.
pub proof fn lemma_band_target_in_range(spectrum: Seq<u64>, band: Band, estimate: int)
    requires
        spectrum.len() >= BINS,
        band_wf(band),
        estimate >= 1,
    ensures
        0 <= band_target(spectrum, band, estimate) <= UNIT,
{
    lemma_band_magnitude(spectrum, band.start as int, band.end as int);
    lemma_target_height(
        band_magnitude_of(spectrum, band),
        estimate,
        band.tilt as int,
    );
}

/// The magnitude that `spectrum` has in `band`.
pub open spec fn band_magnitude_of(spectrum: Seq<u64>, band: Band) -> int {
    crate::spectrum::band_magnitude(spectrum, band.start as int, band.end as int)
}

/// What a window does to a band leaves bar and peak in `[0, 1]` and the
/// counter in the range of its type.
pub open spec fn in_range(step: BandStep) -> bool {
    &&& 0 <= step.bar <= UNIT
    &&& 0 <= step.peak <= UNIT
    &&& 0 <= step.cooldown <= u8::MAX
}

/// A window leaves the values of every band of a well-formed state in
/// range.
pub proof fn lemma_step_of_in_range(
    s: AnalyzerState,
    layout: Seq<Band>,
    spectrum: Seq<u64>,
    estimate: int,
    i: int,
)
    requires
        state_wf(s),
        layout_wf(layout),
        spectrum.len() >= BINS,
        estimate >= 1,
        0 <= i < BAR_COUNT,
    ensures
        in_range(step_of(s, layout, spectrum, estimate, i)),
{
    lemma_band_target_in_range(spectrum, layout[i], estimate);
    lemma_band_step(
        i,
        s.bar_heights[i] as int,
        s.peak_heights[i] as int,
        s.fire_cooldown[i] as int,
        band_target(spectrum, layout[i], estimate),
    );
}

/// A window keeps every bar height and every peak height in `[0, 1]`, the
/// gain estimate positive, and every event a valid band.
pub proof fn lemma_update_keeps_wf(s: AnalyzerState, layout: Seq<Band>, spectrum: Seq<u64>)
    requires
        state_wf(s),
        layout_wf(layout),
    ensures
        state_wf(update_spec(s, layout, spectrum)),
{
    if spectrum.len() >= BINS {
        let estimate = next_estimate(s, spectrum);
        lemma_range_max(spectrum, BASS_CUTOFF_BIN as int, BINS as int);
        lemma_track_gain(
            s.peak_magnitude as int,
            crate::spectrum::range_max(spectrum, BASS_CUTOFF_BIN as int, BINS as int),
        );
        let t = update_spec(s, layout, spectrum);
        assert forall|i: int| 0 <= i < BAR_COUNT implies in_range(
            #[trigger] step_of(s, layout, spectrum, estimate, i),
        ) by {
            lemma_step_of_in_range(s, layout, spectrum, estimate, i);
        }
        assert forall|i: int| 0 <= i < BAR_COUNT implies #[trigger] t.bar_heights[i] <= UNIT by {
            assert(in_range(step_of(s, layout, spectrum, estimate, i)));
        }
        assert forall|i: int| 0 <= i < BAR_COUNT implies #[trigger] t.peak_heights[i] <= UNIT by {
            assert(in_range(step_of(s, layout, spectrum, estimate, i)));
        }
        lemma_fired_bands(s, layout, spectrum, estimate, BAR_COUNT as int);
        let added = fired_bands(s, layout, spectrum, estimate, BAR_COUNT as int);
        assert forall|k: int| 0 <= k < t.peak_fired.len() implies #[trigger] t.peak_fired[k]
            < BAR_COUNT by {
            if k >= s.peak_fired.len() {
                assert(t.peak_fired[k] == added[k - s.peak_fired.len()]);
            }
        }
    }
}

/// Every step keeps every bar height and every peak height in `[0, 1]`.
pub proof fn lemma_step_keeps_wf(s: AnalyzerState, layout: Seq<Band>, step: Step)
    requires
        state_wf(s),
        layout_wf(layout),
    ensures
        state_wf(apply(s, layout, step)),
{
    match step {
        Step::Window(spectrum) => {
            lemma_update_keeps_wf(s, layout, spectrum);
        },
        Step::Tick => {},
        Step::Release => {},
        Step::Take => {},
    }
}

/// After any run of steps every bar height and every peak height lies in
/// `[0, 1]`.
pub proof fn lemma_heights_stay_in_range(s: AnalyzerState, layout: Seq<Band>, steps: Seq<Step>)
    requires
        state_wf(s),
        layout_wf(layout),
    ensures
        state_wf(run(s, layout, steps)),
        forall|i: int|
            0 <= i < BAR_COUNT ==> #[trigger] run(s, layout, steps).bar_heights[i] <= UNIT,
        forall|i: int|
            0 <= i < BAR_COUNT ==> #[trigger] run(s, layout, steps).peak_heights[i] <= UNIT,
    decreases steps.len(),
{
    if steps.len() > 0 {
        lemma_heights_stay_in_range(s, layout, steps.drop_last());
        lemma_step_keeps_wf(run(s, layout, steps.drop_last()), layout, steps.last());
    }
}

/// A silent window drives every band toward level 0.
pub proof fn lemma_silent_target(spectrum: Seq<u64>, band: Band, estimate: int)
    requires
        silent(spectrum),
        band_wf(band),
        estimate >= 1,
    ensures
        band_target(spectrum, band, estimate) == 0,
{
    lemma_silent_range(spectrum, band.start as int, band.end as int);
    assert(band_magnitude_of(spectrum, band) == 0) by {
        let n = band.end as int - band.start as int;
        assert(4 * 0 * n + 6 * 0 == 0) by (nonlinear_arith);
        assert(0int / (10 * n) == 0) by (nonlinear_arith)
            requires
                n > 0,
        ;
    }
    lemma_target_height(0, estimate, band.tilt as int);
}

/// A silent window lowers every bar to four fifths of its height, rounded
/// down, leaves every peak and every counter as it was, and fires no event.
pub proof fn lemma_silence_lowers_bars(s: AnalyzerState, layout: Seq<Band>, spectrum: Seq<u64>)
    requires
        state_wf(s),
        layout_wf(layout),
        silent(spectrum),
    ensures
        state_wf(update_spec(s, layout, spectrum)),
        forall|i: int|
            0 <= i < BAR_COUNT ==> #[trigger] update_spec(s, layout, spectrum).bar_heights[i]
                == s.bar_heights[i] * 800 / 1000,
        forall|i: int|
            0 <= i < BAR_COUNT && s.bar_heights[i] > 0 ==> #[trigger] update_spec(
                s,
                layout,
                spectrum,
            ).bar_heights[i] < s.bar_heights[i],
        update_spec(s, layout, spectrum).peak_heights == s.peak_heights,
        update_spec(s, layout, spectrum).fire_cooldown == s.fire_cooldown,
        update_spec(s, layout, spectrum).peak_fired == s.peak_fired,
{
    lemma_update_keeps_wf(s, layout, spectrum);
    let estimate = next_estimate(s, spectrum);
    lemma_range_max(spectrum, BASS_CUTOFF_BIN as int, BINS as int);
    lemma_track_gain(
        s.peak_magnitude as int,
        crate::spectrum::range_max(spectrum, BASS_CUTOFF_BIN as int, BINS as int),
    );
    let t = update_spec(s, layout, spectrum);
    assert forall|i: int| 0 <= i < BAR_COUNT implies band_target(spectrum, #[trigger] layout[i], estimate)
        == 0 by {
        lemma_silent_target(spectrum, layout[i], estimate);
    }
    assert forall|i: int| 0 <= i < BAR_COUNT implies !(#[trigger] step_of(
        s,
        layout,
        spectrum,
        estimate,
        i,
    )).fired by {
        assert(band_target(spectrum, layout[i], estimate) == 0);
    }
    lemma_no_band_fires(s, layout, spectrum, estimate, BAR_COUNT as int);
    assert(t.peak_heights =~= s.peak_heights) by {
        assert forall|i: int| 0 <= i < BAR_COUNT implies t.peak_heights[i] == s.peak_heights[i] by {
            assert(band_target(spectrum, layout[i], estimate) == 0);
        }
    }
    assert(t.fire_cooldown =~= s.fire_cooldown) by {
        assert forall|i: int| 0 <= i < BAR_COUNT implies t.fire_cooldown[i] == s.fire_cooldown[i] by {
            assert(band_target(spectrum, layout[i], estimate) == 0);
        }
    }
    assert(t.peak_fired =~= s.peak_fired);
    assert forall|i: int| 0 <= i < BAR_COUNT implies #[trigger] t.bar_heights[i] == s.bar_heights[i]
        * 800 / 1000 by {
        assert(band_target(spectrum, layout[i], estimate) == 0);
    }
}

/// Where no band below `n` fires, the list of fired bands is empty.
pub proof fn lemma_no_band_fires(
    s: AnalyzerState,
    layout: Seq<Band>,
    spectrum: Seq<u64>,
    estimate: int,
    n: int,
)
    requires
        0 <= n <= BAR_COUNT,
        forall|i: int| 0 <= i < n ==> !(#[trigger] step_of(s, layout, spectrum, estimate, i)).fired,
    ensures
        fired_bands(s, layout, spectrum, estimate, n) == Seq::<usize>::empty(),
    decreases n,
{
    if n > 0 {
        lemma_no_band_fires(s, layout, spectrum, estimate, n - 1);
        assert(!step_of(s, layout, spectrum, estimate, n - 1).fired);
    }
}

/// The bound on the bars under silence never rises, and is never negative.
pub proof fn lemma_silence_bound_sinks(n: nat)
    ensures
        0 <= silence_bound(n + 1) <= silence_bound(n) <= UNIT,
    decreases n,
{
    if n > 0 {
        lemma_silence_bound_sinks((n - 1) as nat);
    }
    assert(silence_bound(n + 1) == silence_bound(n) * 800 / 1000);
}

/// After 58 silent windows the bound on the bars is zero, and it stays zero.
pub proof fn lemma_silence_bound_reaches_zero(n: nat)
    requires
        n >= 58,
    ensures
        silence_bound(n) == 0,
    decreases n,
{
    if n == 58 {
        assert(silence_bound(0) == 1000000);
        assert(silence_bound(1) == 800000);
        assert(silence_bound(2) == 640000);
        assert(silence_bound(3) == 512000);
        assert(silence_bound(4) == 409600);
        assert(silence_bound(5) == 327680);
        assert(silence_bound(6) == 262144);
        assert(silence_bound(7) == 209715);
        assert(silence_bound(8) == 167772);
        assert(silence_bound(9) == 134217);
        assert(silence_bound(10) == 107373);
        assert(silence_bound(11) == 85898);
        assert(silence_bound(12) == 68718);
        assert(silence_bound(13) == 54974);
        assert(silence_bound(14) == 43979);
        assert(silence_bound(15) == 35183);
        assert(silence_bound(16) == 28146);
        assert(silence_bound(17) == 22516);
        assert(silence_bound(18) == 18012);
        assert(silence_bound(19) == 14409);
        assert(silence_bound(20) == 11527);
        assert(silence_bound(21) == 9221);
        assert(silence_bound(22) == 7376);
        assert(silence_bound(23) == 5900);
        assert(silence_bound(24) == 4720);
        assert(silence_bound(25) == 3776);
        assert(silence_bound(26) == 3020);
        assert(silence_bound(27) == 2416);
        assert(silence_bound(28) == 1932);
        assert(silence_bound(29) == 1545);
        assert(silence_bound(30) == 1236);
        assert(silence_bound(31) == 988);
        assert(silence_bound(32) == 790);
        assert(silence_bound(33) == 632);
        assert(silence_bound(34) == 505);
        assert(silence_bound(35) == 404);
        assert(silence_bound(36) == 323);
        assert(silence_bound(37) == 258);
        assert(silence_bound(38) == 206);
        assert(silence_bound(39) == 164);
        assert(silence_bound(40) == 131);
        assert(silence_bound(41) == 104);
        assert(silence_bound(42) == 83);
        assert(silence_bound(43) == 66);
        assert(silence_bound(44) == 52);
        assert(silence_bound(45) == 41);
        assert(silence_bound(46) == 32);
        assert(silence_bound(47) == 25);
        assert(silence_bound(48) == 20);
        assert(silence_bound(49) == 16);
        assert(silence_bound(50) == 12);
        assert(silence_bound(51) == 9);
        assert(silence_bound(52) == 7);
        assert(silence_bound(53) == 5);
        assert(silence_bound(54) == 4);
        assert(silence_bound(55) == 3);
        assert(silence_bound(56) == 2);
        assert(silence_bound(57) == 1);
        assert(silence_bound(58) == 0);
    } else {
        lemma_silence_bound_reaches_zero((n - 1) as nat);
    }
}

/// Silence drives the bars toward zero: after `n` silent windows no bar is
/// above `silence_bound(n)`, and no event was added.
pub proof fn lemma_silence_drives_bars_down(
    s: AnalyzerState,
    layout: Seq<Band>,
    spectrum: Seq<u64>,
    n: nat,
)
    requires
        state_wf(s),
        layout_wf(layout),
        silent(spectrum),
    ensures
        state_wf(after_silence(s, layout, spectrum, n)),
        forall|i: int|
            0 <= i < BAR_COUNT ==> #[trigger] after_silence(s, layout, spectrum, n).bar_heights[i]
                <= silence_bound(n),
        forall|i: int|
            0 <= i < BAR_COUNT ==> #[trigger] after_silence(s, layout, spectrum, n).bar_heights[i]
                <= s.bar_heights[i],
        after_silence(s, layout, spectrum, n).peak_fired == s.peak_fired,
    decreases n,
{
    if n > 0 {
        let before = after_silence(s, layout, spectrum, (n - 1) as nat);
        lemma_silence_drives_bars_down(s, layout, spectrum, (n - 1) as nat);
        lemma_silence_lowers_bars(before, layout, spectrum);
        let after = update_spec(before, layout, spectrum);
        assert forall|i: int| 0 <= i < BAR_COUNT implies #[trigger] after.bar_heights[i]
            <= silence_bound(n) && after.bar_heights[i] <= s.bar_heights[i] by {
            assert(before.bar_heights[i] <= silence_bound((n - 1) as nat));
            assert(after.bar_heights[i] == before.bar_heights[i] * 800 / 1000);
        }
    }
}

/// After 58 silent windows, or more, every bar is at zero.
pub proof fn lemma_silence_ends_at_zero(
    s: AnalyzerState,
    layout: Seq<Band>,
    spectrum: Seq<u64>,
    n: nat,
)
    requires
        state_wf(s),
        layout_wf(layout),
        silent(spectrum),
        n >= 58,
    ensures
        forall|i: int|
            0 <= i < BAR_COUNT ==> #[trigger] after_silence(s, layout, spectrum, n).bar_heights[i]
                == 0,
{
    lemma_silence_drives_bars_down(s, layout, spectrum, n);
    lemma_silence_bound_reaches_zero(n);
}

/// A step changes the counter of a band in one of three ways: a firing sets
/// it to the full cooldown, a cooldown frame takes one from a counter above
/// zero, and everything else leaves it alone. A band fires only from zero.
pub proof fn lemma_step_counter(s: AnalyzerState, layout: Seq<Band>, step: Step, i: int)
    requires
        state_wf(s),
        layout_wf(layout),
        0 <= i < BAR_COUNT,
    ensures
        fires(s, layout, step, i) ==> s.fire_cooldown[i] == 0 && apply(
            s,
            layout,
            step,
        ).fire_cooldown[i] == COOLDOWN_TICKS,
        !fires(s, layout, step, i) && step is Tick && s.fire_cooldown[i] > 0 ==> apply(
            s,
            layout,
            step,
        ).fire_cooldown[i] == s.fire_cooldown[i] - 1,
        !fires(s, layout, step, i) && !(step is Tick && s.fire_cooldown[i] > 0) ==> apply(
            s,
            layout,
            step,
        ).fire_cooldown[i] == s.fire_cooldown[i],
{
    match step {
        Step::Window(spectrum) => {
            if spectrum.len() >= BINS {
                let estimate = next_estimate(s, spectrum);
                lemma_range_max(spectrum, BASS_CUTOFF_BIN as int, BINS as int);
                lemma_track_gain(
                    s.peak_magnitude as int,
                    crate::spectrum::range_max(spectrum, BASS_CUTOFF_BIN as int, BINS as int),
                );
                lemma_band_target_in_range(spectrum, layout[i], estimate);
                lemma_band_step(
                    i,
                    s.bar_heights[i] as int,
                    s.peak_heights[i] as int,
                    s.fire_cooldown[i] as int,
                    band_target(spectrum, layout[i], estimate),
                );
            }
        },
        Step::Tick => {},
        Step::Release => {},
        Step::Take => {},
    }
}

/// While fewer cooldown frames have passed than the counter of a band
/// holds, the band does not fire, whatever the windows bring, and its
/// counter has lost exactly the frames that passed.
pub proof fn lemma_cooling_band_stays_silent(
    s: AnalyzerState,
    layout: Seq<Band>,
    steps: Seq<Step>,
    i: int,
)
    requires
        state_wf(s),
        layout_wf(layout),
        0 <= i < BAR_COUNT,
        ticks_in(steps) < s.fire_cooldown[i],
    ensures
        fire_count(s, layout, steps, i) == 0,
        run(s, layout, steps).fire_cooldown[i] == s.fire_cooldown[i] - ticks_in(steps),
    decreases steps.len(),
{
    if steps.len() > 0 {
        let before = run(s, layout, steps.drop_last());
        assert(ticks_in(steps.drop_last()) <= ticks_in(steps));
        lemma_cooling_band_stays_silent(s, layout, steps.drop_last(), i);
        lemma_heights_stay_in_range(s, layout, steps.drop_last());
        lemma_step_counter(before, layout, steps.last(), i);
    }
}

/// A band never fires twice within its cooldown: after a window on which
/// band `i` fired, the band does not fire again before `COOLDOWN_TICKS`
/// cooldown frames have passed.
pub proof fn lemma_no_refire_within_cooldown(
    s: AnalyzerState,
    layout: Seq<Band>,
    spectrum: Seq<u64>,
    steps: Seq<Step>,
    i: int,
)
    requires
        state_wf(s),
        layout_wf(layout),
        0 <= i < BAR_COUNT,
        fires(s, layout, Step::Window(spectrum), i),
        ticks_in(steps) < COOLDOWN_TICKS,
    ensures
        fire_count(update_spec(s, layout, spectrum), layout, steps, i) == 0,
{
    lemma_step_counter(s, layout, Step::Window(spectrum), i);
    lemma_update_keeps_wf(s, layout, spectrum);
    lemma_cooling_band_stays_silent(update_spec(s, layout, spectrum), layout, steps, i);
}

/// On a fresh analyzer a band fires as soon as a window drives it past
/// the hysteresis margin.
pub proof fn lemma_fresh_band_fires(layout: Seq<Band>, spectrum: Seq<u64>, i: int)
    requires
        layout_wf(layout),
        spectrum.len() >= BINS,
        0 <= i < BAR_COUNT,
        band_target(spectrum, layout[i], next_estimate(fresh_state(), spectrum))
            > PEAK_HYSTERESIS,
    ensures
        fires(fresh_state(), layout, Step::Window(spectrum), i),
        update_spec(fresh_state(), layout, spectrum).fire_cooldown[i] == COOLDOWN_TICKS,
{
    let estimate = next_estimate(fresh_state(), spectrum);
    lemma_range_max(spectrum, BASS_CUTOFF_BIN as int, BINS as int);
    lemma_track_gain(
        fresh_state().peak_magnitude as int,
        crate::spectrum::range_max(spectrum, BASS_CUTOFF_BIN as int, BINS as int),
    );
    lemma_band_target_in_range(spectrum, layout[i], estimate);
}

/// A reset analyzer cannot be told from a fresh one: whatever state the
/// analyzer was in before the reset, after the same run of steps it is in
/// the state that a fresh analyzer over the same band table would be in.
pub proof fn lemma_reset_behaves_as_fresh(
    before: AnalyzerState,
    layout: Seq<Band>,
    steps: Seq<Step>,
)
    ensures
        run(reset_spec(before), layout, steps) == run(fresh_state(), layout, steps),
        state_wf(reset_spec(before)),
{
}

} // verus!
