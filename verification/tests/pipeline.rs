use audio_visualizer::analyzer::VisualizerState;
use audio_visualizer::bands::{edge_position, BandLayout};
use audio_visualizer::frames::FrameAssembler;
use audio_visualizer::levels::normalized;
use rustfft::num_complex::Complex;
use rustfft::FftPlanner;

fn spectrum_of(window: &[i32]) -> Vec<u64> {
    let n = window.len();
    let mut planner = FftPlanner::<f32>::new();
    let fft = planner.plan_fft_forward(n);
    let mut buffer: Vec<Complex<f32>> = Vec::new();
    for (i, &s) in window.iter().enumerate() {
        let hann = 0.5 * (1.0 - (2.0 * std::f32::consts::PI * i as f32 / (n - 1) as f32).cos());
        buffer.push(Complex::new(s as f32 / 1e6 * hann, 0.0));
    }
    fft.process(&mut buffer);
    buffer[..n / 2].iter().map(|c| (c.norm() as f64 * 1e6).round() as u64).collect()
}

fn log_layout() -> BandLayout {
    let mut edges = Vec::new();
    for k in 0..=64usize {
        let p = edge_position(k).unwrap();
        let lo = p.lo as f64;
        let hi = p.hi as f64;
        edges.push((lo * (hi / lo).powf(p.step as f64 / p.count as f64)).round() as u64);
    }
    BandLayout::three_region(&edges).unwrap()
}

fn sine(frequency: f32, amplitude: f32) -> Vec<i32> {
    let mut window = Vec::new();
    for i in 0..2048 {
        let s = amplitude * (2.0 * std::f32::consts::PI * frequency * i as f32 / 44100.0).sin();
        window.push((s * 1e6).round() as i32);
    }
    window
}

fn band_of_bin(layout: &BandLayout, bin: usize) -> usize {
    for i in 0..64 {
        if layout.band(i).start <= bin && bin < layout.band(i).end {
            return i;
        }
    }
    panic!("no band holds bin {}", bin);
}

#[test]
fn silent_window_has_a_silent_spectrum_and_moves_nothing() {
    let spectrum = spectrum_of(&vec![0; 2048]);
    assert_eq!(spectrum, vec![0u64; 1024]);
    let mut st = VisualizerState::new(log_layout());
    for _ in 0..100 {
        st.update(&spectrum);
        st.tick_cooldowns();
        st.decay_peaks();
        assert_eq!(st.bar_heights(), &vec![0u64; 64]);
        assert!(st.peak_fired().is_empty());
    }
}

#[test]
fn single_loud_sample_makes_a_band_fire_and_cooldown_holds() {
    let mut window = vec![0; 2048];
    window[1024] = 1_000_000;
    let spectrum = spectrum_of(&window);
    let mut st = VisualizerState::new(log_layout());
    let mut first_fire: Option<usize> = None;
    let mut last_fire: Vec<Option<usize>> = vec![None; 64];
    for frame in 0..200usize {
        st.update(&spectrum);
        for band in st.take_fired() {
            if first_fire.is_none() {
                first_fire = Some(frame);
            }
            if let Some(earlier) = last_fire[band] {
                assert!(frame - earlier >= 8);
            }
            last_fire[band] = Some(frame);
        }
        st.tick_cooldowns();
        st.decay_peaks();
        for i in 0..64 {
            assert!(st.bar_heights()[i] <= 1_000_000);
            assert!(st.peak_heights()[i] <= 1_000_000);
            assert!(st.peak_heights()[i] >= st.bar_heights()[i]);
        }
    }
    assert_eq!(first_fire, Some(0));
}

#[test]
fn sine_at_440_hertz_lifts_its_band_highest() {
    let layout = log_layout();
    let band = band_of_bin(&layout, 440 * 2048 / 44100);
    assert_eq!(band, 9);
    let spectrum = spectrum_of(&sine(440.0, 0.5));
    let mut st = VisualizerState::new(layout);
    for _ in 0..60 {
        st.update(&spectrum);
        st.tick_cooldowns();
        st.decay_peaks();
    }
    let bars = st.bar_heights();
    for i in 0..64 {
        assert!(bars[i] <= bars[band]);
    }
    assert_eq!(bars[band], 999_996);
    assert!(bars[0] < bars[band]);
    assert!(bars[20] < bars[band]);
    assert!(bars[63] < bars[band]);
}

#[test]
fn quiet_sine_at_440_hertz_lifts_its_band_strictly_highest() {
    let layout = log_layout();
    let spectrum = spectrum_of(&sine(440.0, 0.0001));
    let mut st = VisualizerState::new(layout);
    for _ in 0..60 {
        st.update(&spectrum);
        st.tick_cooldowns();
        st.decay_peaks();
    }
    let bars = st.bar_heights();
    assert!(bars[9] > 0);
    assert!(bars[9] < 1_000_000);
    for i in 0..64 {
        if i != 9 {
            assert!(bars[i] < bars[9]);
        }
    }
}

#[test]
fn chunks_of_a_sine_flow_through_the_whole_pipeline() {
    let mut assembler = FrameAssembler::new(2048).unwrap();
    let mut st = VisualizerState::new(log_layout());
    let mut windows = 0;
    let mut phase = 0usize;
    for round in 0..64usize {
        let mut chunk = Vec::new();
        for _ in 0..(300 + 17 * round) {
            let t = phase as f32 / 44100.0;
            let left = 0.002 * (2.0 * std::f32::consts::PI * 2000.0 * t).sin();
            chunk.push((left * 1e6).round() as i32);
            chunk.push((left * 1e6).round() as i32);
            phase += 1;
        }
        for window in assembler.push(&chunk, 2) {
            assert_eq!(window.len(), 2048);
            let level = normalized(&window);
            st.update(&spectrum_of(&level));
            windows += 1;
        }
        st.tick_cooldowns();
        st.decay_peaks();
    }
    assert_eq!(windows, (64 * 300 + 17 * (63 * 64 / 2)) / 2048);
    let bars = st.bar_heights();
    let band = band_of_bin(&log_layout(), 2000 * 2048 / 44100);
    for i in 0..64 {
        assert!(bars[i] <= bars[band]);
        assert!(bars[i] <= 1_000_000);
    }
    assert!(bars[band] > 500_000);
}
