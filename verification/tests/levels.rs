use audio_visualizer::levels::{is_audible, normalized, peak_level};

#[test]
fn peak_is_the_loudest_sample() {
    assert_eq!(peak_level(&vec![100, -200, 50]), 200);
    assert_eq!(peak_level(&vec![0, 0]), 0);
    assert_eq!(peak_level(&Vec::new()), 0);
    assert_eq!(peak_level(&vec![i32::MIN, i32::MAX]), 2_147_483_648);
}

#[test]
fn quiet_window_is_scaled_by_the_largest_factor() {
    assert_eq!(normalized(&vec![100, -200, 50]), vec![100_000, -200_000, 50_000]);
    assert_eq!(normalized(&vec![400, -1]), vec![400_000, -1000]);
    assert_eq!(normalized(&vec![1]), vec![1000]);
}

#[test]
fn loud_window_is_scaled_to_the_normal_peak() {
    assert_eq!(normalized(&vec![500_000, -250_000, 1]), vec![400_000, -200_000, 0]);
    assert_eq!(normalized(&vec![401, -401, 200]), vec![400_000, -400_000, 199_501]);
    assert_eq!(normalized(&vec![i32::MIN, i32::MAX, 0]), vec![-400_000, 399_999, 0]);
}

#[test]
fn silence_stays_silence() {
    assert_eq!(normalized(&vec![0, 0, 0]), vec![0, 0, 0]);
    assert_eq!(normalized(&Vec::new()), Vec::<i32>::new());
}

#[test]
fn window_counts_as_sound_from_one_millionth() {
    assert!(!is_audible(&vec![0, 0]));
    assert!(!is_audible(&Vec::new()));
    assert!(is_audible(&vec![0, 1]));
    assert!(is_audible(&vec![-1]));
}
