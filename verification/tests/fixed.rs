use audio_visualizer::fixed::{clamp_symmetric, div_toward_zero, isqrt, mul_wide};
use audio_visualizer::spectrum::{magnitude_of_band, max_in_range, sum_in_range};

#[test]
fn square_root_rounds_down() {
    assert_eq!(isqrt(0), 0);
    assert_eq!(isqrt(1), 1);
    assert_eq!(isqrt(3), 1);
    assert_eq!(isqrt(4), 2);
    assert_eq!(isqrt(99), 9);
    assert_eq!(isqrt(100), 10);
    assert_eq!(isqrt(1_000_000_000_000_000_000_000_000_000_000), 1_000_000_000_000_000);
    assert_eq!(isqrt(u128::MAX), u64::MAX);
}

#[test]
fn division_rounds_toward_zero() {
    assert_eq!(div_toward_zero(7, 2), 3);
    assert_eq!(div_toward_zero(-7, 2), -3);
    assert_eq!(div_toward_zero(-1, 2), 0);
    assert_eq!(div_toward_zero(0, 5), 0);
    assert_eq!(div_toward_zero(-10, 5), -2);
}

#[test]
fn wide_product_and_clamp() {
    assert_eq!(mul_wide(u64::MAX, u64::MAX), 340_282_366_920_938_463_426_481_119_284_349_108_225);
    assert_eq!(mul_wide(0, u64::MAX), 0);
    assert_eq!(clamp_symmetric(5, 10), 5);
    assert_eq!(clamp_symmetric(-11, 10), -10);
    assert_eq!(clamp_symmetric(i128::MAX, 10), 10);
    assert_eq!(clamp_symmetric(i128::MIN, 0), 0);
}

#[test]
fn levels_of_a_run_of_bins() {
    let spectrum: Vec<u64> = vec![5, 1, 9, 3, 0, 7];
    assert_eq!(max_in_range(&spectrum, 0, 6), 9);
    assert_eq!(max_in_range(&spectrum, 3, 5), 3);
    assert_eq!(max_in_range(&spectrum, 2, 2), 0);
    assert_eq!(sum_in_range(&spectrum, 0, 6), 25);
    assert_eq!(sum_in_range(&spectrum, 4, 5), 0);
    assert_eq!(sum_in_range(&vec![u64::MAX; 3], 0, 3), 3 * (u64::MAX as u128));
}

#[test]
fn band_magnitude_blends_the_largest_bin_and_the_mean() {
    let spectrum: Vec<u64> = vec![5, 1, 9, 3, 0, 7];
    assert_eq!(magnitude_of_band(&spectrum, 0, 6), 6);
    assert_eq!(magnitude_of_band(&spectrum, 2, 3), 9);
    assert_eq!(magnitude_of_band(&spectrum, 0, 2), 3);
    assert_eq!(magnitude_of_band(&vec![1000, 0, 0, 0], 0, 4), 550);
    assert_eq!(magnitude_of_band(&vec![u64::MAX; 4], 0, 4), u64::MAX);
}
