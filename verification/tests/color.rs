use audio_visualizer::color::{hsv_to_color, Rgb};

#[test]
fn primary_and_secondary_colours() {
    assert_eq!(hsv_to_color(0, 1000, 1000), Rgb { r: 1000, g: 0, b: 0 });
    assert_eq!(hsv_to_color(60_000, 1000, 1000), Rgb { r: 1000, g: 1000, b: 0 });
    assert_eq!(hsv_to_color(120_000, 1000, 1000), Rgb { r: 0, g: 1000, b: 0 });
    assert_eq!(hsv_to_color(180_000, 1000, 1000), Rgb { r: 0, g: 1000, b: 1000 });
    assert_eq!(hsv_to_color(240_000, 1000, 1000), Rgb { r: 0, g: 0, b: 1000 });
    assert_eq!(hsv_to_color(300_000, 1000, 1000), Rgb { r: 1000, g: 0, b: 1000 });
}

#[test]
fn colours_between_the_corners() {
    assert_eq!(hsv_to_color(30_000, 900, 1000), Rgb { r: 1000, g: 550, b: 100 });
    assert_eq!(hsv_to_color(90_000, 1000, 800), Rgb { r: 400, g: 800, b: 0 });
    assert_eq!(hsv_to_color(150_000, 500, 600), Rgb { r: 300, g: 600, b: 450 });
    assert_eq!(hsv_to_color(210_000, 950, 1000), Rgb { r: 50, g: 525, b: 1000 });
    assert_eq!(hsv_to_color(270_000, 1000, 1000), Rgb { r: 500, g: 0, b: 1000 });
    assert_eq!(hsv_to_color(359_999, 1000, 1000), Rgb { r: 1000, g: 0, b: 0 });
}

#[test]
fn hue_wraps_around_the_circle() {
    assert_eq!(hsv_to_color(-30_000, 900, 1000), Rgb { r: 1000, g: 100, b: 550 });
    assert_eq!(hsv_to_color(360_000, 1000, 1000), hsv_to_color(0, 1000, 1000));
    assert_eq!(hsv_to_color(750_000, 900, 1000), hsv_to_color(30_000, 900, 1000));
    assert_eq!(hsv_to_color(-690_000, 900, 1000), hsv_to_color(30_000, 900, 1000));
    assert_eq!(hsv_to_color(i64::MIN, 1000, 1000), hsv_to_color(i64::MIN % 360_000 + 360_000, 1000, 1000));
}

#[test]
fn grey_has_no_hue_and_too_much_counts_as_full() {
    assert_eq!(hsv_to_color(123_456, 0, 700), Rgb { r: 700, g: 700, b: 700 });
    assert_eq!(hsv_to_color(123_456, 1000, 0), Rgb { r: 0, g: 0, b: 0 });
    assert_eq!(hsv_to_color(0, 5000, 7000), Rgb { r: 1000, g: 0, b: 0 });
    assert_eq!(hsv_to_color(0, u32::MAX, u32::MAX), Rgb { r: 1000, g: 0, b: 0 });
}
