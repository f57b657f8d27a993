use audio_visualizer::controls::{
    emission_angle, nearest_level, next_speed, speed_of_level, wrap_angle, Controls, Key,
};

#[test]
fn ladder_has_twenty_one_levels_nine_degrees_apart() {
    assert_eq!(speed_of_level(0), -90_000);
    assert_eq!(speed_of_level(9), -9000);
    assert_eq!(speed_of_level(10), 0);
    assert_eq!(speed_of_level(11), 9000);
    assert_eq!(speed_of_level(20), 90_000);
}

#[test]
fn nearest_level_prefers_the_lower_of_two() {
    assert_eq!(nearest_level(0), 10);
    assert_eq!(nearest_level(4499), 10);
    assert_eq!(nearest_level(4500), 10);
    assert_eq!(nearest_level(4501), 11);
    assert_eq!(nearest_level(-4500), 9);
    assert_eq!(nearest_level(-4499), 10);
    assert_eq!(nearest_level(i32::MAX), 20);
    assert_eq!(nearest_level(i32::MIN), 0);
}

#[test]
fn next_speed_steps_along_the_ladder() {
    assert_eq!(next_speed(0, 1), 9000);
    assert_eq!(next_speed(0, -1), -9000);
    assert_eq!(next_speed(9000, 1), 18_000);
    assert_eq!(next_speed(81_000, 1), 90_000);
    assert_eq!(next_speed(27_000, -3), 0);
    assert_eq!(next_speed(13_000, 0), 9000);
    assert_eq!(next_speed(14_000, 0), 18_000);
}

#[test]
fn next_speed_stops_at_both_ends() {
    assert_eq!(next_speed(90_000, 1), 90_000);
    assert_eq!(next_speed(-90_000, -1), -90_000);
    assert_eq!(next_speed(0, i32::MAX), 90_000);
    assert_eq!(next_speed(0, i32::MIN), -90_000);
    assert_eq!(next_speed(i32::MAX, i32::MAX), 90_000);
}

#[test]
fn every_level_steps_to_its_neighbours() {
    for k in 0..21usize {
        let here = speed_of_level(k);
        assert_eq!(nearest_level(here), k);
        let up = if k == 20 { here } else { speed_of_level(k + 1) };
        let down = if k == 0 { here } else { speed_of_level(k - 1) };
        assert_eq!(next_speed(here, 1), up);
        assert_eq!(next_speed(here, -1), down);
        assert_eq!(next_speed(here, 0), here);
    }
}

#[test]
fn angles_wrap_into_one_turn() {
    assert_eq!(wrap_angle(0), 0);
    assert_eq!(wrap_angle(360_000_000), 0);
    assert_eq!(wrap_angle(359_999_999), 359_999_999);
    assert_eq!(wrap_angle(-1), 359_999_999);
    assert_eq!(wrap_angle(-360_000_000), 0);
    assert_eq!(wrap_angle(-720_000_001), 359_999_999);
    assert_eq!(wrap_angle(725_000_000), 5_000_000);
}

#[test]
fn bands_send_their_particles_from_the_middle_of_their_slot() {
    assert_eq!(emission_angle(0, 0), 317_812_500);
    assert_eq!(emission_angle(7, 0), 357_187_500);
    assert_eq!(emission_angle(8, 0), 2_812_500);
    assert_eq!(emission_angle(63, 0), 312_187_500);
    assert_eq!(emission_angle(0, 45_000_000), 2_812_500);
    assert_eq!(emission_angle(0, -360_000_000), 317_812_500);
    assert_eq!(emission_angle(16, i64::MAX), emission_angle(16, i64::MAX % 360_000_000));
}

#[test]
fn keys_switch_the_modes() {
    let mut c = Controls::new();
    assert_eq!(
        c,
        Controls {
            rotating: false,
            rotation_speed: 0,
            circle_rotation: 0,
            decelerate: false,
            by_distance: false
        }
    );
    c.press(Key::Deceleration);
    assert!(c.decelerate);
    c.press(Key::Policy);
    assert!(c.by_distance);
    c.press(Key::Deceleration);
    c.press(Key::Policy);
    assert_eq!(c, Controls::new());
}

#[test]
fn speed_keys_count_only_while_the_circle_rotates() {
    let mut c = Controls::new();
    c.press(Key::Faster);
    c.press(Key::Slower);
    c.press(Key::Slower);
    assert_eq!(c, Controls::new());
    c.press(Key::Rotation);
    assert!(c.rotating);
    c.press(Key::Faster);
    c.press(Key::Faster);
    assert_eq!(c.rotation_speed, 18_000);
    c.press(Key::Slower);
    c.press(Key::Slower);
    c.press(Key::Slower);
    assert_eq!(c.rotation_speed, -9000);
    for _ in 0..30 {
        c.press(Key::Slower);
    }
    assert_eq!(c.rotation_speed, -90_000);
}

#[test]
fn circle_turns_while_rotating_and_goes_back_when_switched_off() {
    let mut c = Controls::new();
    c.turn(1_000_000);
    assert_eq!(c.circle_rotation, 0);
    c.press(Key::Rotation);
    c.press(Key::Faster);
    c.turn(1_000_000);
    assert_eq!(c.circle_rotation, 9_000_000);
    c.turn(16_667);
    assert_eq!(c.circle_rotation, 9_150_003);
    for _ in 0..39 {
        c.turn(1_000_000);
    }
    assert_eq!(c.circle_rotation, 150_003);
    c.press(Key::Slower);
    c.press(Key::Slower);
    c.turn(1_000_000);
    assert_eq!(c.circle_rotation, 351_150_003);
    c.press(Key::Rotation);
    assert!(!c.rotating);
    assert_eq!(c.circle_rotation, 0);
    assert_eq!(c.rotation_speed, -9000);
    c.turn(1_000_000);
    assert_eq!(c.circle_rotation, 0);
}
