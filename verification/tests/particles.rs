use audio_visualizer::particles::{Emission, Frame, ParticleField, Point, Projectile};

fn frame(decelerate: bool, by_distance: bool) -> Frame {
    Frame { width: 800, height: 600, dt: 16_667, decelerate, by_distance }
}

fn state(p: &Projectile) -> (i64, i64, i64, i64, usize) {
    (p.x(), p.y(), p.dx(), p.dy(), p.trail().len())
}

fn flight(dir_x: i32, dir_y: i32, decelerate: bool, by_distance: bool) -> Vec<(i64, i64, i64, i64, usize)> {
    let mut field = ParticleField::new();
    let mut history = Vec::new();
    let mut emissions = vec![Emission { dir_x, dir_y, peak: 500_000 }];
    for _ in 0..2000 {
        field.step(frame(decelerate, by_distance), &emissions);
        emissions.clear();
        if field.len() == 0 {
            break;
        }
        assert_eq!(field.len(), 1);
        assert!(field.particles()[0].trail().len() <= 12);
        history.push(state(&field.particles()[0]));
    }
    assert_eq!(field.len(), 0);
    history
}

#[test]
fn flight_accelerating_by_time() {
    let history = flight(1000000, 0, false, false);
    assert_eq!(history.len(), 124);
    assert_eq!(history[0], (443000, 300000, 180000, 0, 1));
    assert_eq!(history[1], (446000, 300000, 180014, 0, 2));
    assert_eq!(history[2], (449000, 300000, 180051, 0, 3));
    assert_eq!(history[59], (633134, 300000, 220540, 0, 12));
    assert_eq!(history[123], (957716, 300000, 432182, 0, 12));
}

#[test]
fn flight_decelerating_by_time() {
    let history = flight(1000000, 0, true, false);
    assert_eq!(history.len(), 237);
    assert_eq!(history[0], (443000, 300000, 180000, 0, 1));
    assert_eq!(history[1], (445999, 300000, 179985, 0, 2));
    assert_eq!(history[2], (448998, 300000, 179947, 0, 3));
    assert_eq!(history[59], (608320, 300000, 146867, 0, 12));
    assert_eq!(history[236], (897604, 300000, 90000, 0, 12));
}

#[test]
fn flight_accelerating_by_distance() {
    let history = flight(707107, -707107, false, true);
    assert_eq!(history.len(), 146);
    assert_eq!(history[0], (430405, 269595, 127279, -127279, 1));
    assert_eq!(history[1], (432526, 267474, 127279, -127279, 2));
    assert_eq!(history[2], (434647, 265353, 127279, -127279, 3));
    assert_eq!(history[59], (555544, 144456, 127279, -127279, 12));
    assert_eq!(history[145], (850909, -150909, 366809, -366809, 12));
}

#[test]
fn flight_decelerating_by_distance() {
    let history = flight(707107, -707107, true, true);
    assert_eq!(history.len(), 239);
    assert_eq!(history[0], (430405, 269595, 127279, -127279, 1));
    assert_eq!(history[1], (432526, 267474, 127279, -127279, 2));
    assert_eq!(history[2], (434647, 265353, 127279, -127279, 3));
    assert_eq!(history[59], (555544, 144456, 127279, -127279, 12));
    assert_eq!(history[238], (791758, -91758, 63639, -63639, 12));
}

#[test]
fn flight_decelerating_downward_by_distance() {
    let history = flight(0, 1000000, true, true);
    assert_eq!(history.len(), 176);
    assert_eq!(history[0], (400000, 343000, 0, 180000, 1));
    assert_eq!(history[1], (400000, 346000, 0, 180000, 2));
    assert_eq!(history[2], (400000, 349000, 0, 180000, 3));
    assert_eq!(history[59], (400000, 513255, 0, 145123, 12));
    assert_eq!(history[175], (400000, 697543, 0, 90000, 12));
}

#[test]
fn flight_accelerating_down_left_by_distance() {
    let history = flight(-600000, 800000, false, true);
    assert_eq!(history.len(), 129);
    assert_eq!(history[0], (374200, 334400, -108000, 144000, 1));
    assert_eq!(history[1], (372400, 336800, -108000, 144000, 2));
    assert_eq!(history[2], (370600, 339200, -108000, 144000, 3));
    assert_eq!(history[59], (267902, 476133, -109469, 145961, 12));
    assert_eq!(history[128], (71899, 737490, -222210, 296297, 12));
}

#[test]
fn particle_at_rest_beyond_the_margin_is_removed_exactly_once() {
    let mut field = ParticleField::new();
    let shown = frame(false, false);
    field.step(shown, &vec![Emission { dir_x: 1_000_000, dir_y: 0, peak: 500_000 }]);
    for _ in 0..4 {
        field.step(shown, &Vec::new());
    }
    assert_eq!(field.len(), 1);
    let mut p = Projectile::emit(Emission { dir_x: 1_000_000, dir_y: 0, peak: 500_000 }, 800, 600, 0, 16_667);
    for i in 0..5u64 {
        assert!(p.advance(shown, 16_667 * (i + 1)));
    }
    assert_eq!(state(&p), state(&field.particles()[0]));
    p.place(-200_000, 300_000, 0, 0);
    let mut removals = 0;
    let mut alive = true;
    let mut frames = 0;
    for i in 5..40u64 {
        if alive {
            frames += 1;
            let stays = p.advance(shown, 16_667 * (i + 1));
            assert!(p.trail().len() <= 12);
            assert_eq!((p.x(), p.y(), p.dx(), p.dy()), (-200_000, 300_000, 0, 0));
            if !stays {
                removals += 1;
                alive = false;
            }
        }
    }
    assert_eq!(removals, 1);
    assert_eq!(frames, 12);
    assert_eq!(p.trail(), &vec![Point { x: -200_000, y: 300_000 }; 12]);
}

#[test]
fn particle_that_starts_out_of_sight_leaves_in_its_first_frame() {
    let mut p = Projectile::emit(Emission { dir_x: 0, dir_y: 0, peak: 500_000 }, 800, 600, 0, 0);
    assert_eq!((p.x(), p.y(), p.dx(), p.dy()), (400_000, 300_000, 0, 0));
    p.place(400_000, 680_001, 0, 0);
    assert!(p.is_out_of_sight(800, 600));
    assert!(!p.advance(frame(true, true), 16_667));
    p.place(400_000, 680_000, 0, 0);
    assert!(!p.is_out_of_sight(800, 600));
    p.place(-80_000, 0, 0, 0);
    assert!(!p.is_out_of_sight(800, 600));
    p.place(880_001, 0, 0, 0);
    assert!(!p.is_out_of_sight(800, 600));
}

#[test]
fn trail_holds_the_last_twelve_positions() {
    let mut p = Projectile::emit(Emission { dir_x: 0, dir_y: 0, peak: 0 }, 800, 600, 0, 0);
    for i in 0..30i64 {
        p.place(1000 * i, 2000 * i, 0, 0);
        assert!(p.advance(frame(false, false), 0));
        let kept = if i < 12 { i + 1 } else { 12 };
        assert_eq!(p.trail().len() as i64, kept);
        assert_eq!(p.trail()[p.trail().len() - 1], Point { x: 1000 * i, y: 2000 * i });
        assert_eq!(p.trail()[0], Point { x: 1000 * (i + 1 - kept), y: 2000 * (i + 1 - kept) });
    }
}

#[test]
fn emission_sets_position_speed_size_and_hue() {
    let mut field = ParticleField::new();
    field.spawn(Emission { dir_x: 1_000_000, dir_y: 0, peak: 500_000 }, 800, 600);
    field.spawn(Emission { dir_x: -500_000, dir_y: 866_025, peak: 1_000_000 }, 800, 600);
    field.spawn(Emission { dir_x: 0, dir_y: -1_000_000, peak: 20_000 }, 800, 600);
    assert_eq!(field.len(), 3);
    let p = &field.particles()[0];
    assert_eq!((p.x(), p.y(), p.dx(), p.dy()), (440_000, 300_000, 180_000, 0));
    assert_eq!((p.hue(), p.size(), p.birth_time(), p.trail().len()), (0, 4500, 0, 0));
    let q = &field.particles()[1];
    assert_eq!((q.x(), q.y(), q.dx(), q.dy()), (380_000, 334_641, -90_000, 155_884));
    assert_eq!((q.hue(), q.size()), (3000, 8000));
    let r = &field.particles()[2];
    assert_eq!((r.x(), r.y(), r.dx(), r.dy()), (400_000, 260_000, 0, -180_000));
    assert_eq!((r.hue(), r.size()), (6000, 1140));
    assert_eq!(field.rainbow_phase(), 9000);
}

#[test]
fn every_emission_sends_one_particle() {
    let mut field = ParticleField::new();
    field.spawn(Emission { dir_x: 1_000_000, dir_y: 0, peak: 20_000 }, 300, 300);
    assert_eq!(field.len(), 1);
    assert_eq!(field.rainbow_phase(), 3000);
    field.spawn(Emission { dir_x: 1_000_000, dir_y: 0, peak: 0 }, 800, 600);
    field.spawn(Emission { dir_x: 0, dir_y: 1_000_000, peak: 1_000_000 }, 80, 600);
    field.spawn(Emission { dir_x: -1_000_000, dir_y: 0, peak: u64::MAX }, 0, 0);
    assert_eq!(field.len(), 4);
    assert_eq!(field.rainbow_phase(), 12_000);
    let p = &field.particles()[0];
    assert_eq!((p.x(), p.y(), p.dx(), p.dy()), (190_000, 150_000, 180_000, 0));
    assert_eq!((p.hue(), p.size(), p.trail().len()), (0, 1140, 0));
    let q = &field.particles()[1];
    assert_eq!((q.x(), q.y(), q.hue(), q.size()), (440_000, 300_000, 3000, 1000));
    let r = &field.particles()[2];
    assert_eq!((r.x(), r.y(), r.dx(), r.dy()), (40_000, 340_000, 0, 180_000));
    assert_eq!((r.hue(), r.size()), (6000, 8000));
    let t = &field.particles()[3];
    assert_eq!((t.x(), t.y(), t.dx(), t.dy()), (-40_000, 0, -180_000, 0));
    assert_eq!((t.hue(), t.size()), (9000, 8000));
}

#[test]
fn one_frame_sends_one_particle_for_each_emission() {
    let mut field = ParticleField::new();
    let mut emissions = Vec::new();
    for k in 0..130u64 {
        emissions.push(Emission { dir_x: 0, dir_y: -1_000_000, peak: 10_000 * k });
    }
    field.step(frame(false, false), &emissions);
    assert_eq!(field.len(), 130);
    for k in 0..130usize {
        let p = &field.particles()[k];
        assert_eq!(p.hue(), (3000 * k as u32) % 360_000);
        assert_eq!(p.size() as u64, (1000 + 70 * k as u64).min(8000));
        assert_eq!(p.birth_time(), 16_667);
        assert_eq!(p.trail().len(), 1);
    }
    assert_eq!(field.rainbow_phase(), (130 * 3000 + 1500) % 360_000);
}

#[test]
fn unit_direction_starts_on_the_inner_circle_at_base_speed() {
    let along = |dir: i32, length: u32| audio_visualizer::particles::along(dir, length);
    assert_eq!(along(1_000_000, 40_000), 40_000);
    assert_eq!(along(-1_000_000, 180_000), -180_000);
    assert_eq!(along(707_107, 180_000), 127_279);
    assert_eq!(along(-707_107, 40_000), -28_284);
    assert_eq!(along(0, u32::MAX), 0);
    assert_eq!(along(i32::MIN, u32::MAX), -9_223_372_034_707);
    assert_eq!(along(i32::MAX, u32::MAX), 9_223_372_030_412);
    assert_eq!(along(1, 999_999), 0);
}

#[test]
fn hue_drifts_with_every_frame_and_wraps() {
    let mut field = ParticleField::new();
    let e = Emission { dir_x: 1_000_000, dir_y: 0, peak: 500_000 };
    field.step(frame(false, false), &vec![e, e]);
    assert_eq!(field.rainbow_phase(), 7500);
    assert_eq!(field.particles()[0].hue(), 0);
    assert_eq!(field.particles()[1].hue(), 3000);
    assert_eq!(field.game_time(), 16_667);
    for _ in 0..235 {
        field.step(frame(false, false), &Vec::new());
    }
    assert_eq!(field.rainbow_phase(), 0);
    assert_eq!(field.game_time(), 16_667 * 236);
}

#[test]
fn clear_removes_every_particle() {
    let mut field = ParticleField::new();
    let e = Emission { dir_x: 1_000_000, dir_y: 0, peak: 500_000 };
    field.step(frame(false, false), &vec![e, e, e]);
    assert_eq!(field.len(), 3);
    field.clear();
    assert_eq!(field.len(), 0);
    assert_eq!(field.rainbow_phase(), 10_500);
    assert_eq!(field.game_time(), 16_667);
}

#[test]
fn survivors_keep_their_order() {
    let mut field = ParticleField::new();
    let slow = Frame { width: 1600, height: 200, dt: 100_000, decelerate: false, by_distance: false };
    let right = Emission { dir_x: 1_000_000, dir_y: 0, peak: 300_000 };
    let down = Emission { dir_x: 0, dir_y: 1_000_000, peak: 600_000 };
    let left = Emission { dir_x: -1_000_000, dir_y: 0, peak: 900_000 };
    field.step(slow, &vec![right, down, left]);
    let mut sizes: Vec<u32> = field.particles().iter().map(|p| p.size()).collect();
    assert_eq!(sizes, vec![3100, 5200, 7300]);
    let mut frames = 0;
    while field.len() == 3 {
        field.step(slow, &Vec::new());
        frames += 1;
        assert!(frames < 100);
    }
    sizes = field.particles().iter().map(|p| p.size()).collect();
    assert_eq!(sizes, vec![3100, 7300]);
}
