use audio_visualizer::frames::{stereo_to_mono, FrameAssembler};

#[test]
fn downmix_of_opposite_channels_is_silent() {
    let chunk: Vec<i32> = vec![500_000, -500_000, -123, 123, 7, -7, 0, 0];
    let mono = stereo_to_mono(&chunk, 2);
    assert_eq!(mono, vec![0, 0, 0, 0]);
}

#[test]
fn downmix_of_opposite_floating_point_channels_has_no_energy() {
    let mut chunk: Vec<i32> = Vec::new();
    for i in 0..2048 {
        let x = 0.8 * (i as f32 * 0.05).sin();
        let a = (x * 1e6).round() as i32;
        let b = (-x * 1e6).round() as i32;
        chunk.push(a);
        chunk.push(b);
    }
    let mono = stereo_to_mono(&chunk, 2);
    assert_eq!(mono.len(), 2048);
    let mut energy = 0.0f64;
    for s in mono {
        let v = s as f64 / 1e6;
        energy += v * v;
    }
    assert!(energy < 1e-9);
}

#[test]
fn downmix_averages_each_frame() {
    let chunk: Vec<i32> = vec![10, 20, 30, 50, -3, -4];
    assert_eq!(stereo_to_mono(&chunk, 2), vec![15, 40, -3]);
    assert_eq!(stereo_to_mono(&chunk, 3), vec![20, 14]);
    assert_eq!(stereo_to_mono(&chunk, 6), vec![17]);
}

#[test]
fn downmix_rounds_toward_zero() {
    assert_eq!(stereo_to_mono(&vec![1, 2, -1, -2, 1, -2, 3, 4], 2), vec![1, -1, 0, 3]);
    assert_eq!(stereo_to_mono(&vec![-1, -1, -2], 3), vec![-1]);
    assert_eq!(stereo_to_mono(&vec![-1, -1, -3], 3), vec![-1]);
}

#[test]
fn downmix_with_one_channel_or_none_copies_the_chunk() {
    let chunk: Vec<i32> = vec![10, -20, 30];
    assert_eq!(stereo_to_mono(&chunk, 1), chunk);
    assert_eq!(stereo_to_mono(&chunk, 0), chunk);
    assert_eq!(stereo_to_mono(&Vec::new(), 2), Vec::<i32>::new());
}

#[test]
fn downmix_divides_a_short_last_frame_by_the_channel_count() {
    assert_eq!(stereo_to_mono(&vec![10, 20, 30], 2), vec![15, 15]);
    assert_eq!(stereo_to_mono(&vec![7, 8, 9, 100], 3), vec![8, 33]);
    assert_eq!(stereo_to_mono(&vec![9], 4), vec![2]);
}

#[test]
fn downmix_keeps_extreme_samples_in_range() {
    assert_eq!(stereo_to_mono(&vec![i32::MAX, i32::MAX], 2), vec![i32::MAX]);
    assert_eq!(stereo_to_mono(&vec![i32::MIN, i32::MIN], 2), vec![i32::MIN]);
    assert_eq!(stereo_to_mono(&vec![i32::MIN, i32::MAX], 2), vec![0]);
    assert_eq!(stereo_to_mono(&vec![i32::MAX, i32::MAX, i32::MAX, i32::MAX], 4), vec![i32::MAX]);
}

#[test]
fn assembler_refuses_an_empty_window() {
    assert!(FrameAssembler::new(0).is_none());
    assert!(FrameAssembler::new(1).is_some());
}

#[test]
fn assembler_starts_empty() {
    let a = FrameAssembler::new(2048).unwrap();
    assert_eq!(a.window_len(), 2048);
    assert_eq!(a.pending(), 0);
}

#[test]
fn assembler_cuts_windows_from_chunks_of_any_length() {
    let mut a = FrameAssembler::new(4).unwrap();
    assert_eq!(a.push(&vec![1, 2, 3], 1), Vec::<Vec<i32>>::new());
    assert_eq!(a.pending(), 3);
    assert_eq!(a.push(&vec![4, 5, 6, 7, 8, 9], 1), vec![vec![1, 2, 3, 4], vec![5, 6, 7, 8]]);
    assert_eq!(a.pending(), 1);
    assert_eq!(a.push(&Vec::new(), 1), Vec::<Vec<i32>>::new());
    assert_eq!(a.pending(), 1);
    assert_eq!(a.push(&vec![10, 11, 12], 1), vec![vec![9, 10, 11, 12]]);
    assert_eq!(a.pending(), 0);
    assert_eq!(a.push(&vec![13, 14, 15, 16], 1), vec![vec![13, 14, 15, 16]]);
    assert_eq!(a.pending(), 0);
}

#[test]
fn assembler_mixes_down_before_it_queues() {
    let mut a = FrameAssembler::new(3).unwrap();
    let windows = a.push(&vec![10, 30, -8, -2, 100, 0, 7, 7], 2);
    assert_eq!(windows, vec![vec![20, -5, 50]]);
    assert_eq!(a.pending(), 1);
    let windows = a.push(&vec![1, 1, 1, 2, 2, 2], 3);
    assert_eq!(windows, vec![vec![7, 1, 2]]);
    assert_eq!(a.pending(), 0);
}

#[test]
fn assembler_drops_no_sample() {
    let mut a = FrameAssembler::new(2048).unwrap();
    let mut sent: Vec<i32> = Vec::new();
    let mut received: Vec<i32> = Vec::new();
    let mut next = 0;
    for round in 0..200usize {
        let len = (round * 37) % 1500;
        let mut chunk = Vec::new();
        for _ in 0..len {
            chunk.push(next);
            sent.push(next);
            next += 1;
        }
        for window in a.push(&chunk, 1) {
            assert_eq!(window.len(), 2048);
            received.extend(window);
        }
        assert!(a.pending() < 2048);
        assert_eq!(received.len() + a.pending(), sent.len());
    }
    assert_eq!(received[..], sent[..received.len()]);
    assert!(received.len() >= 2048 * 60);
}

#[test]
fn assembler_with_windows_of_one_sample() {
    let mut a = FrameAssembler::new(1).unwrap();
    assert_eq!(a.push(&vec![5, 6, 7], 1), vec![vec![5], vec![6], vec![7]]);
    assert_eq!(a.pending(), 0);
}
