use orbitview::playback::System;
use orbitview::rng::lcg_step;

#[test]
fn load_counts_and_reference() {
    let data = b"1 2 3\n4 5 6 7 8 9\n".to_vec();
    let s = System::new(&data, 0);
    assert_eq!(s.planets.len(), 2);
    assert_eq!(s.planets[0].len(), 1);
    assert_eq!(s.planets[1].len(), 2);
    assert_eq!(s.num_planets, 2);
    assert_eq!(s.colors.len(), 2);
    assert_eq!(s.offset, 0);
    assert_eq!(s.interval_ms, 100);
}

#[test]
fn load_scale_from_reference_snapshot() {
    // The reference snapshot is the two-body one; its farther body is
    // (7, 8, 9), so the scale is 10 / sqrt(194).
    let data = b"1 2 3\n4 5 6 7 8 9\n".to_vec();
    let s = System::new(&data, 0);
    let scale = s.scale_num as f64 / s.scale_den as f64;
    let expected = 10.0 / (194.0f64).sqrt();
    assert!((scale - expected).abs() / expected < 1.0e-5);
}

#[test]
fn scale_applied_to_frame_positions() {
    let data = b"4 5 6\n".to_vec();
    let mut s = System::new(&data, 0);
    let (frame, count) = s.step(0);
    assert_eq!(count, 1);
    assert_eq!(frame.len(), 1);
    // Scaled onto a radius-10 shell: (4, 5, 6) * 10 / sqrt(77).
    let f = 10.0 / (77.0f64).sqrt();
    let x = frame[0].pos.x as f64 / 1.0e6;
    assert!((x - 4.0 * f).abs() < 1.0e-4);
    let z = frame[0].pos.z as f64 / 1.0e6;
    assert!((z - 6.0 * f).abs() < 1.0e-4);
}

#[test]
fn small_trajectories_are_not_rescaled() {
    // Maximum distance 0.005 is under the 0.01 threshold: scale stays one.
    let data = b"0.003 0.004 0\n".to_vec();
    let s = System::new(&data, 0);
    assert_eq!(s.scale_num, 1);
    assert_eq!(s.scale_den, 1);
}

#[test]
fn empty_input_fallback() {
    let s = System::new(&Vec::new(), 0);
    assert_eq!(s.planets.len(), 1);
    assert_eq!(s.planets[0].len(), 1);
    let b = s.planets[0][0];
    assert_eq!((b.x, b.y, b.z), (0, 0, 0));
    assert_eq!(s.num_planets, 1);
    assert_eq!(s.scale_num, 1);
    assert_eq!(s.scale_den, 1);
}

#[test]
fn blank_lines_keep_fallback_reference() {
    let data = b"\n\n".to_vec();
    let s = System::new(&data, 0);
    assert_eq!(s.planets.len(), 2);
    assert_eq!(s.planets[0].len(), 0);
    assert_eq!(s.num_planets, 1);
    assert_eq!(s.scale_num, 1);
}

#[test]
fn catch_up_stepping_carries_remainder() {
    let data = b"1 1 1\n1 1 1\n1 1 1\n1 1 1\n1 1 1\n".to_vec();
    let mut s = System::new(&data, 1000);
    // 250 ms elapse: two whole intervals, 50 ms left over.
    s.step(1250);
    assert_eq!(s.offset, 2);
    assert_eq!(s.last_update_ms, 1200);
    // Only 50 more ms are needed for the next advance, not 100.
    s.step(1300);
    assert_eq!(s.offset, 3);
    assert_eq!(s.last_update_ms, 1300);
    // 49 ms later nothing moves yet.
    s.step(1349);
    assert_eq!(s.offset, 3);
    assert_eq!(s.last_update_ms, 1300);
}

#[test]
fn same_instant_is_idempotent() {
    let data = b"1 1 1\n2 2 2\n3 3 3\n".to_vec();
    let mut s = System::new(&data, 500);
    s.step(750);
    let off = s.offset;
    let last = s.last_update_ms;
    let (frame1, _) = s.step(750);
    assert_eq!(s.offset, off);
    assert_eq!(s.last_update_ms, last);
    let (frame2, _) = s.step(750);
    assert_eq!(frame1, frame2);
}

#[test]
fn looping_wraps_to_start() {
    let data = b"1 1 1\n2 2 2\n3 3 3\n4 4 4\n5 5 5\n".to_vec();
    let mut s = System::new(&data, 0);
    // Advance by four whole intervals: cursor at the last snapshot.
    s.step(400);
    assert_eq!(s.offset, 4);
    // One more interval: past the end, wrapped to the start.
    s.step(500);
    assert_eq!(s.offset, 0);
    // A huge gap never leaves the trajectory and never panics.
    s.step(1_000_000_000);
    assert!(s.offset < 5);
}

#[test]
fn sparse_snapshot_draws_fewer_instances() {
    let data = b"1 2 3 4 5 6\n7 8 9\n".to_vec();
    let mut s = System::new(&data, 0);
    let (frame0, count0) = s.step(0);
    assert_eq!(count0, 2);
    assert_eq!(frame0.len(), 2);
    let (frame1, count1) = s.step(100);
    assert_eq!(s.offset, 1);
    assert_eq!(count1, 2);
    assert_eq!(frame1.len(), 1);
}

#[test]
fn body_colors_are_stable_lcg_bytes() {
    let data = b"1 2 3 4 5 6 7 8 9\n".to_vec();
    let s = System::new(&data, 0);
    assert_eq!(s.colors.len(), 3);
    for (i, c) in s.colors.iter().enumerate() {
        let state = lcg_step(i as u32);
        assert_eq!(c.r as u32, state % 256);
        assert_eq!(c.g as u32, (state / 256) % 256);
        assert_eq!(c.b as u32, (state / 65536) % 256);
        assert_eq!(c.a, 0);
    }
    // Two loads assign the same colors.
    let s2 = System::new(&data, 99);
    assert_eq!(s.colors, s2.colors);
    // Consecutive bodies do not all collapse to one color.
    assert_ne!(s.colors[0], s.colors[1]);
}

#[test]
fn frame_instances_carry_their_colors() {
    let data = b"1 2 3 4 5 6\n".to_vec();
    let mut s = System::new(&data, 0);
    let (frame, _) = s.step(0);
    assert_eq!(frame.len(), 2);
    assert_eq!(frame[0].color, s.colors[0]);
    assert_eq!(frame[1].color, s.colors[1]);
}

#[test]
fn speed_controls_halve_and_double() {
    let data = b"1 1 1\n".to_vec();
    let mut s = System::new(&data, 0);
    assert_eq!(s.interval_ms, 100);
    s.speed_up();
    assert_eq!(s.interval_ms, 50);
    s.slow_down();
    assert_eq!(s.interval_ms, 100);
    s.slow_down();
    assert_eq!(s.interval_ms, 200);
    // Halving clamps at one millisecond instead of reaching zero.
    for _ in 0..20 {
        s.speed_up();
    }
    assert_eq!(s.interval_ms, 1);
    s.speed_up();
    assert_eq!(s.interval_ms, 1);
}

#[test]
fn reload_replaces_whole_state() {
    let first = b"1 2 3\n".to_vec();
    let mut s = System::new(&first, 0);
    s.step(12345);
    let second = b"4 5 6 7 8 9\n".to_vec();
    s = System::new(&second, 12345);
    assert_eq!(s.offset, 0);
    assert_eq!(s.num_planets, 2);
    assert_eq!(s.last_update_ms, 12345);
}
