use orbitview::rng::{body_color_at, lcg_step, mottle_at};

#[test]
fn lcg_matches_the_fixed_transform() {
    assert_eq!(lcg_step(0), 1_013_904_223);
    assert_eq!(lcg_step(1), 1_015_568_748);
    for seed in [0u32, 1, 2, 41, 1000, u32::MAX] {
        let expected = seed.wrapping_mul(1_664_525).wrapping_add(1_013_904_223);
        assert_eq!(lcg_step(seed), expected);
    }
}

#[test]
fn selector_is_deterministic_and_not_constant() {
    assert_eq!(mottle_at(0), mottle_at(0));
    assert_eq!(body_color_at(5), body_color_at(5));
    assert!(mottle_at(0));
    assert!(!mottle_at(1));
    assert_ne!(body_color_at(0), body_color_at(1));
}

#[test]
fn color_bytes_come_from_the_state() {
    // lcg(0) = 1013904223 = 0x3C6EF35F: bytes from the low end, alpha zero.
    let c = body_color_at(0);
    assert_eq!((c.r, c.g, c.b, c.a), (0x5F, 0xF3, 0x6E, 0));
}
