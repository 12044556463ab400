use frame_filter::kernel::{edge_magnitude, passthrough, rounded_sqrt, FilterMode};

#[test]
fn rounded_sqrt_of_small_numbers() {
    let expected: [u32; 21] = [0, 1, 1, 2, 2, 2, 2, 3, 3, 3, 3, 3, 3, 4, 4, 4, 4, 4, 4, 4, 4];
    for (n, r) in expected.iter().enumerate() {
        assert_eq!(rounded_sqrt(n as u32), *r, "for {}", n);
    }
}

#[test]
fn rounded_sqrt_of_squares_is_exact() {
    for r in [0u32, 1, 2, 3, 10, 254, 255, 256, 1020, 1442, 65535] {
        assert_eq!(rounded_sqrt(r * r), r);
    }
}

#[test]
fn rounded_sqrt_turns_at_the_half() {
    // r + 1/2 squared is r * (r + 1) + 1/4: up to r * (r + 1) the root rounds down
    for r in [1u32, 2, 3, 100, 254, 255, 1000, 65535] {
        assert_eq!(rounded_sqrt(r * (r + 1)), r);
        assert_eq!(rounded_sqrt(r * (r + 1) + 1), r + 1);
    }
    assert_eq!(rounded_sqrt(64_770), 254);
    assert_eq!(rounded_sqrt(64_771), 255);
}

#[test]
fn rounded_sqrt_of_the_largest_arguments() {
    assert_eq!(rounded_sqrt(u32::MAX), 65_536);
    assert_eq!(rounded_sqrt(u32::MAX - 1), 65_536);
    assert_eq!(rounded_sqrt(2 * 1020 * 1020), 1442);
}

#[test]
fn rounded_sqrt_agrees_with_the_floating_point_root() {
    let mut n: u32 = 0;
    while n < 2_100_000 {
        let expected = (n as f64).sqrt().round() as u32;
        assert_eq!(rounded_sqrt(n), expected, "for {}", n);
        n += 37;
    }
}

#[test]
fn edge_magnitude_of_a_flat_window_is_zero() {
    assert_eq!(edge_magnitude(&[0; 9]), 0);
    assert_eq!(edge_magnitude(&[17; 9]), 0);
    assert_eq!(edge_magnitude(&[255; 9]), 0);
}

#[test]
fn edge_magnitude_follows_the_gradient_formula() {
    // dx = (w0 + 2 w3 + w6) - (w2 + 2 w5 + w8), dy = (w0 + 2 w1 + w2) - (w6 + 2 w7 + w8)
    assert_eq!(edge_magnitude(&[0, 0, 0, 0, 0, 0, 1, 2, 1]), 6); // dx 0, dy -6
    assert_eq!(edge_magnitude(&[1, 0, 0, 2, 0, 0, 1, 0, 0]), 6); // dx 1 + 2 * 2 + 1, dy 0
    assert_eq!(edge_magnitude(&[0, 0, 1, 0, 0, 2, 0, 0, 1]), 6); // dx -(1 + 2 * 2 + 1), dy 0
    assert_eq!(edge_magnitude(&[0, 3, 0, 0, 0, 0, 0, 0, 0]), 6); // dx 0, dy 6
    assert_eq!(edge_magnitude(&[0, 0, 0, 3, 0, 0, 0, 0, 0]), 6); // dx 6, dy 0
    assert_eq!(edge_magnitude(&[3, 0, 0, 0, 0, 0, 0, 0, 0]), 4); // dx 3, dy 3: sqrt 18 = 4.24
    assert_eq!(edge_magnitude(&[0, 0, 0, 0, 0, 0, 0, 0, 4]), 6); // dx -4, dy -4: sqrt 32 = 5.66
    assert_eq!(edge_magnitude(&[10, 20, 30, 40, 50, 60, 70, 80, 90]), 253); // dx -80, dy -240
    assert_eq!(edge_magnitude(&[0, 0, 0, 1, 99, 0, 0, 2, 0]), 4); // dx 2, dy -4: sqrt 20 = 4.47
}

#[test]
fn edge_magnitude_ignores_the_centre() {
    assert_eq!(edge_magnitude(&[5, 5, 5, 5, 0, 5, 5, 5, 5]), 0);
    assert_eq!(edge_magnitude(&[5, 5, 5, 5, 255, 5, 5, 5, 5]), 0);
}

#[test]
fn edge_magnitude_rounds_to_the_nearest() {
    assert_eq!(edge_magnitude(&[1, 0, 0, 0, 0, 0, 0, 0, 0]), 1); // sqrt 2 = 1.41
    assert_eq!(edge_magnitude(&[2, 0, 0, 0, 0, 0, 0, 0, 0]), 3); // sqrt 8 = 2.83
    assert_eq!(edge_magnitude(&[0, 1, 0, 1, 0, 0, 0, 0, 0]), 3); // dx 2, dy 2
    assert_eq!(edge_magnitude(&[0, 1, 0, 0, 0, 0, 0, 0, 1]), 1); // dx -1, dy 1
    assert_eq!(edge_magnitude(&[0, 0, 0, 1, 0, 0, 1, 0, 0]), 3); // dx 3, dy -1: sqrt 10 = 3.16
}

#[test]
fn edge_magnitude_clips_and_does_not_wrap() {
    // a length of 1020 kept in a byte by wrapping would be 252
    assert_eq!(edge_magnitude(&[255, 255, 255, 0, 0, 0, 0, 0, 0]), 255);
    assert_eq!(edge_magnitude(&[255, 0, 0, 255, 0, 0, 255, 0, 0]), 255);
    // a length of 256 would wrap to 0
    assert_eq!(edge_magnitude(&[0, 0, 0, 128, 0, 0, 0, 0, 0]), 255);
    // dx 257, dy 1: a length of 257 would wrap to 1
    assert_eq!(edge_magnitude(&[1, 0, 0, 128, 0, 0, 0, 0, 0]), 255);
    // dx 765, dy 765: a length of 1082 would wrap to 58
    assert_eq!(edge_magnitude(&[255, 255, 0, 255, 0, 0, 0, 0, 0]), 255);
    // dx 1020, dy 510: a length of 1140 would wrap to 116
    assert_eq!(edge_magnitude(&[255, 255, 0, 255, 0, 0, 255, 0, 0]), 255);
}

#[test]
fn edge_magnitude_just_below_and_at_saturation() {
    // dx 254, dy 0
    assert_eq!(edge_magnitude(&[0, 0, 0, 127, 0, 0, 0, 0, 0]), 254);
    // the same gradient on a brighter ground
    assert_eq!(edge_magnitude(&[1, 0, 1, 127, 0, 0, 1, 0, 1]), 254);
    // dx 254, dy -2
    assert_eq!(edge_magnitude(&[0, 0, 0, 127, 0, 0, 1, 0, 1]), 254);
    // dx 255, dy 1
    assert_eq!(edge_magnitude(&[1, 0, 0, 127, 0, 0, 0, 0, 0]), 255);
    // dx 254, dy 16: 64516 + 256 = 64772, the root of which is just above 254.5
    assert_eq!(edge_magnitude(&[0, 8, 0, 127, 0, 0, 0, 0, 0]), 255);
    // dx 254, dy 14: 64516 + 196 = 64712, the root of which is below 254.5
    assert_eq!(edge_magnitude(&[0, 7, 0, 127, 0, 0, 0, 0, 0]), 254);
}

#[test]
fn passthrough_returns_the_centre() {
    assert_eq!(passthrough(&[1, 2, 3, 4, 5, 6, 7, 8, 9]), 5);
    assert_eq!(passthrough(&[0, 0, 0, 0, 255, 0, 0, 0, 0]), 255);
    assert_eq!(passthrough(&[255, 255, 255, 255, 0, 255, 255, 255, 255]), 0);
}

#[test]
fn mode_selects_the_kernel() {
    let window = [0, 3, 0, 0, 77, 0, 0, 0, 0];
    assert_eq!(FilterMode::EdgeMagnitude.apply(&window), 6);
    assert_eq!(FilterMode::Passthrough.apply(&window), 77);
    assert_eq!(FilterMode::EdgeMagnitude.apply(&window), edge_magnitude(&window));
    assert_eq!(FilterMode::Passthrough.apply(&window), passthrough(&window));
    assert_ne!(FilterMode::EdgeMagnitude, FilterMode::Passthrough);
}
