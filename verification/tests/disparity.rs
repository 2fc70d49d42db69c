use autostereogram::disparity::separation;

#[test]
fn flattest_depth_separation() {
    // d = 0: round(180 / 2) = 90 with the default parameters.
    assert_eq!(separation(0, 180, 1, 5), 90);
}

#[test]
fn closest_depth_separation() {
    // d = 1: round((1 - 1/5) * 180 / (2 - 1/5)) = round(144 / 1.8) = 80.
    assert_eq!(separation(255, 180, 1, 5), 80);
}

#[test]
fn pop_out_effect() {
    // The closest depth receives a strictly smaller separation than the
    // flattest, so near objects pop out.
    assert!(separation(255, 180, 1, 5) < separation(0, 180, 1, 5));
}

#[test]
fn separation_monotone_over_all_depths() {
    let mut prev = separation(0, 180, 1, 5);
    for z in 1..=255u8 {
        let s = separation(z, 180, 1, 5);
        assert!(s <= prev);
        prev = s;
    }
}

#[test]
fn separation_rounds_half_away_from_zero() {
    // d = 0 and e = 181 give exactly 90.5, which rounds up to 91.
    assert_eq!(separation(0, 181, 1, 5), 91);
}

#[test]
fn separation_other_parameters() {
    // e = 90, mu = 1/3: depth 0 gives round(90 / 2) = 45.
    assert_eq!(separation(0, 90, 1, 3), 45);
    // depth 255: round((2/3) * 90 / (5/3)) = round(36) = 36.
    assert_eq!(separation(255, 90, 1, 3), 36);
}
