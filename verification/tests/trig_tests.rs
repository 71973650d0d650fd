use raycaster::trig::{angle_diff_fx, atan2_fx, cos_fx, isqrt, normalize_angle, sin_fx};

#[test]
fn sine_is_exact_at_quarter_turns() {
    assert_eq!(sin_fx(0), 0);
    assert_eq!(sin_fx(16384), 1000);
    assert_eq!(sin_fx(32768), 0);
    assert_eq!(sin_fx(49152), -1000);
}

#[test]
fn cosine_is_exact_at_quarter_turns() {
    assert_eq!(cos_fx(0), 1000);
    assert_eq!(cos_fx(16384), 0);
    assert_eq!(cos_fx(32768), -1000);
    assert_eq!(cos_fx(49152), 0);
}

#[test]
fn sine_stays_in_range() {
    let mut a = 0;
    while a < 65536 {
        let s = sin_fx(a);
        let c = cos_fx(a);
        assert!(-1000 <= s && s <= 1000);
        assert!(-1000 <= c && c <= 1000);
        a += 97;
    }
}

#[test]
fn sine_formula_at_an_eighth_turn() {
    // The parabola approximation at 1/8 turn: 4*8192*24576*1000 / 2^30.
    assert_eq!(sin_fx(8192), 750);
}

#[test]
fn normalize_angle_wraps_both_ways() {
    assert_eq!(normalize_angle(0), 0);
    assert_eq!(normalize_angle(65536), 0);
    assert_eq!(normalize_angle(65537), 1);
    assert_eq!(normalize_angle(-1), 65535);
    assert_eq!(normalize_angle(-65536), 0);
    assert_eq!(normalize_angle(200000), 200000 % 65536);
}

#[test]
fn atan2_matches_the_axes() {
    assert_eq!(atan2_fx(0, 5), 0);
    assert_eq!(atan2_fx(5, 0), 16384);
    assert_eq!(atan2_fx(0, -5), 32768);
    assert_eq!(atan2_fx(-5, 0), 49152);
    assert_eq!(atan2_fx(7, 7), 8192);
    assert_eq!(atan2_fx(0, 0), 0);
}

#[test]
fn angle_diff_takes_the_short_way_around() {
    assert_eq!(angle_diff_fx(10, 65530), 16);
    assert_eq!(angle_diff_fx(65530, 10), -16);
    assert_eq!(angle_diff_fx(100, 100), 0);
    assert_eq!(angle_diff_fx(32768, 0), -32768);
}

#[test]
fn isqrt_exact_values() {
    assert_eq!(isqrt(0), 0);
    assert_eq!(isqrt(1), 1);
    assert_eq!(isqrt(2), 1);
    assert_eq!(isqrt(3), 1);
    assert_eq!(isqrt(4), 2);
    assert_eq!(isqrt(999_999), 999);
    assert_eq!(isqrt(1_000_000), 1000);
    assert_eq!(isqrt(2_000_000_000_000), 1_414_213);
}
