use soundlight::curve::{boost_curve, normalized_rms};

#[test]
fn degenerate_range_normalizes_to_zero() {
    // No dynamic range observed yet: normalized loudness is exactly 0.
    assert_eq!(normalized_rms(7, 7, 7), 0);
}

#[test]
fn loudest_observed_value_normalizes_to_full_scale() {
    assert_eq!(normalized_rms(1_000_000, 0, 1_000_000), 10_000);
}

#[test]
fn quietest_observed_value_normalizes_to_zero() {
    assert_eq!(normalized_rms(3, 3, 1_000_000), 0);
}

#[test]
fn normalization_is_linear_in_the_range() {
    // A quarter of the way from 0 to 1000 is 25.00 of 100.00.
    assert_eq!(normalized_rms(250, 0, 1000), 2500);
}

#[test]
fn normalization_rounds_down() {
    // 1/3 of full scale: 3333.33... truncates to 3333.
    assert_eq!(normalized_rms(1, 0, 3), 3333);
}

#[test]
fn boost_of_zero_is_zero() {
    assert_eq!(boost_curve(0), 0);
}

#[test]
fn boost_fixes_one_percent() {
    // 1.00 ^ 1.6 == 1.00: the curve crosses the identity at one percent.
    assert_eq!(boost_curve(100), 100);
}

#[test]
fn boost_of_full_scale() {
    // 100 ^ 1.6 = 1584.89...: far over scale, the pipeline clamps it.
    assert_eq!(boost_curve(10_000), 158_489);
}

#[test]
fn boost_exact_values() {
    // 25 ^ 1.6 = 172.46..., 50 ^ 1.6 = 522.81..., in hundredths.
    assert_eq!(boost_curve(2_500), 17_246);
    assert_eq!(boost_curve(5_000), 52_281);
}

#[test]
fn boost_is_monotonic_over_the_scale() {
    let mut prev = 0u64;
    for i in 0..=100u64 {
        let b = boost_curve(i * 100);
        assert!(prev <= b);
        prev = b;
    }
}

#[test]
fn boost_suppresses_the_low_end() {
    // Below one percent the curve maps values under the identity line.
    for n in 1..100u64 {
        assert!(boost_curve(n) < n);
    }
}
