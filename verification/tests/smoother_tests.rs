use soundlight::smoother::MovingAverage;

#[test]
fn empty_window_averages_to_zero() {
    let ma = MovingAverage::new(10);
    assert_eq!(ma.value(), 0);
}

#[test]
fn partial_window_averages_all_values() {
    let mut ma = MovingAverage::new(10);
    for v in [1, 2, 3, 4, 5] {
        ma.update(v);
    }
    assert_eq!(ma.value(), 3);
}

#[test]
fn full_window_keeps_only_the_most_recent_values() {
    // Capacity three: after a fourth push the oldest value is gone.
    let mut ma = MovingAverage::new(3);
    for v in [10, 20, 30, 40] {
        ma.update(v);
    }
    assert_eq!(ma.window.len(), 3);
    assert_eq!(ma.value(), 30);
}

#[test]
fn window_never_exceeds_capacity_and_mean_is_over_last_capacity_values() {
    // Feed fifteen values into a ten-value window: the mean is over 6..=15
    // only, 105 / 10 rounded down.
    let mut ma = MovingAverage::new(10);
    for v in 1..=15u32 {
        ma.update(v);
    }
    assert_eq!(ma.window.len(), 10);
    assert_eq!(ma.value(), 10);
}

#[test]
fn zero_capacity_window_stays_empty() {
    let mut ma = MovingAverage::new(0);
    ma.update(7);
    assert_eq!(ma.window.len(), 0);
    assert_eq!(ma.value(), 0);
}
