use soundlight::meter::calc_rms;

#[test]
fn rms_of_empty_chunk_is_zero() {
    let chunk: Vec<i32> = Vec::new();
    assert_eq!(calc_rms(&chunk), 0);
}

#[test]
fn rms_of_silence_is_zero() {
    let chunk: Vec<i32> = vec![0; 2400];
    assert_eq!(calc_rms(&chunk), 0);
}

#[test]
fn rms_of_full_scale_signal_is_full_scale() {
    // Every sample at full scale (1.0 in micro-units): RMS is full scale.
    let chunk: Vec<i32> = vec![1_000_000; 8];
    assert_eq!(calc_rms(&chunk), 1_000_000);
}

#[test]
fn rms_is_positive_for_any_nonzero_sample() {
    // One micro-unit in a chunk of four: the rounded-up mean keeps it alive.
    let chunk: Vec<i32> = vec![1, 0, 0, 0];
    assert!(calc_rms(&chunk) > 0);
}

#[test]
fn rms_exact_small_example() {
    // Squares 9 and 16 sum to 25; ceil(26 / 2) = 13; floor sqrt 13 = 3.
    let chunk: Vec<i32> = vec![3, 4];
    assert_eq!(calc_rms(&chunk), 3);
}

#[test]
fn rms_ignores_sign() {
    let chunk: Vec<i32> = vec![500_000, -500_000, 250_000, 0];
    assert_eq!(calc_rms(&chunk), 375_000);
    let flipped: Vec<i32> = vec![-500_000, 500_000, -250_000, 0];
    assert_eq!(calc_rms(&flipped), 375_000);
}
