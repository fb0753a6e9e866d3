use soundlight::pipeline::{brightness_level, process_audio_chunk, PipelineConfig, RmsState};

fn silent_chunk() -> Vec<i32> {
    vec![0; 8]
}

fn loud_chunk() -> Vec<i32> {
    vec![1_000_000; 8]
}

#[test]
fn default_config_matches_the_documented_constants() {
    let cfg = PipelineConfig::default();
    assert_eq!(cfg.samples_per_chunk, 2400);
    assert_eq!(cfg.window_size, 10);
    assert_eq!(cfg.trigger_num, 14);
    assert_eq!(cfg.trigger_den, 10);
    assert_eq!(cfg.decay_step, 100);
}

#[test]
fn fresh_state_is_seeded_so_the_first_value_wins() {
    let state = RmsState::default();
    assert_eq!(state.min_rms, u32::MAX);
    assert_eq!(state.max_rms, 0);
    assert_eq!(state.current_brightness, 0);
    assert_eq!(state.moving_avg.size, 10);
}

#[test]
fn observing_values_tracks_min_and_max_monotonically() {
    let mut state = RmsState::default();
    state.update_rms_min_max(5);
    assert_eq!((state.min_rms, state.max_rms), (5, 5));
    state.update_rms_min_max(3);
    assert_eq!((state.min_rms, state.max_rms), (3, 5));
    state.update_rms_min_max(10);
    assert_eq!((state.min_rms, state.max_rms), (3, 10));
    state.update_rms_min_max(7);
    assert_eq!((state.min_rms, state.max_rms), (3, 10));
}

#[test]
fn constant_silence_keeps_the_light_dark() {
    // Silence never exceeds the threshold; the brightness decays from 0 and
    // is clamped there, never negative.
    let cfg = PipelineConfig::default();
    let mut state = RmsState::default();
    for _ in 0..30 {
        let level = process_audio_chunk(&silent_chunk(), &mut state, &cfg);
        assert_eq!(level, 0);
        assert_eq!(state.current_brightness, 0);
    }
}

#[test]
fn a_loud_spike_snaps_to_full_brightness() {
    // After silent chunks the observed range is degenerate at 0; the first
    // loud chunk raises the maximum to full scale, normalizes to 100.00,
    // boosts far over scale, clamps to 100.00, and snaps.
    let cfg = PipelineConfig::default();
    let mut state = RmsState::default();
    for _ in 0..5 {
        assert_eq!(process_audio_chunk(&silent_chunk(), &mut state, &cfg), 0);
    }
    assert_eq!(state.max_rms, 0);
    assert_eq!(state.min_rms, 0);
    let level = process_audio_chunk(&loud_chunk(), &mut state, &cfg);
    assert_eq!(state.max_rms, 1_000_000);
    assert_eq!(state.current_brightness, 10_000);
    assert_eq!(level, 100);
}

#[test]
fn after_a_spike_silence_decays_one_step_per_chunk_down_to_zero() {
    let cfg = PipelineConfig::default();
    let mut state = RmsState::default();
    for _ in 0..5 {
        process_audio_chunk(&silent_chunk(), &mut state, &cfg);
    }
    process_audio_chunk(&loud_chunk(), &mut state, &cfg);
    assert_eq!(state.current_brightness, 10_000);
    // Exactly one decay step per silent chunk, down to 0, then clamped.
    for i in 1..=100u64 {
        let level = process_audio_chunk(&silent_chunk(), &mut state, &cfg);
        assert_eq!(state.current_brightness, 10_000 - 100 * i);
        assert_eq!(level as u64, (10_000 - 100 * i) / 100);
    }
    for _ in 0..10 {
        let level = process_audio_chunk(&silent_chunk(), &mut state, &cfg);
        assert_eq!(state.current_brightness, 0);
        assert_eq!(level, 0);
    }
}

#[test]
fn resetting_the_range_reseeds_the_bounds_and_keeps_the_rest() {
    let cfg = PipelineConfig::default();
    let mut state = RmsState::default();
    for _ in 0..5 {
        process_audio_chunk(&silent_chunk(), &mut state, &cfg);
    }
    process_audio_chunk(&loud_chunk(), &mut state, &cfg);
    assert_eq!(state.max_rms, 1_000_000);
    let brightness = state.current_brightness;
    state.reset_range();
    assert_eq!(state.min_rms, u32::MAX);
    assert_eq!(state.max_rms, 0);
    assert_eq!(state.current_brightness, brightness);
}

#[test]
fn brightness_level_truncates_to_whole_percent_points() {
    assert_eq!(brightness_level(0), 0);
    assert_eq!(brightness_level(99), 0);
    assert_eq!(brightness_level(9_999), 99);
    assert_eq!(brightness_level(10_000), 100);
}
