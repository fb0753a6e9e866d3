//! The per-chunk decision logic: from one chunk's loudness to the backlight
//! level to apply.
//!
//! Each chunk's RMS loudness is fed into the smoother and the range tracker,
//! then compared against the smoothed baseline scaled by the trigger
//! multiplier. A chunk louder than that threshold snaps the brightness to
//! the normalized, boosted loudness; any other chunk decays the previous
//! brightness by one step. The emitted level is clamped to `[0, 100]` on
//! every path, so a long decay can never drive it negative.
use vstd::prelude::*;
use vstd::arithmetic::div_mod::lemma_div_is_ordered;
use vstd::arithmetic::mul::lemma_mul_upper_bound;
use crate::curve::{boost_curve, boost_spec, normalized_rms, normalized_spec};
use crate::meter::{calc_rms, rms_spec};
use crate::smoother::{mean_spec, window_push, MovingAverage};
use crate::{CENTI, FULL_SCALE};

verus! {

/// The tunable constants of the pipeline, exposed as named fields rather
/// than magic numbers.
pub struct PipelineConfig {
    /// Samples in one chunk: sample rate times chunk duration.
    pub samples_per_chunk: usize,
    /// How many recent loudness values the smoother averages over.
    pub window_size: usize,
    /// Numerator of the trigger multiplier applied to the smoothed baseline.
    pub trigger_num: u32,
    /// Denominator of the trigger multiplier.
    pub trigger_den: u32,
    /// Brightness decay per quiet chunk, in hundredths of a percent point.
    pub decay_step: u64,
}

impl PipelineConfig {
    /// A chunk holds at least one sample and the trigger multiplier has a
    /// positive denominator.
    pub open spec fn wf(&self) -> bool {
        &&& self.samples_per_chunk >= 1
        &&& self.trigger_den >= 1
    }
}

impl Default for PipelineConfig {
    /// 48 kHz input cut into 50 ms chunks, a ten-value smoothing window, a
    /// trigger multiplier of 1.4, and a decay of one percent point per
    /// chunk.
    fn default() -> (r: Self)
        ensures
            r.samples_per_chunk == 2400,
            r.window_size == 10,
            r.trigger_num == 14,
            r.trigger_den == 10,
            r.decay_step == 100,
            r.wf(),
    {
        PipelineConfig {
            samples_per_chunk: 2400,
            window_size: 10,
            trigger_num: 14,
            trigger_den: 10,
            decay_step: 100,
        }
    }
}

/// One range step: the tracked minimum after observing one value.
pub open spec fn min_step(cur: u32, value: u32) -> u32 {
    if value < cur {
        value
    } else {
        cur
    }
}

/// One range step: the tracked maximum after observing one value.
pub open spec fn max_step(cur: u32, value: u32) -> u32 {
    if value > cur {
        value
    } else {
        cur
    }
}

/// The tracked minimum after observing every value of `observed` in order,
/// starting from `seed`.
pub open spec fn min_after(seed: u32, observed: Seq<u32>) -> u32
    decreases observed.len(),
{
    if observed.len() == 0 {
        seed
    } else {
        min_step(min_after(seed, observed.drop_last()), observed.last())
    }
}

/// The tracked maximum after observing every value of `observed` in order,
/// starting from `seed`.
pub open spec fn max_after(seed: u32, observed: Seq<u32>) -> u32
    decreases observed.len(),
{
    if observed.len() == 0 {
        seed
    } else {
        max_step(max_after(seed, observed.drop_last()), observed.last())
    }
}

/// Observing one more value folds one step onto the tracked bounds.
pub proof fn lemma_range_after_push(min_seed: u32, max_seed: u32, observed: Seq<u32>, value: u32)
    ensures
        min_after(min_seed, observed.push(value)) == min_step(min_after(min_seed, observed), value),
        max_after(max_seed, observed.push(value)) == max_step(max_after(max_seed, observed), value),
{
    assert(observed.push(value).drop_last() =~= observed);
}

/// After any sequence of observations, the tracked minimum is at or below
/// every observed value and the tracked maximum is at or above it; and the
/// bounds only widen: the minimum never rises above its seed and the
/// maximum never falls below its seed.
pub proof fn lemma_range_bounds(min_seed: u32, max_seed: u32, observed: Seq<u32>)
    ensures
        min_after(min_seed, observed) <= min_seed,
        max_after(max_seed, observed) >= max_seed,
        forall|i: int|
            0 <= i < observed.len() ==> min_after(min_seed, observed) <= #[trigger] observed[i],
        forall|i: int|
            0 <= i < observed.len() ==> #[trigger] observed[i] <= max_after(max_seed, observed),
    decreases observed.len(),
{
    if observed.len() > 0 {
        let t = observed.drop_last();
        lemma_range_bounds(min_seed, max_seed, t);
        assert forall|i: int|
            0 <= i < observed.len() implies min_after(min_seed, observed)
            <= #[trigger] observed[i] by {
            if i < t.len() {
                assert(observed[i] == t[i]);
            } else {
                assert(observed[i] == observed.last());
            }
        }
        assert forall|i: int|
            0 <= i < observed.len() implies #[trigger] observed[i]
            <= max_after(max_seed, observed) by {
            if i < t.len() {
                assert(observed[i] == t[i]);
            } else {
                assert(observed[i] == observed.last());
            }
        }
    }
}

/// One decay step: the brightness lowered by `step`, floored at 0.
pub open spec fn decayed(cur: u64, step: u64) -> u64 {
    if cur >= step {
        (cur - step) as u64
    } else {
        0
    }
}

/// Keeps the state throughout the app's lifetime.
pub struct RmsState {
    /// Smoothed loudness baseline over the recent chunks.
    pub moving_avg: MovingAverage,
    /// Largest loudness observed so far.
    pub max_rms: u32,
    /// Smallest loudness observed so far.
    pub min_rms: u32,
    /// The brightness applied for the previous chunk, decaying or snapped.
    pub current_brightness: u64,
}

impl RmsState {
    /// The smoother is well formed and the brightness stays on scale.
    pub open spec fn wf(&self) -> bool {
        &&& self.moving_avg.wf()
        &&& self.current_brightness <= FULL_SCALE
    }

    /// A fresh state with the given smoothing window size. The range is
    /// seeded so that the first observed value always updates both bounds:
    /// the minimum starts at the largest representable loudness and the
    /// maximum at the smallest.
    pub fn new(window_size: usize) -> (r: Self)
        ensures
            r.moving_avg.size == window_size,
            r.moving_avg@ == Seq::<u32>::empty(),
            r.min_rms == u32::MAX,
            r.max_rms == 0,
            r.current_brightness == 0,
            r.wf(),
    {
        RmsState {
            moving_avg: MovingAverage::new(window_size),
            max_rms: 0,
            min_rms: u32::MAX,
            current_brightness: 0,
        }
    }

    /// Takes in a RMS value and updates the min and max. After the call the
    /// observed value lies between the two bounds, the minimum has not
    /// risen, and the maximum has not fallen.
    pub fn update_rms_min_max(&mut self, value: u32)
        ensures
            final(self).min_rms == min_step(old(self).min_rms, value),
            final(self).max_rms == max_step(old(self).max_rms, value),
            final(self).min_rms <= value <= final(self).max_rms,
            final(self).moving_avg == old(self).moving_avg,
            final(self).current_brightness == old(self).current_brightness,
    {
        if value < self.min_rms {
            self.min_rms = value;
        }
        if value > self.max_rms {
            self.max_rms = value;
        }
    }

    /// Resets the observed range to its seeded state.
    ///
    /// The default lifetime range only ever widens, so one loud transient
    /// permanently raises the normalization ceiling and desensitizes long
    /// sessions; calling this periodically is the documented optional
    /// remedy. The smoother and the current brightness are untouched.
    pub fn reset_range(&mut self)
        ensures
            final(self).min_rms == u32::MAX,
            final(self).max_rms == 0,
            final(self).moving_avg == old(self).moving_avg,
            final(self).current_brightness == old(self).current_brightness,
    {
        self.min_rms = u32::MAX;
        self.max_rms = 0;
    }
}

impl Default for RmsState {
    /// A fresh state with the default ten-value smoothing window.
    fn default() -> (r: Self)
        ensures
            r.moving_avg.size == 10,
            r.moving_avg@ == Seq::<u32>::empty(),
            r.min_rms == u32::MAX,
            r.max_rms == 0,
            r.current_brightness == 0,
            r.wf(),
    {
        RmsState::new(10)
    }
}

/// The brightness the mapper settles on for one chunk: the normalized,
/// boosted, clamped loudness if the chunk is louder than the smoothed
/// baseline times the trigger multiplier, and one decay step otherwise.
pub open spec fn brightness_after(s: RmsState, chunk: Seq<i32>, cfg: PipelineConfig) -> u64 {
    let rms = rms_spec(chunk);
    let window = window_push(s.moving_avg@, s.moving_avg.size as nat, rms as u32);
    let avg = mean_spec(window);
    let min1 = min_step(s.min_rms, rms as u32);
    let max1 = max_step(s.max_rms, rms as u32);
    let normalized = normalized_spec(rms, min1 as int, max1 as int);
    let boosted = boost_spec(normalized);
    let candidate = if boosted > FULL_SCALE { FULL_SCALE } else { boosted as u64 };
    if rms * cfg.trigger_den > avg * cfg.trigger_num {
        candidate
    } else {
        decayed(s.current_brightness, cfg.decay_step)
    }
}

/// Truncates a brightness in hundredths of a percent to the whole percent
/// points the actuator accepts. Truncation, not rounding, is the documented
/// choice, for reproducibility.
pub fn brightness_level(brightness: u64) -> (level: u8)
    requires
        brightness <= FULL_SCALE,
    ensures
        level as int == brightness as int / (CENTI as int),
        level <= 100,
{
    proof {
        lemma_div_is_ordered(brightness as int, FULL_SCALE as int, CENTI as int);
    }
    (brightness / CENTI) as u8
}

/// Takes a chunk of audio data points and decides the backlight level.
///
/// The chunk's RMS loudness is fed into the smoother and the range tracker;
/// the brightness then snaps to the normalized, boosted loudness when the
/// chunk is louder than baseline times trigger multiplier, and decays by one
/// step otherwise. The returned level is the new brightness truncated to
/// whole percent points, always in `[0, 100]`; writing it to the actuator is
/// the caller's business, and a failed write must not stop the pipeline.
pub fn process_audio_chunk(chunk: &Vec<i32>, state: &mut RmsState, cfg: &PipelineConfig) -> (level: u8)
    requires
        old(state).wf(),
        cfg.wf(),
    ensures
        final(state).wf(),
        final(state).moving_avg.size == old(state).moving_avg.size,
        final(state).moving_avg@ == window_push(
            old(state).moving_avg@,
            old(state).moving_avg.size as nat,
            rms_spec(chunk@) as u32,
        ),
        final(state).min_rms == min_step(old(state).min_rms, rms_spec(chunk@) as u32),
        final(state).max_rms == max_step(old(state).max_rms, rms_spec(chunk@) as u32),
        final(state).current_brightness == brightness_after(*old(state), chunk@, *cfg),
        level as int == final(state).current_brightness as int / (CENTI as int),
        level <= 100,
{
    let rms: u32 = calc_rms(chunk);
    state.moving_avg.update(rms);
    state.update_rms_min_max(rms);

    let avg: u32 = state.moving_avg.value();
    let normalized: u64 = normalized_rms(rms, state.min_rms, state.max_rms);
    let boosted: u64 = boost_curve(normalized);
    let brightness: u64 = if boosted > FULL_SCALE {
        FULL_SCALE
    } else {
        boosted
    };
    proof {
        lemma_mul_upper_bound(rms as int, 0xFFFF_FFFF, cfg.trigger_den as int, 0xFFFF_FFFF);
        lemma_mul_upper_bound(avg as int, 0xFFFF_FFFF, cfg.trigger_num as int, 0xFFFF_FFFF);
    }
    if (rms as u64) * (cfg.trigger_den as u64) > (avg as u64) * (cfg.trigger_num as u64) {
        state.current_brightness = brightness;
    } else if state.current_brightness >= cfg.decay_step {
        state.current_brightness = state.current_brightness - cfg.decay_step;
    } else {
        state.current_brightness = 0;
    }
    brightness_level(state.current_brightness)
}

} // verus!
