//! Audio-reactive backlight pipeline.
//!
//! A continuous microphone stream is cut into fixed-size chunks, each chunk is
//! reduced to a loudness value (root-mean-square energy), the loudness is
//! smoothed by a moving average, normalized against the observed dynamic
//! range, shaped by a perceptual power curve, and finally turned into a
//! brightness level in `[0, 100]` that either snaps to a new value on a loud
//! transient or decays step by step.
//!
//! All signal values are carried as fixed-point integers so that every stage
//! of the chain can be verified:
//! - audio samples are integers in micro-units (full scale `1.0` is
//!   `1_000_000`); the capture layer converts its native sample format once at
//!   the boundary,
//! - loudness values (RMS) are `u32` in the same micro-unit scale,
//! - normalized loudness and brightness are carried in hundredths of a
//!   percent point (`10_000` means `100.00`).
use vstd::prelude::*;

pub mod chunker;
pub mod curve;
pub mod meter;
pub mod pipeline;
pub mod roots;
pub mod smoother;

verus! {

/// Full scale for normalized loudness and brightness: `100.00` per cent,
/// carried in hundredths of a percent point.
pub const FULL_SCALE: u64 = 10_000;

/// Hundredths in one percent point.
pub const CENTI: u64 = 100;

} // verus!
