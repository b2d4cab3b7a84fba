//! A small additive-synthesis engine: a composable signal graph (oscillators,
//! noise, filters, envelopes and their combinators), a deterministic
//! sample-by-sample renderer with stereo effect chains and a peak limiter,
//! score-file ingestion, and pitch mapping.
//!
//! All signal values are fixed-point: an amplitude of 1.0 is `SCALE` (65536),
//! so every computation is exact integer arithmetic and rendering is
//! bit-reproducible.

pub mod envelope;
pub mod fixed;
pub mod instrument;
pub mod node;
pub mod render;
pub mod score;
pub mod pitch;

use vstd::prelude::*;

verus! {

/// Errors raised when a generator or session is constructed with
/// invalid parameters.
#[derive(Clone, Copy, PartialEq, Eq, Structural, Debug)]
pub enum ConfigurationError {
    /// The sample rate was zero.
    ZeroSampleRate,
    /// A velocity outside [0, 1] (in fixed point: [0, SCALE]).
    VelocityOutOfRange,
    /// A frequency too large for the sample rate.
    FrequencyOutOfRange,
}

} // verus!
