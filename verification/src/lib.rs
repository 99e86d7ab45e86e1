//! A verified additive wavetable synthesizer core.
//!
//! A bank of oscillators reads shared, precomputed waveform tables out of an
//! indexed arena and mixes their outputs one sample at a time. All audio
//! values are fixed-point integers (see [`fixed`]); the host converts to the
//! sample format of its audio transport at the boundary.

mod arena;
mod engine;
mod fixed;
mod oscillator;
mod wavetable;

pub use arena::{ArenaError, WavetableArena};
pub use engine::{SynthesisEngine, MAX_VOICES};
pub use oscillator::Oscillator;
pub use fixed::{AMP_LIMIT, FRAC_ONE, MAX_TABLE_LEN, OUT_LIMIT, SAMPLE_LIMIT, STEP_LIMIT};
pub use wavetable::{is_power_of_2, Wavetable};
