//! A fixed-point audio synthesis core.
//!
//! Every real quantity is carried as an integer: signal levels in millionths
//! of full scale ([`fixed::UNITY`]) and instants in nanoseconds
//! ([`fixed::TICKS_PER_SECOND`]). The streaming engine, the block ring, the
//! envelope law, the instrument presets and the note registry are stated over
//! these integers; trigonometry and the audio device are left to the caller.

pub mod fixed;
pub mod format;
pub mod ring;
pub mod clock;
pub mod driver;
pub mod engine;
pub mod envelope;
pub mod oscillator;
pub mod instrument;
pub mod registry;
