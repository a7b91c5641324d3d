//! What the oscillator bank decides without trigonometry: the waveforms'
//! names, the request an instrument makes of the bank, the square wave's
//! sign rule and the noise source.

use vstd::prelude::*;
use crate::fixed::UNITY;

verus! {

/// The waveforms of the oscillator bank.
#[derive(Clone, Copy, Debug, PartialEq, Eq, Structural)]
pub enum OscType {
    /// The sine of the phase.
    SineWave,
    /// Full scale where the sine is positive, minus full scale elsewhere.
    SquareWave,
    /// A triangle through the sine's zeros and extremes.
    TriangleWave,
    /// A sawtooth summed from harmonics.
    AnalogSawWave,
    /// A sawtooth as a linear ramp.
    DigitalSawWave,
    /// Uniform noise, new at each call.
    RandomNoise,
}

/// One request to the oscillator bank: which waveform, at what pitch and
/// instant, with what vibrato.
#[derive(Clone, Copy, Debug, PartialEq, Eq, Structural)]
pub struct OscCall {
    /// Pitch in semitones above the base of the scale.
    pub pitch: i64,
    /// Instant at which the note was switched on, in ticks.
    pub note_on: i64,
    /// Instant to evaluate, in ticks. The phase runs on `note_on - time`.
    pub time: i64,
    /// Waveform.
    pub osc_type: OscType,
    /// Vibrato frequency in hertz.
    pub lfo_hertz: u32,
    /// Vibrato depth in millionths.
    pub lfo_amplitude: u32,
}

/// Whether the oscillator bank `osc` is pure: asked the same twice, it
/// answers the same.
pub open spec fn pure_bank<F: Fn(OscCall) -> i32>(osc: F) -> bool {
    forall|call: OscCall, a: i32, b: i32|
        #![trigger call_ensures(osc, (call,), a), call_ensures(osc, (call,), b)]
        call_ensures(osc, (call,), a) && call_ensures(osc, (call,), b) ==> a == b
}

/// The square wave at a phase whose sine is `sine`: `+1` where the sine is
/// positive, `-1` where it is zero or negative.
pub open spec fn square_spec(sine: int) -> int {
    if sine > 0 {
        UNITY as int
    } else {
        -UNITY
    }
}

/// The square wave's level for a phase whose sine is `sine`. A sine of
/// exactly zero counts as not positive.
pub fn square_wave(sine: i32) -> (r: i32)
    ensures
        r == square_spec(sine as int),
        r == UNITY || r == -UNITY,
{
    if sine > 0 {
        UNITY as i32
    } else {
        -(UNITY as i32)
    }
}

/// The noise level that a 32-bit word stands for: the word's place in its
/// range, mapped linearly onto `[-UNITY, UNITY)`.
pub open spec fn noise_spec(word: int) -> int {
    word * (2 * UNITY) / 0x1_0000_0000 - UNITY
}

/// Maps a 32-bit word onto `[-UNITY, UNITY)`.
pub fn noise_from_word(word: u32) -> (r: i32)
    ensures
        r == noise_spec(word as int),
        -UNITY <= r < UNITY,
{
    let span: i64 = 2 * UNITY;
    assert(span == 2_000_000);
    let scaled: i64 = word as i64 * span / 0x1_0000_0000;
    (scaled - UNITY) as i32
}

/// Calls `rand::random::<u32>()`, which draws a word from the calling
/// thread's generator. Nothing is claimed of the word: two calls may differ.
#[verifier::external_body]
fn random_word() -> (word: u32) {
    rand::random::<u32>()
}

/// One sample of uniform noise. Each call draws anew; all that holds of every
/// outcome is that it is the level of some word, hence within
/// `[-UNITY, UNITY)`.
pub fn random_noise() -> (r: i32)
    ensures
        -UNITY <= r < UNITY,
        exists|word: u32| r == noise_spec(word as int),
{
    let word: u32 = random_word();
    noise_from_word(word)
}

} // verus!
