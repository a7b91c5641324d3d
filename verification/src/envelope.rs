//! The ADSR envelope: amplitude over time, driven by the instants at which a
//! note was switched on and off.

use vstd::prelude::*;
use crate::fixed::{lemma_portion_bounds, lemma_portion_monotonic, portion};

verus! {

/// Amplitudes at or below this level count as silence: `0.0001`.
pub const EPSILON: i64 = 100;

/// The envelope's parameters as mathematical values: three durations in
/// ticks and two levels.
pub struct Adsr {
    /// Ticks from note-on to the start level.
    pub attack_time: int,
    /// Ticks from the start level to the sustain level.
    pub decay_time: int,
    /// Ticks from note-off to silence.
    pub release_time: int,
    /// Level held while the note stays on.
    pub sustain_amplitude: int,
    /// Level reached at the end of the attack.
    pub start_amplitude: int,
}

impl Adsr {
    /// Parameters the law is defined for: positive durations and levels
    /// that are not negative.
    pub open spec fn inv(self) -> bool {
        &&& 0 < self.attack_time <= i64::MAX
        &&& 0 < self.decay_time <= i64::MAX
        &&& 0 < self.release_time <= i64::MAX
        &&& 0 <= self.sustain_amplitude <= i64::MAX
        &&& 0 <= self.start_amplitude <= i64::MAX
    }

    /// The larger of the two levels: no held level exceeds it, nor does a
    /// released one from note-off on.
    pub open spec fn peak(self) -> int {
        if self.start_amplitude >= self.sustain_amplitude {
            self.start_amplitude
        } else {
            self.sustain_amplitude
        }
    }

    /// The level of a held note `life` ticks after note-on, before the
    /// silence threshold is applied. Attack ramps linearly from zero to the
    /// start level, decay from there to the sustain level, which then holds.
    /// Before note-on the level is zero.
    pub open spec fn level_at(self, life: int) -> int {
        if life < 0 {
            0
        } else if life <= self.attack_time {
            portion(self.start_amplitude, life, self.attack_time)
        } else if life <= self.attack_time + self.decay_time {
            if self.sustain_amplitude >= self.start_amplitude {
                self.start_amplitude + portion(
                    self.sustain_amplitude - self.start_amplitude,
                    life - self.attack_time,
                    self.decay_time,
                )
            } else {
                self.start_amplitude - portion(
                    self.start_amplitude - self.sustain_amplitude,
                    life - self.attack_time,
                    self.decay_time,
                )
            }
        } else {
            self.sustain_amplitude
        }
    }

    /// The level of a released note `elapsed` ticks after note-off, given the
    /// level it had `reached` then: the straight line through `reached` at
    /// note-off and zero one release time later. Before note-off the line
    /// lies above the level reached; past its zero the level stays zero.
    pub open spec fn release_level(self, reached: int, elapsed: int) -> int {
        if elapsed < 0 {
            reached + portion(reached, -elapsed, self.release_time)
        } else if elapsed >= self.release_time {
            0
        } else {
            reached - portion(reached, elapsed, self.release_time)
        }
    }

    /// The level before the silence threshold: the held law while the note
    /// is held, else the release ramp from the level reached at `off`.
    pub open spec fn raw_amplitude(self, held: bool, time: int, on: int, off: int) -> int {
        if held {
            self.level_at(time - on)
        } else {
            self.release_level(self.level_at(off - on), time - off)
        }
    }

    /// Whether the law is asked within the note's life as it was played: the
    /// note is held, or the instant is not before its note-off.
    pub open spec fn in_course(held: bool, time: int, off: int) -> bool {
        held || time >= off
    }

    /// The amplitude at `time` of a note that is held or not, switched on at
    /// `on` and off at `off`. Levels at or below [`EPSILON`] are exactly zero;
    /// a level above what 64 bits hold, which the release line reaches only
    /// long before note-off, is held at the top of that range.
    pub open spec fn gated_amplitude(self, held: bool, time: int, on: int, off: int) -> int {
        let raw = self.raw_amplitude(held, time, on, off);
        if raw <= EPSILON {
            0
        } else if raw > i64::MAX {
            i64::MAX as int
        } else {
            raw
        }
    }

    /// The envelope's amplitude at `time` for a note switched on at `on` and
    /// off at `off`: the note is held while `on > off`.
    pub open spec fn amplitude(self, time: int, on: int, off: int) -> int {
        self.gated_amplitude(on > off, time, on, off)
    }
}

/// A held level lies between zero and the larger of the two levels.
pub proof fn lemma_level_bounds(envelope: Adsr, life: int)
    requires
        envelope.inv(),
    ensures
        0 <= envelope.level_at(life) <= envelope.peak(),
{
    if 0 <= life <= envelope.attack_time {
        lemma_portion_bounds(envelope.start_amplitude, life, envelope.attack_time);
    } else if envelope.attack_time < life <= envelope.attack_time + envelope.decay_time {
        if envelope.sustain_amplitude >= envelope.start_amplitude {
            lemma_portion_bounds(
                envelope.sustain_amplitude - envelope.start_amplitude,
                life - envelope.attack_time,
                envelope.decay_time,
            );
        } else {
            lemma_portion_bounds(
                envelope.start_amplitude - envelope.sustain_amplitude,
                life - envelope.attack_time,
                envelope.decay_time,
            );
        }
    }
}

/// The landmarks of a held note: silence at note-on, the start level at the
/// end of the attack, the sustain level from the end of the decay on.
pub proof fn lemma_held_landmarks(envelope: Adsr, life: int)
    requires
        envelope.inv(),
    ensures
        envelope.level_at(0) == 0,
        envelope.level_at(envelope.attack_time) == envelope.start_amplitude,
        envelope.level_at(envelope.attack_time + envelope.decay_time)
            == envelope.sustain_amplitude,
        life >= envelope.attack_time + envelope.decay_time ==> envelope.level_at(life)
            == envelope.sustain_amplitude,
{
    lemma_portion_bounds(envelope.start_amplitude, 0, envelope.attack_time);
    lemma_portion_bounds(envelope.start_amplitude, envelope.attack_time, envelope.attack_time);
    if envelope.sustain_amplitude >= envelope.start_amplitude {
        lemma_portion_bounds(
            envelope.sustain_amplitude - envelope.start_amplitude,
            envelope.decay_time,
            envelope.decay_time,
        );
    } else {
        lemma_portion_bounds(
            envelope.start_amplitude - envelope.sustain_amplitude,
            envelope.decay_time,
            envelope.decay_time,
        );
    }
}

/// No amplitude is negative, and each is either zero or above the silence
/// threshold. Of a held note, and of a released one from its note-off on, the
/// amplitude is at most the larger of the two levels; before note-off the
/// release line lies at or above the level reached.
pub proof fn lemma_amplitude_bounds(envelope: Adsr, held: bool, time: int, on: int, off: int)
    requires
        envelope.inv(),
    ensures
        0 <= envelope.gated_amplitude(held, time, on, off) <= i64::MAX,
        envelope.gated_amplitude(held, time, on, off) == 0 || envelope.gated_amplitude(
            held,
            time,
            on,
            off,
        ) > EPSILON,
        Adsr::in_course(held, time, off) ==> envelope.gated_amplitude(held, time, on, off)
            <= envelope.peak(),
        !held && time < off ==> envelope.raw_amplitude(held, time, on, off) >= envelope.level_at(
            off - on,
        ),
{
    lemma_level_bounds(envelope, time - on);
    lemma_level_bounds(envelope, off - on);
    let reached = envelope.level_at(off - on);
    let elapsed = time - off;
    if 0 < elapsed < envelope.release_time {
        lemma_portion_bounds(reached, elapsed, envelope.release_time);
    }
    if elapsed < 0 {
        lemma_portion_monotonic(reached, 0, -elapsed, envelope.release_time);
        lemma_portion_bounds(reached, 0, envelope.release_time);
    }
}

/// At its note-off instant a released note has the level it had reached
/// while held.
pub proof fn lemma_release_starts_at_level_reached(envelope: Adsr, on: int, off: int)
    requires
        envelope.inv(),
    ensures
        envelope.raw_amplitude(false, off, on, off) == envelope.level_at(off - on),
        envelope.gated_amplitude(false, off, on, off) == envelope.gated_amplitude(
            true,
            off,
            on,
            off,
        ),
{
    lemma_level_bounds(envelope, off - on);
    lemma_portion_bounds(envelope.level_at(off - on), 0, envelope.release_time);
}

/// The amplitude of a released note never rises: of two instants, before
/// note-off or after, the later has the smaller or equal amplitude.
pub proof fn lemma_release_non_increasing(
    envelope: Adsr,
    earlier: int,
    later: int,
    on: int,
    off: int,
)
    requires
        envelope.inv(),
        earlier <= later,
    ensures
        envelope.gated_amplitude(false, later, on, off) <= envelope.gated_amplitude(
            false,
            earlier,
            on,
            off,
        ),
        on <= off ==> envelope.amplitude(later, on, off) <= envelope.amplitude(earlier, on, off),
{
    lemma_level_bounds(envelope, off - on);
    let reached = envelope.level_at(off - on);
    let release = envelope.release_time;
    let a = earlier - off;
    let b = later - off;
    lemma_portion_bounds(reached, 0, release);
    if 0 <= a < release {
        lemma_portion_bounds(reached, a, release);
    }
    if 0 <= b < release {
        lemma_portion_bounds(reached, b, release);
    }
    if 0 <= a && b < release {
        lemma_portion_monotonic(reached, a, b, release);
    }
    if a < 0 {
        lemma_portion_monotonic(reached, 0, -a, release);
        if b < 0 {
            lemma_portion_monotonic(reached, -b, -a, release);
        }
    }
}

/// A released note is silent once the release time has passed since
/// note-off, and stays silent.
pub proof fn lemma_release_reaches_zero(envelope: Adsr, time: int, on: int, off: int)
    requires
        envelope.inv(),
        time >= off + envelope.release_time,
    ensures
        envelope.gated_amplitude(false, time, on, off) == 0,
        on <= off ==> envelope.amplitude(time, on, off) == 0,
{
}

/// The amplitude depends on the three instants only through the note's age
/// and the time since its release: shifting all three alike changes nothing.
pub proof fn lemma_amplitude_shift(envelope: Adsr, time: int, on: int, off: int, shift: int)
    ensures
        envelope.amplitude(time + shift, on + shift, off + shift) == envelope.amplitude(
            time,
            on,
            off,
        ),
{
}

/// The envelope of an instrument: fixed once made, and evaluated as a pure
/// function of the instants it is given.
#[derive(Clone, Copy, Debug)]
pub struct EnvelopeADSR {
    attack_time: i64,
    decay_time: i64,
    release_time: i64,
    sustain_amplitude: i64,
    start_amplitude: i64,
}

impl View for EnvelopeADSR {
    type V = Adsr;

    closed spec fn view(&self) -> Adsr {
        Adsr {
            attack_time: self.attack_time as int,
            decay_time: self.decay_time as int,
            release_time: self.release_time as int,
            sustain_amplitude: self.sustain_amplitude as int,
            start_amplitude: self.start_amplitude as int,
        }
    }
}

impl Default for EnvelopeADSR {
    /// Attack and decay of a hundredth of a second, release of a fiftieth,
    /// sustain at `0.8` and start at `1.0`.
    fn default() -> (r: EnvelopeADSR)
        ensures
            r@ == (Adsr {
                attack_time: 10_000_000,
                decay_time: 10_000_000,
                release_time: 20_000_000,
                sustain_amplitude: 800_000,
                start_amplitude: 1_000_000,
            }),
            r@.inv(),
    {
        EnvelopeADSR {
            attack_time: 10_000_000,
            decay_time: 10_000_000,
            release_time: 20_000_000,
            sustain_amplitude: 800_000,
            start_amplitude: 1_000_000,
        }
    }
}

impl EnvelopeADSR {
    #[verifier::type_invariant]
    spec fn valid(&self) -> bool {
        self@.inv()
    }

    /// An envelope with these durations, in ticks, and levels, or `None`
    /// unless every duration is positive and neither level is negative.
    pub fn new(
        attack_time: i64,
        decay_time: i64,
        release_time: i64,
        sustain_amplitude: i64,
        start_amplitude: i64,
    ) -> (r: Option<EnvelopeADSR>)
        ensures
            r is Some <==> (Adsr {
                attack_time: attack_time as int,
                decay_time: decay_time as int,
                release_time: release_time as int,
                sustain_amplitude: sustain_amplitude as int,
                start_amplitude: start_amplitude as int,
            }).inv(),
            r matches Some(envelope) ==> envelope@ == (Adsr {
                attack_time: attack_time as int,
                decay_time: decay_time as int,
                release_time: release_time as int,
                sustain_amplitude: sustain_amplitude as int,
                start_amplitude: start_amplitude as int,
            }),
    {
        if attack_time > 0 && decay_time > 0 && release_time > 0 && 0 <= sustain_amplitude
            && 0 <= start_amplitude {
            Some(
                EnvelopeADSR {
                    attack_time,
                    decay_time,
                    release_time,
                    sustain_amplitude,
                    start_amplitude,
                },
            )
        } else {
            None
        }
    }

    /// An envelope from parameters known to be in range.
    pub(crate) fn from_parts(
        attack_time: i64,
        decay_time: i64,
        release_time: i64,
        sustain_amplitude: i64,
        start_amplitude: i64,
    ) -> (r: EnvelopeADSR)
        requires
            (Adsr {
                attack_time: attack_time as int,
                decay_time: decay_time as int,
                release_time: release_time as int,
                sustain_amplitude: sustain_amplitude as int,
                start_amplitude: start_amplitude as int,
            }).inv(),
        ensures
            r@ == (Adsr {
                attack_time: attack_time as int,
                decay_time: decay_time as int,
                release_time: release_time as int,
                sustain_amplitude: sustain_amplitude as int,
                start_amplitude: start_amplitude as int,
            }),
    {
        EnvelopeADSR { attack_time, decay_time, release_time, sustain_amplitude, start_amplitude }
    }

    /// The level of a held note `life` ticks after note-on.
    fn level_at(&self, life: i128) -> (r: i64)
        requires
            -0x1_0000_0000_0000_0000 < life < 0x1_0000_0000_0000_0000,
        ensures
            r == self@.level_at(life as int),
            0 <= r <= self@.peak(),
            self@.inv(),
    {
        proof {
            use_type_invariant(self);
            lemma_level_bounds(self@, life as int);
        }
        let attack: i128 = self.attack_time as i128;
        let decay: i128 = self.decay_time as i128;
        let start: i128 = self.start_amplitude as i128;
        let sustain: i128 = self.sustain_amplitude as i128;
        if life < 0 {
            0
        } else if life <= attack {
            proof {
                lemma_portion_bounds(start as int, life as int, attack as int);
                assert(0 <= start * life <= i64::MAX * i64::MAX) by (nonlinear_arith)
                    requires
                        0 <= start <= i64::MAX,
                        0 <= life <= i64::MAX,
                ;
            }
            (start * life / attack) as i64
        } else if life <= attack + decay {
            let into: i128 = life - attack;
            if sustain >= start {
                let rise: i128 = sustain - start;
                proof {
                    lemma_portion_bounds(rise as int, into as int, decay as int);
                    assert(0 <= rise * into <= i64::MAX * i64::MAX) by (nonlinear_arith)
                        requires
                            0 <= rise <= i64::MAX,
                            0 <= into <= i64::MAX,
                    ;
                }
                (start + rise * into / decay) as i64
            } else {
                let fall: i128 = start - sustain;
                proof {
                    lemma_portion_bounds(fall as int, into as int, decay as int);
                    assert(0 <= fall * into <= i64::MAX * i64::MAX) by (nonlinear_arith)
                        requires
                            0 <= fall <= i64::MAX,
                            0 <= into <= i64::MAX,
                    ;
                }
                (start - fall * into / decay) as i64
            }
        } else {
            self.sustain_amplitude
        }
    }

    /// The envelope's amplitude at `time` for a note switched on at `on` and
    /// off at `off`, all in ticks. While `on > off` the note is held: the
    /// amplitude rises linearly to the start level over the attack, moves
    /// linearly to the sustain level over the decay, and holds. Otherwise the
    /// note is released: the amplitude lies on the straight line through the
    /// level the note had at `off` and zero one release time later, and is
    /// zero from there on. Asked before `off`, the line lies above that
    /// level, and is held at the top of the 64-bit range where it passes it.
    /// A level at or below [`EPSILON`] is exactly zero.
    pub fn amplitude(&self, time: i64, on: i64, off: i64) -> (r: i64)
        ensures
            r == self@.amplitude(time as int, on as int, off as int),
            0 <= r,
            r == 0 || r > EPSILON,
            Adsr::in_course(on > off, time as int, off as int) ==> r <= self@.peak(),
            self@.inv(),
    {
        proof {
            use_type_invariant(self);
            lemma_amplitude_bounds(self@, on > off, time as int, on as int, off as int);
        }
        self.gated(on > off, time, on, off)
    }

    /// The amplitude at `time` of a note that is held or not.
    fn gated(&self, held: bool, time: i64, on: i64, off: i64) -> (r: i64)
        ensures
            r == self@.gated_amplitude(held, time as int, on as int, off as int),
            0 <= r,
            r == 0 || r > EPSILON,
            Adsr::in_course(held, time as int, off as int) ==> r <= self@.peak(),
            self@.inv(),
    {
        proof {
            use_type_invariant(self);
            lemma_amplitude_bounds(self@, held, time as int, on as int, off as int);
        }
        let raw: i128 = if held {
            self.level_at(time as i128 - on as i128) as i128
        } else {
            let reached: i128 = self.level_at(off as i128 - on as i128) as i128;
            let elapsed: i128 = time as i128 - off as i128;
            let release: i128 = self.release_time as i128;
            if elapsed < 0 {
                proof {
                    lemma_portion_monotonic(reached as int, 0, -elapsed as int, release as int);
                    lemma_portion_bounds(reached as int, 0, release as int);
                    assert(0 <= reached * (-elapsed) <= i64::MAX * 0x1_0000_0000_0000_0000)
                        by (nonlinear_arith)
                        requires
                            0 <= reached <= i64::MAX,
                            0 <= -elapsed <= 0x1_0000_0000_0000_0000,
                    ;
                    vstd::arithmetic::div_mod::lemma_div_is_ordered_by_denominator(
                        reached * (-elapsed),
                        1,
                        release as int,
                    );
                    vstd::arithmetic::div_mod::lemma_div_basics(reached * (-elapsed));
                }
                reached + reached * (-elapsed) / release
            } else if elapsed >= release {
                0
            } else {
                proof {
                    lemma_portion_bounds(reached as int, elapsed as int, release as int);
                    assert(0 <= reached * elapsed <= i64::MAX * i64::MAX) by (nonlinear_arith)
                        requires
                            0 <= reached <= i64::MAX,
                            0 <= elapsed <= i64::MAX,
                    ;
                }
                reached - reached * elapsed / release
            }
        };
        if raw <= EPSILON as i128 {
            0
        } else if raw > i64::MAX as i128 {
            i64::MAX
        } else {
            raw as i64
        }
    }

    /// Ticks from note-on to the start level.
    pub fn attack_time(&self) -> (r: i64)
        ensures
            r == self@.attack_time,
    {
        self.attack_time
    }

    /// Ticks from the start level to the sustain level.
    pub fn decay_time(&self) -> (r: i64)
        ensures
            r == self@.decay_time,
    {
        self.decay_time
    }

    /// Ticks from note-off to silence.
    pub fn release_time(&self) -> (r: i64)
        ensures
            r == self@.release_time,
    {
        self.release_time
    }

    /// Level held while the note stays on.
    pub fn sustain_amplitude(&self) -> (r: i64)
        ensures
            r == self@.sustain_amplitude,
    {
        self.sustain_amplitude
    }

    /// Level reached at the end of the attack.
    pub fn start_amplitude(&self) -> (r: i64)
        ensures
            r == self@.start_amplitude,
    {
        self.start_amplitude
    }
}

/// A single voice's envelope as a mathematical value: the parameters and
/// the last trigger.
pub struct GateState {
    /// The envelope's parameters.
    pub envelope: Adsr,
    /// Instant of the last note-on.
    pub trigger_on_time: int,
    /// Instant of the last note-off.
    pub trigger_off_time: int,
    /// Whether the note is held.
    pub note_on: bool,
}

impl GateState {
    /// The voice's amplitude at `time`.
    pub open spec fn amplitude(self, time: int) -> int {
        self.envelope.gated_amplitude(
            self.note_on,
            time,
            self.trigger_on_time,
            self.trigger_off_time,
        )
    }
}

/// An envelope that remembers when its one voice was switched on and off.
#[derive(Clone, Copy, Debug)]
pub struct GatedEnvelope {
    envelope: EnvelopeADSR,
    trigger_on_time: i64,
    trigger_off_time: i64,
    note_on: bool,
}

impl View for GatedEnvelope {
    type V = GateState;

    closed spec fn view(&self) -> GateState {
        GateState {
            envelope: self.envelope@,
            trigger_on_time: self.trigger_on_time as int,
            trigger_off_time: self.trigger_off_time as int,
            note_on: self.note_on,
        }
    }
}

impl GatedEnvelope {
    /// A voice with this envelope that was never switched on: it is silent
    /// until the first note-on.
    pub fn new(envelope: EnvelopeADSR) -> (r: GatedEnvelope)
        ensures
            r@ == (GateState {
                envelope: envelope@,
                trigger_on_time: 0,
                trigger_off_time: 0,
                note_on: false,
            }),
    {
        GatedEnvelope { envelope, trigger_on_time: 0, trigger_off_time: 0, note_on: false }
    }

    /// Switches the note on at `time_on`: the attack starts there.
    pub fn note_on(&mut self, time_on: i64)
        ensures
            final(self)@ == (GateState {
                trigger_on_time: time_on as int,
                note_on: true,
                ..old(self)@
            }),
    {
        self.trigger_on_time = time_on;
        self.note_on = true;
    }

    /// Switches the note off at `time_off`: the release starts there, from
    /// the level the note has reached.
    pub fn note_off(&mut self, time_off: i64)
        ensures
            final(self)@ == (GateState {
                trigger_off_time: time_off as int,
                note_on: false,
                ..old(self)@
            }),
    {
        self.trigger_off_time = time_off;
        self.note_on = false;
    }

    /// The voice's amplitude at `time`: the held law since the last note-on
    /// while the note is on, else the release line through the level reached
    /// at the last note-off.
    pub fn get_amplitude(&self, time: i64) -> (r: i64)
        ensures
            r == self@.amplitude(time as int),
            0 <= r,
            r == 0 || r > EPSILON,
            Adsr::in_course(self@.note_on, time as int, self@.trigger_off_time) ==> r
                <= self@.envelope.peak(),
            self@.envelope.inv(),
    {
        self.envelope.gated(self.note_on, time, self.trigger_on_time, self.trigger_off_time)
    }
}

} // verus!
