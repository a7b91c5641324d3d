//! Notes and instruments: a timbre is a weighted sum of oscillator calls,
//! shaped by one envelope and scaled by a volume.

use vstd::prelude::*;
use crate::envelope::{Adsr, EnvelopeADSR};
use crate::fixed::{saturate, saturate_spec, toward_zero, MAX_LEVEL, UNITY};
use crate::oscillator::{pure_bank, OscCall, OscType};

verus! {

/// Most oscillator calls one instrument may sum.
pub const MAX_PARTIALS: usize = 8;

/// Largest magnitude one voice's sample can take while its amplitude is at
/// most `MAX_LEVEL`.
pub const MAX_SOUND: i64 = 17_179_869_184_000_000;

/// A sounding event: which key, when it went down and up, and whether it
/// still counts.
#[derive(Clone, Copy, Debug, PartialEq, Eq, Structural)]
pub struct Note {
    /// The key that triggered the note.
    pub id: i32,
    /// Instant the key went down, in ticks.
    pub on: i64,
    /// Instant the key went up, in ticks. The note is held while `on > off`.
    pub off: i64,
    /// Cleared once the note has fully decayed after release.
    pub active: bool,
}

impl Default for Note {
    /// Key zero, never pressed, not active.
    fn default() -> (r: Note)
        ensures
            r == (Note { id: 0, on: 0, off: 0, active: false }),
    {
        Note { id: 0, on: 0, off: 0, active: false }
    }
}

/// The named timbres.
#[derive(Clone, Copy, Debug, PartialEq, Eq, Structural)]
pub enum InstrumentType {
    /// Square waves with a little noise, slow attack.
    Harmonica,
    /// Sines an octave up, decaying to silence.
    Bell,
    /// Sines at the played pitch, decaying to a sustain.
    Bell8,
}

/// One oscillator call of a timbre.
#[derive(Clone, Copy, Debug, PartialEq, Eq, Structural)]
pub struct Partial {
    /// Weight in the sum, in millionths.
    pub weight: i64,
    /// Semitones above the note's pitch.
    pub semitones: i32,
    /// Waveform.
    pub osc_type: OscType,
    /// Vibrato frequency in hertz.
    pub lfo_hertz: u32,
    /// Vibrato depth in millionths.
    pub lfo_amplitude: u32,
}

/// An instrument as a mathematical value.
pub struct Timbre {
    /// Which of the named timbres this is.
    pub instrument_type: InstrumentType,
    /// Overall scale of the voice, in millionths.
    pub volume: int,
    /// The envelope's parameters.
    pub envelope: Adsr,
    /// The oscillator calls that are summed.
    pub partials: Seq<Partial>,
}

impl Timbre {
    /// What holds of every instrument: a valid envelope; envelope levels, a
    /// volume and weights within `0..=MAX_LEVEL`; and no more than
    /// `MAX_PARTIALS` partials.
    pub open spec fn inv(self) -> bool {
        &&& self.envelope.inv()
        &&& self.envelope.peak() <= MAX_LEVEL
        &&& 0 <= self.volume <= MAX_LEVEL
        &&& self.partials.len() <= MAX_PARTIALS
        &&& forall|k: int|
            0 <= k < self.partials.len() ==> 0 <= (#[trigger] self.partials[k]).weight
                <= MAX_LEVEL
    }

    /// The partials of a named timbre: carrier, octave and a higher overtone.
    pub open spec fn preset_partials(instrument_type: InstrumentType) -> Seq<Partial> {
        match instrument_type {
            InstrumentType::Harmonica => seq![
                Partial {
                    weight: 1_000_000,
                    semitones: 0,
                    osc_type: OscType::SquareWave,
                    lfo_hertz: 5,
                    lfo_amplitude: 1_000,
                },
                Partial {
                    weight: 500_000,
                    semitones: 12,
                    osc_type: OscType::SquareWave,
                    lfo_hertz: 0,
                    lfo_amplitude: 0,
                },
                Partial {
                    weight: 50_000,
                    semitones: 24,
                    osc_type: OscType::RandomNoise,
                    lfo_hertz: 0,
                    lfo_amplitude: 0,
                },
            ],
            InstrumentType::Bell => seq![
                Partial {
                    weight: 1_000_000,
                    semitones: 12,
                    osc_type: OscType::SineWave,
                    lfo_hertz: 5,
                    lfo_amplitude: 1_000,
                },
                Partial {
                    weight: 500_000,
                    semitones: 24,
                    osc_type: OscType::SineWave,
                    lfo_hertz: 0,
                    lfo_amplitude: 0,
                },
                Partial {
                    weight: 250_000,
                    semitones: 36,
                    osc_type: OscType::SineWave,
                    lfo_hertz: 0,
                    lfo_amplitude: 0,
                },
            ],
            InstrumentType::Bell8 => seq![
                Partial {
                    weight: 1_000_000,
                    semitones: 0,
                    osc_type: OscType::SineWave,
                    lfo_hertz: 5,
                    lfo_amplitude: 1_000,
                },
                Partial {
                    weight: 500_000,
                    semitones: 12,
                    osc_type: OscType::SineWave,
                    lfo_hertz: 0,
                    lfo_amplitude: 0,
                },
                Partial {
                    weight: 250_000,
                    semitones: 24,
                    osc_type: OscType::SineWave,
                    lfo_hertz: 0,
                    lfo_amplitude: 0,
                },
            ],
        }
    }

    /// The envelope of a named timbre. Durations not named here are a
    /// hundredth of a second; the sustain is `0.8` but for the bell, which
    /// decays to silence; the start level is `1.0`.
    pub open spec fn preset_envelope(instrument_type: InstrumentType) -> Adsr {
        match instrument_type {
            InstrumentType::Harmonica => Adsr {
                attack_time: 100_000_000,
                decay_time: 10_000_000,
                release_time: 200_000_000,
                sustain_amplitude: 800_000,
                start_amplitude: 1_000_000,
            },
            InstrumentType::Bell => Adsr {
                attack_time: 10_000_000,
                decay_time: 1_000_000_000,
                release_time: 1_000_000_000,
                sustain_amplitude: 0,
                start_amplitude: 1_000_000,
            },
            InstrumentType::Bell8 => Adsr {
                attack_time: 10_000_000,
                decay_time: 500_000_000,
                release_time: 1_000_000_000,
                sustain_amplitude: 800_000,
                start_amplitude: 1_000_000,
            },
        }
    }

    /// The named timbre: its partials and envelope at full volume.
    pub open spec fn preset(instrument_type: InstrumentType) -> Timbre {
        Timbre {
            instrument_type,
            volume: UNITY as int,
            envelope: Self::preset_envelope(instrument_type),
            partials: Self::preset_partials(instrument_type),
        }
    }

    /// The request that partial `k` makes of the oscillator bank for `note`
    /// at `time`.
    pub open spec fn osc_call(self, k: int, time: i64, note: Note) -> OscCall {
        OscCall {
            pitch: (note.id + self.partials[k].semitones) as i64,
            note_on: note.on,
            time,
            osc_type: self.partials[k].osc_type,
            lfo_hertz: self.partials[k].lfo_hertz,
            lfo_amplitude: self.partials[k].lfo_amplitude,
        }
    }

    /// Whether `values` are answers the oscillator bank `osc` can give to
    /// this timbre's requests for `note` at `time`, one per partial.
    pub open spec fn heard<F: Fn(OscCall) -> i32>(
        self,
        osc: F,
        time: i64,
        note: Note,
        values: Seq<i32>,
    ) -> bool {
        &&& values.len() == self.partials.len()
        &&& forall|k: int|
            0 <= k < self.partials.len() ==> call_ensures(
                osc,
                (self.osc_call(k, time, note),),
                #[trigger] values[k],
            )
    }

    /// The weighted sum of the first `count` oscillator values.
    pub open spec fn weighted_sum(self, values: Seq<i32>, count: nat) -> int
        decreases count,
    {
        if count == 0 {
            0
        } else {
            self.weighted_sum(values, (count - 1) as nat) + self.partials[count - 1].weight
                * values[count - 1]
        }
    }

    /// The envelope's amplitude for `note` at `time`.
    pub open spec fn amplitude(self, time: i64, note: Note) -> int {
        self.envelope.amplitude(time as int, note.on as int, note.off as int)
    }

    /// Whether `note` has decayed to silence at `time`.
    pub open spec fn finished(self, time: i64, note: Note) -> bool {
        self.amplitude(time, note) <= 0
    }

    /// Whether `note` is asked at `time` within its life as it was played:
    /// it is held, or the instant is not before its note-off.
    pub open spec fn in_course(time: i64, note: Note) -> bool {
        Adsr::in_course(note.on > note.off, time as int, note.off as int)
    }

    /// The voice's sample: the envelope's amplitude times the weighted sum of
    /// the oscillator values times the volume, in millionths, rounded toward
    /// zero and held within 64 bits.
    pub open spec fn sample(self, time: i64, note: Note, values: Seq<i32>) -> int {
        saturate_spec(
            toward_zero(
                self.amplitude(time, note) * self.weighted_sum(values, self.partials.len())
                    * self.volume,
                UNITY * UNITY * UNITY,
            ),
        )
    }
}

/// The named timbres are instruments.
pub proof fn lemma_preset_is_valid(instrument_type: InstrumentType)
    ensures
        Timbre::preset(instrument_type).inv(),
        Timbre::preset(instrument_type).partials.len() == 3,
{
}

/// A pure oscillator bank makes a pure voice: for a fixed note and instant
/// the bank's answers, and with them the sample, are the same at every call.
pub proof fn lemma_pure_bank_gives_one_sample<F: Fn(OscCall) -> i32>(
    timbre: Timbre,
    osc: F,
    time: i64,
    note: Note,
    a: Seq<i32>,
    b: Seq<i32>,
)
    requires
        pure_bank(osc),
        timbre.heard(osc, time, note, a),
        timbre.heard(osc, time, note, b),
    ensures
        a == b,
        timbre.sample(time, note, a) == timbre.sample(time, note, b),
{
    assert forall|k: int| 0 <= k < a.len() implies a[k] == b[k] by {
        assert(call_ensures(osc, (timbre.osc_call(k, time, note),), a[k]));
        assert(call_ensures(osc, (timbre.osc_call(k, time, note),), b[k]));
    }
    assert(a =~= b);
}

/// The weighted sum of the first `count` values looks at no later value.
pub proof fn lemma_weighted_sum_prefix(timbre: Timbre, a: Seq<i32>, b: Seq<i32>, count: nat)
    requires
        count <= a.len(),
        count <= b.len(),
        forall|k: int| 0 <= k < count ==> a[k] == b[k],
    ensures
        timbre.weighted_sum(a, count) == timbre.weighted_sum(b, count),
    decreases count,
{
    if count > 0 {
        lemma_weighted_sum_prefix(timbre, a, b, (count - 1) as nat);
    }
}

/// Each partial adds at most `MAX_LEVEL` times the largest oscillator value.
pub proof fn lemma_weighted_sum_bounds(timbre: Timbre, values: Seq<i32>, count: nat)
    requires
        timbre.inv(),
        count <= timbre.partials.len(),
        count <= values.len(),
    ensures
        -(count * (MAX_LEVEL * 0x8000_0000)) <= timbre.weighted_sum(values, count) <= count * (
        MAX_LEVEL * 0x8000_0000),
    decreases count,
{
    if count > 0 {
        lemma_weighted_sum_bounds(timbre, values, (count - 1) as nat);
        let w = timbre.partials[count - 1].weight as int;
        let v = values[count - 1] as int;
        assert(-(MAX_LEVEL * 0x8000_0000) <= w * v <= MAX_LEVEL * 0x8000_0000)
            by (nonlinear_arith)
            requires
                0 <= w <= MAX_LEVEL,
                -0x8000_0000 <= v <= 0x8000_0000,
        ;
        assert(count * (MAX_LEVEL * 0x8000_0000) == (count - 1) * (MAX_LEVEL * 0x8000_0000)
            + MAX_LEVEL * 0x8000_0000) by (nonlinear_arith);
    }
}

/// An instrument: an immutable timbre shared by all notes that use it.
pub struct Instrument {
    instrument_type: InstrumentType,
    volume: i64,
    envelope: EnvelopeADSR,
    partials: Vec<Partial>,
}

impl View for Instrument {
    type V = Timbre;

    closed spec fn view(&self) -> Timbre {
        Timbre {
            instrument_type: self.instrument_type,
            volume: self.volume as int,
            envelope: self.envelope@,
            partials: self.partials@,
        }
    }
}

impl Instrument {
    #[verifier::type_invariant]
    spec fn valid(&self) -> bool {
        self@.inv()
    }

    /// The named timbre.
    pub fn new(instrument_type: InstrumentType) -> (r: Instrument)
        ensures
            r@ == Timbre::preset(instrument_type),
            r@.inv(),
    {
        let envelope = match instrument_type {
            InstrumentType::Harmonica => EnvelopeADSR::from_parts(
                100_000_000,
                10_000_000,
                200_000_000,
                800_000,
                1_000_000,
            ),
            InstrumentType::Bell => EnvelopeADSR::from_parts(
                10_000_000,
                1_000_000_000,
                1_000_000_000,
                0,
                1_000_000,
            ),
            InstrumentType::Bell8 => EnvelopeADSR::from_parts(
                10_000_000,
                500_000_000,
                1_000_000_000,
                800_000,
                1_000_000,
            ),
        };
        let (wave, octave): (OscType, i32) = match instrument_type {
            InstrumentType::Harmonica => (OscType::SquareWave, 0),
            InstrumentType::Bell => (OscType::SineWave, 12),
            InstrumentType::Bell8 => (OscType::SineWave, 0),
        };
        let overtone = match instrument_type {
            InstrumentType::Harmonica => Partial {
                weight: 50_000,
                semitones: 24,
                osc_type: OscType::RandomNoise,
                lfo_hertz: 0,
                lfo_amplitude: 0,
            },
            InstrumentType::Bell => Partial {
                weight: 250_000,
                semitones: 36,
                osc_type: OscType::SineWave,
                lfo_hertz: 0,
                lfo_amplitude: 0,
            },
            InstrumentType::Bell8 => Partial {
                weight: 250_000,
                semitones: 24,
                osc_type: OscType::SineWave,
                lfo_hertz: 0,
                lfo_amplitude: 0,
            },
        };
        let mut partials: Vec<Partial> = Vec::new();
        partials.push(
            Partial {
                weight: 1_000_000,
                semitones: octave,
                osc_type: wave,
                lfo_hertz: 5,
                lfo_amplitude: 1_000,
            },
        );
        partials.push(
            Partial {
                weight: 500_000,
                semitones: octave + 12,
                osc_type: wave,
                lfo_hertz: 0,
                lfo_amplitude: 0,
            },
        );
        partials.push(overtone);
        proof {
            lemma_preset_is_valid(instrument_type);
            assert(partials@ =~= Timbre::preset_partials(instrument_type));
        }
        Instrument { instrument_type, volume: UNITY, envelope, partials }
    }

    /// Which of the named timbres this is.
    pub fn instrument_type(&self) -> (r: InstrumentType)
        ensures
            r == self@.instrument_type,
    {
        self.instrument_type
    }

    /// Overall scale of the voice, in millionths.
    pub fn volume(&self) -> (r: i64)
        ensures
            r == self@.volume,
    {
        self.volume
    }

    /// The envelope.
    pub fn envelope(&self) -> (r: EnvelopeADSR)
        ensures
            r@ == self@.envelope,
    {
        self.envelope
    }

    /// Number of oscillator calls in the sum.
    pub fn partial_count(&self) -> (r: usize)
        ensures
            r == self@.partials.len(),
            r <= MAX_PARTIALS,
    {
        proof {
            use_type_invariant(self);
        }
        self.partials.len()
    }

    /// The oscillator call at `index`, if there is one.
    pub fn partial(&self, index: usize) -> (r: Option<Partial>)
        ensures
            r is Some <==> index < self@.partials.len(),
            r matches Some(partial) ==> partial == self@.partials[index as int],
    {
        if index < self.partials.len() {
            Some(self.partials[index])
        } else {
            None
        }
    }

    /// The voice of `note` at `time`: the sample, and whether the note has
    /// decayed to silence. The oscillator bank `osc` is asked once per
    /// partial, in order, at the pitch of the note raised by the partial's
    /// semitones; the sample is the envelope's amplitude times the weighted
    /// sum of the answers times the volume.
    pub fn sound<F: Fn(OscCall) -> i32>(&self, time: i64, note: Note, osc: &F) -> (r: (i64, bool))
        requires
            forall|call: OscCall| call_requires(*osc, (call,)),
        ensures
            r.1 == self@.finished(time, note),
            exists|values: Seq<i32>| #[trigger]
                self@.heard(*osc, time, note, values) && r.0 == self@.sample(time, note, values),
            Timbre::in_course(time, note) ==> -MAX_SOUND <= r.0 <= MAX_SOUND,
            self@.finished(time, note) ==> r.0 == 0,
            self@.inv(),
    {
        proof {
            use_type_invariant(self);
        }
        let amplitude: i64 = self.envelope.amplitude(time, note.on, note.off);
        let note_finished: bool = amplitude <= 0;
        let count: usize = self.partials.len();
        let ghost mut values: Seq<i32> = Seq::empty();
        let mut sum: i64 = 0;
        let mut k: usize = 0;
        while k < count
            invariant
                k <= count,
                count == self.partials.len(),
                self@.inv(),
                values.len() == k,
                sum == self@.weighted_sum(values, k as nat),
                forall|call: OscCall| call_requires(*osc, (call,)),
                forall|j: int|
                    0 <= j < k ==> call_ensures(
                        *osc,
                        (self@.osc_call(j, time, note),),
                        #[trigger] values[j],
                    ),
            decreases count - k,
        {
            let partial: Partial = self.partials[k];
            let call = OscCall {
                pitch: note.id as i64 + partial.semitones as i64,
                note_on: note.on,
                time,
                osc_type: partial.osc_type,
                lfo_hertz: partial.lfo_hertz,
                lfo_amplitude: partial.lfo_amplitude,
            };
            assert(call == self@.osc_call(k as int, time, note));
            let value: i32 = osc(call);
            proof {
                let extended = values.push(value);
                lemma_weighted_sum_prefix(self@, values, extended, k as nat);
                lemma_weighted_sum_bounds(self@, extended, (k + 1) as nat);
                assert((k + 1) * (MAX_LEVEL * 0x8000_0000) <= 8 * (MAX_LEVEL * 0x8000_0000))
                    by (nonlinear_arith)
                    requires
                        k + 1 <= 8,
                ;
                assert(MAX_LEVEL * 0x8000_0000 == 214_748_364_800_000_000);
                lemma_weighted_sum_bounds(self@, values, k as nat);
                assert(k * (MAX_LEVEL * 0x8000_0000) <= 8 * (MAX_LEVEL * 0x8000_0000))
                    by (nonlinear_arith)
                    requires
                        k <= 8,
                ;
                let w = partial.weight as int;
                let v = value as int;
                assert(-(MAX_LEVEL * 0x8000_0000) <= w * v <= MAX_LEVEL * 0x8000_0000)
                    by (nonlinear_arith)
                    requires
                        0 <= w <= MAX_LEVEL,
                        -0x8000_0000 <= v <= 0x8000_0000,
                ;
                values = extended;
            }
            sum = sum + partial.weight * (value as i64);
            k = k + 1;
        }
        proof {
            lemma_weighted_sum_bounds(self@, values, count as nat);
            assert(count * (MAX_LEVEL * 0x8000_0000) <= 8 * (MAX_LEVEL * 0x8000_0000))
                by (nonlinear_arith)
                requires
                    count <= 8,
            ;
            assert(self@.heard(*osc, time, note, values));
        }
        let sample: i64 = scale_voice(amplitude, sum, self.volume);
        (sample, note_finished)
    }
}

/// Dividing a product by `d` may be done on the quotient and the remainder
/// of one factor apart.
proof fn lemma_split_division(a: int, p: int, d: int)
    requires
        a >= 0,
        p >= 0,
        d > 0,
    ensures
        (a * p) / d == a * (p / d) + (a * (p % d)) / d,
        0 <= p % d < d,
        0 <= p / d <= p,
{
    let whole = p / d;
    let rest = p % d;
    vstd::arithmetic::div_mod::lemma_fundamental_div_mod(p, d);
    vstd::arithmetic::div_mod::lemma_mod_bound(p, d);
    vstd::arithmetic::div_mod::lemma_div_pos_is_pos(p, d);
    vstd::arithmetic::div_mod::lemma_div_is_ordered_by_denominator(p, 1, d);
    vstd::arithmetic::div_mod::lemma_div_basics(p);
    let x = a * rest;
    assert(x >= 0) by (nonlinear_arith)
        requires
            x == a * rest,
            a >= 0,
            rest >= 0,
    ;
    vstd::arithmetic::div_mod::lemma_fundamental_div_mod(x, d);
    vstd::arithmetic::div_mod::lemma_mod_bound(x, d);
    assert(a * p == (a * whole + x / d) * d + x % d) by (nonlinear_arith)
        requires
            p == d * whole + rest,
            x == a * rest,
            x == d * (x / d) + x % d,
    ;
    vstd::arithmetic::div_mod::lemma_fundamental_div_mod_converse(
        a * p,
        d,
        a * whole + x / d,
        x % d,
    );
}

/// `amplitude * sum * volume` in millionths, rounded toward zero and held
/// within 64 bits.
fn scale_voice(amplitude: i64, sum: i64, volume: i64) -> (r: i64)
    requires
        0 <= amplitude,
        0 <= volume <= MAX_LEVEL,
        -(8 * (MAX_LEVEL * 0x8000_0000)) <= sum <= 8 * (MAX_LEVEL * 0x8000_0000),
    ensures
        r == saturate_spec(toward_zero(amplitude * sum * volume, UNITY * UNITY * UNITY)),
        amplitude <= MAX_LEVEL ==> -MAX_SOUND <= r <= MAX_SOUND,
        amplitude == 0 ==> r == 0,
{
    let cube: i128 = 1_000_000_000_000_000_000;
    let magnitude: i128 = if sum >= 0 {
        sum as i128
    } else {
        -(sum as i128)
    };
    proof {
        assert(UNITY * UNITY * UNITY == cube) by (nonlinear_arith)
            requires
                UNITY == 1_000_000,
                cube == 1_000_000_000_000_000_000,
        ;
        assert(0 <= magnitude * volume <= 171_798_691_840_000_000_000_000_000)
            by (nonlinear_arith)
            requires
                0 <= magnitude <= 8 * (100_000_000 * 0x8000_0000),
                0 <= volume <= 100_000_000,
        ;
    }
    let spread: i128 = magnitude * volume as i128;
    let whole: i128 = spread / cube;
    let rest: i128 = spread % cube;
    proof {
        lemma_split_division(amplitude as int, spread as int, cube as int);
        assert(whole <= 171_798_691);
        assert(0 <= amplitude * whole <= 0x8000_0000_0000_0000 * 171_798_691) by (nonlinear_arith)
            requires
                0 <= amplitude <= 0x8000_0000_0000_0000,
                0 <= whole <= 171_798_691,
        ;
        assert(0 <= amplitude * rest <= 0x8000_0000_0000_0000 * 1_000_000_000_000_000_000)
            by (nonlinear_arith)
            requires
                0 <= amplitude <= 0x8000_0000_0000_0000,
                0 <= rest <= 1_000_000_000_000_000_000,
        ;
        vstd::arithmetic::div_mod::lemma_div_pos_is_pos(amplitude * rest, cube as int);
        vstd::arithmetic::div_mod::lemma_div_is_ordered_by_denominator(
            amplitude * rest,
            1,
            cube as int,
        );
        vstd::arithmetic::div_mod::lemma_div_basics(amplitude * rest);
        // the product as the contract writes it
        assert(amplitude * magnitude * volume == amplitude * spread) by (nonlinear_arith)
            requires
                spread == magnitude * volume,
        ;
        assert(amplitude * spread >= 0) by (nonlinear_arith)
            requires
                amplitude >= 0,
                spread >= 0,
        ;
        if sum < 0 {
            assert(amplitude * sum * volume == -(amplitude * magnitude * volume))
                by (nonlinear_arith)
                requires
                    magnitude == -sum,
            ;
        }
        if amplitude <= MAX_LEVEL {
            assert(amplitude * spread <= 100_000_000 * 171_798_691_840_000_000_000_000_000)
                by (nonlinear_arith)
                requires
                    0 <= amplitude <= 100_000_000,
                    0 <= spread <= 171_798_691_840_000_000_000_000_000,
            ;
            vstd::arithmetic::div_mod::lemma_div_is_ordered(
                amplitude * spread,
                100_000_000int * 171_798_691_840_000_000_000_000_000int,
                cube as int,
            );
        }
        if amplitude == 0 {
            assert(amplitude * spread == 0) by (nonlinear_arith)
                requires
                    amplitude == 0,
            ;
        }
    }
    let scaled: i128 = amplitude as i128 * whole + amplitude as i128 * rest / cube;
    if sum >= 0 {
        saturate(scaled)
    } else {
        saturate(-scaled)
    }
}

} // verus!
