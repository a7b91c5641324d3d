use noise_maker::envelope::{EnvelopeADSR, GatedEnvelope, EPSILON};
use noise_maker::fixed::MAX_LEVEL;

const SECOND: i64 = 1_000_000_000;
const MS: i64 = 1_000_000;

fn boundary_envelope() -> EnvelopeADSR {
    // attack 0.1 s, decay 0.01 s, release 0.02 s, sustain 0.8, start 1.0
    EnvelopeADSR::new(100 * MS, 10 * MS, 20 * MS, 800_000, 1_000_000).unwrap()
}

#[test]
fn envelope_is_silent_at_note_on() {
    let envelope = boundary_envelope();
    assert_eq!(envelope.amplitude(0, 0, -1), 0);
}

#[test]
fn envelope_reaches_start_level_at_end_of_attack() {
    let envelope = boundary_envelope();
    assert_eq!(envelope.amplitude(100 * MS, 0, -1), 1_000_000);
}

#[test]
fn envelope_sits_on_sustain_plateau() {
    let envelope = boundary_envelope();
    assert_eq!(envelope.amplitude(200 * MS, 0, -1), 800_000);
    assert_eq!(envelope.amplitude(110 * MS, 0, -1), 800_000);
    assert_eq!(envelope.amplitude(5 * SECOND, 0, -1), 800_000);
}

#[test]
fn envelope_attack_is_linear() {
    let envelope = boundary_envelope();
    assert_eq!(envelope.amplitude(25 * MS, 0, -1), 250_000);
    assert_eq!(envelope.amplitude(50 * MS, 0, -1), 500_000);
    assert_eq!(envelope.amplitude(75 * MS, 0, -1), 750_000);
    // one third of the way, rounded toward zero
    assert_eq!(envelope.amplitude(33_333_333, 0, -1), 333_333);
}

#[test]
fn envelope_decay_is_linear() {
    let envelope = boundary_envelope();
    assert_eq!(envelope.amplitude(105 * MS, 0, -1), 900_000);
    assert_eq!(envelope.amplitude(102 * MS, 0, -1), 960_000);
}

#[test]
fn envelope_decay_may_rise_to_a_higher_sustain() {
    let envelope = EnvelopeADSR::new(10 * MS, 10 * MS, 10 * MS, 1_000_000, 500_000).unwrap();
    assert_eq!(envelope.amplitude(10 * MS, 0, -1), 500_000);
    assert_eq!(envelope.amplitude(15 * MS, 0, -1), 750_000);
    assert_eq!(envelope.amplitude(20 * MS, 0, -1), 1_000_000);
}

#[test]
fn envelope_depends_on_elapsed_time_only() {
    let envelope = boundary_envelope();
    let shift = 7 * SECOND;
    for t in [0, 3 * MS, 50 * MS, 100 * MS, 104 * MS, 300 * MS] {
        assert_eq!(envelope.amplitude(t, 0, -1), envelope.amplitude(t + shift, shift, shift - 1));
        assert_eq!(
            envelope.amplitude(t + 200 * MS, 0, 200 * MS),
            envelope.amplitude(t + 200 * MS + shift, shift, 200 * MS + shift)
        );
    }
}

#[test]
fn envelope_before_note_on_is_silent() {
    let envelope = boundary_envelope();
    assert_eq!(envelope.amplitude(5 * MS, 10 * MS, 0), 0);
}

#[test]
fn release_starts_from_the_level_reached() {
    let envelope = boundary_envelope();
    // released on the sustain plateau
    assert_eq!(envelope.amplitude(200 * MS, 0, 200 * MS), 800_000);
    assert_eq!(envelope.amplitude(210 * MS, 0, 200 * MS), 400_000);
    assert_eq!(envelope.amplitude(215 * MS, 0, 200 * MS), 200_000);
    // released half way up the attack
    assert_eq!(envelope.amplitude(50 * MS, 0, 50 * MS), 500_000);
    assert_eq!(envelope.amplitude(60 * MS, 0, 50 * MS), 250_000);
}

#[test]
fn release_reaches_zero_by_release_time() {
    let envelope = boundary_envelope();
    assert_eq!(envelope.amplitude(220 * MS, 0, 200 * MS), 0);
    assert_eq!(envelope.amplitude(221 * MS, 0, 200 * MS), 0);
    assert_eq!(envelope.amplitude(i64::MAX, 0, 200 * MS), 0);
}

#[test]
fn release_never_rises() {
    let envelope = boundary_envelope();
    let off = 200 * MS;
    let mut last = envelope.amplitude(off - 5 * MS, 0, off);
    let mut t = off - 5 * MS;
    while t <= off + 25 * MS {
        let now = envelope.amplitude(t, 0, off);
        assert!(now <= last, "amplitude rose at {}", t);
        last = now;
        t += 250_000;
    }
    assert_eq!(last, 0);
}

#[test]
fn release_line_lies_above_the_level_reached_before_note_off() {
    let envelope = boundary_envelope();
    // released on the plateau at 0.8, release of 20 ms: 50 ms early is 2.5 releases
    assert_eq!(envelope.amplitude(150 * MS, 0, 200 * MS), 2_800_000);
    // one release early the level is twice the one reached
    assert_eq!(envelope.amplitude(180 * MS, 0, 200 * MS), 1_600_000);
    assert_eq!(envelope.amplitude(199 * MS, 0, 200 * MS), 840_000);
    // and it meets the level reached at note-off
    assert_eq!(envelope.amplitude(200 * MS, 0, 200 * MS), 800_000);
}

#[test]
fn release_asked_before_note_off_follows_the_ramp() {
    // attack 0.1 s, decay 0.01 s, release 0.2 s; on at 0, off at 0.05 s
    let envelope = EnvelopeADSR::new(100 * MS, 10 * MS, 200 * MS, 800_000, 1_000_000).unwrap();
    // the note reached 0.5; a quarter of a release early the line is at 0.625
    assert_eq!(envelope.amplitude(0, 0, 50 * MS), 625_000);
    assert_eq!(envelope.amplitude(50 * MS, 0, 50 * MS), 500_000);
    assert_eq!(envelope.amplitude(150 * MS, 0, 50 * MS), 250_000);
    assert_eq!(envelope.amplitude(250 * MS, 0, 50 * MS), 0);
}

#[test]
fn release_line_is_held_at_the_top_of_the_range() {
    let envelope = EnvelopeADSR::new(i64::MAX, i64::MAX, 1, MAX_LEVEL, MAX_LEVEL).unwrap();
    // reached 100.0, and 2^64 - 1 releases early
    assert_eq!(envelope.amplitude(i64::MIN, 0, i64::MAX), i64::MAX);
    // a silent note stays silent however early it is asked
    assert_eq!(envelope.amplitude(i64::MIN, i64::MAX, i64::MAX), 0);
}

#[test]
fn levels_at_or_below_epsilon_are_zero() {
    let envelope = boundary_envelope();
    assert_eq!(EPSILON, 100);
    // attack: 1e6 * life / 1e8 = life / 100
    assert_eq!(envelope.amplitude(10_000, 0, -1), 0);
    assert_eq!(envelope.amplitude(10_099, 0, -1), 0);
    assert_eq!(envelope.amplitude(10_100, 0, -1), 101);
    // release from 0.8 over 20 ms
    assert_eq!(envelope.amplitude(200 * MS + 19_997_499, 0, 200 * MS), 101);
    assert_eq!(envelope.amplitude(200 * MS + 19_997_500, 0, 200 * MS), 0);
}

#[test]
fn note_with_equal_instants_counts_as_released() {
    let envelope = boundary_envelope();
    assert_eq!(envelope.amplitude(0, 0, 0), 0);
    assert_eq!(envelope.amplitude(50 * MS, 0, 0), 0);
}

#[test]
fn amplitude_takes_the_extremes_of_time() {
    let envelope = boundary_envelope();
    assert_eq!(envelope.amplitude(i64::MAX, i64::MIN, i64::MIN), 0);
    assert_eq!(envelope.amplitude(i64::MAX, i64::MIN + 1, i64::MIN), 800_000);
    assert_eq!(envelope.amplitude(i64::MIN, i64::MAX, 0), 0);
    // 0.8 and 2^64 - 1 ticks early, on a release of 20 ms
    assert_eq!(envelope.amplitude(i64::MIN, 0, i64::MAX), 737_869_762_949_182_064);
}

#[test]
fn default_envelope_has_the_stock_parameters() {
    let envelope = EnvelopeADSR::default();
    assert_eq!(envelope.attack_time(), 10 * MS);
    assert_eq!(envelope.decay_time(), 10 * MS);
    assert_eq!(envelope.release_time(), 20 * MS);
    assert_eq!(envelope.sustain_amplitude(), 800_000);
    assert_eq!(envelope.start_amplitude(), 1_000_000);
    assert_eq!(envelope.amplitude(10 * MS, 0, -1), 1_000_000);
    assert_eq!(envelope.amplitude(20 * MS, 0, -1), 800_000);
}

#[test]
fn envelope_rejects_parameters_out_of_range() {
    assert!(EnvelopeADSR::new(0, 1, 1, 0, 0).is_none());
    assert!(EnvelopeADSR::new(1, 0, 1, 0, 0).is_none());
    assert!(EnvelopeADSR::new(1, 1, 0, 0, 0).is_none());
    assert!(EnvelopeADSR::new(-1, 1, 1, 0, 0).is_none());
    assert!(EnvelopeADSR::new(1, 1, 1, -1, 0).is_none());
    assert!(EnvelopeADSR::new(1, 1, 1, 0, -1).is_none());
    assert!(EnvelopeADSR::new(1, 1, 1, i64::MIN, 0).is_none());
    assert!(EnvelopeADSR::new(1, 1, 1, MAX_LEVEL, MAX_LEVEL).is_some());
    // levels have no upper bound but the integer's own
    assert!(EnvelopeADSR::new(1, 1, 1, MAX_LEVEL + 1, 0).is_some());
    assert!(EnvelopeADSR::new(1, 1, 1, i64::MAX, i64::MAX).is_some());
    assert!(EnvelopeADSR::new(i64::MAX, i64::MAX, i64::MAX, 0, 0).is_some());
}

#[test]
fn envelope_with_longest_durations_does_not_overflow() {
    let envelope = EnvelopeADSR::new(i64::MAX, i64::MAX, i64::MAX, MAX_LEVEL, MAX_LEVEL).unwrap();
    assert_eq!(envelope.amplitude(i64::MAX, 0, -1), MAX_LEVEL);
    let almost = envelope.amplitude(i64::MAX - 1, 0, -1);
    assert!(almost == MAX_LEVEL - 1 || almost == MAX_LEVEL);
    // one tick into the decay, which has nowhere to go
    assert_eq!(envelope.amplitude(i64::MAX, -1, i64::MIN), MAX_LEVEL);
    // released at the level reached, silent a whole release later
    assert_eq!(envelope.amplitude(i64::MAX, i64::MIN, -1), 0);
}

#[test]
fn envelope_with_largest_levels_does_not_overflow() {
    let envelope = EnvelopeADSR::new(1000, 1000, 1000, i64::MAX, i64::MAX).unwrap();
    assert_eq!(envelope.amplitude(500, 0, -1), 4_611_686_018_427_387_903);
    assert_eq!(envelope.amplitude(1000, 0, -1), i64::MAX);
    assert_eq!(envelope.amplitude(2500, 0, -1), i64::MAX);
    // half way down the release
    assert_eq!(envelope.amplitude(3500, 0, 3000), 4_611_686_018_427_387_904);
    // one tick before note-off the line is above the top of the range
    assert_eq!(envelope.amplitude(2999, 0, 3000), i64::MAX);
    // a decay from the largest level to silence
    let falling = EnvelopeADSR::new(1000, 1000, 1000, 0, i64::MAX).unwrap();
    assert_eq!(falling.amplitude(1500, 0, -1), 4_611_686_018_427_387_904);
    let slow = EnvelopeADSR::new(i64::MAX, i64::MAX, i64::MAX, 0, i64::MAX).unwrap();
    assert_eq!(slow.amplitude(i64::MAX, 0, -1), i64::MAX);
    assert_eq!(slow.amplitude(i64::MAX - 1, 0, -1), i64::MAX - 1);
    assert_eq!(slow.amplitude(i64::MAX, -1, i64::MIN), i64::MAX - 1);
}

#[test]
fn gated_envelope_is_silent_until_switched_on() {
    let voice = GatedEnvelope::new(EnvelopeADSR::default());
    assert_eq!(voice.get_amplitude(0), 0);
    assert_eq!(voice.get_amplitude(5 * MS), 0);
}

#[test]
fn gated_envelope_follows_its_triggers() {
    let mut voice = GatedEnvelope::new(EnvelopeADSR::default());
    voice.note_on(SECOND);
    assert_eq!(voice.get_amplitude(SECOND), 0);
    assert_eq!(voice.get_amplitude(SECOND + 5 * MS), 500_000);
    assert_eq!(voice.get_amplitude(SECOND + 10 * MS), 1_000_000);
    assert_eq!(voice.get_amplitude(SECOND + 15 * MS), 900_000);
    assert_eq!(voice.get_amplitude(SECOND + 30 * MS), 800_000);
    voice.note_off(SECOND + 30 * MS);
    assert_eq!(voice.get_amplitude(SECOND + 30 * MS), 800_000);
    assert_eq!(voice.get_amplitude(SECOND + 40 * MS), 400_000);
    assert_eq!(voice.get_amplitude(SECOND + 50 * MS), 0);
    voice.note_on(2 * SECOND);
    assert_eq!(voice.get_amplitude(2 * SECOND + 10 * MS), 1_000_000);
}

#[test]
fn gated_envelope_releases_from_the_level_reached() {
    let mut voice = GatedEnvelope::new(EnvelopeADSR::default());
    voice.note_on(0);
    voice.note_off(5 * MS);
    assert_eq!(voice.get_amplitude(5 * MS), 500_000);
    assert_eq!(voice.get_amplitude(15 * MS), 250_000);
    assert_eq!(voice.get_amplitude(25 * MS), 0);
}
