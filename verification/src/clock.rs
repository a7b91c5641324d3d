//! The running audio clock: a count of generated frames, read in ticks.

use vstd::prelude::*;
use crate::fixed::TICKS_PER_SECOND;

verus! {

/// Frames after one more frame was generated: the count stops at the top of
/// its range rather than wrap.
pub open spec fn next_frame(frames: nat) -> nat {
    if frames < u64::MAX {
        frames + 1
    } else {
        frames
    }
}

/// Frames after `count` more frames were generated.
pub open spec fn frames_after(frames: nat, count: nat) -> nat {
    if frames + count <= u64::MAX {
        frames + count
    } else {
        u64::MAX as nat
    }
}

/// The instant, in ticks, at which frame number `frames` sounds at
/// `sample_rate` frames per second: `frames / sample_rate` seconds, rounded
/// down to a whole tick and held at the top of the 64-bit range.
pub open spec fn ticks_at(frames: nat, sample_rate: nat) -> int {
    let exact = (frames * TICKS_PER_SECOND) / (sample_rate as int);
    if exact > i64::MAX {
        i64::MAX as int
    } else {
        exact
    }
}

/// The clock never runs backwards: a later frame does not sound at an earlier
/// instant.
pub proof fn lemma_ticks_monotonic(earlier: nat, later: nat, sample_rate: nat)
    requires
        earlier <= later,
        sample_rate > 0,
    ensures
        0 <= ticks_at(earlier, sample_rate) <= ticks_at(later, sample_rate),
{
    assert(0 <= earlier * TICKS_PER_SECOND <= later * TICKS_PER_SECOND) by (nonlinear_arith)
        requires
            earlier <= later,
    ;
    vstd::arithmetic::div_mod::lemma_div_is_ordered(
        earlier * TICKS_PER_SECOND,
        later * TICKS_PER_SECOND,
        sample_rate as int,
    );
    vstd::arithmetic::div_mod::lemma_div_is_ordered(
        0,
        earlier * TICKS_PER_SECOND,
        sample_rate as int,
    );
    assert(0int / (sample_rate as int) == 0) by (nonlinear_arith)
        requires
            sample_rate > 0,
    ;
}

/// At rates of up to one frame per tick, each frame sounds strictly later
/// than the one before, as long as the reading has not reached the top of its
/// range.
pub proof fn lemma_ticks_strictly_increase(frames: nat, sample_rate: nat)
    requires
        0 < sample_rate <= TICKS_PER_SECOND,
        ticks_at(frames + 1, sample_rate) < i64::MAX,
    ensures
        ticks_at(frames, sample_rate) < ticks_at(frames + 1, sample_rate),
{
    let rate = sample_rate as int;
    let before = frames * TICKS_PER_SECOND;
    assert((frames + 1) * TICKS_PER_SECOND == before + TICKS_PER_SECOND) by (nonlinear_arith)
        requires
            before == frames * TICKS_PER_SECOND,
    ;
    vstd::arithmetic::div_mod::lemma_div_plus_one(before, rate);
    vstd::arithmetic::div_mod::lemma_div_is_ordered(rate + before, before + TICKS_PER_SECOND, rate);
}

/// At a whole number of seconds the reading is exact.
pub proof fn lemma_ticks_whole_seconds(seconds: nat, sample_rate: nat)
    requires
        sample_rate > 0,
        seconds * TICKS_PER_SECOND <= i64::MAX,
    ensures
        ticks_at(seconds * sample_rate, sample_rate) == seconds * TICKS_PER_SECOND,
{
    assert((seconds * sample_rate) * TICKS_PER_SECOND == (seconds * TICKS_PER_SECOND)
        * sample_rate) by (nonlinear_arith);
    vstd::arithmetic::div_mod::lemma_div_by_multiple(
        seconds * TICKS_PER_SECOND,
        sample_rate as int,
    );
}

/// The clock as a mathematical value.
pub struct ClockState {
    /// Frames generated so far.
    pub frames: nat,
    /// Frames per second.
    pub sample_rate: nat,
}

impl ClockState {
    /// The clock's reading in ticks.
    pub open spec fn now(self) -> int {
        ticks_at(self.frames, self.sample_rate)
    }
}

/// The engine's clock. It starts at zero and moves only forward, one frame at
/// a time.
pub struct AudioClock {
    frames: u64,
    sample_rate: u32,
}

impl View for AudioClock {
    type V = ClockState;

    closed spec fn view(&self) -> ClockState {
        ClockState { frames: self.frames as nat, sample_rate: self.sample_rate as nat }
    }
}

impl AudioClock {
    #[verifier::type_invariant]
    spec fn valid(&self) -> bool {
        self.sample_rate > 0
    }

    /// A clock at zero for `sample_rate` frames per second, or `None` for a
    /// rate of zero.
    pub fn new(sample_rate: u32) -> (r: Option<AudioClock>)
        ensures
            r is Some <==> sample_rate > 0,
            r matches Some(clock) ==> clock@ == (ClockState {
                frames: 0,
                sample_rate: sample_rate as nat,
            }),
    {
        if sample_rate == 0 {
            None
        } else {
            Some(AudioClock { frames: 0, sample_rate })
        }
    }

    /// Frames generated so far.
    pub fn frames(&self) -> (r: u64)
        ensures
            r == self@.frames,
    {
        self.frames
    }

    /// Frames per second.
    pub fn sample_rate(&self) -> (r: u32)
        ensures
            r == self@.sample_rate,
            r > 0,
    {
        proof {
            use_type_invariant(self);
        }
        self.sample_rate
    }

    /// The clock's reading in ticks.
    pub fn now(&self) -> (r: i64)
        ensures
            r == self@.now(),
            r >= 0,
    {
        proof {
            use_type_invariant(self);
            lemma_ticks_monotonic(0, self.frames as nat, self.sample_rate as nat);
            assert(self.frames * TICKS_PER_SECOND <= u64::MAX * TICKS_PER_SECOND)
                by (nonlinear_arith)
                requires
                    self.frames <= u64::MAX,
            ;
        }
        let exact: u128 = (self.frames as u128 * TICKS_PER_SECOND as u128) / (
        self.sample_rate as u128);
        if exact > i64::MAX as u128 {
            i64::MAX
        } else {
            exact as i64
        }
    }

    /// Moves the clock on by one frame.
    pub fn advance(&mut self)
        ensures
            final(self)@.frames == next_frame(old(self)@.frames),
            final(self)@.sample_rate == old(self)@.sample_rate,
            final(self)@.now() >= old(self)@.now(),
        no_unwind
    {
        proof {
            use_type_invariant(&*self);
            lemma_ticks_monotonic(
                self.frames as nat,
                next_frame(self.frames as nat),
                self.sample_rate as nat,
            );
        }
        if self.frames < u64::MAX {
            self.frames = self.frames + 1;
        }
    }
}

} // verus!
