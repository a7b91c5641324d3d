//! Fixed-point units and the arithmetic shared by the signal path.

use vstd::prelude::*;

verus! {

/// Full scale of a signal level: the integer that stands for `1.0`.
pub const UNITY: i64 = 1_000_000;

/// Largest level a weight, a volume or the envelope of an instrument may
/// take: `100.0`.
pub const MAX_LEVEL: i64 = 100_000_000;

/// Ticks of engine time in one second. A tick is a nanosecond.
pub const TICKS_PER_SECOND: i64 = 1_000_000_000;

/// `sample` limited to the band `[-max, max]`: a non-negative sample is capped
/// at `max`, a negative one at `-max`.
pub open spec fn clip_spec(sample: int, max: int) -> int {
    if sample >= 0 {
        if sample <= max {
            sample
        } else {
            max
        }
    } else {
        if sample >= -max {
            sample
        } else {
            -max
        }
    }
}

/// Limits `sample` to `[-max, max]`.
pub fn clip(sample: i64, max: i64) -> (r: i64)
    requires
        max > i64::MIN,
    ensures
        r == clip_spec(sample as int, max as int),
        max >= 0 ==> -max <= r <= max,
        -max <= sample <= max ==> r == sample,
{
    if sample >= 0 {
        if sample <= max {
            sample
        } else {
            max
        }
    } else {
        if sample >= -max {
            sample
        } else {
            -max
        }
    }
}

/// `value` limited to what a 64-bit signed integer holds.
pub open spec fn saturate_spec(value: int) -> int {
    if value > i64::MAX {
        i64::MAX as int
    } else if value < i64::MIN {
        i64::MIN as int
    } else {
        value
    }
}

/// Narrows a wide intermediate to 64 bits, saturating at either end.
pub fn saturate(value: i128) -> (r: i64)
    ensures
        r == saturate_spec(value as int),
{
    if value > i64::MAX as i128 {
        i64::MAX
    } else if value < i64::MIN as i128 {
        i64::MIN
    } else {
        value as i64
    }
}

/// The part `num / den` of `level`, rounded down.
///
/// For `0 <= num <= den` this walks linearly from `0` to `level`.
pub open spec fn portion(level: int, num: int, den: int) -> int {
    level * num / den
}

/// `value / divisor`, rounded toward zero.
pub open spec fn toward_zero(value: int, divisor: int) -> int {
    if value >= 0 {
        value / divisor
    } else {
        -((-value) / divisor)
    }
}

/// Clipping never moves a sample across another: it keeps order.
pub proof fn lemma_clip_monotonic(a: int, b: int, max: int)
    requires
        a <= b,
        max >= 0,
    ensures
        clip_spec(a, max) <= clip_spec(b, max),
{
}

/// `portion` stays within `[0, level]` and grows with `num`.
pub proof fn lemma_portion_bounds(level: int, num: int, den: int)
    requires
        level >= 0,
        0 <= num <= den,
        den > 0,
    ensures
        0 <= portion(level, num, den) <= level,
        num == 0 ==> portion(level, num, den) == 0,
        num == den ==> portion(level, num, den) == level,
{
    assert(0 <= level * num <= level * den) by (nonlinear_arith)
        requires
            level >= 0,
            0 <= num <= den,
    ;
    vstd::arithmetic::div_mod::lemma_div_is_ordered(0, level * num, den);
    vstd::arithmetic::div_mod::lemma_div_is_ordered(level * num, level * den, den);
    vstd::arithmetic::div_mod::lemma_div_multiples_vanish(level, den);
    assert(level * den == den * level) by (nonlinear_arith);
    assert(0int / den == 0) by (nonlinear_arith)
        requires
            den > 0,
    ;
    if num == 0 {
        assert(level * num == 0) by (nonlinear_arith)
            requires
                num == 0,
        ;
    }
}

/// `portion` grows with its numerator.
pub proof fn lemma_portion_monotonic(level: int, a: int, b: int, den: int)
    requires
        level >= 0,
        a <= b,
        den > 0,
    ensures
        portion(level, a, den) <= portion(level, b, den),
{
    assert(level * a <= level * b) by (nonlinear_arith)
        requires
            level >= 0,
            a <= b,
    ;
    vstd::arithmetic::div_mod::lemma_div_is_ordered(level * a, level * b, den);
}

} // verus!
