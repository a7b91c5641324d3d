//! What the engine makes of the driver's answers: status codes and the
//! zero-terminated wide text the driver writes into a buffer.

use vstd::prelude::*;

verus! {

/// The status code with which the driver reports success.
pub const MMSYSERR_NOERROR: u32 = 0;

/// A failure reported by the driver.
#[derive(Clone, Debug, PartialEq, Eq)]
pub struct DriverError {
    /// The driver's status code, never [`MMSYSERR_NOERROR`].
    pub code: u32,
    /// The driver's words for the code.
    pub message: String,
}

/// The outcome of a driver call: success for [`MMSYSERR_NOERROR`], else a
/// failure that carries the code and the driver's words for it.
pub fn driver_result(code: u32, message: String) -> (r: Result<(), DriverError>)
    ensures
        r is Ok <==> code == MMSYSERR_NOERROR,
        r matches Err(error) ==> error.code == code && error.message == message,
{
    if code == MMSYSERR_NOERROR {
        Ok(())
    } else {
        Err(DriverError { code, message })
    }
}

/// Length of the text at the start of `units`: the number of units before
/// the first zero, or all of them where there is no zero.
pub open spec fn text_length_spec(units: Seq<u16>) -> int
    decreases units.len(),
{
    if units.len() == 0 || units[0] == 0 {
        0
    } else {
        1 + text_length_spec(units.skip(1))
    }
}

/// A place that holds a zero after nothing but non-zero units is the text's
/// length, and so is the buffer's length where no unit is zero.
pub proof fn lemma_text_length_is(units: Seq<u16>, end: int)
    requires
        0 <= end <= units.len(),
        forall|i: int| 0 <= i < end ==> units[i] != 0,
        end < units.len() ==> units[end] == 0,
    ensures
        text_length_spec(units) == end,
    decreases units.len(),
{
    if end > 0 {
        let rest = units.skip(1);
        assert forall|i: int| 0 <= i < end - 1 implies rest[i] != 0 by {
            assert(rest[i] == units[i + 1]);
        }
        if end < units.len() {
            assert(rest[end - 1] == units[end]);
        }
        lemma_text_length_is(rest, end - 1);
    }
}

/// Length of the zero-terminated text in `units`.
pub fn text_length(units: &[u16]) -> (r: usize)
    ensures
        r == text_length_spec(units@),
        r <= units@.len(),
        forall|i: int| 0 <= i < r ==> units@[i] != 0,
        r < units@.len() ==> units@[r as int] == 0,
{
    let mut end: usize = 0;
    while end < units.len() && units[end] != 0
        invariant
            end <= units@.len(),
            forall|i: int| 0 <= i < end ==> units@[i] != 0,
        decreases units@.len() - end,
    {
        end = end + 1;
    }
    proof {
        lemma_text_length_is(units@, end as int);
    }
    end
}

} // verus!
