//! The time that signatures are made at.
use vstd::prelude::*;

verus! {

/// Why the clock gives no time for a signature.
#[derive(Debug, Clone, PartialEq, Eq)]
pub enum ClockError {
    /// It is before the epoch, as the text says.
    BeforeEpoch(String),
    /// It is past what 32 bits of seconds can tell.
    PastLimit,
}

/// The time that a signature is made at, from the seconds since the epoch, or what is said
/// of a clock that is before it.
pub fn now_secs(since_epoch: Result<u64, String>) -> (r: Result<u32, ClockError>)
    ensures
        match r {
            Ok(t) => since_epoch == Ok::<u64, String>(t as u64),
            Err(ClockError::BeforeEpoch(text)) => since_epoch == Err::<u64, String>(text),
            Err(ClockError::PastLimit) => since_epoch is Ok && since_epoch->Ok_0 > u32::MAX,
        },
{
    match since_epoch {
        Ok(secs) => if secs <= u32::MAX as u64 {
            Ok(secs as u32)
        } else {
            Err(ClockError::PastLimit)
        },
        Err(text) => Err(ClockError::BeforeEpoch(text)),
    }
}

} // verus!
