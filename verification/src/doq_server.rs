//! DNS-over-QUIC (RFC 9250).
use vstd::prelude::*;

use crate::framing::MAX_MESSAGE_LEN;
use crate::text::{decimal, decimal_string, join2};

verus! {

/// How long a connection may be idle, in seconds.
pub const IDLE_TIMEOUT_SECS: u64 = 30;

/// Checks the announced length of a query; an empty one is none.
pub fn check_length(length: usize) -> (r: Result<usize, String>)
    ensures
        match r {
            Ok(n) => n == length && 0 < length <= MAX_MESSAGE_LEN,
            Err(text) => (length == 0 || length > MAX_MESSAGE_LEN) && text@
                == "invalid message length: "@ + decimal(length as nat),
        },
{
    if length == 0 || length > MAX_MESSAGE_LEN {
        Err(join2("invalid message length: ", decimal_string(length as u64).as_str()))
    } else {
        Ok(length)
    }
}

} // verus!
