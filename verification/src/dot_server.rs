//! DNS-over-TLS (RFC 7858).
use vstd::prelude::*;

use crate::framing::MAX_MESSAGE_LEN;
use crate::text::byte_strings;

verus! {

/// The protocol identifier of DNS-over-TLS.
pub const ALPN: [u8; 3] = [0x64, 0x6f, 0x74];

/// How long a client has to complete the TLS handshake, in seconds.
pub const TLS_HANDSHAKE_TIMEOUT_SECS: u64 = 10;

/// The protocols that the listener speaks.
pub fn alpn_protocols() -> (r: Vec<Vec<u8>>)
    ensures
        byte_strings(r@) == seq![seq![0x64u8, 0x6fu8, 0x74u8]],
{
    let mut out: Vec<Vec<u8>> = Vec::new();
    out.push(vec![ALPN[0], ALPN[1], ALPN[2]]);
    proof {
        assert(out@[0]@ =~= seq![0x64u8, 0x6fu8, 0x74u8]);
        assert(byte_strings(out@) =~= seq![seq![0x64u8, 0x6fu8, 0x74u8]]);
    }
    out
}

/// Whether a session goes on with a message of the announced length. An empty message ends
/// it.
pub fn accepts_length(length: usize) -> (r: bool)
    ensures
        r == (0 < length <= MAX_MESSAGE_LEN),
{
    length > 0 && length <= MAX_MESSAGE_LEN
}

} // verus!
