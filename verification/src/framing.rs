//! The framing of messages on streams: two octets of length, then the message.
use vstd::prelude::*;

use crate::codec::{be16, push_be16, read16, read_be16};

verus! {

/// The longest message that two octets of length can announce.
pub const MAX_MESSAGE_LEN: usize = 65535;

/// A message behind its length. The length is what fits in two octets.
pub open spec fn framed(message: Seq<u8>) -> Seq<u8> {
    be16((message.len() % 0x1_0000) as u16) + message
}

/// Puts a message behind its length.
pub fn frame(message: &[u8]) -> (r: Vec<u8>)
    ensures
        r@ == framed(message@),
{
    let mut out: Vec<u8> = Vec::new();
    push_be16(&mut out, (message.len() % 0x1_0000) as u16);
    out.extend_from_slice(message);
    assert(out@ =~= framed(message@));
    out
}

/// The length that two octets announce.
pub fn announced_length(prefix: &[u8]) -> (r: usize)
    requires
        prefix@.len() >= 2,
    ensures
        r == read16(prefix@, 0),
        r <= MAX_MESSAGE_LEN,
{
    read_be16(prefix, 0) as usize
}

/// A frame that holds a message of at most 65535 octets announces exactly that message:
/// its first two octets give the length of what follows them, and that is the message.
pub proof fn law_frame_round_trip(message: Seq<u8>)
    requires
        message.len() <= 65535,
    ensures
        framed(message).len() == message.len() + 2,
        read16(framed(message), 0) == message.len(),
        framed(message).subrange(2, 2 + read16(framed(message), 0) as int) == message,
{
    let f = framed(message);
    let n = (message.len() % 0x1_0000) as u16;
    assert(f[0] == be16(n)[0] && f[1] == be16(n)[1]);
    assert(read16(f, 0) == n);
    assert(f.subrange(2, 2 + n as int) =~= message);
}

} // verus!
