//! EDNS (RFC 6891): what a query's OPT record says, and the OPT record of a response.
use vstd::prelude::*;

use crate::codec::{be16, push_be16};
use crate::message::{decode_head, decoded};

verus! {

/// What an OPT record in a query says.
#[derive(Debug, Clone, Copy, PartialEq, Eq, Structural)]
pub struct EdnsContext {
    /// EDNS version (only version 0 is supported).
    pub version: u8,
    /// Maximum UDP payload size the client can accept.
    pub max_payload: u16,
    /// Whether the client wants DNSSEC records.
    pub dnssec_ok: bool,
}

impl Default for EdnsContext {
    fn default() -> (r: EdnsContext)
        ensures
            r == (EdnsContext { version: 0, max_payload: 4096, dnssec_ok: false }),
    {
        EdnsContext { version: 0, max_payload: 4096, dnssec_ok: false }
    }
}

impl EdnsContext {
    /// Reads the EDNS context of a message; none where it has no OPT record, or is no
    /// message.
    pub fn from_message(message: &[u8]) -> (r: Option<EdnsContext>)
        ensures
            r == match decoded(message@) {
                Some(m) => m.head.edns,
                None => None,
            },
    {
        match decode_head(message) {
            Some(h) => h.edns,
            None => None,
        }
    }

    /// Whether the EDNS version is unsupported.
    pub fn is_unsupported_version(&self) -> (r: bool)
        ensures
            r == (self.version > 0),
    {
        self.version > 0
    }
}

/// An OPT record of version 0: the payload size, never below 512, the high bits of the
/// response code, and the DNSSEC flag.
pub open spec fn opt_record(max_payload: u16, rcode: u16, dnssec_ok: bool) -> Seq<u8> {
    seq![0u8] + be16(41) + be16(
        if max_payload < 512 {
            512
        } else {
            max_payload
        },
    ) + seq![
        (rcode / 16 % 256) as u8,
        0u8,
        if dnssec_ok {
            0x80u8
        } else {
            0u8
        },
        0u8,
        0u8,
        0u8,
    ]
}

/// Appends the OPT record of a response.
pub fn add_edns_to_response(response: &mut Vec<u8>, max_payload: u16, rcode: u16, dnssec_ok: bool)
    ensures
        final(response)@ == old(response)@ + opt_record(max_payload, rcode, dnssec_ok),
{
    response.push(0);
    push_be16(response, 41);
    push_be16(
        response,
        if max_payload < 512 {
            512
        } else {
            max_payload
        },
    );
    response.push((rcode / 16 % 256) as u8);
    response.push(0);
    response.push(
        if dnssec_ok {
            0x80
        } else {
            0
        },
    );
    response.push(0);
    response.push(0);
    response.push(0);
    assert(response@ =~= old(response)@ + opt_record(max_payload, rcode, dnssec_ok));
}

} // verus!
