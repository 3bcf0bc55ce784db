//! DNS-over-HTTPS carried over HTTP/3: what a request asks.
use vstd::prelude::*;
use vstd::slice::slice_subrange;
use vstd::string::*;

use crate::addr::{after, before, find_char, holds};
use crate::codec::{base64url_decode, base64url_decoded};
use crate::doh_server::{BAD_REQUEST, METHOD_NOT_ALLOWED, NOT_FOUND, PAYLOAD_TOO_LARGE};
use crate::text::{
    byte_strings, chars_of, eq_text, optional_str, optional_text, split, split_chars, string_of,
    strip_end, strip_end_chars, texts,
};

verus! {

/// The path that queries are sent to.
pub const DNS_QUERY_PATH: &'static str = "/dns-query";

/// The longest body of a request: no message is longer.
pub const MAX_REQUEST_BODY: usize = 65535;

/// How long a connection may be idle, in seconds.
pub const IDLE_TIMEOUT_SECS: u64 = 30;

/// The protocols that the listener speaks: HTTP/3 and nothing else.
pub fn alpn_protocols() -> (r: Vec<Vec<u8>>)
    ensures
        byte_strings(r@) == seq![seq![0x68u8, 0x33u8]],
{
    let mut out: Vec<Vec<u8>> = Vec::new();
    out.push(vec![0x68u8, 0x33u8]);
    proof {
        assert(out@[0]@ =~= seq![0x68u8, 0x33u8]);
        assert(byte_strings(out@) =~= seq![seq![0x68u8, 0x33u8]]);
    }
    out
}

/// Whether a pair of a query string is the `dns` parameter.
pub open spec fn is_dns_pair(pair: Seq<char>) -> bool {
    holds(pair, '=') && before(pair, '=') == "dns"@
}

/// The value of the first `dns` parameter among pairs from `i` on.
pub open spec fn first_dns(pairs: Seq<Seq<char>>, i: int) -> Option<Seq<char>>
    decreases pairs.len() - i,
{
    if i < 0 || i >= pairs.len() {
        None
    } else if is_dns_pair(pairs[i]) {
        Some(after(pairs[i], '='))
    } else {
        first_dns(pairs, i + 1)
    }
}

/// The `dns` parameter of a query string.
pub open spec fn dns_param_of(query: Option<Seq<char>>) -> Option<Seq<char>> {
    match query {
        Some(q) => first_dns(split(q, '&'), 0),
        None => None,
    }
}

/// Finds the `dns` parameter in a query string.
pub fn dns_param(query: Option<&str>) -> (r: Option<String>)
    ensures
        optional_text(r) == dns_param_of(optional_str(query)),
{
    let q = match query {
        Some(q) => q,
        None => {
            return None;
        },
    };
    let chars = chars_of(q);
    let pairs = split_chars(chars.as_slice(), '&');
    let ghost all = texts(pairs@);
    let mut i: usize = 0;
    while i < pairs.len()
        invariant
            i <= pairs.len(),
            all == texts(pairs@),
            query == Some(q),
            all == split(q@, '&'),
            first_dns(all, 0) == first_dns(all, i as int),
        decreases pairs.len() - i,
    {
        let pair = pairs[i].as_slice();
        assert(all[i as int] == pair@);
        let at: usize = find_char(pair, '=');
        if at < pair.len() {
            let key = string_of(slice_subrange(pair, 0, at));
            if eq_text(key.as_str(), "dns") {
                return Some(string_of(slice_subrange(pair, at + 1, pair.len())));
            }
        }
        i = i + 1;
    }
    None
}

/// The query that a `dns` parameter spells in base64url, padded or not: neither empty nor
/// longer than any message.
pub open spec fn dns_param_decoded(param: Seq<char>) -> Option<Seq<u8>> {
    match base64url_decoded(strip_end(param, '=')) {
        Some(b) => if 0 < b.len() <= 65535 {
            Some(b)
        } else {
            None
        },
        None => None,
    }
}

/// Decodes the base64url of a `dns` parameter.
pub fn decode_dns_param(param: &str) -> (r: Option<Vec<u8>>)
    ensures
        match r {
            Some(v) => dns_param_decoded(param@) == Some(v@),
            None => dns_param_decoded(param@) is None,
        },
{
    let chars = chars_of(param);
    let text = string_of(strip_end_chars(chars.as_slice(), '='));
    match base64url_decode(text.as_str()) {
        Some(b) => if b.len() > 0 && b.len() <= MAX_REQUEST_BODY {
            Some(b)
        } else {
            None
        },
        None => None,
    }
}

/// The method of a request.
#[derive(Debug, Clone, Copy, PartialEq, Eq, Structural)]
pub enum Method {
    Get,
    Post,
    Other,
}

/// Where the query of a request is.
#[derive(Debug)]
pub enum Asked {
    /// In the request's head.
    Query(Vec<u8>),
    /// In the request's body.
    Body,
}

/// The query in the head of a GET request.
pub open spec fn head_query(query: Option<Seq<char>>) -> Option<Seq<u8>> {
    match dns_param_of(query) {
        Some(p) => dns_param_decoded(p),
        None => None,
    }
}

/// Finds the query of a request, or the status that turns it down. The path counts before
/// the method.
pub fn read_query(path: &str, method: Method, query: Option<&str>) -> (r: Result<Asked, u16>)
    ensures
        ({
            let found = head_query(optional_str(query));
            match r {
                Ok(Asked::Query(q)) => path@ == "/dns-query"@ && method == Method::Get && found
                    == Some(q@),
                Ok(Asked::Body) => path@ == "/dns-query"@ && method == Method::Post,
                Err(status) => if path@ != "/dns-query"@ {
                    status == NOT_FOUND
                } else if method == Method::Get {
                    found is None && status == BAD_REQUEST
                } else {
                    method == Method::Other && status == METHOD_NOT_ALLOWED
                },
            }
        }),
{
    if !eq_text(path, "/dns-query") {
        return Err(NOT_FOUND);
    }
    match method {
        Method::Get => match dns_param(query) {
            Some(param) => match decode_dns_param(param.as_str()) {
                Some(q) => Ok(Asked::Query(q)),
                None => Err(BAD_REQUEST),
            },
            None => Err(BAD_REQUEST),
        },
        Method::Post => Ok(Asked::Body),
        Method::Other => Err(METHOD_NOT_ALLOWED),
    }
}

/// Appends a piece to the body of a request, unless the body grows longer than any message.
pub fn grow_body(body: &mut Vec<u8>, chunk: &[u8]) -> (r: Result<(), u16>)
    ensures
        match r {
            Ok(()) => old(body)@.len() + chunk@.len() <= 65535 && final(body)@ == old(body)@
                + chunk@,
            Err(status) => old(body)@.len() + chunk@.len() > 65535 && final(body)@ == old(body)@
                && status == PAYLOAD_TOO_LARGE,
        },
{
    if body.len() > MAX_REQUEST_BODY || chunk.len() > MAX_REQUEST_BODY - body.len() {
        return Err(PAYLOAD_TOO_LARGE);
    }
    body.extend_from_slice(chunk);
    Ok(())
}

/// The query in the body of a request, once it is whole; an empty body is none.
pub fn finish_body(body: Vec<u8>) -> (r: Result<Vec<u8>, u16>)
    ensures
        match r {
            Ok(query) => query@ == body@ && body@.len() > 0,
            Err(status) => body@.len() == 0 && status == BAD_REQUEST,
        },
{
    if body.len() == 0 {
        Err(BAD_REQUEST)
    } else {
        Ok(body)
    }
}

proof fn lemma_strip_end_char(s: Seq<char>)
    ensures
        strip_end(s.push('='), '=') == strip_end(s, '='),
{
    assert(s.push('=').drop_last() =~= s);
}

/// A `dns` parameter asks the same with padding and without.
pub proof fn law_padding_does_not_matter(param: Seq<char>)
    ensures
        dns_param_decoded(param.push('=')) == dns_param_decoded(param),
{
    lemma_strip_end_char(param);
}

/// What a client sends as the RFC says, base64url without padding, is decoded to the query
/// it was made from, if that is one: neither empty nor longer than any message.
pub proof fn law_dns_param_round_trip(query: Seq<u8>)
    requires
        0 < query.len() <= 65535,
    ensures
        dns_param_decoded(crate::codec::base64url_text(query)) == Some(query),
{
    let s = crate::codec::base64url_text(query);
    assert(strip_end(s, '=') == s) by {
        let i = s.len() - 1;
        assert(s.len() > 0);
        assert(s.last() == crate::codec::base64_digit(crate::codec::six_bits(query, i), true));
        crate::codec::lemma_digit_is_no_padding(query, i);
    }
    crate::codec::law_base64url_round_trip(query);
}

} // verus!
