//! DNS-over-HTTPS (RFC 8484): what a request asks, and what the response says of caching.
use vstd::prelude::*;

use crate::codec::{base64url_decode, base64url_decoded};
use crate::message::{decode_answers, decoded, resource_views, ResourceView};
use crate::text::{decimal, decimal_string, join2, join4};

verus! {

/// How long a client may remember the advertisement of HTTP/3, in seconds.
pub const ALT_SVC_MAX_AGE: u32 = 86400;

/// The status of a request that makes no sense.
pub const BAD_REQUEST: u16 = 400;

/// The status of a request for something that is not there.
pub const NOT_FOUND: u16 = 404;

/// The status of a request with a method that is not served.
pub const METHOD_NOT_ALLOWED: u16 = 405;

/// The status of a request with too large a body.
pub const PAYLOAD_TOO_LARGE: u16 = 413;

/// The `Alt-Svc` header that advertises HTTP/3 at a port of the same host.
pub open spec fn alt_svc_text(port: u16) -> Seq<char> {
    "h3=\":"@ + decimal(port as nat) + "\"; ma="@ + decimal(86400)
}

/// The `Alt-Svc` header that advertises HTTP/3 at a port of the same host.
pub fn alt_svc(port: u16) -> (r: String)
    ensures
        r@ == alt_svc_text(port),
{
    join4(
        "h3=\":",
        decimal_string(port as u64).as_str(),
        "\"; ma=",
        decimal_string(ALT_SVC_MAX_AGE as u64).as_str(),
    )
}

/// The `Cache-Control` header of a response that may be kept for some seconds.
pub fn cache_control(max_age: u32) -> (r: String)
    ensures
        r@ == "max-age="@ + decimal(max_age as nat),
{
    join2("max-age=", decimal_string(max_age as u64).as_str())
}

/// Why a GET request is turned down.
#[derive(Debug, Clone, Copy, PartialEq, Eq, Structural)]
pub enum GetError {
    /// There is no `dns` parameter.
    Missing,
    /// It is not base64url.
    Encoding,
}

impl GetError {
    /// The body of the response.
    pub fn message(&self) -> (r: &'static str)
        ensures
            r@ == match *self {
                GetError::Missing => "missing 'dns' query parameter"@,
                GetError::Encoding => "invalid base64url encoding"@,
            },
    {
        match self {
            GetError::Missing => "missing 'dns' query parameter",
            GetError::Encoding => "invalid base64url encoding",
        }
    }
}

/// The query in the `dns` parameter of a GET request.
pub fn get_query(dns: Option<&str>) -> (r: Result<Vec<u8>, GetError>)
    ensures
        match r {
            Ok(query) => dns is Some && base64url_decoded(dns->0@) == Some(query@),
            Err(GetError::Missing) => dns is None,
            Err(GetError::Encoding) => dns is Some && base64url_decoded(dns->0@) is None,
        },
{
    match dns {
        None => Err(GetError::Missing),
        Some(param) => match base64url_decode(param) {
            Some(query) => Ok(query),
            None => Err(GetError::Encoding),
        },
    }
}

/// The smallest time to live of some records; none where there are none.
pub open spec fn least_ttl(answers: Seq<ResourceView>) -> Option<u32>
    decreases answers.len(),
{
    if answers.len() == 0 {
        None
    } else {
        let last = answers.last().ttl;
        match least_ttl(answers.drop_last()) {
            Some(t) => Some(
                if last < t {
                    last
                } else {
                    t
                },
            ),
            None => Some(last),
        }
    }
}

/// How long a response may be kept: the smallest time to live of its answers, or not at all.
pub open spec fn response_ttl(response: Seq<u8>) -> u32 {
    match decoded(response) {
        Some(m) => match least_ttl(m.answers) {
            Some(t) => t,
            None => 0,
        },
        None => 0,
    }
}

/// The smallest time to live of the records, if any.
pub fn min_answer_ttl(answers: &[crate::message::ResourceRecord]) -> (r: Option<u32>)
    ensures
        r == least_ttl(resource_views(answers@)),
{
    let ghost all = resource_views(answers@);
    let mut least: Option<u32> = None;
    let mut i: usize = 0;
    assert(all.subrange(0, 0) =~= Seq::empty());
    while i < answers.len()
        invariant
            i <= answers.len(),
            all == resource_views(answers@),
            least == least_ttl(all.subrange(0, i as int)),
        decreases answers.len() - i,
    {
        let ttl: u32 = answers[i].ttl;
        proof {
            assert(all.subrange(0, i + 1).drop_last() =~= all.subrange(0, i as int));
            assert(all.subrange(0, i + 1).last() == answers@[i as int]@);
        }
        least = match least {
            Some(t) => Some(
                if ttl < t {
                    ttl
                } else {
                    t
                },
            ),
            None => Some(ttl),
        };
        i = i + 1;
    }
    assert(all.subrange(0, i as int) =~= all);
    least
}

/// The smallest time to live in a response, for its `Cache-Control` header.
pub fn extract_min_ttl(response: &[u8]) -> (r: u32)
    ensures
        r == response_ttl(response@),
{
    match decode_answers(response) {
        Some(answers) => match min_answer_ttl(answers.as_slice()) {
            Some(t) => t,
            None => 0,
        },
        None => 0,
    }
}

/// The smallest time to live is that of one of the records, and none has a smaller one: a
/// response is never kept longer than one of its records.
pub proof fn law_least_ttl_is_a_bound(answers: Seq<ResourceView>)
    ensures
        answers.len() == 0 <==> least_ttl(answers) is None,
        answers.len() > 0 ==> exists|i: int|
            0 <= i < answers.len() && (#[trigger] answers[i]).ttl == least_ttl(answers)->0,
        forall|i: int|
            0 <= i < answers.len() ==> least_ttl(answers)->0 <= (#[trigger] answers[i]).ttl,
    decreases answers.len(),
{
    if answers.len() > 0 {
        let front = answers.drop_last();
        law_least_ttl_is_a_bound(front);
        let t = least_ttl(answers)->0;
        if front.len() > 0 && t == least_ttl(front)->0 {
            let i = choose|i: int|
                0 <= i < front.len() && (#[trigger] front[i]).ttl == least_ttl(front)->0;
            assert(answers[i] == front[i]);
        } else {
            assert(answers[answers.len() - 1].ttl == t);
        }
        assert forall|i: int| 0 <= i < answers.len() implies t <= (#[trigger] answers[i]).ttl by {
            if i < front.len() {
                assert(answers[i] == front[i]);
            }
        }
    }
}

} // verus!
