//! What resolvers say of a name at a blocklist.
use vstd::prelude::*;

use super::codes::DnsblAnswer;
use crate::dns_server::records::{a_answer, blocklist_codes};
use crate::message::{
    build_query_for_type, decode_answers, decode_head, decoded, query_draft, question_for,
    resource_views, sent, ResourceRecord, ResourceView, NO_ERROR, NX_DOMAIN, TYPE_A,
};
use crate::wire_name::{name_of, Name};

verus! {

/// The identifier of the query that shows whether plain DNS gets through.
pub const PROBE_ID: u16 = 0x5311;

/// The resolvers that the probe is sent to.
pub fn probe_targets() -> (r: Vec<&'static str>)
    ensures
        r@.len() == 2,
        r@[0]@ == "1.1.1.1:53"@,
        r@[1]@ == "8.8.8.8:53"@,
{
    vec!["1.1.1.1:53", "8.8.8.8:53"]
}

/// The query that shows whether plain DNS gets through: a name that always resolves.
pub fn probe_query() -> (r: Option<Vec<u8>>)
    ensures
        match r {
            Some(v) => name_of("one.one.one.one."@) is Some && v@ == sent(
                query_draft(PROBE_ID, question_for("one.one.one.one."@, TYPE_A)),
                Seq::empty(),
            ),
            None => name_of("one.one.one.one."@) is None,
        },
{
    match Name::from_ascii("one.one.one.one.") {
        Some(_) => Some(build_query_for_type("one.one.one.one.", TYPE_A, PROBE_ID)),
        None => None,
    }
}

/// The query for a name at a blocklist; none where the name is none.
pub fn blocklist_query(name: &str) -> (r: Option<Vec<u8>>)
    ensures
        match r {
            Some(v) => name_of(name@) is Some && v@ == sent(
                query_draft(0, question_for(name@, TYPE_A)),
                Seq::empty(),
            ),
            None => name_of(name@) is None,
        },
{
    match Name::from_ascii(name) {
        Some(_) => Some(build_query_for_type(name, TYPE_A, 0)),
        None => None,
    }
}

/// Whether an answer holds what a resolver's answers say.
pub open spec fn answer_says(answer: Option<DnsblAnswer>, answers: Seq<ResourceView>) -> bool {
    match answer {
        Some(a) => (a.codes@, a.ttl) == blocklist_codes(answers) && a.codes@.len() > 0,
        None => blocklist_codes(answers).0.len() == 0,
    }
}

/// What a resolution with some response code settles; nothing where another resolver has
/// to be asked.
pub fn conclude(rcode: u16, answers: &[ResourceRecord]) -> (r: Option<Option<DnsblAnswer>>)
    ensures
        match r {
            Some(answer) => (rcode == NO_ERROR && answer_says(answer, resource_views(answers@)))
                || (rcode == NX_DOMAIN && answer is None),
            None => rcode != NO_ERROR && rcode != NX_DOMAIN,
        },
{
    if rcode == NO_ERROR {
        Some(a_answer(answers))
    } else if rcode == NX_DOMAIN {
        Some(None)
    } else {
        None
    }
}

/// Why a reply settles nothing.
#[derive(Debug, Clone, Copy, PartialEq, Eq, Structural)]
pub enum ReplyProblem {
    /// It cannot be read.
    Unreadable,
    /// It has this response code.
    Code(u16),
}

/// What a forwarder's reply settles.
pub fn read_reply(octets: &[u8]) -> (r: Result<Option<DnsblAnswer>, ReplyProblem>)
    ensures
        match r {
            Ok(answer) => match decoded(octets@) {
                Some(m) => (m.head.rcode == NO_ERROR && answer_says(answer, m.answers)) || (
                m.head.rcode == NX_DOMAIN && answer is None),
                None => false,
            },
            Err(ReplyProblem::Unreadable) => decoded(octets@) is None,
            Err(ReplyProblem::Code(code)) => match decoded(octets@) {
                Some(m) => code == m.head.rcode && code != NO_ERROR && code != NX_DOMAIN,
                None => false,
            },
        },
{
    match (decode_head(octets), decode_answers(octets)) {
        (Some(head), Some(answers)) => match conclude(head.rcode, answers.as_slice()) {
            Some(answer) => Ok(answer),
            None => Err(ReplyProblem::Code(head.rcode)),
        },
        _ => Err(ReplyProblem::Unreadable),
    }
}

} // verus!
