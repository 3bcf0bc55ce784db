//! What of an upstream's answer is remembered, and under which question.
use vstd::prelude::*;

use super::records::{
    asked_kind, dns_record_to_db_record, is_storable, is_stored_form, map_query_type_to_kind,
};
use super::resolve::NegativeKind;
use crate::doh_server::{least_ttl, min_answer_ttl};
use crate::message::{
    decode_answers, decoded, resource_views, Query, Question, QuestionView, ResourceRecord,
    ResourceView, NO_ERROR, NX_DOMAIN,
};
use crate::record::{DnsRecord, RecordKind};
use crate::text::join4;
use crate::wire_name::name_text;

verus! {

/// The time to live of answers that have none.
pub const DEFAULT_TTL: u32 = 300;

/// An entry for the cache of answers.
#[derive(Debug)]
pub struct CacheEntry {
    pub name: String,
    pub kind: Option<RecordKind>,
    pub records: Vec<DnsRecord>,
    pub ttl: u32,
}

/// An entry for the cache of negative answers.
#[derive(Debug)]
pub struct NegativeEntry {
    pub name: String,
    pub kind: Option<RecordKind>,
    pub negative: NegativeKind,
    pub ttl: u32,
}

/// The answers that can be stored.
pub open spec fn storable(answers: Seq<ResourceView>) -> Seq<ResourceView>
    decreases answers.len(),
{
    if answers.len() == 0 {
        Seq::empty()
    } else if is_storable(answers.last()) {
        storable(answers.drop_last()).push(answers.last())
    } else {
        storable(answers.drop_last())
    }
}

/// Whether records are what answers are stored as, one for one.
pub open spec fn are_stored_forms(answers: Seq<ResourceView>, records: Seq<DnsRecord>) -> bool {
    answers.len() == records.len() && forall|i: int|
        0 <= i < records.len() ==> is_stored_form(answers[i], #[trigger] records[i])
}

/// The time to live of an entry: the smallest of the answers'.
pub open spec fn entry_ttl(answers: Seq<ResourceView>) -> u32 {
    match least_ttl(answers) {
        Some(t) => t,
        None => DEFAULT_TTL,
    }
}

/// Whether an entry is what answers to a question are remembered as: under the question,
/// whatever the answers are about.
pub open spec fn is_entry(
    question: QuestionView,
    answers: Seq<ResourceView>,
    entry: CacheEntry,
) -> bool {
    &&& entry.name@ == name_text(question.name)
    &&& entry.kind == asked_kind(question.qtype)
    &&& are_stored_forms(storable(answers), entry.records@)
    &&& entry.ttl == entry_ttl(answers)
}

fn store_all(answers: &[ResourceRecord]) -> (r: Vec<DnsRecord>)
    ensures
        are_stored_forms(storable(resource_views(answers@)), r@),
{
    let ghost all = resource_views(answers@);
    let mut out: Vec<DnsRecord> = Vec::new();
    let mut i: usize = 0;
    assert(all.subrange(0, 0) =~= Seq::empty());
    while i < answers.len()
        invariant
            i <= answers.len(),
            all == resource_views(answers@),
            are_stored_forms(storable(all.subrange(0, i as int)), out@),
        decreases answers.len() - i,
    {
        let ghost before = out@;
        let ghost kept = storable(all.subrange(0, i as int));
        proof {
            let p = all.subrange(0, i + 1);
            assert(p.drop_last() =~= all.subrange(0, i as int));
            assert(p.last() == answers@[i as int]@);
        }
        if let Some(d) = dns_record_to_db_record(&answers[i]) {
            out.push(d);
            assert forall|k: int| 0 <= k < out@.len() implies is_stored_form(
                kept.push(answers@[i as int]@)[k],
                #[trigger] out@[k],
            ) by {
                if k < before.len() {
                    assert(out@[k] == before[k]);
                }
            }
        }
        i = i + 1;
    }
    assert(all.subrange(0, i as int) =~= all);
    out
}

/// What the answers to a question are remembered as; nothing where none can be stored.
pub fn cache_answers(question: &Question, answers: &[ResourceRecord]) -> (r: Option<CacheEntry>)
    ensures
        match r {
            Some(e) => is_entry(question@, resource_views(answers@), e) && e.records@.len() > 0,
            None => storable(resource_views(answers@)).len() == 0,
        },
{
    let records = store_all(answers);
    if records.len() == 0 {
        return None;
    }
    let ttl: u32 = match min_answer_ttl(answers) {
        Some(t) => t,
        None => DEFAULT_TTL,
    };
    Some(
        CacheEntry {
            name: question.name.text(),
            kind: map_query_type_to_kind(question.qtype),
            records,
            ttl,
        },
    )
}

/// Whether a response is one to remember: it has answers, no error, and a question to
/// remember them under.
pub open spec fn is_positive(response: Seq<u8>) -> bool {
    match decoded(response) {
        Some(m) => m.head.rcode == NO_ERROR && m.answers.len() > 0 && m.questions.len() > 0,
        None => false,
    }
}

/// What a response is remembered as.
pub fn cache_from_wire(response: &[u8]) -> (r: Option<CacheEntry>)
    ensures
        match r {
            Some(e) => is_positive(response@) && is_entry(
                decoded(response@)->0.questions[0],
                decoded(response@)->0.answers,
                e,
            ) && e.records@.len() > 0,
            None => !is_positive(response@) || storable(decoded(response@)->0.answers).len() == 0,
        },
{
    let message = match Query::parse(response) {
        Some(m) => m,
        None => {
            return None;
        },
    };
    let answers = match decode_answers(response) {
        Some(a) => a,
        None => {
            return None;
        },
    };
    assert(resource_views(answers@).len() == answers@.len());
    assert(crate::message::question_views(message.questions@).len() == message.questions@.len());
    if message.head.rcode != NO_ERROR || answers.len() == 0 || message.questions.len() == 0 {
        return None;
    }
    assert(crate::message::question_views(message.questions@)[0] == message.questions@[0]@);
    cache_answers(&message.questions[0], answers.as_slice())
}

/// The negative answer that a response code is; only authoritative ones are remembered.
pub open spec fn negative_of(rcode: u16) -> Option<NegativeKind> {
    if rcode == NX_DOMAIN {
        Some(NegativeKind::NxDomain)
    } else if rcode == NO_ERROR {
        Some(NegativeKind::NoData)
    } else {
        None
    }
}

/// What a negative answer is remembered as: under the question, like an answer.
pub fn cache_negative(question: &Question, rcode: u16, ttl: u32) -> (r: Option<NegativeEntry>)
    ensures
        match r {
            Some(e) => negative_of(rcode) == Some(e.negative) && e.name@ == name_text(
                question@.name,
            ) && e.kind == asked_kind(question.qtype) && e.ttl == ttl,
            None => negative_of(rcode) is None,
        },
{
    let negative = match rcode {
        NX_DOMAIN => NegativeKind::NxDomain,
        NO_ERROR => NegativeKind::NoData,
        _ => {
            return None;
        },
    };
    Some(
        NegativeEntry {
            name: question.name.text(),
            kind: map_query_type_to_kind(question.qtype),
            negative,
            ttl,
        },
    )
}

/// What an iterative resolution leads to remembering.
#[derive(Debug, Clone, Copy, PartialEq, Eq, Structural)]
pub enum Memory {
    /// Nothing.
    Nothing,
    /// The answers.
    Answers,
    /// That there are none, for so many seconds.
    Negative(u32),
}

/// Decides what an iterative resolution leads to remembering: its answers, or else that
/// there are none, for as long as the response says.
pub fn memory_of(rcode: u16, answers: usize, negative_ttl: Option<u32>) -> (r: Memory)
    ensures
        r == if rcode == NO_ERROR && answers > 0 {
            Memory::Answers
        } else {
            match negative_ttl {
                Some(ttl) => Memory::Negative(ttl),
                None => Memory::Nothing,
            }
        },
{
    if rcode == NO_ERROR && answers > 0 {
        Memory::Answers
    } else {
        match negative_ttl {
            Some(ttl) => Memory::Negative(ttl),
            None => Memory::Nothing,
        }
    }
}

/// The name that a network's records are cached under.
pub open spec fn scoped_name(scope: Seq<char>, qname: Seq<char>) -> Seq<char> {
    "@"@ + scope + "/"@ + qname
}

/// The name that a network's records are cached under.
pub fn scoped_cache_name(scope: &str, qname: &str) -> (r: String)
    ensures
        r@ == scoped_name(scope@, qname@),
{
    join4("@", scope, "/", qname)
}

/// Answers are remembered under the question that produced them: two responses to the same
/// question, be their answers about other names, share an entry's name and type.
pub proof fn law_entries_are_keyed_by_the_question(
    question: QuestionView,
    a: Seq<ResourceView>,
    b: Seq<ResourceView>,
    x: CacheEntry,
    y: CacheEntry,
)
    requires
        is_entry(question, a, x),
        is_entry(question, b, y),
    ensures
        x.name@ == y.name@,
        x.kind == y.kind,
{
}

/// No entry is kept longer than one of the answers it was made from may be.
pub proof fn law_entries_do_not_outlive_their_answers(
    question: QuestionView,
    answers: Seq<ResourceView>,
    entry: CacheEntry,
    i: int,
)
    requires
        is_entry(question, answers, entry),
        0 <= i < answers.len(),
    ensures
        entry.ttl <= answers[i].ttl,
{
    crate::doh_server::law_least_ttl_is_a_bound(answers);
}

} // verus!
