//! Which datagrams are replies to a query that was forwarded.
use vstd::prelude::*;

use crate::addr::SocketAddress;
use crate::codec::{read16, read_be16};
use crate::message::{decoded, question_views, Query, Question, QuestionView};
use crate::text::eq_bytes;

verus! {

/// The longest message in a datagram.
pub const MAX_UDP_SIZE: usize = 4096;

/// How long a reply is waited for, in milliseconds.
pub const FORWARD_TIMEOUT_MS: u64 = 1500;

/// What a reply has to match. It is taken from the query as it is sent, never from what
/// comes back.
#[derive(Debug)]
pub struct SentQuery {
    pub id: u16,
    pub target: SocketAddress,
    /// The question; none where the query cannot be read.
    pub question: Option<Question>,
}

/// The first question of a message.
pub open spec fn first_question(octets: Seq<u8>) -> Option<QuestionView> {
    match decoded(octets) {
        Some(m) => if m.questions.len() > 0 {
            Some(m.questions[0])
        } else {
            None
        },
        None => None,
    }
}

/// The contents of an optional question.
pub open spec fn optional_question(q: Option<Question>) -> Option<QuestionView> {
    match q {
        Some(q) => Some(q@),
        None => None,
    }
}

fn read_question(octets: &[u8]) -> (r: Option<Question>)
    ensures
        optional_question(r) == first_question(octets@),
{
    match Query::parse(octets) {
        Some(q) => {
            assert(question_views(q.questions@).len() == q.questions@.len());
            if q.questions.len() > 0 {
                assert(question_views(q.questions@)[0] == q.questions@[0]@);
                Some(q.questions[0].clone())
            } else {
                None
            }
        },
        None => None,
    }
}

/// What is made of a datagram.
#[derive(Debug, Clone, Copy, PartialEq, Eq, Structural)]
pub enum Judgement {
    /// It is the reply.
    Accept,
    /// It comes from somebody who was not asked.
    WrongSource,
    /// It has another identifier.
    WrongId,
    /// It cannot be read.
    Unreadable,
    /// It answers no question.
    NoQuestion,
    /// It answers another question.
    OtherQuestion,
}

/// What is made of a datagram that comes back to a query. Names are compared in the case
/// they were sent in.
pub open spec fn judgement(
    id: u16,
    target: SocketAddress,
    question: Option<QuestionView>,
    from: SocketAddress,
    datagram: Seq<u8>,
) -> Judgement {
    if from != target {
        Judgement::WrongSource
    } else if datagram.len() < 2 || read16(datagram, 0) != id {
        Judgement::WrongId
    } else if decoded(datagram) is None {
        Judgement::Unreadable
    } else if question is None {
        Judgement::Accept
    } else if first_question(datagram) is None {
        Judgement::NoQuestion
    } else if first_question(datagram) == question {
        Judgement::Accept
    } else {
        Judgement::OtherQuestion
    }
}

fn same_question(a: &Question, b: &Question) -> (r: bool)
    ensures
        r == (a@ == b@),
{
    if a.qtype != b.qtype || a.qclass != b.qclass || a.name.labels.len() != b.name.labels.len() {
        assert(a@.name.len() == a.name.labels@.len());
        assert(b@.name.len() == b.name.labels@.len());
        return false;
    }
    let mut i: usize = 0;
    while i < a.name.labels.len()
        invariant
            i <= a.name.labels.len() == b.name.labels.len(),
            forall|k: int| 0 <= k < i ==> #[trigger] a@.name[k] == b@.name[k],
        decreases a.name.labels.len() - i,
    {
        assert(a@.name[i as int] == a.name.labels@[i as int]@);
        assert(b@.name[i as int] == b.name.labels@[i as int]@);
        if !eq_bytes(a.name.labels[i].as_slice(), b.name.labels[i].as_slice()) {
            return false;
        }
        i = i + 1;
    }
    assert(a@.name =~= b@.name);
    true
}

impl SentQuery {
    /// What a reply to this query has to match; none for what is too short to be sent.
    pub fn new(sent: &[u8], target: SocketAddress) -> (r: Option<SentQuery>)
        ensures
            match r {
                Some(s) => sent@.len() >= 12 && s.id == read16(sent@, 0) && s.target == target
                    && optional_question(s.question) == first_question(sent@),
                None => sent@.len() < 12,
            },
    {
        if sent.len() < 12 {
            return None;
        }
        Some(SentQuery { id: read_be16(sent, 0), target, question: read_question(sent) })
    }

    /// What to make of a datagram.
    pub fn judge(&self, from: SocketAddress, datagram: &[u8]) -> (r: Judgement)
        ensures
            r == judgement(
                self.id,
                self.target,
                optional_question(self.question),
                from,
                datagram@,
            ),
    {
        if from != self.target {
            return Judgement::WrongSource;
        }
        if datagram.len() < 2 || read_be16(datagram, 0) != self.id {
            return Judgement::WrongId;
        }
        if crate::message::decode_head(datagram).is_none() {
            return Judgement::Unreadable;
        }
        match &self.question {
            None => Judgement::Accept,
            Some(asked) => match read_question(datagram) {
                None => Judgement::NoQuestion,
                Some(got) => if same_question(&got, asked) {
                    Judgement::Accept
                } else {
                    Judgement::OtherQuestion
                },
            },
        }
    }
}

/// What is accepted as the reply to a query comes from whom it was sent to, carries its
/// identifier, and answers its question, spelled as it was sent.
pub proof fn law_replies_answer_the_question(
    sent: Seq<u8>,
    target: SocketAddress,
    from: SocketAddress,
    datagram: Seq<u8>,
)
    requires
        first_question(sent) is Some,
        judgement(read16(sent, 0), target, first_question(sent), from, datagram)
            == Judgement::Accept,
    ensures
        from == target,
        read16(datagram, 0) == read16(sent, 0),
        first_question(datagram) == first_question(sent),
{
}

} // verus!
