//! DNS messages: what is read from one, and how one is written.
//!
//! Reading and final encoding are `hickory`'s. What a message holds is named here, and
//! messages to be sent are drafted octet by octet.
use hickory_proto::op::{Message, MessageType};
use hickory_proto::rr::rdata::NULL;
use hickory_proto::rr::{self, RData, Record};
use hickory_proto::serialize::binary::{BinDecodable, BinDecoder, BinEncodable, Restrict};
use vstd::prelude::*;
use vstd::slice::slice_to_vec;

use crate::codec::{be16, push_be16, read16};
use crate::edns::{add_edns_to_response, opt_record, EdnsContext};
use crate::wire_name::{name_octets, Name};

verus! {

/// The response code for success.
pub const NO_ERROR: u16 = 0;

/// The response code for a malformed query.
pub const FORM_ERR: u16 = 1;

/// The response code for a failure to resolve.
pub const SERV_FAIL: u16 = 2;

/// The response code for a name that does not exist.
pub const NX_DOMAIN: u16 = 3;

/// The response code for a kind of query that is not served.
pub const NOT_IMP: u16 = 4;

/// The response code for a query that is refused.
pub const REFUSED: u16 = 5;

/// The extended response code for an EDNS version that is not supported.
pub const BAD_VERS: u16 = 16;

/// The class of the Internet.
pub const CLASS_IN: u16 = 1;

/// The code of A records.
pub const TYPE_A: u16 = 1;

/// The code of AAAA records.
pub const TYPE_AAAA: u16 = 28;

/// A question.
#[derive(Debug)]
pub struct Question {
    pub name: Name,
    pub qtype: u16,
    pub qclass: u16,
}

/// The contents of a question.
pub ghost struct QuestionView {
    pub name: Seq<Seq<u8>>,
    pub qtype: u16,
    pub qclass: u16,
}

impl View for Question {
    type V = QuestionView;

    open spec fn view(&self) -> QuestionView {
        QuestionView { name: self.name@, qtype: self.qtype, qclass: self.qclass }
    }
}

/// The contents of questions.
pub open spec fn question_views(s: Seq<Question>) -> Seq<QuestionView> {
    Seq::new(s.len(), |i: int| s[i]@)
}

impl Clone for Question {
    fn clone(&self) -> (r: Question)
        ensures
            r@ == self@,
    {
        Question { name: self.name.clone(), qtype: self.qtype, qclass: self.qclass }
    }
}

/// A resource record of class IN.
#[derive(Debug)]
pub struct ResourceRecord {
    pub name: Name,
    pub rtype: u16,
    pub ttl: u32,
    /// The data on the wire; none where the data has no wire form.
    pub rdata: Option<Vec<u8>>,
}

/// The contents of a resource record.
pub ghost struct ResourceView {
    pub name: Seq<Seq<u8>>,
    pub rtype: u16,
    pub ttl: u32,
    pub rdata: Option<Seq<u8>>,
}

/// The octets of optional data.
pub open spec fn octets_of(b: Option<Vec<u8>>) -> Option<Seq<u8>> {
    match b {
        Some(v) => Some(v@),
        None => None,
    }
}

impl View for ResourceRecord {
    type V = ResourceView;

    open spec fn view(&self) -> ResourceView {
        ResourceView {
            name: self.name@,
            rtype: self.rtype,
            ttl: self.ttl,
            rdata: octets_of(self.rdata),
        }
    }
}

/// The contents of resource records.
pub open spec fn resource_views(s: Seq<ResourceRecord>) -> Seq<ResourceView> {
    Seq::new(s.len(), |i: int| s[i]@)
}

impl Clone for ResourceRecord {
    fn clone(&self) -> (r: ResourceRecord)
        ensures
            r@ == self@,
    {
        let rdata = match &self.rdata {
            Some(v) => Some(slice_to_vec(v.as_slice())),
            None => None,
        };
        ResourceRecord { name: self.name.clone(), rtype: self.rtype, ttl: self.ttl, rdata }
    }
}

/// The header of a message and its OPT record.
#[derive(Debug, Clone, Copy, PartialEq, Eq, Structural)]
pub struct Head {
    pub id: u16,
    /// Whether the message is a query rather than a response.
    pub is_query: bool,
    pub opcode: u8,
    /// The response code, its high bits from the OPT record.
    pub rcode: u16,
    pub recursion_desired: bool,
    pub edns: Option<EdnsContext>,
}

/// What a message holds, as far as it is read.
pub ghost struct MessageView {
    pub head: Head,
    pub questions: Seq<QuestionView>,
    pub answers: Seq<ResourceView>,
}

// ---------------------------------------------------------------------------
// hickory
// ---------------------------------------------------------------------------
/// What `hickory` reads from the octets of a message; none where it cannot.
pub uninterp spec fn decoded(octets: Seq<u8>) -> Option<MessageView>;

/// What `hickory` writes for a message drafted without answers, and for the answers; none
/// where it cannot.
pub uninterp spec fn encoded(draft: Seq<u8>, answers: Seq<ResourceView>) -> Option<Seq<u8>>;

/// What `hickory` writes for a message when of its answers only those at given positions
/// are kept; none where it cannot.
pub uninterp spec fn with_answers(octets: Seq<u8>, keep: Seq<usize>) -> Option<Seq<u8>>;

/// Whether a head says what the first octets of a message say (RFC 1035 section 4.1.1).
pub open spec fn reads_header(octets: Seq<u8>, head: Head) -> bool {
    &&& octets.len() >= 12
    &&& head.id == read16(octets, 0)
    &&& head.is_query == (octets[2] < 0x80)
    &&& head.opcode == octets[2] / 8 % 16
    &&& head.recursion_desired == (octets[2] % 2 == 1)
    &&& head.rcode % 16 == octets[3] % 16
    &&& head.edns is None ==> head.rcode < 16
}

/// `hickory_proto::op::Message::from_bytes`: the header fields and the OPT record. What is
/// read depends on the octets alone; the fields of the header are those of its first four
/// octets, the response code having its high bits from the OPT record.
#[verifier::external_body]
pub(crate) fn decode_head(octets: &[u8]) -> (r: Option<Head>)
    ensures
        match r {
            Some(h) => decoded(octets@) is Some && decoded(octets@)->0.head == h,
            None => decoded(octets@) is None,
        },
        r is Some ==> reads_header(octets@, r->0),
{
    let m = Message::from_bytes(octets).ok()?;
    let edns = m.extensions().as_ref().map(|e| EdnsContext {
        version: e.version(),
        max_payload: e.max_payload(),
        dnssec_ok: e.flags().dnssec_ok,
    });
    let (id, opcode, rcode) = (m.id(), m.op_code().into(), m.response_code().into());
    let is_query = m.message_type() == MessageType::Query;
    Some(Head { id, is_query, opcode, rcode, recursion_desired: m.recursion_desired(), edns })
}

/// `hickory_proto::op::Message::from_bytes`: the questions, as many as the header counts.
#[verifier::external_body]
pub(crate) fn decode_questions(octets: &[u8]) -> (r: Option<Vec<Question>>)
    ensures
        match r {
            Some(q) => decoded(octets@) is Some && decoded(octets@)->0.questions == question_views(
                q@,
            ),
            None => decoded(octets@) is None,
        },
        r is Some ==> octets@.len() >= 12 && r->0@.len() == read16(octets@, 4),
{
    let m = Message::from_bytes(octets).ok()?;
    let convert = |q: &hickory_proto::op::Query| Question {
        name: Name { labels: q.name().iter().map(|l| l.to_vec()).collect() },
        qtype: q.query_type().into(),
        qclass: q.query_class().into(),
    };
    Some(m.queries().iter().map(convert).collect())
}

/// `hickory_proto::op::Message::from_bytes`: the answers, the data of each as `hickory`
/// writes it outside a message.
#[verifier::external_body]
pub(crate) fn decode_answers(octets: &[u8]) -> (r: Option<Vec<ResourceRecord>>)
    ensures
        match r {
            Some(a) => decoded(octets@) is Some && decoded(octets@)->0.answers == resource_views(a@),
            None => decoded(octets@) is None,
        },
{
    let m = Message::from_bytes(octets).ok()?;
    let convert = |r: &Record| ResourceRecord {
        name: Name { labels: r.name().iter().map(|l| l.to_vec()).collect() },
        rtype: r.record_type().into(),
        ttl: r.ttl(),
        rdata: r.data().to_bytes().ok(),
    };
    Some(m.answers().iter().map(convert).collect())
}

/// `hickory_proto::op::Message::to_bytes` of a message that is read from a draft and given
/// answers, their data read as `hickory` reads it, or taken as it is where it cannot be
/// read. The result depends on the draft and the answers alone. A message that is only
/// a header, of operation 0 and with its reserved bit clear, is written as it is drafted;
/// any other keeps its identifier, its response bit and its response code.
#[verifier::external_body]
fn encode(draft: &[u8], answers: &[ResourceRecord]) -> (r: Option<Vec<u8>>)
    ensures
        octets_of(r) == encoded(draft@, resource_views(answers@)),
        is_bare_header(draft@) && answers@.len() == 0 ==> r is Some && r->0@ == draft@,
        r is Some && draft@.len() >= 12 ==> same_marks(r->0@, draft@),
{
    let mut m = Message::from_bytes(draft).ok()?;
    for a in answers {
        let name = rr::Name::from_labels(a.name.labels.iter().map(|l| &l[..])).ok()?;
        let (code, octets) = (a.rtype.into(), a.rdata.clone()?);
        let length = Restrict::new(u16::try_from(octets.len()).ok()?);
        let read = RData::read(&mut BinDecoder::new(&octets), code, length);
        let rdata = read.unwrap_or(RData::Unknown { code, rdata: NULL::with(octets) });
        m.add_answer(Record::from_rdata(name, a.ttl, rdata));
    }
    m.to_bytes().ok()
}

/// `hickory_proto::op::Message::take_answers`, `add_answers` and `to_bytes` on a message
/// that is read first. The result depends on the octets and the positions alone, and keeps
/// the identifier, the response bit and the response code.
#[verifier::external_body]
fn encode_with_answers(octets: &[u8], keep: &[usize]) -> (r: Option<Vec<u8>>)
    requires
        decoded(octets@) is Some,
        forall|i: int|
            0 <= i < keep@.len() ==> #[trigger] keep@[i] < decoded(octets@)->0.answers.len(),
    ensures
        octets_of(r) == with_answers(octets@, keep@),
        r is Some && octets@.len() >= 12 ==> same_marks(r->0@, octets@),
{
    let mut m = Message::from_bytes(octets).ok()?;
    let answers = m.take_answers();
    m.add_answers(keep.iter().map(|i| answers[*i].clone()));
    m.to_bytes().ok()
}

/// Whether octets are the header of a message without sections, of operation 0 and with its
/// reserved bit clear.
pub open spec fn is_bare_header(b: Seq<u8>) -> bool {
    &&& b.len() == 12
    &&& forall|i: int| 4 <= i < 12 ==> b[i] == 0
    &&& b[2] / 8 % 16 == 0
    &&& b[3] / 64 % 2 == 0
}

/// Whether two messages agree in identifier, response bit and response code.
pub open spec fn same_marks(a: Seq<u8>, b: Seq<u8>) -> bool {
    a.len() >= 12 && a[0] == b[0] && a[1] == b[1] && a[2] / 128 == b[2] / 128 && a[3] % 16 == b[3]
        % 16
}

// ---------------------------------------------------------------------------
// Drafts
// ---------------------------------------------------------------------------
/// The header of a message.
pub open spec fn header_octets(
    id: u16,
    flags: u8,
    more_flags: u8,
    questions: nat,
    additional: nat,
) -> Seq<u8> {
    be16(id) + seq![flags, more_flags] + be16((questions % 0x1_0000) as u16) + be16(0) + be16(0)
        + be16(additional as u16)
}

/// A question on the wire.
pub open spec fn question_octets(q: QuestionView) -> Seq<u8> {
    name_octets(q.name) + be16(q.qtype) + be16(q.qclass)
}

/// Questions on the wire.
pub open spec fn questions_octets(s: Seq<QuestionView>) -> Seq<u8>
    decreases s.len(),
{
    if s.len() == 0 {
        Seq::empty()
    } else {
        questions_octets(s.drop_last()) + question_octets(s.last())
    }
}

/// The flags of a response: whether it is authoritative and whether recursion was asked.
pub open spec fn response_flags(authoritative: bool, recursion_desired: bool) -> u8 {
    (0x80 + (if authoritative {
        4int
    } else {
        0
    }) + (if recursion_desired {
        1int
    } else {
        0
    })) as u8
}

/// A response without its answers: the query's identifier and questions, recursion
/// available, and an OPT record where the query had one.
pub open spec fn response_draft(
    head: Head,
    questions: Seq<QuestionView>,
    rcode: u16,
    authoritative: bool,
    edns: Option<EdnsContext>,
) -> Seq<u8> {
    header_octets(
        head.id,
        response_flags(authoritative, head.recursion_desired),
        (0x80 + rcode % 16) as u8,
        questions.len(),
        if edns is Some {
            1
        } else {
            0
        },
    ) + questions_octets(questions) + match edns {
        Some(ctx) => opt_record(ctx.max_payload, rcode, ctx.dnssec_ok),
        None => Seq::empty(),
    }
}

/// A query for one question with recursion desired.
pub open spec fn query_draft(id: u16, question: QuestionView) -> Seq<u8> {
    header_octets(id, 1, 0, 1, 0) + question_octets(question)
}

fn push_header(
    out: &mut Vec<u8>,
    id: u16,
    flags: u8,
    more_flags: u8,
    questions: usize,
    additional: u16,
)
    ensures
        final(out)@ == old(out)@ + header_octets(
            id,
            flags,
            more_flags,
            questions as nat,
            additional as nat,
        ),
{
    push_be16(out, id);
    out.push(flags);
    out.push(more_flags);
    push_be16(out, (questions % 0x1_0000) as u16);
    push_be16(out, 0);
    push_be16(out, 0);
    push_be16(out, additional);
    assert(out@ =~= old(out)@ + header_octets(
        id,
        flags,
        more_flags,
        questions as nat,
        additional as nat,
    ));
}

fn push_question(out: &mut Vec<u8>, q: &Question)
    ensures
        final(out)@ == old(out)@ + question_octets(q@),
{
    let name = q.name.to_wire();
    out.extend_from_slice(name.as_slice());
    push_be16(out, q.qtype);
    push_be16(out, q.qclass);
    assert(out@ =~= old(out)@ + question_octets(q@));
}

/// What is sent for a message: what `hickory` writes, or nothing where it cannot.
pub open spec fn sent(draft: Seq<u8>, answers: Seq<ResourceView>) -> Seq<u8> {
    match encoded(draft, answers) {
        Some(b) => b,
        None => Seq::empty(),
    }
}

fn send(draft: &[u8], answers: &[ResourceRecord]) -> (r: Vec<u8>)
    ensures
        r@ == sent(draft@, resource_views(answers@)),
        is_bare_header(draft@) && answers@.len() == 0 ==> r@ == draft@,
        r@.len() > 0 && draft@.len() >= 12 ==> same_marks(r@, draft@),
{
    match encode(draft, answers) {
        Some(v) => v,
        None => {
            let empty: Vec<u8> = Vec::new();
            assert(empty@ =~= Seq::empty());
            empty
        },
    }
}

/// A query as the rest of the server sees it: its header and its questions.
#[derive(Debug)]
pub struct Query {
    pub head: Head,
    pub questions: Vec<Question>,
}

impl Query {
    /// Reads a message.
    pub fn parse(octets: &[u8]) -> (r: Option<Query>)
        ensures
            r is Some ==> reads_header(octets@, r->0.head),
            r is Some ==> r->0.questions@.len() == read16(octets@, 4),
            match r {
                Some(q) => decoded(octets@) is Some && decoded(octets@)->0.head == q.head
                    && decoded(octets@)->0.questions == question_views(q.questions@),
                None => decoded(octets@) is None,
            },
    {
        match (decode_head(octets), decode_questions(octets)) {
            (Some(head), Some(questions)) => Some(Query { head, questions }),
            _ => None,
        }
    }
}

/// Whether octets are a response with some identifier and response code, the high bits of
/// the latter aside.
pub open spec fn answers_to(response: Seq<u8>, id: u16, rcode: u16) -> bool {
    &&& response.len() >= 12
    &&& read16(response, 0) == id
    &&& response[2] >= 0x80
    &&& response[3] % 16 == rcode % 16
}

/// Builds a response, with an OPT record where `edns` is given.
pub fn build_response_edns(
    query: &Query,
    rcode: u16,
    answers: &[ResourceRecord],
    authoritative: bool,
    edns: Option<EdnsContext>,
) -> (r: Vec<u8>)
    ensures
        r@ == sent(
            response_draft(query.head, question_views(query.questions@), rcode, authoritative, edns),
            resource_views(answers@),
        ),
        r@.len() > 0 ==> answers_to(r@, query.head.id, rcode),
{
    let mut draft: Vec<u8> = Vec::new();
    let ghost questions = question_views(query.questions@);
    let mut flags: u8 = 0x80;
    if authoritative {
        flags = flags + 4;
    }
    if query.head.recursion_desired {
        flags = flags + 1;
    }
    let additional: u16 = if edns.is_some() {
        1
    } else {
        0
    };
    push_header(
        &mut draft,
        query.head.id,
        flags,
        (0x80 + rcode % 16) as u8,
        query.questions.len(),
        additional,
    );
    let ghost header = draft@;
    assert(header =~= header_octets(
        query.head.id,
        flags,
        (0x80 + rcode % 16) as u8,
        questions.len(),
        additional as nat,
    ));
    let mut i: usize = 0;
    assert(questions.subrange(0, 0) =~= Seq::empty());
    assert(header + Seq::<u8>::empty() =~= header);
    while i < query.questions.len()
        invariant
            i <= query.questions.len(),
            questions == question_views(query.questions@),
            draft@ == header + questions_octets(questions.subrange(0, i as int)),
        decreases query.questions.len() - i,
    {
        push_question(&mut draft, &query.questions[i]);
        proof {
            let p = questions.subrange(0, i + 1);
            assert(p.drop_last() =~= questions.subrange(0, i as int));
            assert(p.last() == query.questions@[i as int]@);
            assert(draft@ =~= header + (questions_octets(p.drop_last()) + question_octets(
                p.last(),
            )));
        }
        i = i + 1;
    }
    assert(questions.subrange(0, i as int) =~= questions);
    match edns {
        Some(ctx) => {
            add_edns_to_response(&mut draft, ctx.max_payload, rcode, ctx.dnssec_ok);
        },
        None => {
            assert(draft@ + Seq::<u8>::empty() =~= draft@);
        },
    }
    assert(draft@ =~= response_draft(query.head, questions, rcode, authoritative, edns));
    assert(header.len() == 12);
    assert(draft@.len() >= 12);
    assert(draft@[0] == header[0] && draft@[1] == header[1] && draft@[2] == header[2] && draft@[3]
        == header[3]);
    send(draft.as_slice(), answers)
}

/// Builds a response without an OPT record.
pub fn build_response_ex(
    query: &Query,
    rcode: u16,
    answers: &[ResourceRecord],
    authoritative: bool,
) -> (r: Vec<u8>)
    ensures
        r@ == sent(
            response_draft(query.head, question_views(query.questions@), rcode, authoritative, None),
            resource_views(answers@),
        ),
{
    build_response_edns(query, rcode, answers, authoritative, None)
}

/// Builds a response that is not authoritative, without an OPT record.
pub fn build_response(query: &Query, rcode: u16, answers: &[ResourceRecord]) -> (r: Vec<u8>)
    ensures
        r@ == sent(
            response_draft(query.head, question_views(query.questions@), rcode, false, None),
            resource_views(answers@),
        ),
{
    build_response_ex(query, rcode, answers, false)
}

/// An error response: a header alone, with the identifier of the query.
pub open spec fn error_response(query: Seq<u8>, rcode: u16) -> Seq<u8> {
    if query.len() >= 2 {
        seq![query[0], query[1], 0x80, (rcode % 16) as u8, 0, 0, 0, 0, 0, 0, 0, 0]
    } else {
        Seq::empty()
    }
}

/// Creates an error response preserving the identifier of the query.
pub fn make_error_response(query_data: &[u8], rcode: u16) -> (r: Vec<u8>)
    ensures
        r@ == error_response(query_data@, rcode),
{
    if query_data.len() < 2 {
        let empty: Vec<u8> = Vec::new();
        assert(empty@ =~= Seq::empty());
        return empty;
    }
    let id: u16 = crate::codec::read_be16(query_data, 0);
    let mut draft: Vec<u8> = Vec::new();
    push_header(&mut draft, id, 0x80, (rcode % 16) as u8, 0, 0);
    let answers: Vec<ResourceRecord> = Vec::new();
    proof {
        assert(draft@ =~= error_response(query_data@, rcode));
    }
    send(draft.as_slice(), answers.as_slice())
}

/// Builds a query for one name and type.
fn build_query(id: u16, question: &Question) -> (r: Vec<u8>)
    ensures
        r@ == sent(query_draft(id, question@), Seq::empty()),
{
    let mut draft: Vec<u8> = Vec::new();
    push_header(&mut draft, id, 1, 0, 1, 0);
    push_question(&mut draft, question);
    assert(draft@ =~= query_draft(id, question@));
    let answers: Vec<ResourceRecord> = Vec::new();
    assert(resource_views(answers@) =~= Seq::empty());
    send(draft.as_slice(), answers.as_slice())
}

/// The question for a name's records of a type; the root where the text is no name.
pub open spec fn question_for(name: Seq<char>, qtype: u16) -> QuestionView {
    QuestionView {
        name: match crate::wire_name::name_of(name) {
            Some(n) => n,
            None => Seq::empty(),
        },
        qtype,
        qclass: CLASS_IN,
    }
}

/// Builds a query for a specific record type.
pub fn build_query_for_type(name: &str, qtype: u16, id: u16) -> (r: Vec<u8>)
    ensures
        r@ == sent(query_draft(id, question_for(name@, qtype)), Seq::empty()),
{
    let name = match Name::from_ascii(name) {
        Some(n) => n,
        None => {
            let labels: Vec<Vec<u8>> = Vec::new();
            let n = Name { labels };
            assert(n@ =~= Seq::empty());
            n
        },
    };
    build_query(id, &Question { name, qtype, qclass: CLASS_IN })
}

/// Builds a query for the address of a name that always resolves.
pub fn build_canary_query() -> (r: Option<Vec<u8>>)
    ensures
        match r {
            Some(v) => encoded(
                query_draft(0, question_for("one.one.one.one."@, TYPE_A)),
                Seq::empty(),
            ) == Some(v@) && crate::wire_name::name_of("one.one.one.one."@) is Some,
            None => crate::wire_name::name_of("one.one.one.one."@) is None || encoded(
                query_draft(0, question_for("one.one.one.one."@, TYPE_A)),
                Seq::empty(),
            ) is None,
        },
{
    match Name::from_ascii("one.one.one.one.") {
        Some(name) => {
            let question = Question { name, qtype: TYPE_A, qclass: CLASS_IN };
            let mut draft: Vec<u8> = Vec::new();
            push_header(&mut draft, 0, 1, 0, 1, 0);
            push_question(&mut draft, &question);
            assert(draft@ =~= query_draft(0, question@));
            let answers: Vec<ResourceRecord> = Vec::new();
            assert(resource_views(answers@) =~= Seq::empty());
            encode(draft.as_slice(), answers.as_slice())
        },
        None => None,
    }
}

// ---------------------------------------------------------------------------
// Questions about a response
// ---------------------------------------------------------------------------
/// Whether a response is definitive: it can be read, and it says that the name has records
/// or that it has none.
pub open spec fn is_definitive(response: Seq<u8>) -> bool {
    match decoded(response) {
        Some(m) => m.head.rcode == NO_ERROR || m.head.rcode == NX_DOMAIN,
        None => false,
    }
}

/// Whether a response code settles a question: there is an answer, or there is none.
pub fn is_definitive_code(rcode: u16) -> (r: bool)
    ensures
        r == (rcode == NO_ERROR || rcode == NX_DOMAIN),
{
    rcode == NO_ERROR || rcode == NX_DOMAIN
}

/// Whether a raw response is a definitive answer.
pub fn response_is_definitive(response: &[u8]) -> (r: bool)
    ensures
        r == is_definitive(response@),
{
    match decode_head(response) {
        Some(h) => is_definitive_code(h.rcode),
        None => false,
    }
}

/// Whether a record of a type is answered while families are suppressed.
pub open spec fn family_answered(rtype: u16, v4: bool, v6: bool) -> bool {
    if rtype == TYPE_A {
        v4
    } else if rtype == TYPE_AAAA {
        v6
    } else {
        true
    }
}

/// The positions of the first `n` answers that are kept while families are suppressed.
pub open spec fn kept_answers(answers: Seq<ResourceView>, v4: bool, v6: bool, n: nat) -> Seq<usize>
    decreases n,
{
    if n == 0 {
        Seq::empty()
    } else {
        let before = kept_answers(answers, v4, v6, (n - 1) as nat);
        if family_answered(answers[n - 1].rtype, v4, v6) {
            before.push((n - 1) as usize)
        } else {
            before
        }
    }
}

/// A response without the answers in suppressed families; as it was where there are none,
/// or where it cannot be read or written.
pub open spec fn family_filtered(response: Seq<u8>, v4: bool, v6: bool) -> Seq<u8> {
    match decoded(response) {
        None => response,
        Some(m) => {
            let keep = kept_answers(m.answers, v4, v6, m.answers.len());
            if keep.len() == m.answers.len() {
                response
            } else {
                match with_answers(response, keep) {
                    Some(b) => b,
                    None => response,
                }
            }
        },
    }
}

proof fn lemma_kept_answers(answers: Seq<ResourceView>, v4: bool, v6: bool, n: nat)
    requires
        n <= answers.len(),
        answers.len() <= usize::MAX,
    ensures
        kept_answers(answers, v4, v6, n).len() <= n,
        forall|i: int|
            0 <= i < kept_answers(answers, v4, v6, n).len() ==> (#[trigger] kept_answers(
                answers,
                v4,
                v6,
                n,
            )[i]) < n,
        v4 && v6 ==> kept_answers(answers, v4, v6, n).len() == n,
    decreases n,
{
    if n > 0 {
        lemma_kept_answers(answers, v4, v6, (n - 1) as nat);
    }
}

/// Drops address answers of any family that is suppressed.
pub fn apply_family_filter(response: Vec<u8>, v4: bool, v6: bool) -> (r: Vec<u8>)
    ensures
        r@ == family_filtered(response@, v4, v6),
        v4 && v6 ==> r == response,
        response@.len() >= 12 ==> same_marks(r@, response@),
{
    if v4 && v6 {
        proof {
            match decoded(response@) {
                Some(m) => {
                    lemma_kept_all(m.answers, m.answers.len());
                },
                None => {},
            }
        }
        return response;
    }
    let answers = match decode_answers(response.as_slice()) {
        Some(a) => a,
        None => {
            return response;
        },
    };
    let ghost views = resource_views(answers@);
    let mut keep: Vec<usize> = Vec::new();
    let mut i: usize = 0;
    assert(keep@ =~= Seq::empty());
    while i < answers.len()
        invariant
            i <= answers.len(),
            views == resource_views(answers@),
            keep@ == kept_answers(views, v4, v6, i as nat),
        decreases answers.len() - i,
    {
        assert(views[i as int].rtype == answers@[i as int].rtype);
        let rtype: u16 = answers[i].rtype;
        let answered = if rtype == TYPE_A {
            v4
        } else if rtype == TYPE_AAAA {
            v6
        } else {
            true
        };
        if answered {
            keep.push(i);
        }
        i = i + 1;
    }
    if keep.len() == answers.len() {
        return response;
    }
    proof {
        lemma_kept_answers(views, v4, v6, views.len());
    }
    match encode_with_answers(response.as_slice(), keep.as_slice()) {
        Some(v) => v,
        None => response,
    }
}

proof fn lemma_kept_all(answers: Seq<ResourceView>, n: nat)
    ensures
        kept_answers(answers, true, true, n).len() == n,
    decreases n,
{
    if n > 0 {
        lemma_kept_all(answers, (n - 1) as nat);
    }
}

} // verus!
