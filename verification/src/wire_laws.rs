//! What messages and requests say, read octet by octet.
use vstd::arithmetic::power2::{lemma_pow2_pos, pow2};
use vstd::prelude::*;

use crate::addr::{
    after, before, holds, index_of, ip_of, ip_text, same_prefix, socket_of, IpAddress,
    SocketAddress,
};
use crate::codec::{be128, be16, be32, read16};
use crate::dns_server::access::{attached_ranges, in_ranges, overlay_ranges};
use crate::dns_server::auto::{started, AutoState};
use crate::dns_server::cache::is_positive;
use crate::dns_server::reply::{first_question, judgement, Judgement};
use crate::dns_server::wire::{
    dotted, header_rcode, is_truncated, octet_chars, qname_text, question_type, runs_at, toggled,
};
use crate::doh_h3_server::{dns_param_decoded, first_dns, is_dns_pair};
use crate::doh_proxy::{
    credentials_octets, greeting_octets, proxy_addr, socks_request_octets, without_prefix,
};
use crate::edns::{opt_record, EdnsContext};
use crate::forwarder::{
    authority_split, encrypted, forwarder_at, host_port_of, last_index_of, port_of, preference_of,
    private_address, scheme_split, transport_of, usable, ForwarderError, ForwarderView, Health,
    Preference, Transport, DEFAULT_DOH_PATH,
};
use crate::laws::law_name_octets_are_read_back;
use crate::message::{
    decoded, error_response, family_answered, family_filtered, header_octets, is_definitive, kept_answers,
    query_draft, question_octets, questions_octets, response_draft, response_flags, Head,
    QuestionView, ResourceView,
};
use crate::names::labels_fit;
use crate::svcb::{
    key_number, list_item, list_items, param_key, param_octets, param_value, params_octets,
    service_binding,
};
use crate::text::{occurrence, parse_unsigned, words};
use crate::wire_name::{labels_at, name_octets};

verus! {

proof fn lemma_pair(front: Seq<u8>, x: u16, behind: Seq<u8>)
    ensures
        read16(front + be16(x) + behind, front.len() as int) == x,
{
    let b = front + be16(x) + behind;
    let at = front.len() as int;
    assert(b[at] == be16(x)[0] && b[at + 1] == be16(x)[1]);
}

// ---------------------------------------------------------------------------
// Messages
// ---------------------------------------------------------------------------
/// A header is the identifier, two octets of flags, and the counts of questions, answers,
/// authorities and additional records.
#[verifier::spinoff_prover]
#[verifier::rlimit(40)]
pub proof fn law_header_fields_stand_in_order(
    id: u16,
    flags: u8,
    more: u8,
    questions: nat,
    additional: nat,
    rest: Seq<u8>,
)
    requires
        questions <= 0xffff,
        additional <= 0xffff,
    ensures
        ({
            let b = header_octets(id, flags, more, questions, additional) + rest;
            &&& b.len() == 12 + rest.len()
            &&& read16(b, 0) == id && b[2] == flags && b[3] == more
            &&& read16(b, 4) == questions && read16(b, 6) == 0 && read16(b, 8) == 0
            &&& read16(b, 10) == additional
            &&& b.subrange(12, b.len() as int) == rest
        }),
{
    let b = header_octets(id, flags, more, questions, additional) + rest;
    let none = Seq::<u8>::empty();
    let p0 = be16(id);
    let p1 = seq![flags, more];
    let q = questions as u16;
    let a = additional as u16;
    let p2 = be16(q);
    let zero = be16(0);
    let p3 = be16(a);
    assert(b =~= none + p0 + (p1 + p2 + zero + zero + p3 + rest));
    lemma_pair(none, id, p1 + p2 + zero + zero + p3 + rest);
    assert(b =~= p0 + p1 + p2 + (zero + zero + p3 + rest));
    lemma_pair(p0 + p1, q, zero + zero + p3 + rest);
    assert(b =~= p0 + p1 + p2 + zero + (zero + p3 + rest));
    lemma_pair(p0 + p1 + p2, 0, zero + p3 + rest);
    assert(b =~= p0 + p1 + p2 + zero + zero + (p3 + rest));
    lemma_pair(p0 + p1 + p2 + zero, 0, p3 + rest);
    assert(b =~= p0 + p1 + p2 + zero + zero + p3 + rest);
    lemma_pair(p0 + p1 + p2 + zero + zero, a, rest);
    assert(b[2] == p1[0] && b[3] == p1[1]);
    assert(b.subrange(12, b.len() as int) =~= rest);
}

/// A response has the query's identifier, the response bit, the authority bit where it is
/// authoritative, the query's recursion bit, recursion available, and the response code; it is
/// not truncated, and has an additional record exactly where it has an OPT record.
#[verifier::spinoff_prover]
#[verifier::rlimit(40)]
pub proof fn law_response_header(
    head: Head,
    questions: Seq<QuestionView>,
    rcode: u16,
    authoritative: bool,
    edns: Option<EdnsContext>,
)
    requires
        questions.len() <= 0xffff,
    ensures
        ({
            let b = response_draft(head, questions, rcode, authoritative, edns);
            &&& b.len() >= 12
            &&& read16(b, 0) == head.id
            &&& b[2] / 128 == 1 && b[2] / 8 % 16 == 0
            &&& b[2] / 4 % 2 == 1 <==> authoritative
            &&& b[2] % 2 == 1 <==> head.recursion_desired
            &&& !is_truncated(b)
            &&& b[3] / 128 == 1 && b[3] / 16 % 8 == 0 && b[3] % 16 == rcode % 16
            &&& header_rcode(b) == rcode % 16
            &&& read16(b, 4) == questions.len() && read16(b, 6) == 0 && read16(b, 8) == 0
            &&& read16(b, 10) == 1 <==> edns is Some
            &&& read16(b, 10) == 0 <==> edns is None
            &&& edns is None ==> b.subrange(12, b.len() as int) == questions_octets(questions)
            &&& edns matches Some(ctx) ==> b.subrange(12, b.len() as int) == questions_octets(
                questions,
            ) + opt_record(ctx.max_payload, rcode, ctx.dnssec_ok)
        }),
{
    let opt = match edns {
        Some(ctx) => opt_record(ctx.max_payload, rcode, ctx.dnssec_ok),
        None => Seq::empty(),
    };
    let rest = questions_octets(questions) + opt;
    let flags = response_flags(authoritative, head.recursion_desired);
    let more = (0x80 + rcode % 16) as u8;
    let n: nat = if edns is Some {
        1
    } else {
        0
    };
    law_header_fields_stand_in_order(head.id, flags, more, questions.len(), n, rest);
    let b = response_draft(head, questions, rcode, authoritative, edns);
    assert(b =~= header_octets(head.id, flags, more, questions.len(), n) + rest);
    assert(rest =~= if edns is Some {
        rest
    } else {
        questions_octets(questions)
    });
}

/// An OPT record is of type 41 at the root, has a payload size of at least 512, the high bits
/// of the response code, version 0, and the DNSSEC bit exactly where it is wanted.
#[verifier::spinoff_prover]
#[verifier::rlimit(40)]
pub proof fn law_opt_fields_stand_in_order(max_payload: u16, rcode: u16, dnssec_ok: bool)
    ensures
        ({
            let b = opt_record(max_payload, rcode, dnssec_ok);
            &&& b.len() == 11
            &&& b[0] == 0 && read16(b, 1) == 41
            &&& read16(b, 3) >= 512
            &&& max_payload >= 512 ==> read16(b, 3) == max_payload
            &&& max_payload < 512 ==> read16(b, 3) == 512
            &&& rcode < 4096 ==> b[5] * 16 + rcode % 16 == rcode
            &&& b[6] == 0
            &&& b[7] / 128 == 1 <==> dnssec_ok
            &&& b[7] % 128 == 0 && b[8] == 0
            &&& read16(b, 9) == 0
        }),
{
    let b = opt_record(max_payload, rcode, dnssec_ok);
    let size: u16 = if max_payload < 512 {
        512
    } else {
        max_payload
    };
    let tail = seq![
        (rcode / 16 % 256) as u8,
        0u8,
        if dnssec_ok {
            0x80u8
        } else {
            0u8
        },
        0u8,
        0u8,
        0u8,
    ];
    assert(b =~= seq![0u8] + be16(41) + (be16(size) + tail));
    lemma_pair(seq![0u8], 41, be16(size) + tail);
    assert(b =~= seq![0u8] + be16(41) + be16(size) + tail);
    lemma_pair(seq![0u8] + be16(41), size, tail);
    assert(b[5] == tail[0] && b[6] == tail[1] && b[7] == tail[2] && b[8] == tail[3] && b[9]
        == tail[4] && b[10] == tail[5]);
}

/// A question is its name, its type and its class, and questions stand one behind the other.
pub proof fn law_questions_stand_in_order(q: QuestionView, rest: Seq<QuestionView>)
    requires
        labels_fit(q.name),
    ensures
        ({
            let b = question_octets(q);
            let n = name_octets(q.name).len() as int;
            &&& labels_at(b) == Some((q.name, n as nat))
            &&& b.len() == n + 4
            &&& read16(b, n) == q.qtype && read16(b, n + 2) == q.qclass
        }),
        questions_octets(rest.push(q)) == questions_octets(rest) + question_octets(q),
        questions_octets(seq![q]) == question_octets(q),
        questions_octets(Seq::empty()).len() == 0,
{
    let b = question_octets(q);
    let name = name_octets(q.name);
    law_name_octets_are_read_back(q.name, be16(q.qtype) + be16(q.qclass));
    assert(b =~= name + (be16(q.qtype) + be16(q.qclass)));
    lemma_pair(name, q.qtype, be16(q.qclass));
    lemma_pair(name + be16(q.qtype), q.qclass, Seq::empty());
    assert(b =~= name + be16(q.qtype) + be16(q.qclass) + Seq::empty());
    assert(rest.push(q).drop_last() =~= rest);
    assert(seq![q].drop_last() =~= Seq::empty());
    assert(questions_octets(Seq::empty()) =~= Seq::empty());
    assert(questions_octets(seq![q]) =~= question_octets(q));
}

/// A query that is built asks one question, wants recursion, and its type is read back.
pub proof fn law_query_says_what_it_asks(id: u16, q: QuestionView)
    requires
        labels_fit(q.name),
    ensures
        ({
            let b = query_draft(id, q);
            &&& read16(b, 0) == id && b[2] == 1 && b[3] == 0
            &&& read16(b, 4) == 1 && read16(b, 6) == 0 && read16(b, 8) == 0 && read16(b, 10) == 0
            &&& b.subrange(12, b.len() as int) == question_octets(q)
            &&& question_type(b) == Some(q.qtype)
        }),
{
    let b = query_draft(id, q);
    law_header_fields_stand_in_order(id, 1, 0, 1, 0, question_octets(q));
    law_questions_stand_in_order(q, Seq::empty());
    let n = name_octets(q.name).len() as int;
    let rest = b.subrange(12, b.len() as int);
    assert(rest == question_octets(q));
    assert(rest[n] == b[12 + n] && rest[n + 1] == b[12 + n + 1]);
}

/// The type of a query is what stands behind its name, wherever the name ends.
pub proof fn law_question_type_follows_the_name(
    header: Seq<u8>,
    name: Seq<Seq<u8>>,
    qtype: u16,
    rest: Seq<u8>,
)
    requires
        header.len() == 12,
        labels_fit(name),
    ensures
        question_type(header + name_octets(name) + be16(qtype) + rest) == Some(qtype),
{
    let n = name_octets(name).len() as int;
    let b = header + name_octets(name) + be16(qtype) + rest;
    law_name_octets_are_read_back(name, be16(qtype) + rest);
    assert(b.subrange(12, b.len() as int) =~= name_octets(name) + (be16(qtype) + rest));
    lemma_pair(header + name_octets(name), qtype, rest);
}

/// An error response has the query's identifier, the response bit and the code, and nothing
/// else.
pub proof fn law_error_responses_name_the_query(query: Seq<u8>, rcode: u16)
    requires
        query.len() >= 2,
    ensures
        ({
            let b = error_response(query, rcode);
            &&& b.len() == 12
            &&& read16(b, 0) == read16(query, 0)
            &&& b[2] == 128 && b[3] == rcode % 16
            &&& forall|i: int| 4 <= i < 12 ==> b[i] == 0
            &&& header_rcode(b) == rcode % 16 && !is_truncated(b)
        }),
{
}

/// Answers are kept but for those in a suppressed family: each that is answered, in its order.
pub proof fn law_suppressed_families_are_left_out(
    answers: Seq<ResourceView>,
    v4: bool,
    v6: bool,
    n: nat,
)
    requires
        n <= answers.len() <= usize::MAX,
    ensures
        ({
            let kept = kept_answers(answers, v4, v6, n);
            &&& kept.len() <= n
            &&& forall|k: int|
                0 <= k < kept.len() ==> (#[trigger] kept[k]) < n && !(answers[kept[k] as int].rtype
                    == 1 && !v4) && !(answers[kept[k] as int].rtype == 28 && !v6)
            &&& forall|k: int, m: int|
                0 <= k < m < kept.len() ==> #[trigger] kept[k] < #[trigger] kept[m]
            &&& forall|i: int|
                0 <= i < n && !((#[trigger] answers[i]).rtype == 1 && !v4) && !(answers[i].rtype
                    == 28 && !v6) ==> kept.contains(i as usize)
        }),
    decreases n,
{
    if n > 0 {
        let m = (n - 1) as nat;
        law_suppressed_families_are_left_out(answers, v4, v6, m);
        let before = kept_answers(answers, v4, v6, m);
        let kept = kept_answers(answers, v4, v6, n);
        assert(family_answered(answers[m as int].rtype, v4, v6) <==> !(answers[m as int].rtype == 1
            && !v4) && !(answers[m as int].rtype == 28 && !v6));
        assert forall|i: int|
            0 <= i < n && !((#[trigger] answers[i]).rtype == 1 && !v4) && !(answers[i].rtype == 28
                && !v6) implies kept.contains(i as usize) by {
            if i < m {
                let k = choose|k: int| 0 <= k < before.len() && before[k] == i as usize;
                assert(kept[k] == i as usize);
            } else {
                assert(kept[kept.len() - 1] == m as usize);
            }
        }
    }
}

/// A response is changed by suppressed families only where it holds answers in them, and then
/// keeps the others.
pub proof fn law_responses_without_suppressed_answers_stay(response: Seq<u8>, v4: bool, v6: bool)
    requires
        decoded(response) matches Some(m) ==> m.answers.len() <= usize::MAX,
    ensures
        v4 && v6 ==> family_filtered(response, v4, v6) == response,
        decoded(response) is None ==> family_filtered(response, v4, v6) == response,
        decoded(response) matches Some(m) ==> {
            &&& (forall|i: int|
                0 <= i < m.answers.len() ==> !((#[trigger] m.answers[i]).rtype == 1 && !v4) && !(
                m.answers[i].rtype == 28 && !v6)) ==> family_filtered(response, v4, v6) == response
            &&& forall|k: int|
                0 <= k < m.answers.len() && (((#[trigger] m.answers[k]).rtype == 1 && !v4) || (
                m.answers[k].rtype == 28 && !v6)) ==> family_filtered(response, v4, v6)
                    == match crate::message::with_answers(
                    response,
                    kept_answers(m.answers, v4, v6, m.answers.len()),
                ) {
                    Some(b) => b,
                    None => response,
                }
        },
{
    if let Some(m) = decoded(response) {
        let n = m.answers.len();
        lemma_kept_count(m.answers, v4, v6, n);
    }
}

proof fn lemma_kept_count(answers: Seq<ResourceView>, v4: bool, v6: bool, n: nat)
    requires
        n <= answers.len(),
    ensures
        kept_answers(answers, v4, v6, n).len() <= n,
        kept_answers(answers, v4, v6, n).len() == n <==> forall|i: int|
            0 <= i < n ==> !((#[trigger] answers[i]).rtype == 1 && !v4) && !(answers[i].rtype == 28
                && !v6),
    decreases n,
{
    if n > 0 {
        lemma_kept_count(answers, v4, v6, (n - 1) as nat);
        assert(family_answered(answers[n - 1].rtype, v4, v6) <==> !(answers[n - 1].rtype == 1 && !v4)
            && !(answers[n - 1].rtype == 28 && !v6));
    }
}

/// A datagram is taken for the answer exactly where it comes from the server that was asked,
/// has the query's identifier, can be read, and repeats the question in the case it was asked
/// in.
pub proof fn law_which_datagrams_are_accepted(
    id: u16,
    target: SocketAddress,
    question: QuestionView,
    from: SocketAddress,
    datagram: Seq<u8>,
)
    ensures
        judgement(id, target, Some(question), from, datagram) == Judgement::Accept <==> from
            == target && datagram.len() >= 2 && read16(datagram, 0) == id && decoded(datagram)
            is Some && first_question(datagram) == Some(question),
        judgement(id, target, None, from, datagram) == Judgement::Accept <==> from == target
            && datagram.len() >= 2 && read16(datagram, 0) == id && decoded(datagram) is Some,
        judgement(id, target, Some(question), from, datagram) == Judgement::WrongSource <==> from
            != target,
        first_question(datagram) matches Some(q) ==> {
            &&& decoded(datagram) matches Some(m)
            &&& m.questions.len() > 0 && m.questions[0] == q
        },
{
}

/// The runs of a name are its labels.
pub proof fn law_runs_are_labels(name: Seq<Seq<u8>>, rest: Seq<u8>)
    requires
        labels_fit(name),
    ensures
        runs_at(name_octets(name) + rest) == Some(name),
    decreases name.len(),
{
    law_name_octets_are_read_back(name, rest);
    lemma_runs(name_octets(name) + rest);
}

proof fn lemma_runs(b: Seq<u8>)
    requires
        labels_at(b) is Some,
    ensures
        labels_at(b) matches Some((labels, _)) && runs_at(b) == Some(labels),
    decreases b.len(),
{
    if b[0] != 0 {
        lemma_runs(b.subrange(b[0] as int + 1, b.len() as int));
    }
}

/// Turning a letter's case twice gives the letter, and turns nothing but letters.
pub proof fn law_toggling_twice(b: u8)
    ensures
        toggled(toggled(b)) == b,
        0x41 <= b <= 0x5a || 0x61 <= b <= 0x7a <==> toggled(b) != b,
        crate::text::lower_byte(toggled(b)) == crate::text::lower_byte(b),
{
}

// ---------------------------------------------------------------------------
// Requests
// ---------------------------------------------------------------------------
/// The `dns` parameter is the first of its name.
pub proof fn law_first_dns_parameter(pairs: Seq<Seq<char>>, i: int)
    requires
        0 <= i <= pairs.len(),
    ensures
        first_dns(pairs, i) is None <==> forall|k: int|
            i <= k < pairs.len() ==> !is_dns_pair(#[trigger] pairs[k]),
        first_dns(pairs, i) matches Some(v) ==> exists|k: int|
            {
                &&& i <= k < pairs.len() && is_dns_pair(#[trigger] pairs[k]) && v == after(
                    pairs[k],
                    '=',
                )
                &&& forall|j: int| i <= j < k ==> !is_dns_pair(#[trigger] pairs[j])
            },
    decreases pairs.len() - i,
{
    if i < pairs.len() {
        if is_dns_pair(pairs[i]) {
            assert(is_dns_pair(pairs[i]));
        } else {
            law_first_dns_parameter(pairs, i + 1);
            if first_dns(pairs, i + 1) is Some {
                let v = first_dns(pairs, i + 1)->0;
                let k = choose|k: int|
                    {
                        &&& i + 1 <= k < pairs.len() && is_dns_pair(#[trigger] pairs[k]) && v
                            == after(pairs[k], '=')
                        &&& forall|j: int| i + 1 <= j < k ==> !is_dns_pair(#[trigger] pairs[j])
                    };
                assert(is_dns_pair(pairs[k]));
            }
        }
    }
}

/// The query in a `dns` parameter is what it spells, padding aside, where that is neither empty
/// nor longer than a message can be.
pub proof fn law_dns_parameters_spell_queries(param: Seq<char>)
    ensures
        dns_param_decoded(param) matches Some(b) ==> 1 <= b.len() <= 65535
            && crate::codec::base64url_decoded(crate::text::strip_end(param, '=')) == Some(b),
        crate::codec::base64url_decoded(crate::text::strip_end(param, '=')) matches Some(b)
            ==> 1 <= b.len() <= 65535 ==> dns_param_decoded(param) == Some(b),
{
}

/// A text is what stands before the first of a character, the character, and what stands
/// after it; there is none before it.
pub proof fn law_texts_are_cut_at_the_first(s: Seq<char>, c: char)
    ensures
        holds(s, c) <==> s.contains(c),
        holds(s, c) ==> s == before(s, c) + seq![c] + after(s, c),
        !before(s, c).contains(c),
        !holds(s, c) ==> before(s, c) == s,
{
    lemma_index_of(s, c);
    let at = index_of(s, c);
    if at < s.len() {
        assert(s[at] == c);
        assert(s =~= before(s, c) + seq![c] + after(s, c));
    } else {
        assert(before(s, c) =~= s);
    }
    if before(s, c).contains(c) {
        let k = choose|k: int| 0 <= k < before(s, c).len() && before(s, c)[k] == c;
        assert(s[k] == c);
    }
}

proof fn lemma_index_of(s: Seq<char>, c: char)
    ensures
        0 <= index_of(s, c) <= s.len(),
        forall|k: int| 0 <= k < index_of(s, c) ==> #[trigger] s[k] != c,
        index_of(s, c) < s.len() ==> s[index_of(s, c)] == c,
    decreases s.len(),
{
    if s.len() > 0 && s[0] != c {
        let d = s.drop_first();
        lemma_index_of(d, c);
        assert forall|k: int| 0 <= k < index_of(s, c) implies #[trigger] s[k] != c by {
            if k > 0 {
                assert(d[k - 1] == s[k]);
            }
        }
        if index_of(s, c) < s.len() {
            assert(d[index_of(d, c)] == s[index_of(s, c)]);
        }
    }
}

/// The last of a character has none behind it.
pub proof fn law_last_index(s: Seq<char>, c: char)
    ensures
        -1 <= last_index_of(s, c) < s.len(),
        last_index_of(s, c) >= 0 ==> s[last_index_of(s, c)] == c,
        forall|k: int| last_index_of(s, c) < k < s.len() ==> #[trigger] s[k] != c,
    decreases s.len(),
{
    if s.len() > 0 && s.last() != c {
        let d = s.drop_last();
        law_last_index(d, c);
        assert forall|k: int| last_index_of(s, c) < k < s.len() implies #[trigger] s[k] != c by {
            if k < s.len() - 1 {
                assert(d[k] == s[k]);
            }
        }
    }
}

/// A SOCKS5 greeting offers as many methods as it says: none always, and a password where
/// there is one.
pub proof fn law_greeting_offers_its_methods(has_auth: bool)
    ensures
        ({
            let b = greeting_octets(has_auth);
            &&& b[0] == 5 && b.len() == 2 + b[1]
            &&& b.subrange(2, b.len() as int).contains(0)
            &&& b.subrange(2, b.len() as int).contains(2) <==> has_auth
        }),
{
    let b = greeting_octets(has_auth);
    let methods = b.subrange(2, b.len() as int);
    assert(methods[0] == 0);
    if has_auth {
        assert(methods[1] == 2);
    }
}

/// A SOCKS5 request asks for a connection to the upstream's own address and port.
pub proof fn law_socks_request_names_the_upstream(upstream: SocketAddress)
    ensures
        ({
            let b = socks_request_octets(upstream);
            &&& b[0] == 5 && b[1] == 1 && b[2] == 0
            &&& upstream.ip matches IpAddress::V4(a) ==> b.len() == 10 && b[3] == 1 && b.subrange(
                4,
                8,
            ) == be32(a)
            &&& upstream.ip matches IpAddress::V6(a) ==> b.len() == 22 && b[3] == 4 && b.subrange(
                4,
                20,
            ) == be128(a)
            &&& read16(b, b.len() - 2) == upstream.port
        }),
{
    let b = socks_request_octets(upstream);
    let none = Seq::<u8>::empty();
    match upstream.ip {
        IpAddress::V4(a) => {
            let front = seq![5u8, 1u8, 0u8] + (seq![1u8] + be32(a));
            lemma_pair(front, upstream.port, none);
            assert(b =~= front + be16(upstream.port) + none);
            assert(b.subrange(4, 8) =~= be32(a));
        },
        IpAddress::V6(a) => {
            let front = seq![5u8, 1u8, 0u8] + (seq![4u8] + be128(a));
            lemma_pair(front, upstream.port, none);
            assert(b =~= front + be16(upstream.port) + none);
            assert(b.subrange(4, 20) =~= be128(a));
        },
    }
}

/// Credentials are a user and a password, each behind its length.
pub proof fn law_credentials_are_user_and_password(user: Seq<char>, pass: Seq<char>)
    requires
        !user.contains(':'),
        vstd::utf8::encode_utf8(user).len() <= 255,
        vstd::utf8::encode_utf8(pass).len() <= 255,
    ensures
        ({
            let b = credentials_octets(user + seq![':'] + pass);
            let u = vstd::utf8::encode_utf8(user);
            let p = vstd::utf8::encode_utf8(pass);
            b == seq![1u8, u.len() as u8] + u + seq![p.len() as u8] + p
        }),
{
    let auth = user + seq![':'] + pass;
    law_texts_are_cut_at_the_first(auth, ':');
    lemma_index_of(auth, ':');
    let at = index_of(auth, ':');
    assert(auth[user.len() as int] == ':');
    if at < user.len() {
        assert(user[at] == ':');
    }
    assert(at == user.len());
    assert(before(auth, ':') =~= user);
    assert(after(auth, ':') =~= pass);
}

// ---------------------------------------------------------------------------
// Service bindings
// ---------------------------------------------------------------------------
/// A service binding is a priority, a target in canonical form, and parameters.
pub proof fn law_service_binding_fields_stand_in_order(value: Seq<char>)
    ensures
        ({
            let f = words(value);
            service_binding(value) matches Some(b) ==> {
                &&& f.len() >= 2
                &&& parse_unsigned(f[0], 0xffff) == Some(read16(b, 0) as nat)
                &&& crate::names::canonical_form(f[1]) matches Some(target)
                &&& b.len() >= 2 + target.len()
                &&& b.subrange(2, 2 + target.len() as int) == target
                &&& params_octets(f.subrange(2, f.len() as int)) == Some(
                    b.subrange(2 + target.len() as int, b.len() as int),
                )
            }
        }),
{
    let f = words(value);
    if let Some(b) = service_binding(value) {
        let p = parse_unsigned(f[0], 0xffff)->0 as u16;
        let target = crate::names::canonical_form(f[1])->0;
        let params = params_octets(f.subrange(2, f.len() as int))->0;
        lemma_pair(Seq::empty(), p, target + params);
        assert(b =~= Seq::empty() + be16(p) + (target + params));
        assert(b.subrange(2, 2 + target.len() as int) =~= target);
        assert(b.subrange(2 + target.len() as int, b.len() as int) =~= params);
    }
}

/// A parameter is its key, the length of its value, and its value.
pub proof fn law_parameters_are_behind_key_and_length(word: Seq<char>)
    ensures
        param_octets(word) matches Some(b) ==> {
            &&& b.len() >= 4
            &&& param_key(word) matches Some(k)
            &&& k <= 0xffff ==> read16(b, 0) == k
            &&& read16(b, 2) == b.len() - 4
        },
{
    if let Some(b) = param_octets(word) {
        let k = param_key(word)->0 as u16;
        let v = b.subrange(4, b.len() as int);
        let n = v.len() as u16;
        lemma_pair(Seq::empty(), k, be16(n) + v);
        lemma_pair(be16(k), n, v);
        assert(b =~= Seq::empty() + be16(k) + (be16(n) + v));
        assert(b =~= be16(k) + be16(n) + v);
    }
}

/// The key of a parameter that can be written.
#[verifier::opaque]
pub open spec fn written_key(word: Seq<char>) -> Option<nat> {
    if param_octets(word) is Some {
        param_key(word)
    } else {
        None
    }
}

/// The octets of a parameter.
#[verifier::opaque]
pub open spec fn written_octets(word: Seq<char>) -> Option<Seq<u8>> {
    param_octets(word)
}

proof fn lemma_one_more_parameter(params: Seq<Seq<char>>)
    requires
        params.len() > 0,
        params_octets(params) is Some,
    ensures
        params_octets(params.drop_last()) is Some,
        written_octets(params.last()) is Some,
        written_key(params.last()) is Some,
        params_octets(params)->0 == params_octets(params.drop_last())->0 + written_octets(
            params.last(),
        )->0,
        params.len() > 1 ==> param_key(params[params.len() - 2]) is Some && param_key(
            params[params.len() - 2],
        )->0 < written_key(params.last())->0,
{
    reveal(written_octets);
    reveal(written_key);
}

proof fn lemma_written_key(word: Seq<char>)
    ensures
        written_key(word) is Some ==> written_key(word) == param_key(word),
{
    reveal(written_key);
}

/// Parameters stand in strictly ascending order of their keys, each as it is written alone.
pub proof fn law_parameters_ascend(params: Seq<Seq<char>>)
    ensures
        params_octets(params) matches Some(b) ==> {
            &&& forall|i: int|
                0 <= i < params.len() ==> written_key(#[trigger] params[i]) is Some
            &&& forall|i: int, j: int|
                0 <= i < j < params.len() ==> (written_key(#[trigger] params[i]))->0 < (
                written_key(#[trigger] params[j]))->0
            &&& params.len() > 0 ==> params_octets(params.drop_last()) is Some && b
                == params_octets(params.drop_last())->0 + written_octets(params.last())->0
        },
    decreases params.len(),
{
    if params.len() > 0 && params_octets(params) is Some {
        let d = params.drop_last();
        lemma_one_more_parameter(params);
        law_parameters_ascend(d);
        let n = params.len() as int;
        assert forall|i: int| 0 <= i < n implies written_key(#[trigger] params[i]) is Some by {
            if i < n - 1 {
                assert(d[i] == params[i]);
            }
        }
        assert forall|i: int, j: int| 0 <= i < j < n implies (written_key(#[trigger] params[i]))->0
            < (written_key(#[trigger] params[j]))->0 by {
            assert(d[i] == params[i]);
            if j < n - 1 {
                assert(d[j] == params[j]);
            } else {
                assert(d[n - 2] == params[n - 2]);
                lemma_written_key(params[n - 2]);
                if i < n - 2 {
                    assert(written_key(d[i])->0 < written_key(d[n - 2])->0);
                }
            }
        }
    }
}

/// The items of a list stand one behind the other, and one bad item spoils the list.
pub proof fn law_items_stand_in_order(key: nat, a: Seq<Seq<char>>, b: Seq<Seq<char>>)
    ensures
        list_items(key, a + b) is Some <==> list_items(key, a) is Some && list_items(key, b) is Some,
        list_items(key, a + b) is Some ==> list_items(key, a + b)->0 == list_items(key, a)->0
            + list_items(key, b)->0,
        a.len() == 1 ==> list_items(key, a) == list_item(key, a[0]),
    decreases b.len(),
{
    if a.len() == 1 {
        assert(a.drop_last() =~= Seq::empty());
        assert(list_items(key, a.drop_last()) == Some(Seq::<u8>::empty()));
        if list_item(key, a[0]) is Some {
            assert(Seq::<u8>::empty() + list_item(key, a[0])->0 =~= list_item(key, a[0])->0);
        }
    }
    if b.len() == 0 {
        assert(a + b =~= a);
        if list_items(key, a) is Some {
            assert(list_items(key, a)->0 + list_items(key, b)->0 =~= list_items(key, a)->0);
        }
    } else {
        law_items_stand_in_order(key, a, b.drop_last());
        assert((a + b).drop_last() =~= a + b.drop_last());
        if list_items(key, a + b) is Some {
            assert(list_items(key, a + b)->0 =~= list_items(key, a)->0 + list_items(key, b)->0);
        }
    }
}

/// The service parameters have the numbers that are registered for them.
pub proof fn law_registered_parameters()
    ensures
        key_number("mandatory"@) == Some(0nat),
        key_number("alpn"@) == Some(1nat),
        key_number("no-default-alpn"@) == Some(2nat),
        key_number("port"@) == Some(3nat),
        key_number("ipv4hint"@) == Some(4nat),
        key_number("ech"@) == Some(5nat),
        key_number("ipv6hint"@) == Some(6nat),
{
    reveal_strlit("mandatory");
    reveal_strlit("alpn");
    reveal_strlit("no-default-alpn");
    reveal_strlit("port");
    reveal_strlit("ipv4hint");
    reveal_strlit("ech");
    reveal_strlit("ipv6hint");
    assert("mandatory"@.len() == 9 && "alpn"@.len() == 4 && "no-default-alpn"@.len() == 15);
    assert("port"@.len() == 4 && "ipv4hint"@.len() == 8 && "ech"@.len() == 3);
    assert("ipv6hint"@.len() == 8);
    assert("alpn"@[0] == 'a' && "port"@[0] == 'p');
    assert("ipv4hint"@[3] == '4' && "ipv6hint"@[3] == '6');
}

/// The values of parameters: protocols behind their lengths, a port, addresses octet by octet,
/// keys by their numbers; anything else as it is written.
pub proof fn law_parameter_values(text: Seq<char>, key: nat)
    ensures
        param_value(3, Some(text)) matches Some(b) ==> b.len() == 2 && parse_unsigned(text, 0xffff)
            == Some(read16(b, 0) as nat),
        param_value(2, Some(text)) is None && param_value(2, None) == Some(Seq::<u8>::empty()),
        param_value(5, Some(text)) == crate::codec::base64_decoded(text),
        key > 6 ==> param_value(key, Some(text)) == Some(vstd::utf8::encode_utf8(text)),
        key < 2 || 3 <= key <= 6 ==> param_value(key, None) is None,
        list_item(4, text) == match crate::addr::ipv4_of(text) {
            Some(a) => Some(be32(a)),
            None => None,
        },
        list_item(6, text) == match crate::addr::ipv6_of(text) {
            Some(a) => Some(be128(a)),
            None => None,
        },
        list_item(1, text) matches Some(b) ==> b.len() == b[0] + 1 && b.subrange(
            1,
            b.len() as int,
        ) == vstd::utf8::encode_utf8(text) && b[0] > 0,
        key == 1 || key == 4 || key == 6 ==> param_value(key, Some(text)) == list_items(
            key,
            crate::text::split(text, ','),
        ),
{
    if let Some(p) = parse_unsigned(text, 0xffff) {
        lemma_pair(Seq::empty(), p as u16, Seq::empty());
        assert(be16(p as u16) =~= Seq::empty() + be16(p as u16) + Seq::empty());
    }
    if let Some(b) = list_item(1, text) {
        assert(b.subrange(1, b.len() as int) =~= vstd::utf8::encode_utf8(text));
    }
}

/// The name of a query is read as its labels with a dot behind each.
pub proof fn law_query_names_are_dotted(a: Seq<Seq<u8>>, b: Seq<Seq<u8>>, rest: Seq<u8>)
    requires
        labels_fit(a),
        a.len() > 0,
        b.len() > 0,
    ensures
        qname_text(name_octets(a) + rest) == Some(dotted(a)),
        dotted(a + b) == dotted(a) + dotted(b),
        a.len() == 1 ==> dotted(a) == octet_chars(a[0]).push('.'),
{
    law_runs_are_labels(a, rest);
    let (x, y) = (
        Seq::new(a.len(), |i: int| octet_chars(a[i])),
        Seq::new(b.len(), |i: int| octet_chars(b[i])),
    );
    crate::dns_server::session_laws::law_joined_parts(x, y, '.');
    assert(Seq::new((a + b).len(), |i: int| octet_chars((a + b)[i])) =~= x + y);
    assert(dotted(a + b) =~= dotted(a) + dotted(b));
}

/// A question for a name has the name's labels, the type, and the class IN.
pub proof fn law_questions_for_names(name: Seq<char>, qtype: u16)
    ensures
        crate::message::question_for(name, qtype).qtype == qtype && crate::message::question_for(name, qtype).qclass == 1,
        crate::wire_name::name_of(name) matches Some(n) ==> crate::message::question_for(name, qtype).name == n,
{
}

// ---------------------------------------------------------------------------
// Addresses and forwarders
// ---------------------------------------------------------------------------
/// An address has the prefix of a range exactly where it lies between the first address of the
/// range and the last.
pub proof fn law_prefixes_are_ranges(base: u32, ip: u32, prefix: u8)
    requires
        prefix <= 32,
        base as int % pow2((32 - prefix) as nat) as int == 0,
    ensures
        same_prefix(IpAddress::V4(base), IpAddress::V4(ip), prefix) <==> base <= ip < base + pow2(
            (32 - prefix) as nat,
        ),
{
    let unit = pow2((32 - prefix) as nat) as int;
    lemma_pow2_pos((32 - prefix) as nat);
    lemma_same_block(base as int, ip as int, unit);
}

/// The same of IPv6.
pub proof fn law_ipv6_prefixes_are_ranges(base: u128, ip: u128, prefix: u8)
    requires
        prefix <= 128,
        base as int % pow2((128 - prefix) as nat) as int == 0,
    ensures
        same_prefix(IpAddress::V6(base), IpAddress::V6(ip), prefix) <==> base <= ip < base + pow2(
            (128 - prefix) as nat,
        ),
        !same_prefix(IpAddress::V6(base), IpAddress::V4(0), prefix),
{
    let unit = pow2((128 - prefix) as nat) as int;
    lemma_pow2_pos((128 - prefix) as nat);
    lemma_same_block(base as int, ip as int, unit);
}

proof fn lemma_same_block(b: int, x: int, unit: int)
    requires
        unit > 0,
        b >= 0,
        x >= 0,
        b % unit == 0,
    ensures
        b / unit == x / unit <==> b <= x < b + unit,
{
    vstd::arithmetic::div_mod::lemma_fundamental_div_mod(b, unit);
    vstd::arithmetic::div_mod::lemma_fundamental_div_mod(x, unit);
    vstd::arithmetic::div_mod::lemma_mod_bound(x, unit);
    let (q, r) = (b / unit, x % unit);
    if b <= x && x < b + unit {
        assert(unit * q == q * unit) by (nonlinear_arith);
        vstd::arithmetic::div_mod::lemma_fundamental_div_mod_converse(x, unit, q, x - b);
    }
}

/// The overlay network is 10.64.0.0 to 10.127.255.255.
pub proof fn law_the_overlay_is_a_range(ip: u32)
    ensures
        in_ranges(overlay_ranges(), IpAddress::V4(ip)) <==> 0x0a40_0000 <= ip <= 0x0a7f_ffff,
{
    vstd::arithmetic::power2::lemma2_to64();
    assert(pow2(22) == 0x40_0000);
    assert(0x0a40_0000int % 0x40_0000 == 0);
    assert((32 - 10u8) as nat == 22);
    law_prefixes_are_ranges(0x0a40_0000, ip, 10);
    let r = overlay_ranges();
    assert(r[0].base == IpAddress::V4(0x0a40_0000) && r[0].prefix == 10);
}

/// The addresses on this network, as ranges.
pub proof fn law_private_addresses(a: u32, b: u128)
    ensures
        private_address(IpAddress::V4(a)) <==> {
            ||| 0x0a00_0000 <= a <= 0x0aff_ffff
            ||| 0xac10_0000 <= a <= 0xac1f_ffff
            ||| 0xc0a8_0000 <= a <= 0xc0a8_ffff
            ||| 0x7f00_0000 <= a <= 0x7fff_ffff
            ||| 0xa9fe_0000 <= a <= 0xa9fe_ffff
        },
        private_address(IpAddress::V6(b)) <==> {
            ||| b == 1
            ||| 0xfc00_0000_0000_0000_0000_0000_0000_0000 <= b
                <= 0xfdff_ffff_ffff_ffff_ffff_ffff_ffff_ffff
            ||| 0xfe80_0000_0000_0000_0000_0000_0000_0000 <= b
                <= 0xfebf_ffff_ffff_ffff_ffff_ffff_ffff_ffff
        },
{
}

/// A forwarder is preferred where it encrypts, and among the others where it is on this
/// network.
pub proof fn law_preferences(f: ForwarderView)
    ensures
        preference_of(f) == Preference::Encrypted <==> f.transport != Transport::Do53Udp
            && f.transport != Transport::Do53Tcp,
        preference_of(f) == Preference::PlaintextPrivate <==> (f.transport == Transport::Do53Udp
            || f.transport == Transport::Do53Tcp) && private_address(f.addr.ip),
        encrypted(Transport::Dot) && encrypted(Transport::Doh) && encrypted(Transport::Doq),
        port_of(Transport::Do53Udp) == 53 && port_of(Transport::Do53Tcp) == 53,
        port_of(Transport::Dot) == 853 && port_of(Transport::Doq) == 853,
        port_of(Transport::Doh) == 443,
{
}

/// A forwarder whose breaker is open is not asked before the moment that it closes, and is
/// asked from then on.
pub proof fn law_open_breakers_close(h: Health, now: u64)
    ensures
        h.open_until == 0 ==> usable(h, now),
        h.open_until > 0 ==> (usable(h, now) <==> now >= h.open_until),
{
}

/// A forwarder's text gives its port, or leaves it to the transport; brackets round a bare
/// address are taken off.
pub proof fn law_ports_are_given_or_assumed(s: Seq<char>, port: u16)
    ensures
        socket_of(s) is Some ==> host_port_of(s, port) == socket_of(s),
        socket_of(s) is None && s.len() > 0 && s[0] != '[' ==> match ip_of(s) {
            Some(ip) => host_port_of(s, port) == Some(SocketAddress { ip, port, scope: 0 }),
            None => host_port_of(s, port) is None,
        },
        socket_of(seq!['['] + s + seq![']']) is None ==> match ip_of(s) {
            Some(ip) => host_port_of(seq!['['] + s + seq![']'], port) == Some(
                SocketAddress { ip, port, scope: 0 },
            ),
            None => host_port_of(seq!['['] + s + seq![']'], port) is None,
        },
{
    let b = seq!['['] + s + seq![']'];
    assert(b.subrange(1, b.len() - 1) =~= s);
    assert(b[0] == '[' && b.last() == ']');
}

/// A forwarder has a path only over HTTPS, where it is `/dns-query` if none is given, and a
/// server name only where it encrypts, where it is the address if none is given.
#[verifier::spinoff_prover]
#[verifier::rlimit(40)]
pub proof fn law_forwarder_parts(t: Transport, rest: Seq<char>)
    ensures
        forwarder_at(t, rest) matches Ok(f) ==> {
            &&& f.transport == t
            &&& t != Transport::Doh ==> f.path is None && !holds(rest, '/')
            &&& t == Transport::Doh ==> f.path == Some(
                if holds(rest, '/') {
                    seq!['/'] + after(rest, '/')
                } else {
                    DEFAULT_DOH_PATH@
                },
            )
            &&& !encrypted(t) ==> f.server_name is None && f.hostname is None
            &&& encrypted(t) ==> f.server_name is Some && f.server_name == f.hostname
            &&& ({
                let authority = if holds(rest, '/') {
                    before(rest, '/')
                } else {
                    rest
                };
                let (name, address) = authority_split(authority);
                &&& host_port_of(address, port_of(t)) == Some(f.addr)
                &&& encrypted(t) && name is Some ==> f.hostname == name && name->0.len() > 0
                &&& encrypted(t) && name is None ==> f.hostname == Some(ip_text(f.addr.ip))
                &&& !encrypted(t) ==> name is None
            })
        },
        rest.len() == 0 ==> forwarder_at(t, rest) is Err,
{
}

/// What stands before the last `@` is the name, and what stands behind it the address.
pub proof fn law_names_stand_before_the_address(s: Seq<char>)
    ensures
        ({
            let (name, address) = authority_split(s);
            &&& name is None <==> !s.contains('@')
            &&& name matches Some(n) ==> s == n + seq!['@'] + address
            &&& name is None ==> address == s
            &&& !address.contains('@')
        }),
{
    law_last_index(s, '@');
    let at = last_index_of(s, '@');
    let (name, address) = authority_split(s);
    if at >= 0 {
        assert(s[at] == '@');
        assert(s =~= name->0 + seq!['@'] + address);
    }
    if address.contains('@') {
        let k = choose|k: int| 0 <= k < address.len() && address[k] == '@';
        assert(s[k + (s.len() - address.len())] == '@');
    }
    if s.contains('@') {
        let k = choose|k: int| 0 <= k < s.len() && s[k] == '@';
        assert(at >= 0);
    }
}

/// A forwarder's text without a scheme is for plain UDP; one with a scheme is for the
/// scheme's transport, and what follows the mark is the rest.
pub proof fn law_schemes_choose_the_transport(s: Seq<char>)
    ensures
        occurrence(s, seq![':', '/', '/'], 0) == s.len() ==> scheme_split(s) == Ok::<
            (Transport, Seq<char>),
            ForwarderError,
        >((Transport::Do53Udp, s)),
        ({
            let at = occurrence(s, seq![':', '/', '/'], 0);
            at < s.len() ==> match transport_of(s.subrange(0, at)) {
                Some(t) => {
                    &&& scheme_split(s) matches Ok((u, rest))
                    &&& u == t && s == s.subrange(0, at) + seq![':', '/', '/'] + rest
                },
                None => scheme_split(s) is Err,
            }
        }),
{
    crate::laws::law_first_occurrence(s, seq![':', '/', '/'], 0);
    let at = occurrence(s, seq![':', '/', '/'], 0);
    if at < s.len() {
        let rest = s.subrange(at + 3, s.len() as int);
        assert(s.subrange(at, at + 3) == seq![':', '/', '/']);
        assert(s =~= s.subrange(0, at) + s.subrange(at, at + 3) + rest);
    }
}

/// A proxy without a port is asked at port 8080; one with a port as it is written.
pub proof fn law_proxy_ports(rest: Seq<char>)
    requires
        without_prefix(rest, "http://"@) == rest,
        without_prefix(rest, "https://"@) == rest,
        without_prefix(rest, "socks5://"@) == rest,
    ensures
        rest.contains(':') ==> proxy_addr(rest) == rest,
        !rest.contains(':') ==> proxy_addr(rest) == rest + ":8080"@,
{
    law_texts_are_cut_at_the_first(rest, ':');
}

/// The networks that a box can be attached to, as ranges of IPv4 addresses.
#[verifier::spinoff_prover]
#[verifier::rlimit(40)]
pub proof fn law_attached_networks_are_ranges(ip: u32)
    ensures
        in_ranges(attached_ranges(), IpAddress::V4(ip)) <==> {
            ||| 0x7f00_0000 <= ip <= 0x7fff_ffff
            ||| 0x0a00_0000 <= ip <= 0x0aff_ffff
            ||| 0xac10_0000 <= ip <= 0xac1f_ffff
            ||| 0xc0a8_0000 <= ip <= 0xc0a8_ffff
            ||| 0xa9fe_0000 <= ip <= 0xa9fe_ffff
            ||| 0x6440_0000 <= ip <= 0x647f_ffff
        },
{
    vstd::arithmetic::power2::lemma2_to64();
    assert(pow2(24) == 0x100_0000 && pow2(20) == 0x10_0000 && pow2(16) == 0x1_0000 && pow2(22)
        == 0x40_0000);
    assert((32 - 8u8) as nat == 24 && (32 - 12u8) as nat == 20 && (32 - 16u8) as nat == 16 && (32
        - 10u8) as nat == 22);
    assert(0x7f00_0000int % 0x100_0000 == 0 && 0x0a00_0000int % 0x100_0000 == 0);
    assert(0xac10_0000int % 0x10_0000 == 0 && 0xc0a8_0000int % 0x1_0000 == 0);
    assert(0xa9fe_0000int % 0x1_0000 == 0 && 0x6440_0000int % 0x40_0000 == 0);
    law_prefixes_are_ranges(0x7f00_0000, ip, 8);
    law_prefixes_are_ranges(0x0a00_0000, ip, 8);
    law_prefixes_are_ranges(0xac10_0000, ip, 12);
    law_prefixes_are_ranges(0xc0a8_0000, ip, 16);
    law_prefixes_are_ranges(0xa9fe_0000, ip, 16);
    law_prefixes_are_ranges(0x6440_0000, ip, 10);
    let r = attached_ranges();
    assert(r[0].prefix == 8 && r[1].prefix == 8 && r[2].prefix == 12 && r[3].prefix == 16
        && r[4].prefix == 16 && r[5].prefix == 10);
    assert(forall|i: int| 6 <= i < 9 ==> (#[trigger] r[i]).base is V6);
}

/// Only a readable answer that says whether the name has records is definitive, and only one
/// with answers and without an error is remembered.
pub proof fn law_what_is_definitive(response: Seq<u8>)
    ensures
        is_definitive(response) <==> decoded(response) is Some && (decoded(response)->0.head.rcode
            == 0 || decoded(response)->0.head.rcode == 3),
        is_positive(response) <==> decoded(response) is Some && decoded(response)->0.head.rcode == 0
            && decoded(response)->0.answers.len() > 0 && decoded(response)->0.questions.len() > 0,
{
}

/// A chain that has settled below its top is tried from the top again once the interval since
/// the last trial is over, and from where it settled before that.
pub proof fn law_the_top_is_tried_again(s: AutoState, now: u64)
    requires
        s.active_tier != 0,
        s.last_probe <= now,
    ensures
        now - s.last_probe >= s.recovery_probe_secs ==> started(s, now).1 == 0 && started(
            s,
            now,
        ).0.last_probe == now,
        now - s.last_probe < s.recovery_probe_secs ==> started(s, now) == (s, s.active_tier),
        started(s, now).0.active_tier == s.active_tier,
        started(s, now).0.deviation_streak == s.deviation_streak,
{
}

} // verus!
