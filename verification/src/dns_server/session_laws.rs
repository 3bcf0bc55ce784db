//! What a client is answered, and what is remembered of it, from one end to the other.
use vstd::prelude::*;

use crate::addr::IpAddress;
use crate::dns_server::auto::{acceptable, Attempt};
use crate::dns_server::cache::{entry_ttl, negative_of, scoped_name, storable};
use crate::dns_server::memory::{end_of, is_current, slot_for, Slot};
use crate::dns_server::records::{
    ancestor, answers_of, dname_target, is_storable, label_texts, scoped_answers_of,
};
use crate::dns_server::resolve::{
    step_of, Action, Answers, Event, NegativeKind, Opening, Owner, Remember, Stage, Subject,
};
use crate::dns_server::resolve_laws::{finds_network_records, finds_plain_records};
use crate::dns_server::server::{received_opening, DnsServer};
use crate::dns_server::session::{covering, lacks_v6, made_addresses, Fallbacks, Finding, Session};
use crate::laws::{law_normal_form_ends_in_one_dot, law_strip_end_takes_the_suffix};
use crate::message::{
    decoded, question_views, response_draft, sent, QuestionView, ResourceView, NO_ERROR,
};
use crate::names::{ends_with, normalized};
use crate::record::{DnsRecord, RecordKind};
use crate::text::{join, lemma_join_split, lemma_split_nonempty, strings, strip_end};

verus! {

// ---------------------------------------------------------------------------
// What a finding means
// ---------------------------------------------------------------------------
/// Records are found where there are any, a network or a zone where there is one, an answer
/// where there is one; the listener is the ingress where its own address is.
pub proof fn law_what_counts_as_found(s: Session, finding: Finding)
    ensures
        finding matches Finding::Truth(b) ==> s.event_of(finding) == Event::Found(b),
        finding matches Finding::Records(v) ==> (s.event_of(finding) == Event::Found(true)
            <==> v@.len() > 0) && s.event_of(finding) is Found,
        finding matches Finding::Scope(v) ==> (s.event_of(finding) == Event::Found(true) <==> v
            is Some) && s.event_of(finding) is Found,
        finding matches Finding::Zone(v) ==> (s.event_of(finding) == Event::Found(true) <==> v
            is Some) && s.event_of(finding) is Found,
        finding matches Finding::Peers(v) ==> (s.event_of(finding) == Event::Found(true) <==> v
            is Some) && s.event_of(finding) is Found,
        finding matches Finding::Ingress(Some(ip)) ==> (s.event_of(finding) == Event::Found(true)
            <==> s.local == Some(ip)),
        finding == Finding::Ingress(None) ==> s.event_of(finding) == Event::Found(false),
        finding matches Finding::Negative(n) ==> s.event_of(finding) == Event::Negative(n),
{
}

/// A domain is a network's own where the network is the query's, or where the query belongs to
/// none; otherwise it is another's.
pub proof fn law_whose_a_domain_is(s: Session, owner: String)
    ensures
        s.event_of(Finding::Owner(None)) == Event::Owner(Owner::Nobody),
        s.scope is None ==> s.event_of(Finding::Owner(Some(owner))) == Event::Owner(Owner::Own),
        s.scope matches Some(scope) ==> (s.event_of(Finding::Owner(Some(owner))) == Event::Owner(
            Owner::Own,
        ) <==> owner@ == scope@) && (s.event_of(Finding::Owner(Some(owner))) == Event::Owner(
            Owner::Other,
        ) <==> owner@ != scope@),
{
}

/// Fallbacks hold an answer where there are exact or wildcard records, and each kind of alias
/// where there is one.
pub proof fn law_what_fallbacks_hold(s: Session, f: Fallbacks)
    ensures
        s.event_of(Finding::Fallbacks(f)) matches Event::Fallbacks { any, aname, cname } && (any
            <==> f.exact@.len() > 0 || f.wildcard@.len() > 0) && (aname <==> f.aname@.len() > 0) && (
        cname <==> f.cname@.len() > 0),
{
}

/// An upstream's answer lacks IPv6 addresses exactly where it can be read and holds no AAAA
/// record; IPv6 addresses are made where it holds IPv4 addresses.
pub proof fn law_what_an_upstream_lacks(s: Session, octets: Vec<u8>)
    ensures
        ({
            &&& s.event_of(Finding::Upstream(Some(octets))) matches Event::Upstream {
                answered,
                lacks_v6: lacks,
            }
            &&& answered
            &&& lacks <==> {
                &&& decoded(octets@) matches Some(m)
                &&& forall|i: int| 0 <= i < m.answers.len() ==> (#[trigger] m.answers[i]).rtype != 28
            }
        }),
        s.event_of(Finding::Upstream(None)) == (Event::Upstream { answered: false, lacks_v6: false }),
        s.event_of(Finding::UpstreamA(None)) == Event::Found(false),
{
    assert(lacks_v6(octets@) == lacks_v6(octets@));
}

/// The zones that a name is in are all those that its normal form ends with, in their order.
pub proof fn law_covering_zones_are_all_found(
    qname: Seq<char>,
    a: Seq<Seq<char>>,
    b: Seq<Seq<char>>,
)
    ensures
        covering(qname, a + b) == covering(qname, a) + covering(qname, b),
        a.len() == 0 ==> covering(qname, a).len() == 0,
        a.len() == 1 ==> covering(qname, a) == if ends_with(normalized(qname), a[0]) {
            a
        } else {
            Seq::empty()
        },
    decreases b.len(),
{
    if a.len() == 1 {
        assert(a.drop_last() =~= Seq::empty());
        assert(covering(qname, a.drop_last()) =~= Seq::empty());
        assert(covering(qname, a) =~= if ends_with(normalized(qname), a[0]) {
            a
        } else {
            Seq::empty()
        });
    }
    if b.len() == 0 {
        assert(a + b =~= a);
        assert(covering(qname, a) + covering(qname, b) =~= covering(qname, a));
    } else {
        law_covering_zones_are_all_found(qname, a, b.drop_last());
        assert((a + b).drop_last() =~= a + b.drop_last());
        assert(covering(qname, a + b) =~= covering(qname, a) + covering(qname, b));
    }
}

// ---------------------------------------------------------------------------
// What a client is answered
// ---------------------------------------------------------------------------
/// Records that a lookup found under the name reach the client: the response has no error, and
/// holds what each of them makes.
#[verifier::spinoff_prover]
#[verifier::rlimit(40)]
pub proof fn law_found_records_reach_the_client(before: Session, s: Session, v: Vec<DnsRecord>)
    requires
        v@.len() > 0,
        s.has_taken(before, Finding::Records(v)),
        s.state.ingress == before.state.ingress,
        finds_plain_records(before.state.stage) || finds_network_records(before.state.stage),
    ensures
        ({
            let action = step_of(
                before.context,
                before.state,
                before.event_of(Finding::Records(v)),
            ).1;
            &&& action matches Action::Respond(reply)
            &&& s.response_of(action) == Some(
                sent(
                    response_draft(
                        before.query.head,
                        question_views(before.query.questions@),
                        NO_ERROR,
                        reply.authoritative,
                        before.query.head.edns,
                    ),
                    if finds_plain_records(before.state.stage) {
                        answers_of(v@)
                    } else {
                        scoped_answers_of(
                            v@,
                            if s.state.ingress {
                                before.local
                            } else {
                                None
                            },
                        )
                    },
                ),
            )
        }),
{
}

/// Exact records are answered with before wildcard ones, and these where there are no exact
/// ones.
#[verifier::spinoff_prover]
#[verifier::rlimit(40)]
pub proof fn law_exact_records_come_before_wildcards(before: Session, s: Session, f: Fallbacks)
    requires
        before.state.stage == Stage::Fallbacks,
        s.has_taken(before, Finding::Fallbacks(f)),
        f.exact@.len() > 0 || f.wildcard@.len() > 0,
    ensures
        ({
            let action = step_of(
                before.context,
                before.state,
                before.event_of(Finding::Fallbacks(f)),
            ).1;
            &&& action matches Action::Respond(reply)
            &&& reply.remember == Remember::Local
            &&& s.response_of(action) == Some(
                sent(
                    response_draft(
                        before.query.head,
                        question_views(before.query.questions@),
                        NO_ERROR,
                        before.state.authoritative,
                        before.query.head.edns,
                    ),
                    if f.exact@.len() > 0 {
                        answers_of(f.exact@)
                    } else {
                        answers_of(f.wildcard@)
                    },
                ),
            )
        }),
{
}

/// Where there is only an alias, its CNAME records are answered with; where there is an ANAME,
/// its target is what is looked up next.
#[verifier::spinoff_prover]
#[verifier::rlimit(40)]
pub proof fn law_aliases_lead_on(before: Session, s: Session, f: Fallbacks)
    requires
        before.state.stage == Stage::Fallbacks,
        s.has_taken(before, Finding::Fallbacks(f)),
        f.exact@.len() == 0 && f.wildcard@.len() == 0,
    ensures
        ({
            let action = step_of(
                before.context,
                before.state,
                before.event_of(Finding::Fallbacks(f)),
            ).1;
            let address = before.context.kind == Some(RecordKind::A) || before.context.kind == Some(
                RecordKind::AAAA,
            );
            &&& f.cname@.len() > 0 && !(address && f.aname@.len() > 0) ==> s.response_of(action)
                == Some(
                sent(
                    response_draft(
                        before.query.head,
                        question_views(before.query.questions@),
                        NO_ERROR,
                        before.state.authoritative,
                        before.query.head.edns,
                    ),
                    answers_of(f.cname@),
                ),
            )
            &&& address && f.aname@.len() > 0 ==> action is Ask && s.subject_text(
                Subject::AnameTarget,
            ) == Some(f.aname@[0].value@)
        }),
{
}

/// What a peer or an upstream answered is relayed as it came.
pub proof fn law_answers_are_relayed(before: Session, s: Session, octets: Vec<u8>)
    ensures
        s.has_taken(before, Finding::Peers(Some(octets))) ==> s.response_of(Action::RelayPeers)
            == Some(octets@),
        s.has_taken(before, Finding::Upstream(Some(octets))) ==> s.response_of(
            Action::RelayUpstream,
        ) == Some(octets@),
        s.has_taken(before, Finding::Upstream(None)) ==> s.response_of(Action::RelayUpstream)
            is None,
{
}

/// Addresses that were made are what is answered with.
#[verifier::spinoff_prover]
#[verifier::rlimit(40)]
pub proof fn law_made_addresses_reach_the_client(before: Session, s: Session, octets: Vec<u8>)
    requires
        before.state.stage == Stage::UpstreamA,
        s.has_taken(before, Finding::UpstreamA(Some(octets))),
        made_addresses(Some(octets@), before.dns64_prefix).len() > 0,
    ensures
        ({
            let action = step_of(
                before.context,
                before.state,
                before.event_of(Finding::UpstreamA(Some(octets))),
            ).1;
            s.response_of(action) == Some(
                sent(
                    response_draft(
                        before.query.head,
                        question_views(before.query.questions@),
                        NO_ERROR,
                        false,
                        before.query.head.edns,
                    ),
                    made_addresses(Some(octets@), before.dns64_prefix),
                ),
            )
        }),
{
}

/// What is known of a query stays what it was, whatever is found.
pub proof fn law_findings_change_what_they_find(before: Session, s: Session, finding: Finding)
    requires
        s.has_taken(before, finding),
    ensures
        s.query == before.query && s.qname == before.qname && s.context == before.context,
        s.local == before.local && s.source == before.source,
        finding matches Finding::Scope(Some(v)) ==> s.scope is Some && s.scope->0@ == v@,
        finding matches Finding::Owner(Some(v)) ==> s.owner is Some && s.owner->0@ == v@,
        finding matches Finding::Records(v) ==> s.records@ == v@ && (v@.len() > 0 ==> s.target@
            == v@[0].value@),
        finding matches Finding::Zone(Some(z)) ==> s.zones@.len() == 1 && s.zones@[0]@ == z@,
        finding is Truth ==> s.records@ == before.records@ && s.target@ == before.target@,
{
    if let Finding::Zone(Some(z)) = finding {
        assert(strings(s.zones@) == seq![z@]);
        assert(strings(s.zones@).len() == s.zones@.len());
        assert(strings(s.zones@)[0] == s.zones@[0]@);
    }
}

/// Answers are rewritten to the listener's address where it is the ingress, and nowhere else.
pub proof fn law_rewriting_needs_the_ingress(s: Session)
    ensures
        s.state.ingress ==> s.ingress_of() == s.local,
        !s.state.ingress ==> s.ingress_of() is None,
{
}

// ---------------------------------------------------------------------------
// Ancestors and where a DNAME leads
// ---------------------------------------------------------------------------
/// Parts that are joined are joined one list after the other.
pub proof fn law_joined_parts(a: Seq<Seq<char>>, b: Seq<Seq<char>>, sep: char)
    requires
        a.len() > 0,
        b.len() > 0,
    ensures
        join(a + b, sep) == join(a, sep).push(sep) + join(b, sep),
        a.len() == 1 ==> join(a, sep) == a[0],
    decreases b.len(),
{
    let all = a + b;
    if b.len() == 1 {
        assert(all.drop_last() =~= a);
        assert(join(all, sep) =~= join(a, sep).push(sep) + join(b, sep));
    } else {
        law_joined_parts(a, b.drop_last(), sep);
        assert(all.drop_last() =~= a + b.drop_last());
        assert(join(all, sep) =~= join(a, sep).push(sep) + join(b, sep));
    }
}

proof fn lemma_normal_labels(qname: Seq<char>)
    ensures
        normalized(qname) == join(label_texts(qname), '.').push('.'),
        label_texts(qname).len() >= 1,
{
    let n = normalized(qname);
    law_normal_form_ends_in_one_dot(qname);
    let d = n.drop_last();
    assert(n =~= d.push('.'));
    assert(strip_end(n, '.') == strip_end(d, '.'));
    law_strip_end_takes_the_suffix(d, '.');
    if d.len() > 0 {
        assert(d.last() != '.');
        assert(strip_end(d, '.') =~= d);
    } else {
        assert(strip_end(d, '.') =~= d);
    }
    lemma_join_split(d, '.');
    lemma_split_nonempty(d, '.');
}

/// A name is its first labels, a dot, and its ancestor without them; without none of them it
/// is the name.
pub proof fn law_ancestors_end_the_name(qname: Seq<char>, i: int)
    requires
        0 <= i < label_texts(qname).len(),
    ensures
        i == 0 ==> ancestor(qname, i) == normalized(qname),
        i > 0 ==> normalized(qname) == join(label_texts(qname).subrange(0, i), '.') + seq!['.']
            + ancestor(qname, i),
{
    let parts = label_texts(qname);
    lemma_normal_labels(qname);
    if i == 0 {
        assert(parts.subrange(0, parts.len() as int) =~= parts);
    } else {
        let (a, b) = (parts.subrange(0, i), parts.subrange(i, parts.len() as int));
        law_joined_parts(a, b, '.');
        assert(a + b =~= parts);
        assert(normalized(qname) =~= join(a, '.') + seq!['.'] + ancestor(qname, i));
    }
}

/// A DNAME leads a name to the same first labels below its target: where the target is the
/// ancestor that it stands at, to the name itself.
#[verifier::spinoff_prover]
#[verifier::rlimit(40)]
pub proof fn law_dname_replaces_the_ancestor(qname: Seq<char>, i: int, target: Seq<char>)
    requires
        0 < i < label_texts(qname).len(),
    ensures
        dname_target(qname, i, target) == normalized(
            join(label_texts(qname).subrange(0, i), '.') + seq!['.'] + strip_end(target, '.'),
        ),
        dname_target(qname, i, ancestor(qname, i)) == normalized(qname),
{
    reveal_strlit(".");
    assert("."@ =~= seq!['.']);
    law_ancestors_end_the_name(qname, i);
    let head = join(label_texts(qname).subrange(0, i), '.') + seq!['.'];
    let up = ancestor(qname, i);
    let n = normalized(qname);
    assert(n =~= head + up);
    law_normal_form_ends_in_one_dot(qname);
    let d = up.drop_last();
    assert(up.last() == n.last());
    assert(up =~= d.push('.'));
    assert(strip_end(up, '.') == strip_end(d, '.'));
    law_strip_end_takes_the_suffix(d, '.');
    // The name's text has no second dot at its end, so that the ancestor's has none.
    let whole = head + d;
    assert(n =~= whole.push('.'));
    if d.len() > 0 {
        assert(d.last() == n[n.len() - 2]);
        assert(strip_end(d, '.') =~= d);
    } else {
        assert(strip_end(d, '.') =~= d);
    }
    assert(head + strip_end(up, '.') == whole);
    lemma_normal_twice(qname, whole);
}

proof fn lemma_normal_twice(qname: Seq<char>, whole: Seq<char>)
    requires
        normalized(qname) == whole.push('.'),
    ensures
        normalized(whole) == normalized(qname),
{
    crate::names::law_normalizing_is_idempotent(qname);
    let n = normalized(qname);
    assert(n.drop_last() =~= whole);
    assert(strip_end(n, '.') == strip_end(whole, '.'));
    assert(normalized(n) == normalized(whole));
}

// ---------------------------------------------------------------------------
// What is remembered
// ---------------------------------------------------------------------------
/// Every answer that can be stored is, in its order.
pub proof fn law_every_storable_answer_is_stored(a: Seq<ResourceView>, b: Seq<ResourceView>)
    ensures
        storable(a + b) == storable(a) + storable(b),
        a.len() == 0 ==> storable(a).len() == 0,
        a.len() == 1 ==> storable(a) == if is_storable(a[0]) {
            a
        } else {
            Seq::empty()
        },
    decreases b.len(),
{
    if a.len() == 1 {
        assert(a.drop_last() =~= Seq::empty());
        assert(storable(a.drop_last()) =~= Seq::empty());
        assert(storable(a) =~= if is_storable(a[0]) {
            a
        } else {
            Seq::empty()
        });
    }
    if b.len() == 0 {
        assert(a + b =~= a);
        assert(storable(a) + storable(b) =~= storable(a));
    } else {
        law_every_storable_answer_is_stored(a, b.drop_last());
        assert((a + b).drop_last() =~= a + b.drop_last());
        assert(storable(a + b) =~= storable(a) + storable(b));
    }
}

/// An entry lives as long as the first of its answers to run out.
pub proof fn law_entries_live_as_long_as_their_answers(answers: Seq<ResourceView>)
    requires
        answers.len() > 0,
    ensures
        forall|i: int| 0 <= i < answers.len() ==> entry_ttl(answers) <= (#[trigger] answers[i]).ttl,
        exists|i: int| 0 <= i < answers.len() && (#[trigger] answers[i]).ttl == entry_ttl(answers),
    decreases answers.len(),
{
    let d = answers.drop_last();
    let last = answers.len() - 1;
    if d.len() > 0 {
        law_entries_live_as_long_as_their_answers(d);
        assert forall|i: int| 0 <= i < answers.len() implies entry_ttl(answers) <= (
        #[trigger] answers[i]).ttl by {
            if i < last {
                assert(d[i] == answers[i]);
            }
        }
        if answers[last].ttl < entry_ttl(d) {
            assert(answers[last].ttl == entry_ttl(answers));
        } else {
            let i = choose|i: int| 0 <= i < d.len() && (#[trigger] d[i]).ttl == entry_ttl(d);
            assert(answers[i].ttl == entry_ttl(answers));
        }
    } else {
        assert(crate::doh_server::least_ttl(d) is None);
        assert(answers[last].ttl == entry_ttl(answers));
    }
}

/// A negative answer is remembered as what it is, and only two codes are negative answers.
pub proof fn law_negative_answers_are_remembered_as_they_are(rcode: u16)
    ensures
        negative_of(3) == Some(NegativeKind::NxDomain),
        negative_of(0) == Some(NegativeKind::NoData),
        rcode != 3 && rcode != 0 ==> negative_of(rcode) is None,
{
}

/// Two networks' records are never cached under the same name.
pub proof fn law_networks_are_cached_apart(
    a: Seq<char>,
    b: Seq<char>,
    p: Seq<char>,
    q: Seq<char>,
)
    requires
        !a.contains('/'),
        !b.contains('/'),
        scoped_name(a, p) == scoped_name(b, q),
    ensures
        a == b,
        p == q,
{
    reveal_strlit("@");
    reveal_strlit("/");
    let (x, y) = (scoped_name(a, p), scoped_name(b, q));
    assert(x[1 + a.len() as int] == '/');
    assert(y[1 + b.len() as int] == '/');
    if a.len() < b.len() {
        assert(y[1 + a.len() as int] == b[a.len() as int]);
        assert(b.contains('/'));
    }
    if b.len() < a.len() {
        assert(x[1 + b.len() as int] == a[b.len() as int]);
        assert(a.contains('/'));
    }
    assert(x.subrange(1, 1 + a.len() as int) =~= a);
    assert(y.subrange(1, 1 + b.len() as int) =~= b);
    assert(x.subrange(2 + a.len() as int, x.len() as int) =~= p);
    assert(y.subrange(2 + b.len() as int, y.len() as int) =~= q);
}

/// What is kept for some seconds can be used until they are over, and no longer.
pub proof fn law_slots_last_their_time<T>(slot: Slot<T>, put: u64, ttl: u32, now: u64)
    requires
        slot.expires == Some(end_of(put, ttl)),
        put + ttl <= u64::MAX,
    ensures
        is_current(slot, now) <==> now < put + ttl,
{
}

/// What has no end can always be used.
pub proof fn law_slots_without_an_end_last<T>(slot: Slot<T>, now: u64)
    ensures
        slot.expires is None ==> is_current(slot, now),
        slot.expires matches Some(end) ==> (is_current(slot, now) <==> now < end),
{
}

/// A slot is found for a type exactly where there is one of that type.
pub proof fn law_slots_are_found_by_type<T>(slots: Seq<Slot<T>>, kind: Option<RecordKind>)
    ensures
        slot_for(slots, kind) is None <==> forall|i: int|
            0 <= i < slots.len() ==> (#[trigger] slots[i]).kind != kind,
        slot_for(slots, kind) matches Some(s) ==> s.kind == kind && slots.contains(s),
    decreases slots.len(),
{
    if slots.len() > 0 {
        let d = slots.drop_last();
        law_slots_are_found_by_type(d, kind);
        assert(slots[slots.len() - 1] == slots.last());
        if slots.last().kind != kind {
            if slot_for(d, kind) is Some {
                let s = slot_for(d, kind)->0;
                let k = choose|k: int| 0 <= k < d.len() && d[k] == s;
                assert(slots[k] == s);
            } else {
                assert forall|i: int| 0 <= i < slots.len() implies (#[trigger] slots[i]).kind
                    != kind by {
                    if i < d.len() {
                        assert(d[i] == slots[i]);
                    }
                }
            }
        }
    }
}

// ---------------------------------------------------------------------------
// What is known before
// ---------------------------------------------------------------------------
/// A query from nobody in particular may cause others to be asked and belongs to no peer; a
/// sender may where its address, in its own family, lies in a range for it.
pub proof fn law_what_is_known_of_a_sender(
    server: DnsServer,
    question: QuestionView,
    local: Option<IpAddress>,
    source: Option<IpAddress>,
    dnssec_ok: bool,
)
    ensures
        ({
            let c = server.context_of(question, local, source, dnssec_ok);
            &&& source is None ==> c.may_recurse && !c.overlay_peer && !c.has_source
            &&& source matches Some(ip) ==> {
                &&& c.has_source
                &&& c.may_recurse <==> crate::dns_server::access::in_ranges(
                    server.recursion_cidrs@,
                    crate::dns_server::access::canonical_address(ip),
                )
                &&& c.overlay_peer <==> crate::dns_server::access::in_ranges(
                    server.overlay_cidrs@,
                    crate::dns_server::access::canonical_address(ip),
                )
            }
            &&& c.on_listener <==> local is Some
            &&& c.caching == server.caching && c.dnssec_ok == dnssec_ok
            &&& c.dns64 <==> question.qtype == 28 && server.dns64_prefix is Some
            &&& question.qtype == 1 ==> c.kind == Some(RecordKind::A)
            &&& question.qtype == 28 ==> c.kind == Some(RecordKind::AAAA)
            &&& question.qtype == 65 ==> c.kind is None
        }),
{
}

/// An attempt ends the search where it is definitive, and where any reply will do, where there
/// is one.
pub proof fn law_what_ends_a_search(attempt: Attempt)
    ensures
        acceptable(Attempt::Definitive, true) && acceptable(Attempt::Definitive, false),
        acceptable(Attempt::Unsettled, true) && !acceptable(Attempt::Unsettled, false),
        attempt != Attempt::Definitive && attempt != Attempt::Unsettled ==> !acceptable(
            attempt,
            true,
        ) && !acceptable(attempt, false),
{
}

/// A message that comes in is resolved exactly where it can be read and is a standard query
/// with a question, of a supported EDNS version or none.
pub proof fn law_which_messages_are_resolved(octets: Seq<u8>)
    requires
        decoded(octets) matches Some(m) ==> m.questions.len() <= usize::MAX,
    ensures
        received_opening(octets) == Opening::Resolve <==> decoded(octets) is Some && ({
            let m = decoded(octets)->0;
            &&& m.head.is_query && m.head.opcode == 0 && m.questions.len() > 0
            &&& m.head.edns is None || m.head.edns->0.version == 0
        }),
        decoded(octets) is None ==> received_opening(octets) == Opening::Error(1),
        decoded(octets) matches Some(m) ==> (received_opening(octets) == Opening::BadVersion
            <==> m.head.edns is Some && m.head.edns->0.version > 0),
{
}

/// What a lookup is about: the name, where an alias leads, an ancestor, or a zone.
pub proof fn law_what_a_lookup_is_about(s: Session, i: usize)
    ensures
        s.subject_text(Subject::Qname) == Some(s.qname@),
        s.subject_text(Subject::AnameTarget) == Some(s.target@),
        i < s.zones@.len() ==> s.subject_text(Subject::Zone(i)) == Some(s.zones@[i as int]@),
        i < label_texts(s.qname@).len() ==> s.subject_text(Subject::Ancestor(i)) == Some(
            ancestor(s.qname@, i as int),
        ),
        i == 0 ==> s.subject_text(Subject::Ancestor(i)) == Some(normalized(s.qname@)),
{
    lemma_normal_labels(s.qname@);
    if i == 0 {
        law_ancestors_end_the_name(s.qname@, 0);
    }
}

/// A response may be kept as long as the first of its answers, and not at all where it has
/// none or cannot be read.
pub proof fn law_how_long_responses_are_kept(response: Seq<u8>)
    ensures
        decoded(response) is None ==> crate::doh_server::response_ttl(response) == 0,
        decoded(response) matches Some(m) ==> {
            &&& m.answers.len() == 0 ==> crate::doh_server::response_ttl(response) == 0
            &&& m.answers.len() > 0 ==> (forall|i: int|
                0 <= i < m.answers.len() ==> crate::doh_server::response_ttl(response) <= (
                #[trigger] m.answers[i]).ttl) && (exists|i: int|
                0 <= i < m.answers.len() && (#[trigger] m.answers[i]).ttl
                    == crate::doh_server::response_ttl(response))
        },
{
    if let Some(m) = decoded(response) {
        if m.answers.len() > 0 {
            law_entries_live_as_long_as_their_answers(m.answers);
            lemma_some_ttl(m.answers);
        }
    }
}

proof fn lemma_some_ttl(answers: Seq<ResourceView>)
    requires
        answers.len() > 0,
    ensures
        crate::doh_server::least_ttl(answers) is Some,
{
}

} // verus!
