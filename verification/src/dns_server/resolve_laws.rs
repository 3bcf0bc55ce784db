//! What a resolution comes to: what is answered with what was found, what is refused, and in
//! which order things are looked up.
use vstd::prelude::*;

use crate::addr::IpAddress;
use crate::dns_server::records::{answers_of, scoped_answers_of};
use crate::dns_server::resolve::{
    entry_step, lan_step, local_step, opening_of, outward_step, part_of, scoped_step, step_of,
    to_start, Action, AnswerSource, Answers, Event, Lookup, NegativeKind, Opening, Owner, Part,
    QueryContext, Remember, Resolution, Stage, Subject,
};
use crate::dns_server::server::reply_answers;
use crate::message::{ResourceView, FORM_ERR, NOT_IMP, NO_ERROR, NX_DOMAIN, REFUSED};
use crate::record::{DnsRecord, RecordKind};

verus! {

// ---------------------------------------------------------------------------
// Replies
// ---------------------------------------------------------------------------
/// Whether a stage looks for records under the name itself, to be rewritten to the ingress.
pub open spec fn finds_network_records(stage: Stage) -> bool {
    stage == Stage::ScopedCache || stage == Stage::ScopedExact || stage == Stage::LanExact
}

/// Whether a stage looks for records under the name itself, to be served as they are.
pub open spec fn finds_plain_records(stage: Stage) -> bool {
    stage == Stage::LocalCache || stage == Stage::ScopedCname || stage == Stage::LanCname || stage
        == Stage::Cache || stage == Stage::CacheAgain
}

/// Records that were found are served: the reply has no error, and its answers are those that
/// the records make, rewritten to the ingress where they are a network's.
#[verifier::spinoff_prover]
#[verifier::rlimit(40)]
pub proof fn law_found_records_are_served(
    c: QueryContext,
    s: Resolution,
    qname: Seq<char>,
    records: Seq<DnsRecord>,
    synthesized: Seq<ResourceView>,
    ingress: Option<IpAddress>,
)
    ensures
        finds_plain_records(s.stage) ==> {
            &&& step_of(c, s, Event::Found(true)).1 matches Action::Respond(reply)
            &&& reply.rcode == NO_ERROR && reply.edns
            &&& reply_answers(reply.answers, qname, records, synthesized, ingress) == answers_of(
                records,
            )
        },
        finds_network_records(s.stage) ==> {
            &&& step_of(c, s, Event::Found(true)).1 matches Action::Respond(reply)
            &&& reply.rcode == NO_ERROR && reply.edns
            &&& reply_answers(reply.answers, qname, records, synthesized, ingress)
                == scoped_answers_of(records, ingress)
        },
        s.stage == Stage::Fallbacks ==> forall|aname: bool, cname: bool|
            {
                &&& (#[trigger] step_of(c, s, Event::Fallbacks { any: true, aname, cname })).1
                    matches Action::Respond(reply)
                &&& reply.rcode == NO_ERROR && reply.edns
                &&& reply_answers(reply.answers, qname, records, synthesized, ingress)
                    == answers_of(records)
            },
{
}

/// Addresses at an alias's target are served under the name that was asked for, each of them;
/// where the target has none, a CNAME record beside the alias is served.
#[verifier::spinoff_prover]
#[verifier::rlimit(40)]
pub proof fn law_aliases_are_answered_under_the_name(
    c: QueryContext,
    s: Resolution,
    qname: Seq<char>,
    records: Seq<DnsRecord>,
    synthesized: Seq<ResourceView>,
    ingress: Option<IpAddress>,
)
    ensures
        s.stage is AnameTarget ==> {
            &&& step_of(c, s, Event::Found(true)).1 matches Action::Respond(reply)
            &&& reply.rcode == NO_ERROR && reply.authoritative == s.authoritative
            &&& reply_answers(reply.answers, qname, records, synthesized, ingress)
                == crate::dns_server::records::renamed(answers_of(records), qname)
        },
        s.stage == Stage::ScopedAnameTarget ==> {
            &&& step_of(c, s, Event::Found(true)).1 matches Action::Respond(reply)
            &&& reply.rcode == NO_ERROR && reply.authoritative
            &&& reply_answers(reply.answers, qname, records, synthesized, ingress)
                == crate::dns_server::records::renamed(scoped_answers_of(records, ingress), qname)
        },
        s.stage == Stage::AnameTarget(true) ==> {
            &&& step_of(c, s, Event::Found(false)).1 matches Action::Respond(reply)
            &&& reply.rcode == NO_ERROR && reply.answers == Answers::Cname && reply.authoritative
                == s.authoritative
        },
        s.stage == Stage::Fallbacks && !(c.kind == Some(RecordKind::A) || c.kind == Some(
            RecordKind::AAAA,
        )) ==> forall|aname: bool|
            {
                &&& (#[trigger] step_of(c, s, Event::Fallbacks { any: false, aname, cname: true })).1
                    matches Action::Respond(reply)
                &&& reply.rcode == NO_ERROR && reply.answers == Answers::Cname
                &&& reply_answers(reply.answers, qname, records, synthesized, ingress)
                    == answers_of(records)
            },
{
}

/// A DNAME record at an ancestor is answered with, and with where it leads the name.
pub proof fn law_dnames_are_answered(
    c: QueryContext,
    s: Resolution,
    i: usize,
    qname: Seq<char>,
    records: Seq<DnsRecord>,
    synthesized: Seq<ResourceView>,
    ingress: Option<IpAddress>,
)
    requires
        records.len() > 0,
        i <= crate::dns_server::records::label_texts(qname).len(),
    ensures
        s.stage == Stage::Dname(i) || s.stage == Stage::ScopedDname(i) ==> {
            &&& step_of(c, s, Event::Found(true)).1 matches Action::Respond(reply)
            &&& reply.rcode == NO_ERROR && reply.authoritative && !reply.edns
            &&& reply_answers(reply.answers, qname, records, synthesized, ingress)
                == crate::dns_server::records::dname_answers(qname, i as int, records[0])
        },
{
}

/// A name or an address on a blocklist does not exist: the reply says so and holds nothing.
pub proof fn law_blocked_names_do_not_exist(c: QueryContext, s: Resolution)
    ensures
        s.stage == Stage::ScopedRblProvider || s.stage == Stage::ScopedRblLocal || s.stage
            == Stage::RblProvider || s.stage == Stage::RblLocal || s.stage == Stage::RblName || s.stage
            == Stage::RblNameProvider ==> {
            &&& step_of(c, s, Event::Found(true)).1 matches Action::Respond(reply)
            &&& reply.rcode == NX_DOMAIN && reply.answers == Answers::Nothing && reply.edns
            &&& reply.authoritative <==> s.stage == Stage::ScopedRblProvider || s.stage
                == Stage::ScopedRblLocal
            &&& reply.source == if s.stage == Stage::RblName || s.stage == Stage::RblNameProvider {
                AnswerSource::Blocklist
            } else {
                AnswerSource::Rbl
            }
            &&& reply.remember == Remember::Nothing
        },
{
}

/// What a held zone or an owned domain does not have does not exist, with authority.
pub proof fn law_held_names_end_in_nxdomain(c: QueryContext, s: Resolution)
    ensures
        s.stage is ScopedZone || s.stage == Stage::ManagedZoneRecords || s.stage
            == Stage::AuthoritativeZone ==> {
            &&& step_of(c, s, Event::Found(true)).1 matches Action::Respond(reply)
            &&& reply.rcode == NX_DOMAIN && reply.authoritative && reply.answers == Answers::Nothing
            &&& reply.source == AnswerSource::AuthoritativeNxdomain
        },
        s.stage == Stage::ScopedPeers || s.stage == Stage::ScopedAskPeers || s.stage
            == Stage::LanPeers || s.stage == Stage::LanAskPeers ==> {
            &&& step_of(c, s, Event::Found(false)).1 matches Action::Respond(reply)
            &&& reply.rcode == NX_DOMAIN && reply.authoritative && reply.answers == Answers::Nothing
            &&& reply.source == AnswerSource::AuthoritativeNxdomain
        },
        s.stage == Stage::ScopedOwner ==> {
            &&& step_of(c, s, Event::Owner(Owner::Other)).1 matches Action::Respond(reply)
            &&& reply.rcode == NX_DOMAIN && reply.authoritative && reply.answers == Answers::Nothing
        },
        s.stage == Stage::ScopedAskPeers || s.stage == Stage::LanAskPeers ==> step_of(
            c,
            s,
            Event::Found(true),
        ).1 == Action::RelayPeers,
{
}

/// Whoever may not make the server ask others is refused once everything in the house has been
/// looked through, and a peer of the overlay that belongs to no network is refused at once;
/// nobody else is refused anything.
#[verifier::spinoff_prover]
#[verifier::rlimit(40)]
pub proof fn law_who_is_refused(c: QueryContext, s: Resolution, event: Event)
    ensures
        (step_of(c, s, event).1 matches Action::Respond(reply) && reply.rcode == REFUSED) <==> (
        s.stage == Stage::AuthoritativeZone && event == Event::Found(false) && !c.may_recurse) || (
        s.stage == Stage::HasScopes && event == Event::Found(true) && c.overlay_peer),
        step_of(c, s, event).1 matches Action::Respond(reply) ==> reply.rcode == REFUSED
            ==> reply.answers == Answers::Nothing && !reply.authoritative,
{
}

/// A cached negative answer is given again as what it is, without authority; without one an
/// upstream is asked.
pub proof fn law_negative_answers_are_repeated(c: QueryContext, s: Resolution)
    requires
        s.stage == Stage::NegativeCache,
    ensures
        ({
            &&& step_of(c, s, Event::Negative(Some(NegativeKind::NxDomain))).1 matches
                Action::Respond(reply)
            &&& reply.rcode == NX_DOMAIN && reply.answers == Answers::Nothing
                && !reply.authoritative && reply.source == AnswerSource::Cache
        }),
        ({
            &&& step_of(c, s, Event::Negative(Some(NegativeKind::NoData))).1 matches
                Action::Respond(reply)
            &&& reply.rcode == NO_ERROR && reply.answers == Answers::Nothing
                && !reply.authoritative && reply.source == AnswerSource::Cache
        }),
        step_of(c, s, Event::Negative(None)).1 == Action::Ask(Lookup::Upstream),
{
}

/// An upstream's answer is read out of the cache again, unless nothing is cached or the client
/// wants signatures; then it is relayed, as is a failure. An answer without IPv6 addresses is
/// made up for from IPv4 addresses where that is wanted.
pub proof fn law_upstream_answers_are_served(c: QueryContext, s: Resolution, lacks_v6: bool)
    ensures
        s.stage == Stage::Upstream ==> step_of(
            c,
            s,
            Event::Upstream { answered: false, lacks_v6 },
        ).1 == Action::RelayUpstream,
        s.stage == Stage::Upstream && c.dns64 && lacks_v6 ==> step_of(
            c,
            s,
            Event::Upstream { answered: true, lacks_v6 },
        ).1 == Action::Ask(Lookup::UpstreamA),
        s.stage == Stage::Upstream && !(c.dns64 && lacks_v6) ==> step_of(
            c,
            s,
            Event::Upstream { answered: true, lacks_v6 },
        ).1 == if c.caching && !c.dnssec_ok {
            Action::Ask(Lookup::Cache)
        } else {
            Action::RelayUpstream
        },
        s.stage == Stage::UpstreamA ==> step_of(c, s, Event::Found(false)).1 == if c.caching
            && !c.dnssec_ok {
            Action::Ask(Lookup::Cache)
        } else {
            Action::RelayUpstream
        },
        s.stage == Stage::UpstreamA ==> {
            &&& step_of(c, s, Event::Found(true)).1 matches Action::Respond(reply)
            &&& reply.rcode == NO_ERROR && reply.answers == Answers::Synthesized
                && !reply.authoritative
        },
        s.stage == Stage::CacheAgain ==> step_of(c, s, Event::Found(false)).1
            == Action::RelayUpstream,
{
}

/// What comes from others is given without authority. What the server holds is given with it
/// where it lies in a zone served with authority, and what a network holds always.
#[verifier::spinoff_prover]
#[verifier::rlimit(40)]
pub proof fn law_authority(c: QueryContext, s: Resolution, event: Event)
    ensures
        step_of(c, s, event).1 matches Action::Respond(reply) ==> {
            &&& s.stage == Stage::Cache || s.stage == Stage::CacheAgain || s.stage
                == Stage::NegativeCache || s.stage == Stage::UpstreamA || s.stage
                == Stage::RblName || s.stage == Stage::RblNameProvider ==> !reply.authoritative
            &&& s.stage == Stage::LocalCache || s.stage == Stage::Fallbacks || s.stage is AnameTarget
                ==> reply.authoritative == s.authoritative
            &&& s.stage == Stage::ScopedCache || s.stage == Stage::ScopedExact || s.stage
                == Stage::ScopedAnameTarget || s.stage == Stage::ScopedCname || s.stage
                == Stage::LanExact || s.stage == Stage::LanCname || s.stage is ScopedDname || s.stage
                is Dname ==> reply.authoritative
        },
{
}

/// Records are remembered where they were just read from storage: a network's for the network,
/// and the server's for all. Nothing else is.
#[verifier::spinoff_prover]
#[verifier::rlimit(40)]
pub proof fn law_what_is_remembered(c: QueryContext, s: Resolution, event: Event)
    ensures
        step_of(c, s, event).1 matches Action::Respond(reply) ==> {
            &&& reply.remember == Remember::Scoped <==> s.stage == Stage::ScopedExact && event
                == Event::Found(true)
            &&& reply.remember == Remember::Local <==> s.stage == Stage::Fallbacks && (event matches
                Event::Fallbacks { any, .. } && any)
        },
{
}

/// Nothing found is no answer: only an alias's CNAME record answers where nothing was found.
#[verifier::spinoff_prover]
#[verifier::rlimit(40)]
pub proof fn law_nothing_found_is_no_answer(c: QueryContext, s: Resolution)
    requires
        s.stage != Stage::AnameTarget(true),
    ensures
        step_of(c, s, Event::Found(false)).1 matches Action::Respond(reply) ==> reply.answers
            == Answers::Nothing && reply.rcode != NO_ERROR,
{
}

/// Where a reply comes from is said of it.
#[verifier::spinoff_prover]
#[verifier::rlimit(40)]
pub proof fn law_replies_say_their_source(c: QueryContext, s: Resolution, event: Event)
    ensures
        step_of(c, s, event).1 matches Action::Respond(reply) ==> {
            &&& s.stage == Stage::LocalCache || s.stage == Stage::ScopedCache || s.stage
                == Stage::Cache || s.stage == Stage::NegativeCache ==> reply.source
                == AnswerSource::Cache
            &&& s.stage == Stage::ScopedExact || s.stage == Stage::ScopedAnameTarget || s.stage
                == Stage::ScopedCname || s.stage is ScopedDname ==> reply.source
                == AnswerSource::Scoped
            &&& s.stage == Stage::Fallbacks || s.stage is AnameTarget || s.stage is Dname
                ==> reply.source == AnswerSource::Local
            &&& s.stage == Stage::LanExact || s.stage == Stage::LanCname ==> reply.source
                == AnswerSource::ScopeFallback
            &&& s.stage == Stage::CacheAgain ==> reply.source == AnswerSource::Upstream
            &&& s.stage == Stage::UpstreamA ==> reply.source == AnswerSource::Dns64
            &&& s.stage == Stage::HasScopes ==> reply.source == AnswerSource::Refused
        },
{
}

// ---------------------------------------------------------------------------
// The order of lookups
// ---------------------------------------------------------------------------
/// The lookup that a stage waits for.
pub open spec fn awaited(c: QueryContext, stage: Stage) -> Option<Lookup> {
    match stage {
        Stage::Ingress => Some(Lookup::Ingress),
        Stage::IngressScope => Some(Lookup::IngressScope),
        Stage::SourceScope => Some(Lookup::SourceScope),
        Stage::HasScopes => Some(Lookup::HasScopes),
        Stage::ScopedRblProvider | Stage::RblProvider => Some(Lookup::RblProvider),
        Stage::ScopedRblLocal | Stage::RblLocal => Some(Lookup::RblLocal),
        Stage::ScopedCache => Some(Lookup::ScopedCache),
        Stage::ScopedExact => Some(Lookup::Scoped(Subject::Qname, c.kind)),
        Stage::ScopedAname => Some(Lookup::Scoped(Subject::Qname, Some(RecordKind::ANAME))),
        Stage::ScopedAnameTarget => Some(Lookup::Scoped(Subject::AnameTarget, c.kind)),
        Stage::ScopedCname => Some(Lookup::Scoped(Subject::Qname, Some(RecordKind::CNAME))),
        Stage::ScopedDname(i) => Some(
            Lookup::Scoped(Subject::Ancestor(i), Some(RecordKind::DNAME)),
        ),
        Stage::ScopedOwner | Stage::LanOwner => Some(Lookup::TldOwner),
        Stage::ScopedPeers | Stage::LanPeers => Some(Lookup::TldPeers),
        Stage::ScopedAskPeers | Stage::LanAskPeers => Some(Lookup::AskPeers),
        Stage::ScopedZones => Some(Lookup::ScopedZones),
        Stage::ScopedZone(i, _) => Some(Lookup::Scoped(Subject::Zone(i), None)),
        Stage::Authoritative => Some(Lookup::Authoritative),
        Stage::LocalCache => Some(Lookup::LocalCache),
        Stage::Fallbacks => Some(Lookup::Fallbacks),
        Stage::AnameTarget(_) => Some(Lookup::Records(Subject::AnameTarget, c.kind)),
        Stage::LanExact => match c.kind {
            Some(kind) => Some(Lookup::OwnerRecords(kind)),
            None => None,
        },
        Stage::LanCname => Some(Lookup::OwnerRecords(RecordKind::CNAME)),
        Stage::Dname(i) => Some(Lookup::Records(Subject::Ancestor(i), Some(RecordKind::DNAME))),
        Stage::ManagedZone => Some(Lookup::ManagedZone),
        Stage::ManagedZoneRecords => Some(Lookup::Records(Subject::Zone(0), None)),
        Stage::AuthoritativeZone => Some(Lookup::AuthoritativeZone),
        Stage::Allowlisted => Some(Lookup::Allowlisted),
        Stage::RblName => Some(Lookup::RblName),
        Stage::RblNameProvider => Some(Lookup::RblNameProvider),
        Stage::Cache | Stage::CacheAgain => Some(Lookup::Cache),
        Stage::NegativeCache => Some(Lookup::NegativeCache),
        Stage::Upstream => Some(Lookup::Upstream),
        Stage::UpstreamA => Some(Lookup::UpstreamA),
        Stage::Done => None,
    }
}

/// Whether a resolution asks for what its stage waits for.
spec fn fits(c: QueryContext, r: (Resolution, Action)) -> bool {
    r.1 matches Action::Ask(lookup) ==> Some(lookup) == awaited(c, r.0.stage)
}

#[verifier::spinoff_prover]
proof fn lemma_fits_entry(c: QueryContext, s: Resolution, found: bool)
    requires
        part_of(s.stage) == Part::Entry,
    ensures
        fits(c, entry_step(c, s, found)),
{
}

#[verifier::spinoff_prover]
proof fn lemma_fits_scoped(c: QueryContext, s: Resolution, found: bool)
    requires
        part_of(s.stage) == Part::Scoped,
    ensures
        fits(c, scoped_step(c, s, found)),
{
}

#[verifier::spinoff_prover]
proof fn lemma_fits_local(c: QueryContext, s: Resolution, found: bool)
    requires
        part_of(s.stage) == Part::Local,
    ensures
        fits(c, local_step(c, s, found)),
{
}

#[verifier::spinoff_prover]
proof fn lemma_fits_lan(c: QueryContext, s: Resolution, found: bool)
    requires
        part_of(s.stage) == Part::Lan,
    ensures
        fits(c, lan_step(c, s, found)),
{
}

#[verifier::spinoff_prover]
proof fn lemma_fits_outward(c: QueryContext, s: Resolution, found: bool)
    requires
        part_of(s.stage) == Part::Outward,
    ensures
        fits(c, outward_step(c, s, found)),
{
}

/// Whatever a resolution asks for is what the stage that it goes to waits for.
pub proof fn law_lookups_fit_their_stage(c: QueryContext, s: Resolution, event: Event)
    ensures
        step_of(c, s, event).1 matches Action::Ask(lookup) ==> Some(lookup) == awaited(
            c,
            step_of(c, s, event).0.stage,
        ),
        to_start(c).1 matches Action::Ask(lookup) && Some(lookup) == awaited(
            c,
            to_start(c).0.stage,
        ),
{
    match event {
        Event::Found(found) => match part_of(s.stage) {
            Part::Entry => lemma_fits_entry(c, s, found),
            Part::Scoped => lemma_fits_scoped(c, s, found),
            Part::Local => lemma_fits_local(c, s, found),
            Part::Lan => lemma_fits_lan(c, s, found),
            Part::Outward => lemma_fits_outward(c, s, found),
            Part::Other => {},
        },
        _ => {},
    }
    assert(fits(c, step_of(c, s, event)));
}

/// Where a query that was not answered goes next in a network: the local list after the
/// providers, storage after the cache, aliases after records, ancestors after the name, one
/// after the other.
#[verifier::spinoff_prover]
#[verifier::rlimit(40)]
pub proof fn law_networks_are_looked_through_in_order(c: QueryContext, s: Resolution)
    ensures
        ({
            let next = step_of(c, s, Event::Found(false)).0.stage;
            let address = c.kind == Some(RecordKind::A) || c.kind == Some(RecordKind::AAAA);
            let ancestors = if 1 < c.labels {
                Stage::ScopedDname(1)
            } else {
                Stage::ScopedOwner
            };
            &&& s.stage == Stage::ScopedRblProvider ==> next == Stage::ScopedRblLocal
            &&& s.stage == Stage::ScopedRblLocal ==> next == if c.kind is None {
                ancestors
            } else if c.caching {
                Stage::ScopedCache
            } else {
                Stage::ScopedExact
            }
            &&& s.stage == Stage::ScopedCache ==> next == Stage::ScopedExact
            &&& s.stage == Stage::ScopedExact && address ==> next == Stage::ScopedAname
            &&& s.stage == Stage::ScopedExact && !address ==> next == Stage::ScopedCname
            &&& s.stage == Stage::ScopedAname ==> next == Stage::ScopedCname
            &&& s.stage == Stage::ScopedAnameTarget ==> next == Stage::ScopedCname
            &&& s.stage == Stage::ScopedCname ==> next == ancestors
            &&& s.stage matches Stage::ScopedDname(i) ==> i + 1 < c.labels ==> next
                == Stage::ScopedDname((i + 1) as usize)
            &&& s.stage matches Stage::ScopedDname(i) ==> i < usize::MAX ==> i + 1 >= c.labels
                ==> next == Stage::ScopedOwner
            &&& s.stage matches Stage::ScopedZone(i, n) ==> i + 1 < n ==> next
                == Stage::ScopedZone((i + 1) as usize, n)
            &&& s.stage matches Stage::ScopedZone(i, n) ==> i < usize::MAX ==> i + 1 >= n ==> next
                == if !s.scoped && c.reverse {
                Stage::RblProvider
            } else {
                Stage::Authoritative
            }
        }),
        s.stage == Stage::ScopedAname ==> step_of(c, s, Event::Found(true)).0.stage
            == Stage::ScopedAnameTarget,
        s.stage == Stage::ScopedOwner ==> step_of(c, s, Event::Owner(Owner::Nobody)).0.stage
            == Stage::ScopedZones,
        s.stage == Stage::ScopedOwner ==> step_of(c, s, Event::Owner(Owner::Own)).0.stage
            == Stage::ScopedPeers,
        s.stage == Stage::ScopedPeers ==> step_of(c, s, Event::Found(true)).0.stage
            == Stage::ScopedAskPeers,
        s.stage == Stage::ScopedZones ==> forall|n: usize|
            n > 0 ==> (#[trigger] step_of(c, s, Event::Count(n))).0.stage == Stage::ScopedZone(
                0,
                n,
            ),
        s.stage == Stage::ScopedZones && s.scoped ==> step_of(c, s, Event::Count(0)).0.stage
            == Stage::Authoritative,
{
}

/// Where a query that was not answered goes next among what the server holds.
#[verifier::spinoff_prover]
#[verifier::rlimit(40)]
pub proof fn law_the_house_is_looked_through_in_order(c: QueryContext, s: Resolution)
    ensures
        ({
            let next = step_of(c, s, Event::Found(false)).0.stage;
            let ancestors = if 1 < c.labels {
                Stage::Dname(1)
            } else {
                Stage::ManagedZone
            };
            let others = if s.scoped {
                ancestors
            } else {
                Stage::LanOwner
            };
            &&& s.stage == Stage::RblProvider ==> next == Stage::RblLocal
            &&& s.stage == Stage::RblLocal ==> next == Stage::Authoritative
            &&& s.stage == Stage::Authoritative ==> forall|found: bool|
                (#[trigger] step_of(c, s, Event::Found(found))).0.stage == if c.kind is None {
                    others
                } else if c.caching {
                    Stage::LocalCache
                } else {
                    Stage::Fallbacks
                }
            &&& s.stage == Stage::LocalCache ==> next == Stage::Fallbacks
            &&& s.stage == Stage::AnameTarget(false) ==> next == others
            &&& s.stage == Stage::LanExact ==> next == Stage::LanCname
            &&& s.stage == Stage::LanCname ==> next == Stage::LanPeers
            &&& s.stage matches Stage::Dname(i) ==> i + 1 < c.labels ==> next == Stage::Dname(
                (i + 1) as usize,
            )
            &&& s.stage matches Stage::Dname(i) ==> i < usize::MAX ==> i + 1 >= c.labels ==> next
                == Stage::ManagedZone
            &&& s.stage == Stage::ManagedZone ==> next == Stage::AuthoritativeZone
            &&& s.stage == Stage::ManagedZoneRecords ==> next == Stage::AuthoritativeZone
            &&& s.stage == Stage::LanOwner ==> step_of(c, s, Event::Owner(Owner::Nobody)).0.stage
                == ancestors
            &&& s.stage == Stage::LanOwner ==> step_of(c, s, Event::Owner(Owner::Own)).0.stage
                == if c.kind is Some {
                Stage::LanExact
            } else {
                Stage::LanPeers
            }
            &&& s.stage == Stage::ManagedZone ==> step_of(c, s, Event::Found(true)).0.stage
                == Stage::ManagedZoneRecords
            &&& s.stage == Stage::LanPeers ==> step_of(c, s, Event::Found(true)).0.stage
                == Stage::LanAskPeers
            &&& s.stage == Stage::Fallbacks ==> forall|aname: bool, cname: bool|
                (#[trigger] step_of(
                    c,
                    s,
                    Event::Fallbacks { any: false, aname, cname },
                )).0.stage == if (c.kind == Some(RecordKind::A) || c.kind == Some(RecordKind::AAAA))
                    && aname {
                    Stage::AnameTarget(cname)
                } else if cname {
                    Stage::Done
                } else {
                    others
                }
        }),
{
}

/// Where a query that the house does not answer goes: past the allowlist and both blocklists
/// to the cache, the negative cache and the upstreams.
pub proof fn law_others_are_asked_in_order(c: QueryContext, s: Resolution)
    ensures
        ({
            let next = step_of(c, s, Event::Found(false)).0.stage;
            let answers = if c.caching {
                Stage::Cache
            } else {
                Stage::Upstream
            };
            &&& s.stage == Stage::AuthoritativeZone && c.may_recurse ==> next == if c.reverse {
                answers
            } else {
                Stage::Allowlisted
            }
            &&& s.stage == Stage::Allowlisted ==> next == Stage::RblName
            &&& s.stage == Stage::Allowlisted ==> step_of(c, s, Event::Found(true)).0.stage
                == answers
            &&& s.stage == Stage::RblName ==> next == Stage::RblNameProvider
            &&& s.stage == Stage::RblNameProvider ==> next == answers
            &&& s.stage == Stage::Cache ==> next == Stage::NegativeCache
            &&& s.stage == Stage::NegativeCache ==> step_of(c, s, Event::Negative(None)).0.stage
                == Stage::Upstream
        }),
{
}

/// Where a query belongs is found out first: by the listener, then by the sender.
pub proof fn law_a_query_is_placed_first(c: QueryContext, s: Resolution)
    ensures
        ({
            let next = step_of(c, s, Event::Found(false)).0;
            let placed = step_of(c, s, Event::Found(true)).0;
            let outside = if !s.scoped && c.reverse {
                Stage::RblProvider
            } else {
                Stage::Authoritative
            };
            &&& to_start(c).0.stage == if c.on_listener {
                Stage::Ingress
            } else if c.has_source {
                Stage::SourceScope
            } else if c.reverse {
                Stage::RblProvider
            } else {
                Stage::Authoritative
            }
            &&& !to_start(c).0.scoped && !to_start(c).0.ingress && !to_start(c).0.authoritative
            &&& !to_start(c).0.cleared && !to_start(c).0.missed && to_start(c).0.owner
                == Owner::Unknown
            &&& s.stage == Stage::Ingress ==> next.stage == Stage::IngressScope && placed.stage
                == Stage::IngressScope
            &&& s.stage == Stage::IngressScope ==> next.stage == if c.has_source {
                Stage::SourceScope
            } else {
                outside
            }
            &&& s.stage == Stage::SourceScope ==> next.stage == Stage::HasScopes
            &&& s.stage == Stage::HasScopes ==> next.stage == outside
            &&& s.stage == Stage::HasScopes && !c.overlay_peer ==> placed.stage == outside
            &&& s.stage == Stage::IngressScope || s.stage == Stage::SourceScope ==> placed.scoped
                && placed.stage == if c.reverse {
                Stage::ScopedRblProvider
            } else if c.kind is Some {
                if c.caching {
                    Stage::ScopedCache
                } else {
                    Stage::ScopedExact
                }
            } else if 1 < c.labels {
                Stage::ScopedDname(1)
            } else {
                Stage::ScopedOwner
            }
        }),
{
}

/// Whether what was known of a query is kept, and what an event says is learned.
pub open spec fn learned(s: Resolution, event: Event, next: Resolution) -> bool {
    &&& s.stage == Stage::Ingress ==> (event matches Event::Found(found) ==> next.ingress == found)
    &&& s.stage != Stage::Ingress ==> next.ingress == s.ingress
    &&& s.stage == Stage::Authoritative ==> (event matches Event::Found(found)
        ==> next.authoritative == found)
    &&& s.stage != Stage::Authoritative ==> next.authoritative == s.authoritative
    &&& next.scoped <==> s.scoped || ((s.stage == Stage::IngressScope || s.stage
        == Stage::SourceScope) && event == Event::Found(true))
    &&& (s.stage == Stage::ScopedOwner || s.stage == Stage::LanOwner) && (event == Event::Owner(
        Owner::Nobody,
    ) || event == Event::Owner(Owner::Own)) ==> Event::Owner(next.owner) == event
    &&& s.stage != Stage::ScopedOwner && s.stage != Stage::LanOwner ==> next.owner == s.owner
    &&& s.cleared ==> next.cleared
    &&& s.missed ==> next.missed
}

#[verifier::spinoff_prover]
proof fn lemma_learned_entry(c: QueryContext, s: Resolution, found: bool)
    requires
        part_of(s.stage) == Part::Entry,
    ensures
        learned(s, Event::Found(found), entry_step(c, s, found).0),
{
}

#[verifier::spinoff_prover]
proof fn lemma_learned_scoped(c: QueryContext, s: Resolution, found: bool)
    requires
        part_of(s.stage) == Part::Scoped,
    ensures
        learned(s, Event::Found(found), scoped_step(c, s, found).0),
{
}

#[verifier::spinoff_prover]
proof fn lemma_learned_local(c: QueryContext, s: Resolution, found: bool)
    requires
        part_of(s.stage) == Part::Local,
    ensures
        learned(s, Event::Found(found), local_step(c, s, found).0),
{
}

#[verifier::spinoff_prover]
proof fn lemma_learned_lan(c: QueryContext, s: Resolution, found: bool)
    requires
        part_of(s.stage) == Part::Lan,
    ensures
        learned(s, Event::Found(found), lan_step(c, s, found).0),
{
}

#[verifier::spinoff_prover]
proof fn lemma_learned_outward(c: QueryContext, s: Resolution, found: bool)
    requires
        part_of(s.stage) == Part::Outward,
    ensures
        learned(s, Event::Found(found), outward_step(c, s, found).0),
{
}

/// What is known of a query is learned where it is asked, and never forgotten: the ingress at
/// the listener, the network at the scopes, the authority at the zones, the owner at the
/// owner.
pub proof fn law_what_is_learned_stays(c: QueryContext, s: Resolution, event: Event)
    ensures
        learned(s, event, step_of(c, s, event).0),
{
    match event {
        Event::Found(found) => match part_of(s.stage) {
            Part::Entry => lemma_learned_entry(c, s, found),
            Part::Scoped => lemma_learned_scoped(c, s, found),
            Part::Local => lemma_learned_local(c, s, found),
            Part::Lan => lemma_learned_lan(c, s, found),
            Part::Outward => lemma_learned_outward(c, s, found),
            Part::Other => {},
        },
        _ => {},
    }
}

// ---------------------------------------------------------------------------
// Openings
// ---------------------------------------------------------------------------
/// A message is resolved exactly where it can be read, has a supported EDNS version or none,
/// and is a standard query with a question; each lack has its own code, the first one counts.
pub proof fn law_openings(
    readable: bool,
    version: Option<u8>,
    is_query: bool,
    opcode: u8,
    questions: usize,
)
    ensures
        ({
            let o = opening_of(readable, version, is_query, opcode, questions);
            let supported = version is None || version == Some(0u8);
            &&& o == Opening::Resolve <==> readable && supported && is_query && opcode == 0
                && questions > 0
            &&& !readable ==> o == Opening::Error(1)
            &&& o == Opening::BadVersion <==> readable && !supported
            &&& o == Opening::Error(4) <==> readable && supported && (!is_query || opcode != 0)
            &&& readable && supported && is_query && opcode == 0 && questions == 0 ==> o
                == Opening::Error(1)
            &&& FORM_ERR == 1 && NOT_IMP == 4 && NX_DOMAIN == 3 && REFUSED == 5 && NO_ERROR == 0
        }),
{
}

} // verus!
