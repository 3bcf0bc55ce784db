//! A query on its way through the server: the decisions of [`Resolution`] together with
//! what the lookups found.
use vstd::prelude::*;

use super::access::{canonical_address, canonical_ip};
use super::records::{
    ancestor, ancestor_count, ancestor_name, dns64_answers, label_texts, synthesize_dns64_answers,
};
use super::resolve::{
    on_course, step_of, to_start, Action, AnswerSource, Answers, Event, NegativeKind, Owner,
    QueryContext, Resolution, Subject,
};
use super::server::{reply_answers, respond, DnsServer};
use crate::addr::IpAddress;
use crate::message::{
    answers_to, build_query_for_type, decode_answers, decoded, query_draft, question_for,
    question_views, resource_views, response_draft, sent, Query, ResourceRecord, ResourceView,
    TYPE_A, TYPE_AAAA,
};
use crate::names::{ends_with, ends_with_chars, normalize_name, normalized};
use crate::record::DnsRecord;
use crate::text::{chars_of, eq_text, optional_text, strings};
use crate::wire_name::name_text;

verus! {

broadcast use vstd::string::group_string_axioms;

/// The records of a name that local answers are chosen from.
#[derive(Debug)]
pub struct Fallbacks {
    pub exact: Vec<DnsRecord>,
    pub wildcard: Vec<DnsRecord>,
    pub cname: Vec<DnsRecord>,
    pub aname: Vec<DnsRecord>,
}

/// What a lookup found.
#[derive(Debug)]
pub enum Finding {
    /// Whether it is so.
    Truth(bool),
    /// The ingress address of the domain that the name is under.
    Ingress(Option<IpAddress>),
    /// A network.
    Scope(Option<String>),
    /// The network that owns the domain that the name is under.
    Owner(Option<String>),
    /// Records.
    Records(Vec<DnsRecord>),
    /// Records of several types.
    Fallbacks(Fallbacks),
    /// The managed zones of a network.
    Zones(Vec<String>),
    /// The managed zone that the name is in.
    Zone(Option<String>),
    /// A cached negative answer.
    Negative(Option<NegativeKind>),
    /// A definitive answer of a peer.
    Peers(Option<Vec<u8>>),
    /// The answer of an upstream.
    Upstream(Option<Vec<u8>>),
    /// The answer of an upstream to the question for IPv4 addresses.
    UpstreamA(Option<Vec<u8>>),
}

/// A query on its way.
#[derive(Debug)]
pub struct Session {
    pub query: Query,
    pub qname: String,
    pub context: QueryContext,
    pub state: Resolution,
    /// The address of the listener, in its own family.
    pub local: Option<IpAddress>,
    /// The address of the sender, in its own family.
    pub source: Option<IpAddress>,
    /// The prefix that IPv6 addresses are made with.
    pub dns64_prefix: u128,
    /// The network that the query belongs to.
    pub scope: Option<String>,
    /// The network that owns the domain that the name is under.
    pub owner: Option<String>,
    /// The records that were found last.
    pub records: Vec<DnsRecord>,
    /// The CNAME records that were found beside others.
    pub cname: Vec<DnsRecord>,
    /// The value of the first record that was found, for where an ANAME leads.
    pub target: String,
    /// The zones that the name is in.
    pub zones: Vec<String>,
    /// The IPv6 addresses that were made from IPv4 addresses.
    pub addresses: Vec<ResourceRecord>,
    /// What a peer or an upstream answered.
    pub reply: Option<Vec<u8>>,
}

/// The value of the first of some records, or a default.
pub open spec fn first_value(records: Seq<DnsRecord>, default: Seq<char>) -> Seq<char> {
    if records.len() > 0 {
        records[0].value@
    } else {
        default
    }
}

/// The zones that a name is in.
pub open spec fn covering(qname: Seq<char>, zones: Seq<Seq<char>>) -> Seq<Seq<char>>
    decreases zones.len(),
{
    if zones.len() == 0 {
        Seq::empty()
    } else if ends_with(normalized(qname), zones.last()) {
        covering(qname, zones.drop_last()).push(zones.last())
    } else {
        covering(qname, zones.drop_last())
    }
}

/// Picks the zones that a name is in.
pub fn covering_zones(qname: &str, zones: &[String]) -> (r: Vec<String>)
    ensures
        strings(r@) == covering(qname@, strings(zones@)),
{
    let name = chars_of(normalize_name(qname).as_str());
    let ghost all = strings(zones@);
    let mut out: Vec<String> = Vec::new();
    let mut i: usize = 0;
    assert(all.subrange(0, 0) =~= Seq::empty());
    assert(strings(out@) =~= Seq::empty());
    while i < zones.len()
        invariant
            i <= zones.len(),
            name@ == normalized(qname@),
            all == strings(zones@),
            strings(out@) == covering(qname@, all.subrange(0, i as int)),
        decreases zones.len() - i,
    {
        let ghost before = strings(out@);
        proof {
            let p = all.subrange(0, i + 1);
            assert(p.drop_last() =~= all.subrange(0, i as int));
            assert(p.last() == zones@[i as int]@);
        }
        let zone = chars_of(zones[i].as_str());
        if ends_with_chars(name.as_slice(), zone.as_slice()) {
            out.push(zones[i].as_str().to_owned());
            assert(strings(out@) =~= before.push(zones@[i as int]@));
        }
        i = i + 1;
    }
    assert(all.subrange(0, i as int) =~= all);
    out
}

/// Whether an answer can be read and has no IPv6 address.
pub open spec fn lacks_v6(octets: Seq<u8>) -> bool {
    match decoded(octets) {
        Some(m) => forall|i: int|
            0 <= i < m.answers.len() ==> (#[trigger] m.answers[i]).rtype != TYPE_AAAA,
        None => false,
    }
}

fn has_no_v6(octets: &[u8]) -> (r: bool)
    ensures
        r == lacks_v6(octets@),
{
    let answers = match decode_answers(octets) {
        Some(a) => a,
        None => {
            return false;
        },
    };
    let ghost all = resource_views(answers@);
    let mut i: usize = 0;
    while i < answers.len()
        invariant
            i <= answers.len(),
            all == resource_views(answers@),
            decoded(octets@) is Some,
            decoded(octets@)->0.answers == all,
            forall|k: int| 0 <= k < i ==> (#[trigger] all[k]).rtype != TYPE_AAAA,
        decreases answers.len() - i,
    {
        assert(all[i as int].rtype == answers@[i as int].rtype);
        if answers[i].rtype == TYPE_AAAA {
            return false;
        }
        i = i + 1;
    }
    true
}

/// The IPv6 addresses that an answer makes under a prefix.
pub open spec fn made_addresses(reply: Option<Seq<u8>>, prefix: u128) -> Seq<ResourceView> {
    match reply {
        Some(octets) => match decoded(octets) {
            Some(m) => dns64_answers(m.answers, prefix),
            None => Seq::empty(),
        },
        None => Seq::empty(),
    }
}

fn make_addresses(reply: &Option<Vec<u8>>, prefix: u128) -> (r: Vec<ResourceRecord>)
    ensures
        resource_views(r@) == made_addresses(crate::message::octets_of(*reply), prefix),
{
    if let Some(octets) = reply {
        if let Some(answers) = decode_answers(octets.as_slice()) {
            return synthesize_dns64_answers(answers.as_slice(), prefix);
        }
    }
    let none: Vec<ResourceRecord> = Vec::new();
    assert(resource_views(none@) =~= Seq::empty());
    none
}

impl Session {
    /// What a finding means for the resolution.
    pub open spec fn event_of(self, finding: Finding) -> Event {
        match finding {
            Finding::Truth(b) => Event::Found(b),
            Finding::Ingress(ip) => Event::Found(ip is Some && ip == self.local),
            Finding::Scope(s) => Event::Found(s is Some),
            Finding::Owner(o) => Event::Owner(
                match (o, self.scope) {
                    (None, _) => Owner::Nobody,
                    (Some(o), Some(s)) => if o@ == s@ {
                        Owner::Own
                    } else {
                        Owner::Other
                    },
                    (Some(_), None) => Owner::Own,
                },
            ),
            Finding::Records(v) => Event::Found(v@.len() > 0),
            Finding::Fallbacks(f) => Event::Fallbacks {
                any: f.exact@.len() > 0 || f.wildcard@.len() > 0,
                aname: f.aname@.len() > 0,
                cname: f.cname@.len() > 0,
            },
            Finding::Zones(z) => Event::Count(covering(self.qname@, strings(z@)).len() as usize),
            Finding::Zone(z) => Event::Found(z is Some),
            Finding::Negative(n) => Event::Negative(n),
            Finding::Peers(r) => Event::Found(r is Some),
            Finding::Upstream(r) => Event::Upstream {
                answered: r is Some,
                lacks_v6: r is Some && lacks_v6(r->0@),
            },
            Finding::UpstreamA(r) => Event::Found(
                made_addresses(crate::message::octets_of(r), self.dns64_prefix).len() > 0,
            ),
        }
    }

    /// Whether another session has the same query on the same way.
    pub open spec fn same_query(self, other: Session) -> bool {
        &&& self.query == other.query
        &&& self.qname == other.qname
        &&& self.context == other.context
        &&& self.local == other.local
        &&& self.source == other.source
        &&& self.dns64_prefix == other.dns64_prefix
    }

    /// Whether this session has taken in a finding that came to `before`.
    pub open spec fn has_taken(self, before: Session, finding: Finding) -> bool {
        &&& self.same_query(before)
        &&& optional_text(self.scope) == match finding {
            Finding::Scope(s) => optional_text(s),
            _ => optional_text(before.scope),
        }
        &&& optional_text(self.owner) == match finding {
            Finding::Owner(o) => optional_text(o),
            _ => optional_text(before.owner),
        }
        &&& self.records@ == match finding {
            Finding::Records(v) => v@,
            Finding::Fallbacks(f) => if f.exact@.len() > 0 {
                f.exact@
            } else {
                f.wildcard@
            },
            _ => before.records@,
        }
        &&& self.cname@ == match finding {
            Finding::Fallbacks(f) => f.cname@,
            _ => before.cname@,
        }
        &&& self.target@ == match finding {
            Finding::Records(v) => first_value(v@, before.target@),
            Finding::Fallbacks(f) => first_value(f.aname@, before.target@),
            _ => before.target@,
        }
        &&& strings(self.zones@) == match finding {
            Finding::Zones(z) => covering(self.qname@, strings(z@)),
            Finding::Zone(Some(z)) => seq![z@],
            _ => strings(before.zones@),
        }
        &&& resource_views(self.addresses@) == match finding {
            Finding::UpstreamA(r) => made_addresses(
                crate::message::octets_of(r),
                self.dns64_prefix,
            ),
            _ => resource_views(before.addresses@),
        }
        &&& crate::message::octets_of(self.reply) == match finding {
            Finding::Peers(r) | Finding::Upstream(r) => crate::message::octets_of(r),
            _ => crate::message::octets_of(before.reply),
        }
    }

    /// Starts a query that came in on a listener from a sender, and gives the first lookup.
    pub fn begin(
        server: &DnsServer,
        query: Query,
        local: Option<IpAddress>,
        source: Option<IpAddress>,
    ) -> (r: (Session, Action))
        requires
            query.questions@.len() > 0,
        ensures
            r.0.query == query,
            r.0.qname@ == name_text(query.questions@[0]@.name),
            r.0.context == server.context_of(
                query.questions@[0]@,
                local,
                source,
                query.head.edns is Some && query.head.edns->0.dnssec_ok,
            ),
            (r.0.state, r.1) == to_start(r.0.context),
            on_course(r.0.context, r.0.state),
            r.0.local == match local {
                Some(ip) => Some(canonical_address(ip)),
                None => None,
            },
            r.0.source == match source {
                Some(ip) => Some(canonical_address(ip)),
                None => None,
            },
            server.dns64_prefix is Some ==> r.0.dns64_prefix == server.dns64_prefix->0,
            r.0.scope is None && r.0.owner is None && r.0.reply is None,
            r.0.records@.len() == 0 && r.0.cname@.len() == 0 && r.0.addresses@.len() == 0,
            r.0.zones@.len() == 0 && r.0.target@.len() == 0,
    {
        let context = server.context(&query, local, source);
        let (state, action) = Resolution::begin(&context);
        let qname = query.questions[0].name.text();
        let local = match local {
            Some(ip) => Some(canonical_ip(ip)),
            None => None,
        };
        let source = match source {
            Some(ip) => Some(canonical_ip(ip)),
            None => None,
        };
        let dns64_prefix: u128 = match server.dns64_prefix {
            Some(p) => p,
            None => 0,
        };
        let session = Session {
            query,
            qname,
            context,
            state,
            local,
            source,
            dns64_prefix,
            scope: None,
            owner: None,
            records: Vec::new(),
            cname: Vec::new(),
            target: String::new(),
            zones: Vec::new(),
            addresses: Vec::new(),
            reply: None,
        };
        (session, action)
    }

    fn move_on(&mut self, event: Event) -> (r: Action)
        requires
            on_course(old(self).context, old(self).state),
        ensures
            (final(self).state, r) == step_of(old(self).context, old(self).state, event),
            on_course(final(self).context, final(self).state),
            *final(self) == (Session { state: final(self).state, ..*old(self) }),
    {
        let (state, action) = self.state.step(&self.context, event);
        self.state = state;
        action
    }

    /// Takes in what the last lookup found, and gives what to do next.
    pub fn advance(&mut self, finding: Finding) -> (r: Action)
        requires
            on_course(old(self).context, old(self).state),
        ensures
            (final(self).state, r) == step_of(
                old(self).context,
                old(self).state,
                old(self).event_of(finding),
            ),
            on_course(final(self).context, final(self).state),
            final(self).has_taken(*old(self), finding),
    {
        match finding {
            Finding::Truth(b) => self.move_on(Event::Found(b)),
            Finding::Ingress(ip) => {
                let found = match (ip, self.local) {
                    (Some(a), Some(b)) => a == b,
                    _ => false,
                };
                self.move_on(Event::Found(found))
            },
            Finding::Scope(s) => {
                let found = s.is_some();
                self.scope = s;
                self.move_on(Event::Found(found))
            },
            Finding::Owner(o) => {
                let owner = match (&o, &self.scope) {
                    (None, _) => Owner::Nobody,
                    (Some(o), Some(s)) => if eq_text(o.as_str(), s.as_str()) {
                        Owner::Own
                    } else {
                        Owner::Other
                    },
                    (Some(_), None) => Owner::Own,
                };
                self.owner = o;
                self.move_on(Event::Owner(owner))
            },
            Finding::Records(v) => {
                if v.len() > 0 {
                    self.target = v[0].value.as_str().to_owned();
                }
                let found = v.len() > 0;
                self.records = v;
                self.move_on(Event::Found(found))
            },
            Finding::Fallbacks(f) => {
                let any = f.exact.len() > 0 || f.wildcard.len() > 0;
                let aname = f.aname.len() > 0;
                let cname = f.cname.len() > 0;
                if aname {
                    self.target = f.aname[0].value.as_str().to_owned();
                }
                self.records = if f.exact.len() > 0 {
                    f.exact
                } else {
                    f.wildcard
                };
                self.cname = f.cname;
                self.move_on(Event::Fallbacks { any, aname, cname })
            },
            Finding::Zones(z) => {
                let zones = covering_zones(self.qname.as_str(), z.as_slice());
                assert(strings(zones@).len() == zones@.len());
                let n: usize = zones.len();
                self.zones = zones;
                self.move_on(Event::Count(n))
            },
            Finding::Zone(z) => {
                let found = z.is_some();
                if let Some(zone) = z {
                    let zones = vec![zone];
                    assert(strings(zones@) =~= seq![zone@]);
                    self.zones = zones;
                }
                self.move_on(Event::Found(found))
            },
            Finding::Negative(n) => self.move_on(Event::Negative(n)),
            Finding::Peers(r) => {
                let found = r.is_some();
                self.reply = r;
                self.move_on(Event::Found(found))
            },
            Finding::Upstream(r) => {
                let (answered, lacks) = match &r {
                    Some(octets) => (true, has_no_v6(octets.as_slice())),
                    None => (false, false),
                };
                self.reply = r;
                self.move_on(Event::Upstream { answered, lacks_v6: lacks })
            },
            Finding::UpstreamA(r) => {
                let addresses = make_addresses(&r, self.dns64_prefix);
                assert(resource_views(addresses@).len() == addresses@.len());
                let found = addresses.len() > 0;
                self.addresses = addresses;
                self.move_on(Event::Found(found))
            },
        }
    }

    /// The name that a lookup is about.
    pub open spec fn subject_text(self, subject: Subject) -> Option<Seq<char>> {
        match subject {
            Subject::Qname => Some(self.qname@),
            Subject::AnameTarget => Some(self.target@),
            Subject::Ancestor(i) => if i <= label_texts(self.qname@).len() {
                Some(ancestor(self.qname@, i as int))
            } else {
                None
            },
            Subject::Zone(i) => if i < self.zones@.len() {
                Some(self.zones@[i as int]@)
            } else {
                None
            },
        }
    }

    /// The name that a lookup is about; none where there is no such ancestor or zone.
    pub fn subject_name(&self, subject: Subject) -> (r: Option<String>)
        ensures
            optional_text(r) == self.subject_text(subject),
    {
        match subject {
            Subject::Qname => Some(self.qname.as_str().to_owned()),
            Subject::AnameTarget => Some(self.target.as_str().to_owned()),
            Subject::Ancestor(i) => if i <= ancestor_count(self.qname.as_str()) {
                Some(ancestor_name(self.qname.as_str(), i))
            } else {
                None
            },
            Subject::Zone(i) => if i < self.zones.len() {
                Some(self.zones[i].as_str().to_owned())
            } else {
                None
            },
        }
    }

    /// The query for the IPv4 addresses that IPv6 addresses are made from.
    pub fn ipv4_query(&self) -> (r: Vec<u8>)
        ensures
            r@ == sent(
                query_draft(self.query.head.id, question_for(self.qname@, TYPE_A)),
                Seq::empty(),
            ),
    {
        build_query_for_type(self.qname.as_str(), TYPE_A, self.query.head.id)
    }

    /// The address that answers are rewritten to.
    pub open spec fn ingress_of(self) -> Option<IpAddress> {
        if self.state.ingress {
            self.local
        } else {
            None
        }
    }

    /// The response that an action sends.
    pub open spec fn response_of(self, action: Action) -> Option<Seq<u8>> {
        match action {
            Action::Respond(reply) => Some(
                sent(
                    response_draft(
                        self.query.head,
                        question_views(self.query.questions@),
                        reply.rcode,
                        reply.authoritative,
                        if reply.edns {
                            self.query.head.edns
                        } else {
                            None
                        },
                    ),
                    reply_answers(
                        reply.answers,
                        self.qname@,
                        if reply.answers == Answers::Cname {
                            self.cname@
                        } else {
                            self.records@
                        },
                        resource_views(self.addresses@),
                        self.ingress_of(),
                    ),
                ),
            ),
            Action::RelayPeers | Action::RelayUpstream => crate::message::octets_of(self.reply),
            Action::Ask(_) | Action::Stuck => None,
        }
    }

    /// The response that an action sends; none where there is something left to look up, or
    /// where an upstream failed.
    pub fn response(&self, action: Action) -> (r: Option<Vec<u8>>)
        ensures
            crate::message::octets_of(r) == self.response_of(action),
            action matches Action::Respond(reply) ==> r is Some && (r->0@.len() > 0 ==> answers_to(
                r->0@,
                self.query.head.id,
                reply.rcode,
            )),
    {
        match action {
            Action::Respond(reply) => {
                let ingress = if self.state.ingress {
                    self.local
                } else {
                    None
                };
                let records = match reply.answers {
                    Answers::Cname => self.cname.as_slice(),
                    _ => self.records.as_slice(),
                };
                Some(
                    respond(
                        &self.query,
                        self.qname.as_str(),
                        reply,
                        records,
                        self.addresses.as_slice(),
                        ingress,
                    ),
                )
            },
            Action::RelayPeers | Action::RelayUpstream => match &self.reply {
                Some(octets) => Some(vstd::slice::slice_to_vec(octets.as_slice())),
                None => None,
            },
            Action::Ask(_) | Action::Stuck => None,
        }
    }
}

/// Which stage an action's response comes from.
pub fn source_of(action: Action) -> (r: AnswerSource)
    ensures
        r == match action {
            Action::Respond(reply) => reply.source,
            Action::RelayPeers => AnswerSource::TldPeer,
            Action::RelayUpstream => AnswerSource::Upstream,
            Action::Ask(_) | Action::Stuck => AnswerSource::Error,
        },
{
    match action {
        Action::Respond(reply) => reply.source,
        Action::RelayPeers => AnswerSource::TldPeer,
        Action::RelayUpstream => AnswerSource::Upstream,
        Action::Ask(_) | Action::Stuck => AnswerSource::Error,
    }
}

// ---------------------------------------------------------------------------
// Laws
// ---------------------------------------------------------------------------
/// A query by a sender that may not make the server ask others is answered from what the
/// server holds, or refused with an empty response, once it has come to the guard: the zone
/// it falls under was the last thing looked at.
pub proof fn law_strangers_are_refused(s: Session, next: Session, finding: Finding)
    requires
        !s.context.may_recurse,
        s.state.stage == super::resolve::Stage::AuthoritativeZone,
        s.event_of(finding) == Event::Found(false),
        next.has_taken(s, finding),
        next.state == step_of(s.context, s.state, s.event_of(finding)).0,
    ensures
        next.response_of(step_of(s.context, s.state, s.event_of(finding)).1) == Some(
            sent(
                response_draft(
                    s.query.head,
                    question_views(s.query.questions@),
                    crate::message::REFUSED,
                    false,
                    s.query.head.edns,
                ),
                Seq::empty(),
            ),
        ),
{
}

} // verus!
