//! A server's settings, and the two ends of a query: what is made of a message that comes
//! in, and the message that goes out.
use vstd::prelude::*;

use super::access::{
    any_contains, attached_ranges, canonical_address, canonical_ip, default_overlay_cidrs,
    default_recursion_cidrs, in_ranges, overlay_ranges,
};
use super::auto::{noted, AutoState, ResolutionMode, TierSwitch};
use super::memory::Learned;
use super::records::{
    ancestor_count, answers_of, asked_kind, build_answers, build_dname_answers,
    build_scoped_answers, dname_answers, extract_ip_from_name, label_texts, map_query_type_to_kind,
    rename_answers, renamed, reverse_address, scoped_answers_of,
};
use super::resolve::{open_query, opening_of, AnswerSource, Answers, Opening, QueryContext, Reply};
use super::wire::{header_rcode, wire_rcode};
use crate::addr::{IpAddress, IpCidr, SocketAddress};
use crate::dnsbl::codes::blocklist_name;
use crate::dnsbl::normalize_blocklist_name;
use crate::doh_proxy::ProxyConfig;
use crate::message::{
    answers_to, build_response_edns, decoded, error_response, family_filtered, make_error_response,
    question_views, reads_header, resource_views, response_draft, same_marks, sent, Query,
    QuestionView, ResourceRecord, ResourceView, BAD_VERS, TYPE_AAAA,
};
use crate::record::DnsRecord;
use crate::text::eq_text;
use crate::wire_name::name_text;

verus! {

broadcast use vstd::string::group_string_axioms;

/// The number of sockets that queries are forwarded through.
pub const FORWARD_POOL_SIZE: usize = 8;

/// How long a stream may be idle between messages, in seconds.
pub const TCP_IDLE_TIMEOUT: u64 = 10;

/// How long an announced message may take to arrive, in seconds.
pub const TCP_MESSAGE_TIMEOUT: u64 = 5;

/// How many streams a listener serves at once.
pub const MAX_TCP_CONNECTIONS: usize = 1024;

/// How long an encrypted upstream may take, in milliseconds.
pub const SECURE_TIER_TIMEOUT_MS: u64 = 1500;

// ---------------------------------------------------------------------------
// What is recorded of a query
// ---------------------------------------------------------------------------
/// Which stage of the resolution answered, and the response code where the header does not
/// hold it.
#[derive(Debug, Clone, Copy, PartialEq, Eq, Structural)]
pub struct QueryTag {
    pub source: AnswerSource,
    pub rcode: Option<u16>,
}

impl QueryTag {
    /// Nothing recorded: the answer comes from upstream, its code is in the header.
    pub fn new() -> (r: QueryTag)
        ensures
            r == (QueryTag { source: AnswerSource::Upstream, rcode: None }),
    {
        QueryTag { source: AnswerSource::Upstream, rcode: None }
    }

    /// Declares which stage produced the answer.
    pub fn set(&mut self, source: AnswerSource)
        ensures
            *final(self) == (QueryTag { source, rcode: old(self).rcode }),
    {
        self.source = source;
    }

    /// Declares the stage and an extended response code, which the header cannot hold.
    pub fn set_with_rcode(&mut self, source: AnswerSource, rcode: u16)
        ensures
            *final(self) == (QueryTag { source, rcode: Some(rcode) }),
    {
        self.source = source;
        self.rcode = Some(rcode);
    }

    /// The stage that produced the answer.
    pub fn source(&self) -> (r: AnswerSource)
        ensures
            r == self.source,
    {
        self.source
    }

    /// The response code of a response.
    pub fn rcode(&self, response: &[u8]) -> (r: u16)
        ensures
            r == match self.rcode {
                Some(explicit) => explicit,
                None => header_rcode(response@) as u16,
            },
    {
        match self.rcode {
            Some(explicit) => explicit,
            None => wire_rcode(response) as u16,
        }
    }
}

// ---------------------------------------------------------------------------
// Settings
// ---------------------------------------------------------------------------
/// The settings of a server, where its fallback chain stands, and what it has learned.
pub struct DnsServer {
    pub forwarders: Vec<SocketAddress>,
    pub public_fallback: Vec<SocketAddress>,
    /// Whether answers are cached.
    pub caching: bool,
    /// The prefix that IPv6 addresses are made with from IPv4 addresses.
    pub dns64_prefix: Option<u128>,
    /// Whether the case of names is randomized in forwarded queries.
    pub qname_randomization: bool,
    pub proxy: Option<ProxyConfig>,
    /// The socket that the next query is forwarded through.
    pub forward_socket: usize,
    pub resolution_mode: ResolutionMode,
    pub auto: AutoState,
    /// Whether IPv4 addresses are answered.
    pub answer_v4: bool,
    /// Whether IPv6 addresses are answered.
    pub answer_v6: bool,
    /// The senders that have to belong to a network.
    pub overlay_cidrs: Vec<IpCidr>,
    /// The senders that may make the server ask others.
    pub recursion_cidrs: Vec<IpCidr>,
    /// The port of ingress listeners.
    pub ingress_port: u16,
    /// The number of sockets of a listener; one for each core where it is 0.
    pub udp_shards: usize,
    /// What was learned from the tier that the chain has settled on.
    pub learned: Learned,
}

impl DnsServer {
    /// A server without a cache, that forwards queries with randomized case.
    pub fn new(forwarders: Vec<SocketAddress>) -> (r: DnsServer)
        ensures
            r.forwarders == forwarders,
            !r.caching,
            r.dns64_prefix is None,
            r.qname_randomization,
            r.is_fresh(),
    {
        DnsServer::new_with_options(forwarders, false, None, true)
    }

    /// A server with its options.
    pub fn new_with_options(
        forwarders: Vec<SocketAddress>,
        caching: bool,
        dns64_prefix: Option<u128>,
        qname_randomization: bool,
    ) -> (r: DnsServer)
        ensures
            r.forwarders == forwarders,
            r.caching == caching,
            r.dns64_prefix == dns64_prefix,
            r.qname_randomization == qname_randomization,
            r.is_fresh(),
    {
        DnsServer {
            forwarders,
            public_fallback: Vec::new(),
            caching,
            dns64_prefix,
            qname_randomization,
            proxy: None,
            forward_socket: 0,
            resolution_mode: ResolutionMode::Forward,
            auto: AutoState::default(),
            answer_v4: true,
            answer_v6: true,
            overlay_cidrs: default_overlay_cidrs(),
            recursion_cidrs: default_recursion_cidrs(),
            ingress_port: 53,
            udp_shards: 0,
            learned: Learned::new(),
        }
    }

    /// Whether everything but the options is as a server starts with it.
    pub open spec fn is_fresh(self) -> bool {
        &&& self.public_fallback@.len() == 0
        &&& self.proxy is None
        &&& self.forward_socket == 0
        &&& self.resolution_mode == ResolutionMode::Forward
        &&& self.auto == AutoState {
            active_tier: 0,
            deviation_streak: 0,
            last_probe: 0,
            switch_grace_failures: 3,
            recovery_probe_secs: 60,
        }
        &&& self.answer_v4 && self.answer_v6
        &&& self.overlay_cidrs@ == overlay_ranges()
        &&& self.recursion_cidrs@ == attached_ranges()
        &&& self.ingress_port == 53
        &&& self.udp_shards == 0
        &&& self.learned.wf() && self.learned.is_bare()
    }

    /// Empties the cache of answers. The delegations stay: without them the next query for
    /// any name would start at the root servers.
    pub fn flush_cache(&mut self)
        ensures
            final(self).learned.answers.wf(),
            final(self).learned.answers.is_bare(),
            *final(self) == (DnsServer {
                learned: Learned {
                    answers: final(self).learned.answers,
                    ..old(self).learned
                },
                ..*old(self)
            }),
    {
        self.learned.answers.flush();
    }

    /// Empties the cache of answers at an operator's request.
    pub fn flush_cache_explicit(&mut self)
        ensures
            final(self).learned.answers.wf(),
            final(self).learned.answers.is_bare(),
            *final(self) == (DnsServer {
                learned: Learned {
                    answers: final(self).learned.answers,
                    ..old(self).learned
                },
                ..*old(self)
            }),
    {
        self.flush_cache();
    }

    /// Forgets everything that was learned from the current tier: answers, that there are
    /// none, and delegations.
    pub fn flush_upstream_state(&mut self)
        ensures
            final(self).learned.wf(),
            final(self).learned.is_bare(),
            *final(self) == (DnsServer { learned: final(self).learned, ..*old(self) }),
    {
        self.learned.flush();
    }

    /// Records which tier answered. Where the chain settles on another tier, everything
    /// that was learned from the one before is forgotten: it must not steer queries that
    /// go elsewhere. Otherwise nothing is forgotten.
    pub fn note_auto_winner(&mut self, winner: usize) -> (r: Option<TierSwitch>)
        ensures
            (final(self).auto, r) == noted(old(self).auto, winner),
            r is Some <==> final(self).auto.active_tier != old(self).auto.active_tier,
            r is Some ==> final(self).learned.wf() && final(self).learned.is_bare(),
            r is None ==> final(self).learned == old(self).learned,
            *final(self) == (DnsServer {
                auto: final(self).auto,
                learned: final(self).learned,
                ..*old(self)
            }),
    {
        let switch = self.auto.note_auto_winner(winner);
        if switch.is_some() {
            self.flush_upstream_state();
        }
        switch
    }

    /// Sets the senders that have to belong to a network.
    pub fn set_overlay_cidrs(&mut self, cidrs: Vec<IpCidr>)
        ensures
            *final(self) == (DnsServer { overlay_cidrs: cidrs, ..*old(self) }),
    {
        self.overlay_cidrs = cidrs;
    }

    /// Whether a sender has to belong to a network.
    pub fn is_overlay_peer(&self, ip: IpAddress) -> (r: bool)
        ensures
            r == in_ranges(self.overlay_cidrs@, ip),
    {
        any_contains(self.overlay_cidrs.as_slice(), ip)
    }

    /// Sets the senders that may make the server ask others; with none, nobody may.
    pub fn set_recursion_cidrs(&mut self, cidrs: Vec<IpCidr>)
        ensures
            *final(self) == (DnsServer { recursion_cidrs: cidrs, ..*old(self) }),
    {
        self.recursion_cidrs = cidrs;
    }

    /// Whether a sender may make the server ask others.
    pub fn may_recurse(&self, ip: IpAddress) -> (r: bool)
        ensures
            r == in_ranges(self.recursion_cidrs@, ip),
    {
        any_contains(self.recursion_cidrs.as_slice(), ip)
    }

    /// Sets the port of ingress listeners.
    pub fn set_ingress_port(&mut self, port: u16)
        ensures
            *final(self) == (DnsServer { ingress_port: port, ..*old(self) }),
    {
        self.ingress_port = port;
    }

    /// Sets how many sockets a listener has.
    pub fn set_udp_shards(&mut self, shards: usize)
        ensures
            *final(self) == (DnsServer { udp_shards: shards, ..*old(self) }),
    {
        self.udp_shards = shards;
    }

    /// How many sockets a listener has on a machine with some cores. A listener on a port
    /// that the system picks has one: others would be on other ports.
    pub fn udp_shard_count(&self, ephemeral: bool, cores: usize) -> (r: usize)
        ensures
            r == if ephemeral {
                1
            } else if self.udp_shards != 0 {
                self.udp_shards
            } else if cores == 0 {
                1
            } else {
                cores
            },
    {
        if ephemeral {
            1
        } else if self.udp_shards != 0 {
            self.udp_shards
        } else if cores == 0 {
            1
        } else {
            cores
        }
    }

    /// Sets the upstream resolution mode.
    pub fn set_resolution_mode(&mut self, mode: ResolutionMode)
        ensures
            *final(self) == (DnsServer { resolution_mode: mode, ..*old(self) }),
    {
        self.resolution_mode = mode;
    }

    /// The upstream resolution mode.
    pub fn get_resolution_mode(&self) -> (r: ResolutionMode)
        ensures
            r == self.resolution_mode,
    {
        self.resolution_mode
    }

    /// The tier that the fallback chain has settled on.
    pub fn active_tier(&self) -> (r: usize)
        ensures
            r == self.auto.active_tier,
    {
        self.auto.active_tier
    }

    /// Sets how many failures settle the fallback chain on a less preferred tier, and how
    /// often it is tried from its top.
    pub fn set_auto_params(&mut self, switch_grace_failures: u32, recovery_probe_secs: u64)
        ensures
            *final(self) == (DnsServer {
                auto: AutoState { switch_grace_failures, recovery_probe_secs, ..old(self).auto },
                ..*old(self)
            }),
    {
        self.auto.switch_grace_failures = switch_grace_failures;
        self.auto.recovery_probe_secs = recovery_probe_secs;
    }

    /// Sets the public resolvers, the last tier of the fallback chain.
    pub fn set_public_fallback(&mut self, targets: Vec<SocketAddress>)
        ensures
            *final(self) == (DnsServer { public_fallback: targets, ..*old(self) }),
    {
        self.public_fallback = targets;
    }

    /// Sets which address families are answered.
    pub fn set_answer_families(&mut self, v4: bool, v6: bool)
        ensures
            *final(self) == (DnsServer { answer_v4: v4, answer_v6: v6, ..*old(self) }),
    {
        self.answer_v4 = v4;
        self.answer_v6 = v6;
    }

    /// The address families that are answered, IPv4 first.
    pub fn answer_families(&self) -> (r: (bool, bool))
        ensures
            r == (self.answer_v4, self.answer_v6),
    {
        (self.answer_v4, self.answer_v6)
    }

    /// Drops address answers of any family that is not answered.
    pub fn apply_family_filter(&self, response: Vec<u8>) -> (r: Vec<u8>)
        ensures
            r@ == family_filtered(response@, self.answer_v4, self.answer_v6),
            self.answer_v4 && self.answer_v6 ==> r == response,
            response@.len() >= 12 ==> same_marks(r@, response@),
    {
        crate::message::apply_family_filter(response, self.answer_v4, self.answer_v6)
    }

    /// Sets the upstream resolvers.
    pub fn set_forwarders(&mut self, forwarders: Vec<SocketAddress>)
        ensures
            *final(self) == (DnsServer { forwarders, ..*old(self) }),
    {
        self.forwarders = forwarders;
    }

    /// The upstream resolvers.
    pub fn get_forwarders(&self) -> (r: &Vec<SocketAddress>)
        ensures
            *r == self.forwarders,
    {
        &self.forwarders
    }

    /// Sets the proxy that queries are forwarded through.
    pub fn set_proxy_config(&mut self, config: Option<ProxyConfig>)
        ensures
            *final(self) == (DnsServer { proxy: config, ..*old(self) }),
    {
        self.proxy = config;
    }

    /// The proxy that queries are forwarded through.
    pub fn get_proxy_config(&self) -> (r: &Option<ProxyConfig>)
        ensures
            *r == self.proxy,
    {
        &self.proxy
    }

    /// The socket to forward a query through: each in turn.
    pub fn next_forward_socket(&mut self) -> (r: usize)
        ensures
            r == old(self).forward_socket % FORWARD_POOL_SIZE,
            *final(self) == (DnsServer {
                forward_socket: if old(self).forward_socket == usize::MAX {
                    0
                } else {
                    (old(self).forward_socket + 1) as usize
                },
                ..*old(self)
            }),
    {
        let socket: usize = self.forward_socket;
        self.forward_socket = if socket == usize::MAX {
            0
        } else {
            socket + 1
        };
        socket % FORWARD_POOL_SIZE
    }

    /// What is known of a query before anything is looked up.
    pub open spec fn context_of(
        self,
        question: QuestionView,
        local: Option<IpAddress>,
        source: Option<IpAddress>,
        dnssec_ok: bool,
    ) -> QueryContext {
        QueryContext {
            on_listener: local is Some,
            has_source: source is Some,
            overlay_peer: source is Some && in_ranges(
                self.overlay_cidrs@,
                canonical_address(source->0),
            ),
            may_recurse: source is Some ==> in_ranges(
                self.recursion_cidrs@,
                canonical_address(source->0),
            ),
            reverse: reverse_address(name_text(question.name)) is Some,
            kind: asked_kind(question.qtype),
            labels: label_texts(name_text(question.name)).len() as usize,
            caching: self.caching,
            dnssec_ok,
            dns64: question.qtype == TYPE_AAAA && self.dns64_prefix is Some,
        }
    }

    /// Gathers what is known of a query before anything is looked up: the addresses of the
    /// listener and of the sender decide which service it gets.
    pub fn context(
        &self,
        query: &Query,
        local: Option<IpAddress>,
        source: Option<IpAddress>,
    ) -> (r: QueryContext)
        requires
            query.questions@.len() > 0,
        ensures
            r == self.context_of(
                query.questions@[0]@,
                local,
                source,
                query.head.edns is Some && query.head.edns->0.dnssec_ok,
            ),
    {
        let question = &query.questions[0];
        let qname = question.name.text();
        let (overlay_peer, may_recurse) = match source {
            Some(ip) => {
                let ip = canonical_ip(ip);
                (self.is_overlay_peer(ip), self.may_recurse(ip))
            },
            None => (false, true),
        };
        let dnssec_ok = match query.head.edns {
            Some(e) => e.dnssec_ok,
            None => false,
        };
        QueryContext {
            on_listener: local.is_some(),
            has_source: source.is_some(),
            overlay_peer,
            may_recurse,
            reverse: extract_ip_from_name(qname.as_str()).is_some(),
            kind: map_query_type_to_kind(question.qtype),
            labels: ancestor_count(qname.as_str()),
            caching: self.caching,
            dnssec_ok,
            dns64: question.qtype == TYPE_AAAA && self.dns64_prefix.is_some(),
        }
    }
}

/// What to do with a listener's socket that was or was not bound.
#[derive(Debug, Clone, Copy, PartialEq, Eq, Structural)]
pub enum ShardStep {
    /// Keep it, and bind the next.
    Keep,
    /// Serve with the sockets there are.
    Enough,
    /// There is no listener.
    Fail,
}

/// Decides what to do with the socket at position `i`. That the first cannot be bound is an
/// error; after it the address is known to be good, and fewer sockets will do.
pub fn after_bind(i: usize, bound: bool) -> (r: ShardStep)
    ensures
        r == if bound {
            ShardStep::Keep
        } else if i > 0 {
            ShardStep::Enough
        } else {
            ShardStep::Fail
        },
{
    if bound {
        ShardStep::Keep
    } else if i > 0 {
        ShardStep::Enough
    } else {
        ShardStep::Fail
    }
}

/// Whether a listener is alive, by which of its tasks have finished. One whose tasks have
/// all finished, as after a bind that failed, is none.
pub fn is_live(finished: &[bool]) -> (r: bool)
    ensures
        r == exists|i: int| 0 <= i < finished@.len() && !#[trigger] finished@[i],
{
    let mut i: usize = 0;
    while i < finished.len()
        invariant
            i <= finished.len(),
            forall|k: int| 0 <= k < i ==> #[trigger] finished@[k],
        decreases finished.len() - i,
    {
        if !finished[i] {
            return true;
        }
        i = i + 1;
    }
    false
}

// ---------------------------------------------------------------------------
// Coming in
// ---------------------------------------------------------------------------
/// What is made of a message that comes in.
#[derive(Debug)]
pub enum Received {
    /// It is answered at once.
    Answered(Vec<u8>, QueryTag),
    /// It is a query with a question, to be resolved.
    Query(Query),
}

/// What the header of a message that comes in decides.
pub open spec fn received_opening(octets: Seq<u8>) -> Opening {
    match decoded(octets) {
        Some(m) => opening_of(
            true,
            match m.head.edns {
                Some(e) => Some(e.version),
                None => None,
            },
            m.head.is_query,
            m.head.opcode,
            m.questions.len() as usize,
        ),
        None => opening_of(false, None, false, 0, 0),
    }
}

/// Reads a message that comes in. What is no query that can be resolved is answered with
/// the error it makes.
pub fn receive(octets: &[u8]) -> (r: Received)
    ensures
        match r {
            Received::Answered(response, tag) => tag.source == AnswerSource::Error && match
            received_opening(octets@) {
                Opening::Error(rcode) => response@ == error_response(octets@, rcode) && tag.rcode
                    is None,
                Opening::BadVersion => response@ == sent(
                    response_draft(
                        decoded(octets@)->0.head,
                        decoded(octets@)->0.questions,
                        BAD_VERS,
                        false,
                        decoded(octets@)->0.head.edns,
                    ),
                    Seq::empty(),
                ) && tag.rcode == Some(BAD_VERS),
                Opening::Resolve => false,
            },
            Received::Query(q) => received_opening(octets@) == Opening::Resolve && decoded(octets@)
                is Some && decoded(octets@)->0.head == q.head && decoded(octets@)->0.questions
                == question_views(q.questions@) && q.questions@.len() > 0 && reads_header(
                octets@,
                q.head,
            ),
        },
        r matches Received::Answered(response, _) ==> octets@.len() >= 2 && response@.len() > 0
            ==> response@.len() >= 12 && response@[0] == octets@[0] && response@[1] == octets@[1]
            && response@[2] >= 0x80,
{
    let mut tag = QueryTag::new();
    match Query::parse(octets) {
        None => {
            tag.set(AnswerSource::Error);
            Received::Answered(make_error_response(octets, crate::message::FORM_ERR), tag)
        },
        Some(query) => {
            assert(question_views(query.questions@).len() == query.questions@.len());
            let version = match query.head.edns {
                Some(e) => Some(e.version),
                None => None,
            };
            match open_query(
                true,
                version,
                query.head.is_query,
                query.head.opcode,
                query.questions.len(),
            ) {
                Opening::Error(rcode) => {
                    tag.set(AnswerSource::Error);
                    Received::Answered(make_error_response(octets, rcode), tag)
                },
                Opening::BadVersion => {
                    tag.set_with_rcode(AnswerSource::Error, BAD_VERS);
                    let none: Vec<ResourceRecord> = Vec::new();
                    assert(resource_views(none@) =~= Seq::empty());
                    let response = build_response_edns(
                        &query,
                        BAD_VERS,
                        none.as_slice(),
                        false,
                        query.head.edns,
                    );
                    Received::Answered(response, tag)
                },
                Opening::Resolve => Received::Query(query),
            }
        },
    }
}

/// The names that the local blocklist is asked for: the one that was asked for, and its
/// plain form where that is another.
pub fn local_rbl_names(qname: &str) -> (r: Vec<String>)
    ensures
        crate::text::strings(r@) == (if blocklist_name(qname@).len() > 0
            && blocklist_name(qname@) != qname@ {
            seq![qname@, blocklist_name(qname@)]
        } else {
            seq![qname@]
        }),
{
    let mut out: Vec<String> = Vec::new();
    out.push(qname.to_owned());
    let plain = normalize_blocklist_name(qname);
    if !plain.as_str().is_empty() && !eq_text(plain.as_str(), qname) {
        out.push(plain);
        assert(crate::text::strings(out@) =~= seq![
            qname@,
            blocklist_name(qname@),
        ]);
    } else {
        assert(crate::text::strings(out@) =~= seq![qname@]);
    }
    out
}

// ---------------------------------------------------------------------------
// Going out
// ---------------------------------------------------------------------------
/// The answers of a reply, from the records and addresses that were found.
pub open spec fn reply_answers(
    answers: Answers,
    qname: Seq<char>,
    records: Seq<DnsRecord>,
    synthesized: Seq<ResourceView>,
    ingress: Option<IpAddress>,
) -> Seq<ResourceView> {
    match answers {
        Answers::Nothing => Seq::empty(),
        Answers::Scoped => scoped_answers_of(records, ingress),
        Answers::ScopedRenamed => renamed(scoped_answers_of(records, ingress), qname),
        Answers::Plain | Answers::Cname => answers_of(records),
        Answers::Renamed => renamed(answers_of(records), qname),
        Answers::Dname(i) => if records.len() > 0 && i <= label_texts(qname).len() {
            dname_answers(qname, i as int, records[0])
        } else {
            Seq::empty()
        },
        Answers::Synthesized => synthesized,
    }
}

fn copy_answers(answers: &[ResourceRecord]) -> (r: Vec<ResourceRecord>)
    ensures
        resource_views(r@) == resource_views(answers@),
{
    let mut out: Vec<ResourceRecord> = Vec::new();
    let mut i: usize = 0;
    while i < answers.len()
        invariant
            i <= answers.len(),
            out@.len() == i,
            forall|k: int| 0 <= k < i ==> (#[trigger] out@[k])@ == answers@[k]@,
        decreases answers.len() - i,
    {
        out.push(answers[i].clone());
        i = i + 1;
    }
    assert(resource_views(out@) =~= resource_views(answers@));
    out
}

/// Writes a reply to a query.
///
/// `records` are those that the last lookup found, and `synthesized` the addresses that it
/// made; `ingress` is the address that answers are rewritten to, where there is one.
pub fn respond(
    query: &Query,
    qname: &str,
    reply: Reply,
    records: &[DnsRecord],
    synthesized: &[ResourceRecord],
    ingress: Option<IpAddress>,
) -> (r: Vec<u8>)
    ensures
        r@ == sent(
            response_draft(
                query.head,
                question_views(query.questions@),
                reply.rcode,
                reply.authoritative,
                if reply.edns {
                    query.head.edns
                } else {
                    None
                },
            ),
            reply_answers(
                reply.answers,
                qname@,
                records@,
                resource_views(synthesized@),
                ingress,
            ),
        ),
        r@.len() > 0 ==> answers_to(r@, query.head.id, reply.rcode),
{
    let answers = match reply.answers {
        Answers::Nothing => {
            let none: Vec<ResourceRecord> = Vec::new();
            assert(resource_views(none@) =~= Seq::empty());
            none
        },
        Answers::Scoped => build_scoped_answers(records, ingress),
        Answers::ScopedRenamed => rename_answers(build_scoped_answers(records, ingress), qname),
        Answers::Plain | Answers::Cname => build_answers(records),
        Answers::Renamed => rename_answers(build_answers(records), qname),
        Answers::Dname(i) => if records.len() > 0 && i <= ancestor_count(qname) {
            build_dname_answers(qname, i, &records[0])
        } else {
            let none: Vec<ResourceRecord> = Vec::new();
            assert(resource_views(none@) =~= Seq::empty());
            none
        },
        Answers::Synthesized => copy_answers(synthesized),
    };
    let edns = if reply.edns {
        query.head.edns
    } else {
        None
    };
    build_response_edns(query, reply.rcode, answers.as_slice(), reply.authoritative, edns)
}

} // verus!
