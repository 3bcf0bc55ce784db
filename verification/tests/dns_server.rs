//! Queries on their way through the server, with the lookups answered from memory.
use hickory_proto::op::{Message, MessageType, OpCode, ResponseCode};
use hickory_proto::rr::{rdata, DNSClass, Name, RData, Record, RecordType};
use hickory_proto::serialize::binary::{BinDecodable, BinEncodable};
use rolodex::addr::{ip_from_str, ip_to_string, IpAddress, IpCidr, SocketAddress};
use rolodex::dns_server::auto::{
    after_target, after_tier, Attempt, AutoState, TargetStep, TierStep, TierSwitch, TIER_LOCAL,
    TIER_PUBLIC, TIER_ROOTS,
};
use rolodex::dns_server::cache::{
    cache_answers, cache_from_wire, cache_negative, memory_of, scoped_cache_name, CacheEntry,
    Memory, NegativeEntry,
};
use rolodex::dns_server::memory::Slot;
use rolodex::dns_server::records::{
    concrete_bind_ip, db_record_to_dns_record, extract_ip_from_name, map_query_type_to_kind,
    synthesize_dns64_address,
};
use rolodex::dns_server::reply::{Judgement, SentQuery};
use rolodex::dns_server::resolve::{Action, AnswerSource, Lookup, NegativeKind};
use rolodex::dns_server::server::{
    after_bind, is_live, local_rbl_names, receive, QueryTag, Received, ShardStep,
};
use rolodex::dns_server::session::{source_of, Fallbacks, Finding, Session};
use rolodex::dns_server::wire::{
    extract_qname, flip_qname_case, wire_qtype, wire_rcode, wire_truncated,
};
use rolodex::dns_server::{randomize_qname_case, DnsServer, ResolutionMode};
use rolodex::message::{
    build_canary_query, build_response, make_error_response, response_is_definitive, Query,
    Question, ResourceRecord, SERV_FAIL,
};
use rolodex::names::normalize_name;
use rolodex::record::{DnsRecord, RecordKind};

fn record(name: &str, kind: RecordKind, value: &str) -> DnsRecord {
    DnsRecord {
        id: None,
        name: name.to_string(),
        record_type: kind,
        value: value.to_string(),
        ttl: 300,
        priority: 0,
    }
}

fn ip(s: &str) -> IpAddress {
    ip_from_str(s).unwrap()
}

fn build_query(name: &str, qtype: RecordType) -> Vec<u8> {
    let mut msg = Message::new();
    msg.set_id(1234);
    msg.set_message_type(MessageType::Query);
    msg.set_op_code(OpCode::Query);
    msg.set_recursion_desired(true);

    let mut query = hickory_proto::op::Query::new();
    query.set_name(Name::from_ascii(name).unwrap());
    query.set_query_type(qtype);
    query.set_query_class(DNSClass::IN);
    msg.add_query(query);

    msg.to_bytes().unwrap()
}

/// A response to a query, with an address or with a failure.
fn reply_to(query: &[u8], answer: Option<[u8; 4]>) -> Vec<u8> {
    let query = Message::from_bytes(query).unwrap();
    let mut resp = Message::new();
    resp.set_id(query.id());
    resp.set_message_type(MessageType::Response);
    resp.set_op_code(OpCode::Query);
    let q = query.queries().first().unwrap();
    resp.add_query(q.clone());
    match answer {
        Some(ip) => {
            resp.set_response_code(ResponseCode::NoError);
            resp.add_answer(Record::from_rdata(
                q.name().clone(),
                60,
                RData::A(rdata::A(ip.into())),
            ));
        }
        None => {
            resp.set_response_code(ResponseCode::ServFail);
        }
    }
    resp.to_bytes().unwrap()
}

/// What the lookups of a query find.
struct World {
    server: DnsServer,
    records: Vec<DnsRecord>,
    scoped: Vec<(String, DnsRecord)>,
    scopes: Vec<String>,
    joined: Vec<(String, String)>,
    tlds: Vec<(String, String)>,
    ingress: Vec<(String, IpAddress)>,
    zones: Vec<(String, String)>,
    rbl: Vec<String>,
    allowed: Vec<String>,
    address_listed: bool,
    name_listed: fn(&str) -> bool,
    provider_lookups: usize,
    peers: Vec<Option<[u8; 4]>>,
    cache: Vec<(String, Option<RecordKind>, Vec<DnsRecord>)>,
    negative: Option<NegativeKind>,
    upstream: fn(&[u8]) -> Option<Vec<u8>>,
    asked_upstream: usize,
    source: AnswerSource,
}

fn servfail(query: &[u8]) -> Option<Vec<u8>> {
    Some(make_error_response(query, SERV_FAIL))
}

fn world() -> World {
    World {
        server: DnsServer::new(vec![]),
        records: vec![],
        scoped: vec![],
        scopes: vec![],
        joined: vec![],
        tlds: vec![],
        ingress: vec![],
        zones: vec![],
        rbl: vec![],
        allowed: vec![],
        address_listed: false,
        name_listed: |_| false,
        provider_lookups: 0,
        peers: vec![],
        cache: vec![],
        negative: None,
        upstream: servfail,
        asked_upstream: 0,
        source: AnswerSource::Error,
    }
}

fn matching<'a>(
    records: impl Iterator<Item = &'a DnsRecord>,
    name: &str,
    kind: Option<RecordKind>,
) -> Vec<DnsRecord> {
    let name = normalize_name(name);
    records
        .filter(|r| normalize_name(&r.name) == name)
        .filter(|r| kind.is_none() || Some(r.record_type) == kind)
        .cloned()
        .collect()
}

impl World {
    fn add_record(&mut self, name: &str, kind: RecordKind, value: &str) {
        self.records.push(record(name, kind, value));
    }

    fn add_scoped_record(&mut self, scope: &str, name: &str, kind: RecordKind, value: &str) {
        self.scoped
            .push((scope.to_string(), record(name, kind, value)));
    }

    fn create_network_scope(&mut self, scope: &str) {
        self.scopes.push(scope.to_string());
    }

    fn add_scope_tld(&mut self, scope: &str, tld: &str) {
        self.tlds.push((normalize_name(tld), scope.to_string()));
    }

    fn join_network(&mut self, ip: &str, scope: &str) {
        self.joined.push((ip.to_string(), scope.to_string()));
    }

    fn tld_of(&self, qname: &str) -> Option<&(String, String)> {
        let name = normalize_name(qname);
        self.tlds
            .iter()
            .find(|(tld, _)| name == *tld || name.ends_with(&format!(".{tld}")))
    }

    fn scoped_records(&self, scope: &str, name: &str, kind: Option<RecordKind>) -> Vec<DnsRecord> {
        let of_scope = self.scoped.iter().filter(|(s, _)| s == scope);
        matching(of_scope.map(|(_, r)| r), name, kind)
    }

    fn cached(&self, name: &str, kind: Option<RecordKind>) -> Vec<DnsRecord> {
        self.cache
            .iter()
            .find(|(n, k, _)| normalize_name(n) == normalize_name(name) && *k == kind)
            .map(|(_, _, r)| r.clone())
            .unwrap_or_default()
    }

    fn look(&mut self, s: &Session, lookup: Lookup, query: &[u8]) -> Finding {
        let qname = s.qname.as_str();
        match lookup {
            Lookup::Ingress => Finding::Ingress(self.tld_of(qname).and_then(|(tld, _)| {
                let listener = self.ingress.iter().find(|(t, _)| t == tld);
                listener.map(|(_, ip)| *ip)
            })),
            Lookup::IngressScope => {
                let listener = self.ingress.iter().find(|(_, ip)| Some(*ip) == s.local);
                let tld = listener.map(|(t, _)| t.as_str());
                Finding::Scope(tld.and_then(|t| self.tld_of(t)).map(|(_, o)| o.clone()))
            }
            Lookup::SourceScope => {
                let source = ip_to_string(s.source.unwrap());
                let joined = self.joined.iter().find(|(ip, _)| *ip == source);
                Finding::Scope(joined.map(|(_, scope)| scope.clone()))
            }
            Lookup::HasScopes => Finding::Truth(!self.scopes.is_empty()),
            Lookup::RblProvider => Finding::Truth(self.address_listed),
            Lookup::RblLocal => {
                let address = ip_to_string(extract_ip_from_name(qname).unwrap());
                Finding::Truth(self.rbl.contains(&address))
            }
            Lookup::ScopedCache => {
                let name = scoped_cache_name(s.scope.as_deref().unwrap(), qname);
                Finding::Records(self.cached(&name, s.context.kind))
            }
            Lookup::Scoped(subject, kind) => {
                let name = s.subject_name(subject).unwrap();
                let scope = s.scope.as_deref().unwrap();
                Finding::Records(self.scoped_records(scope, &name, kind))
            }
            Lookup::TldOwner => Finding::Owner(self.tld_of(qname).map(|(_, o)| o.clone())),
            Lookup::TldPeers => Finding::Truth(!self.peers.is_empty()),
            Lookup::AskPeers => {
                let replies = self.peers.iter().map(|p| reply_to(query, *p));
                let mut definitive = replies.filter(|r| response_is_definitive(r));
                Finding::Peers(definitive.next())
            }
            Lookup::ScopedZones => {
                let of_scope = self.zones.iter().filter(|(z, _)| Some(z) == s.scope.as_ref());
                Finding::Zones(of_scope.map(|(_, z)| z.clone()).collect())
            }
            Lookup::Authoritative | Lookup::AuthoritativeZone => Finding::Truth(false),
            Lookup::LocalCache => Finding::Records(vec![]),
            Lookup::Fallbacks => Finding::Fallbacks(Fallbacks {
                exact: matching(self.records.iter(), qname, s.context.kind),
                wildcard: vec![],
                cname: matching(self.records.iter(), qname, Some(RecordKind::CNAME)),
                aname: matching(self.records.iter(), qname, Some(RecordKind::ANAME)),
            }),
            Lookup::Records(subject, kind) => {
                let name = s.subject_name(subject).unwrap();
                Finding::Records(matching(self.records.iter(), &name, kind))
            }
            Lookup::OwnerRecords(kind) => {
                let owner = s.owner.as_deref().unwrap();
                Finding::Records(self.scoped_records(owner, qname, Some(kind)))
            }
            Lookup::ManagedZone => Finding::Zone(None),
            Lookup::Allowlisted => {
                let name = normalize_name(qname);
                let mut allowed = self.allowed.iter().map(|a| normalize_name(a));
                let under = |a: String| name == a || name.ends_with(&format!(".{a}"));
                Finding::Truth(allowed.any(under))
            }
            Lookup::RblName => {
                let names = local_rbl_names(qname);
                Finding::Truth(names.iter().any(|n| self.rbl.contains(n)))
            }
            Lookup::RblNameProvider => {
                self.provider_lookups += 1;
                Finding::Truth((self.name_listed)(qname))
            }
            Lookup::Cache => Finding::Records(self.cached(qname, s.context.kind)),
            Lookup::NegativeCache => Finding::Negative(self.negative),
            Lookup::Upstream => {
                self.asked_upstream += 1;
                Finding::Upstream((self.upstream)(query))
            }
            Lookup::UpstreamA => {
                Finding::UpstreamA((self.upstream)(&s.ipv4_query()))
            }
        }
    }

    fn handle(&mut self, query: &[u8], source: Option<&str>, local: Option<&str>) -> Message {
        let (response, source) = match receive(query) {
            Received::Answered(response, tag) => (response, tag.source()),
            Received::Query(q) => {
                let (mut s, mut action) =
                    Session::begin(&self.server, q, local.map(ip), source.map(ip));
                while let Action::Ask(lookup) = action {
                    let finding = self.look(&s, lookup, query);
                    action = s.advance(finding);
                }
                (s.response(action).unwrap(), source_of(action))
            }
        };
        self.source = source;
        let response = self.server.apply_family_filter(response);
        Message::from_bytes(&response).unwrap()
    }

    fn handle_query(&mut self, query: &[u8]) -> Message {
        self.handle(query, None, None)
    }

    fn handle_query_from(&mut self, query: &[u8], source: &str) -> Message {
        self.handle(query, Some(source), None)
    }

    fn handle_query_on(&mut self, query: &[u8], source: &str, local: &str) -> Message {
        self.handle(query, Some(source), Some(local))
    }
}

fn answer_a(resp: &Message) -> [u8; 4] {
    match resp.answers()[0].data() {
        RData::A(rdata::A(ip)) => ip.octets(),
        other => panic!("expected A record, got {:?}", other),
    }
}

fn expect_single_a(resp: &Message) -> [u8; 4] {
    assert_eq!(resp.response_code(), ResponseCode::NoError);
    assert_eq!(resp.answers().len(), 1, "expected exactly one answer");
    answer_a(resp)
}

#[test]
fn test_local_a_record_lookup() {
    let mut w = world();
    w.add_record("test.local.", RecordKind::A, "192.168.1.100");
    let response = w.handle_query(&build_query("test.local.", RecordType::A));
    assert_eq!(response.response_code(), ResponseCode::NoError);
    assert_eq!(response.answers().len(), 1);
    assert_eq!(answer_a(&response), [192, 168, 1, 100]);
    assert_eq!(response.answers()[0].ttl(), 300);
    assert_eq!(response.id(), 1234);
    assert_eq!(w.source, AnswerSource::Local);
}

#[test]
fn test_local_aaaa_record_lookup() {
    let mut w = world();
    w.add_record("test.local.", RecordKind::AAAA, "::1");
    let response = w.handle_query(&build_query("test.local.", RecordType::AAAA));
    assert_eq!(response.response_code(), ResponseCode::NoError);
    assert_eq!(response.answers().len(), 1);
}

#[test]
fn test_family_filter_suppresses_aaaa_as_nodata() {
    let mut w = world();
    w.add_record("dual.local.", RecordKind::AAAA, "2001:db8::1");
    w.add_record("dual.local.", RecordKind::A, "192.0.2.1");
    w.server.set_answer_families(true, false);

    let resp = w.handle_query(&build_query("dual.local.", RecordType::AAAA));
    assert_eq!(resp.response_code(), ResponseCode::NoError);
    assert_eq!(resp.answers().len(), 0, "AAAA must be suppressed to NODATA");

    let resp = w.handle_query(&build_query("dual.local.", RecordType::A));
    assert_eq!(resp.answers().len(), 1);
    assert!(matches!(resp.answers()[0].data(), RData::A(_)));
}

#[test]
fn test_family_filter_suppresses_a_as_nodata() {
    let mut w = world();
    w.add_record("v4.local.", RecordKind::A, "192.0.2.1");
    w.server.set_answer_families(false, true);
    let resp = w.handle_query(&build_query("v4.local.", RecordType::A));
    assert_eq!(resp.response_code(), ResponseCode::NoError);
    assert_eq!(resp.answers().len(), 0);
}

#[test]
fn test_family_filter_noop_when_both_enabled() {
    let mut w = world();
    w.add_record("v6.local.", RecordKind::AAAA, "2001:db8::1");
    assert_eq!(w.server.answer_families(), (true, true));
    let resp = w.handle_query(&build_query("v6.local.", RecordType::AAAA));
    assert_eq!(resp.answers().len(), 1);
}

#[test]
fn test_apply_family_filter_strips_from_raw_wire() {
    let mut server = DnsServer::new(vec![]);
    let mut msg = Message::new();
    msg.set_id(42);
    msg.set_message_type(MessageType::Response);
    msg.set_op_code(OpCode::Query);
    msg.set_response_code(ResponseCode::NoError);
    let mut q = hickory_proto::op::Query::new();
    q.set_name(Name::from_ascii("dual.example.").unwrap());
    q.set_query_type(RecordType::A);
    q.set_query_class(DNSClass::IN);
    msg.add_query(q);
    msg.add_answer(Record::from_rdata(
        Name::from_ascii("dual.example.").unwrap(),
        300,
        RData::A(rdata::A([192, 0, 2, 1].into())),
    ));
    msg.add_answer(Record::from_rdata(
        Name::from_ascii("dual.example.").unwrap(),
        300,
        RData::AAAA(rdata::AAAA::new(0x2001, 0xdb8, 0, 0, 0, 0, 0, 1)),
    ));
    let wire = msg.to_bytes().unwrap();

    server.set_answer_families(true, false);
    let filtered = Message::from_bytes(&server.apply_family_filter(wire.clone())).unwrap();
    assert_eq!(filtered.answers().len(), 1);
    assert!(matches!(filtered.answers()[0].data(), RData::A(_)));

    server.set_answer_families(true, true);
    assert_eq!(server.apply_family_filter(wire.clone()), wire);
}

#[test]
fn test_local_cname_record_lookup() {
    let mut w = world();
    w.add_record("alias.local.", RecordKind::CNAME, "real.local.");
    let response = w.handle_query(&build_query("alias.local.", RecordType::A));
    assert_eq!(response.response_code(), ResponseCode::NoError);
    assert_eq!(response.answers().len(), 1);
}

#[test]
fn test_local_mx_record_lookup() {
    let mut w = world();
    w.records.push(DnsRecord {
        priority: 10,
        ..record("example.local.", RecordKind::MX, "mail.example.local.")
    });
    let response = w.handle_query(&build_query("example.local.", RecordType::MX));
    assert_eq!(response.response_code(), ResponseCode::NoError);
    assert_eq!(response.answers().len(), 1);
    match response.answers()[0].data() {
        RData::MX(mx) => {
            assert_eq!(mx.preference(), 10);
            assert_eq!(mx.exchange().to_string(), "mail.example.local.");
        }
        other => panic!("expected MX record, got {:?}", other),
    }
}

#[test]
fn test_local_txt_record_lookup() {
    let mut w = world();
    w.add_record(
        "txt.local.",
        RecordKind::TXT,
        "v=spf1 include:example.com ~all",
    );
    let response = w.handle_query(&build_query("txt.local.", RecordType::TXT));
    assert_eq!(response.response_code(), ResponseCode::NoError);
    assert_eq!(response.answers().len(), 1);
}

#[test]
fn test_nonexistent_record_no_forwarders() {
    let mut w = world();
    let response = w.handle_query(&build_query("nonexistent.example.com.", RecordType::A));
    assert_eq!(response.response_code(), ResponseCode::ServFail);
    assert_eq!(w.source, AnswerSource::Upstream);
}

#[test]
fn test_malformed_query() {
    match receive(&[0, 1]) {
        Received::Answered(response, tag) => {
            assert!(!response.is_empty());
            assert_eq!(response, vec![0, 1, 0x80, 1, 0, 0, 0, 0, 0, 0, 0, 0]);
            assert_eq!(tag.source(), AnswerSource::Error);
        }
        Received::Query(_) => panic!("not a query"),
    }
}

#[test]
fn test_multiple_records_same_name() {
    let mut w = world();
    w.add_record("multi.local.", RecordKind::A, "10.0.0.1");
    w.add_record("multi.local.", RecordKind::A, "10.0.0.2");
    let response = w.handle_query(&build_query("multi.local.", RecordType::A));
    assert_eq!(response.response_code(), ResponseCode::NoError);
    assert_eq!(response.answers().len(), 2);
}

#[test]
fn test_split_horizon_local_preferred() {
    let mut w = world();
    w.add_record("internal.company.com.", RecordKind::A, "10.0.0.50");
    let response = w.handle_query(&build_query("internal.company.com.", RecordType::A));
    assert_eq!(expect_single_a(&response), [10, 0, 0, 50]);
    assert_eq!(w.asked_upstream, 0);
}

#[test]
fn test_rbl_blocks_reverse_dns() {
    let mut w = world();
    w.address_listed = true;
    let response = w.handle_query(&build_query("100.1.168.192.in-addr.arpa.", RecordType::PTR));
    assert_eq!(response.response_code(), ResponseCode::NXDomain);
    assert_eq!(w.source, AnswerSource::Rbl);
}

#[test]
fn test_rbl_blocks_forwarded_domain_but_not_local() {
    let mut w = world();
    w.add_record("gitea.default.home.", RecordKind::A, "10.0.0.5");
    w.name_listed = |n| n.starts_with("googleadservices.com.");

    let blocked = w.handle_query(&build_query("googleadservices.com.", RecordType::A));
    assert_eq!(blocked.response_code(), ResponseCode::NXDomain);
    assert!(blocked.answers().is_empty());
    assert_eq!(w.source, AnswerSource::Blocklist);

    let local = w.handle_query(&build_query("gitea.default.home.", RecordType::A));
    assert_eq!(expect_single_a(&local), [10, 0, 0, 5]);

    let allowed = w.handle_query(&build_query("example.org.", RecordType::A));
    assert_eq!(allowed.response_code(), ResponseCode::ServFail);
}

#[test]
fn test_rbl_blocks_cached_upstream_domain() {
    let mut w = world();
    w.server.caching = true;
    let name = "ads.tracker.example.";
    let cached = vec![record(name, RecordKind::A, "203.0.113.7")];
    w.cache.push((name.to_string(), Some(RecordKind::A), cached));

    let query = build_query(name, RecordType::A);
    assert_eq!(
        expect_single_a(&w.handle_query(&query)),
        [203, 0, 113, 7]
    );
    w.name_listed = |n| n.starts_with("ads.tracker.example.");
    let resp = w.handle_query(&query);
    assert_eq!(resp.response_code(), ResponseCode::NXDomain);
    assert!(resp.answers().is_empty());
}

#[test]
fn test_local_rbl_blocks_forward_domain() {
    let mut w = world();
    w.rbl.push("tracker.example.com".to_string());
    let blocked = w.handle_query(&build_query("tracker.example.com.", RecordType::A));
    assert_eq!(blocked.response_code(), ResponseCode::NXDomain);

    let allowed = w.handle_query(&build_query("safe.example.com.", RecordType::A));
    assert_eq!(allowed.response_code(), ResponseCode::ServFail);
}

#[test]
fn test_dnsbl_allowlist_exempts_name_and_subdomains() {
    let mut w = world();
    w.allowed.push("vendor.example.com".to_string());
    w.name_listed = |_| true;
    for name in [
        "vendor.example.com.",
        "cdn.vendor.example.com.",
        "a.b.vendor.example.com.",
    ] {
        let resp = w.handle_query(&build_query(name, RecordType::A));
        assert_eq!(
            resp.response_code(),
            ResponseCode::ServFail,
            "{} should be exempt from the DNSBL",
            name
        );
    }
    let blocked = w.handle_query(&build_query("ads.example.net.", RecordType::A));
    assert_eq!(blocked.response_code(), ResponseCode::NXDomain);
}

#[test]
fn test_dnsbl_allowlist_does_not_over_match() {
    let mut w = world();
    w.allowed.push("example.com".to_string());
    w.name_listed = |_| true;
    let blocked = w.handle_query(&build_query("notexample.com.", RecordType::A));
    assert_eq!(blocked.response_code(), ResponseCode::NXDomain);
}

#[test]
fn test_dnsbl_allowlist_issues_no_provider_lookup() {
    let mut w = world();
    w.allowed.push("vendor.example.com".to_string());
    w.name_listed = |_| true;
    for _ in 0..5 {
        let resp = w.handle_query(&build_query("cdn.vendor.example.com.", RecordType::A));
        assert_eq!(resp.response_code(), ResponseCode::ServFail);
    }
    assert_eq!(w.provider_lookups, 0);

    w.handle_query(&build_query("ads.example.net.", RecordType::A));
    assert!(w.provider_lookups > 0);
}

#[test]
fn test_dnsbl_allowlist_overrides_local_rbl_entry() {
    let mut w = world();
    w.rbl.push("tracker.example.com".to_string());
    w.allowed.push("tracker.example.com".to_string());
    let resp = w.handle_query(&build_query("tracker.example.com.", RecordType::A));
    assert_eq!(resp.response_code(), ResponseCode::ServFail);
}

#[test]
fn test_dnsbl_allowlist_removal_restores_blocking() {
    let mut w = world();
    w.allowed.push("vendor.example.com".to_string());
    w.name_listed = |_| true;
    let query = build_query("vendor.example.com.", RecordType::A);
    assert_eq!(w.handle_query(&query).response_code(), ResponseCode::ServFail);
    w.allowed.clear();
    assert_eq!(w.handle_query(&query).response_code(), ResponseCode::NXDomain);
}

#[test]
fn test_empty_rbl_does_not_block_reverse_dns() {
    let mut w = world();
    w.add_record("100.1.168.192.in-addr.arpa.", RecordKind::PTR, "host.local.");
    let resp = w.handle_query(&build_query("100.1.168.192.in-addr.arpa.", RecordType::PTR));
    assert_eq!(resp.response_code(), ResponseCode::NoError);
    assert_eq!(resp.answers().len(), 1);

    let resp2 = w.handle_query(&build_query("200.1.168.192.in-addr.arpa.", RecordType::PTR));
    assert_eq!(resp2.response_code(), ResponseCode::ServFail);
}

#[test]
fn test_empty_dnsbl_does_not_block_forward_domain() {
    let mut w = world();
    w.add_record("gitea.default.home.", RecordKind::A, "10.0.0.5");
    let local = w.handle_query(&build_query("gitea.default.home.", RecordType::A));
    assert_eq!(local.response_code(), ResponseCode::NoError);
    assert_eq!(local.answers().len(), 1);

    let ext = w.handle_query(&build_query("googleadservices.com.", RecordType::A));
    assert_eq!(ext.response_code(), ResponseCode::ServFail);
}

#[test]
fn test_extract_ip_from_name_ipv4() {
    let found = extract_ip_from_name("100.1.168.192.in-addr.arpa.");
    assert_eq!(found, Some(ip("192.168.1.100")));
}

#[test]
fn test_extract_ip_from_name_not_reverse() {
    assert_eq!(extract_ip_from_name("example.com."), None);
}

#[test]
fn test_extract_ip_from_name_ipv6() {
    let name = "1.0.0.0.0.0.0.0.0.0.0.0.0.0.0.0.0.0.0.0.0.0.0.0.0.0.0.0.0.0.0.0.ip6.arpa.";
    assert_eq!(extract_ip_from_name(name), Some(ip("::1")));
}

#[test]
fn test_map_query_type_to_kind() {
    for (rtype, kind) in [
        (RecordType::A, RecordKind::A),
        (RecordType::AAAA, RecordKind::AAAA),
        (RecordType::CNAME, RecordKind::CNAME),
        (RecordType::MX, RecordKind::MX),
        (RecordType::TXT, RecordKind::TXT),
        (RecordType::NS, RecordKind::NS),
        (RecordType::SOA, RecordKind::SOA),
        (RecordType::SRV, RecordKind::SRV),
        (RecordType::PTR, RecordKind::PTR),
        (RecordType::CERT, RecordKind::CERT),
    ] {
        assert_eq!(map_query_type_to_kind(rtype.into()), Some(kind));
    }
    assert_eq!(map_query_type_to_kind(65_280), None);
}

/// What goes on the wire for a stored record, read back.
fn served(r: &DnsRecord) -> Option<Record> {
    let a: ResourceRecord = db_record_to_dns_record(r)?;
    let mut wire = a.name.to_wire();
    wire.extend_from_slice(&a.rtype.to_be_bytes());
    wire.extend_from_slice(&1u16.to_be_bytes());
    wire.extend_from_slice(&a.ttl.to_be_bytes());
    let rdata = a.rdata?;
    wire.extend_from_slice(&(rdata.len() as u16).to_be_bytes());
    wire.extend_from_slice(&rdata);
    Some(Record::from_bytes(&wire).unwrap())
}

#[test]
fn test_db_record_to_dns_record_cert() {
    let payload = b"fake der bytes";
    let b64 = base64::Engine::encode(&base64::engine::general_purpose::STANDARD, payload);
    let db_rec = DnsRecord {
        ttl: 3600,
        ..record("_ca.example.com.", RecordKind::CERT, &format!("1 0 0 {}", b64))
    };
    let rec = served(&db_rec).expect("CERT record");
    assert_eq!(rec.record_type(), RecordType::CERT);
    match rec.data() {
        RData::CERT(cert) => {
            assert_eq!(u16::from(cert.cert_type()), 1);
            assert_eq!(cert.key_tag(), 0);
            assert_eq!(u8::from(cert.algorithm()), 0);
            assert_eq!(cert.cert_data(), payload);
        }
        other => panic!("expected CERT rdata, got {:?}", other),
    }
}

#[test]
fn test_db_record_to_dns_record_cert_malformed() {
    let db_rec = record("_ca.example.com.", RecordKind::CERT, "1 0 0 not!base64!");
    assert!(db_record_to_dns_record(&db_rec).is_none());
    let too_short = DnsRecord {
        value: "1 0 0".to_string(),
        ..db_rec
    };
    assert!(db_record_to_dns_record(&too_short).is_none());
}

#[test]
fn test_db_record_to_dns_record_a() {
    let db_rec = record("test.local.", RecordKind::A, "192.168.1.1");
    let rec = served(&db_rec).unwrap();
    assert_eq!(rec.record_type(), RecordType::A);
    assert_eq!(rec.ttl(), 300);
}

#[test]
fn test_db_record_to_dns_record_invalid_ip() {
    let db_rec = record("test.local.", RecordKind::A, "not-an-ip");
    assert!(db_record_to_dns_record(&db_rec).is_none());
}

#[test]
fn test_set_forwarders() {
    let mut server = DnsServer::new(vec![]);
    assert!(server.get_forwarders().is_empty());
    server.set_forwarders(vec![SocketAddress::new(ip("8.8.8.8"), 53)]);
    assert_eq!(server.get_forwarders().len(), 1);
}

#[test]
fn test_resolution_mode_default_and_set() {
    let mut server = DnsServer::new(vec![]);
    assert_eq!(server.get_resolution_mode(), ResolutionMode::Forward);
    server.set_resolution_mode(ResolutionMode::Recursive);
    assert_eq!(server.get_resolution_mode(), ResolutionMode::Recursive);
}

fn response_with_rcode(rcode: ResponseCode) -> Vec<u8> {
    let mut m = Message::new();
    m.set_id(1);
    m.set_message_type(MessageType::Response);
    m.set_response_code(rcode);
    m.to_bytes().unwrap()
}

#[test]
fn test_response_is_definitive() {
    assert!(response_is_definitive(&response_with_rcode(
        ResponseCode::NoError
    )));
    assert!(response_is_definitive(&response_with_rcode(
        ResponseCode::NXDomain
    )));
    assert!(!response_is_definitive(&response_with_rcode(
        ResponseCode::ServFail
    )));
    assert!(!response_is_definitive(&response_with_rcode(
        ResponseCode::Refused
    )));
    assert!(!response_is_definitive(&[0u8, 1]));
}

#[test]
fn test_auto_switch_respects_grace() {
    let mut server = DnsServer::new(vec![]);
    server.set_auto_params(3, 60);
    assert_eq!(server.active_tier(), TIER_ROOTS);
    server.note_auto_winner(TIER_LOCAL);
    assert_eq!(server.active_tier(), TIER_ROOTS);
    server.note_auto_winner(TIER_LOCAL);
    assert_eq!(server.active_tier(), TIER_ROOTS);
    server.note_auto_winner(TIER_LOCAL);
    assert_eq!(server.active_tier(), TIER_LOCAL);
}

#[test]
fn test_auto_flap_does_not_switch() {
    let mut server = DnsServer::new(vec![]);
    server.set_auto_params(3, 60);
    server.note_auto_winner(TIER_LOCAL);
    server.note_auto_winner(TIER_ROOTS);
    server.note_auto_winner(TIER_LOCAL);
    server.note_auto_winner(TIER_LOCAL);
    assert_eq!(server.active_tier(), TIER_ROOTS);
}

#[test]
fn test_auto_recovery_immediate_and_flushes_cache() {
    let mut server = DnsServer::new_with_options(vec![], true, None, false);
    // Pretend we had degraded to the local tier and cached an answer there.
    server.auto.active_tier = TIER_LOCAL;
    let entry = CacheEntry {
        name: "cached.example.".to_string(),
        kind: Some(RecordKind::A),
        records: vec![record("cached.example.", RecordKind::A, "10.0.0.1")],
        ttl: 300,
    };
    server.learned.answers.insert(entry, 1_000);
    let found = server
        .learned
        .answers
        .lookup("cached.example.", Some(RecordKind::A), 1_000);
    assert_eq!(found.len(), 1);
    assert!(!server.learned.is_empty());

    // Roots (more preferred) answered again: immediate switch up, and nothing is left.
    assert_eq!(
        server.note_auto_winner(TIER_ROOTS),
        Some(TierSwitch::Recover)
    );
    assert_eq!(server.active_tier(), TIER_ROOTS);
    assert!(server.learned.is_empty());
    let found = server
        .learned
        .answers
        .lookup("cached.example.", Some(RecordKind::A), 1_000);
    assert_eq!(found.len(), 0);
}

fn learned_something(server: &mut DnsServer) {
    let answers = &mut server.learned.answers;
    answers.insert_local(
        "own.example.",
        Some(RecordKind::A),
        vec![record("own.example.", RecordKind::A, "10.0.0.2")],
    );
    let missing = NegativeEntry {
        name: "missing.example.".to_string(),
        kind: Some(RecordKind::AAAA),
        negative: NegativeKind::NoData,
        ttl: 60,
    };
    answers.insert_negative(missing, 1_000);
    let address = SocketAddress::new(ip("10.0.0.1"), 53);
    server.learned.delegations.put(
        "example.",
        Slot {
            kind: None,
            value: vec![address],
            expires: Some(2_000),
        },
    );
}

#[test]
fn only_a_change_of_tier_forgets_delegations() {
    let mut server = DnsServer::new_with_options(vec![], true, None, false);
    server.set_auto_params(2, 60);
    learned_something(&mut server);
    assert_eq!(server.note_auto_winner(TIER_LOCAL), None);
    assert!(!server.learned.answers.is_empty());

    server.flush_cache();
    assert!(server.learned.answers.is_empty());
    let delegation = server.learned.delegations.get("example.", None, 1_999);
    assert_eq!(delegation.map(|d| d.len()), Some(1));
    assert!(server.learned.delegations.get("example.", None, 2_000).is_none());

    learned_something(&mut server);
    assert_eq!(
        server.note_auto_winner(TIER_LOCAL),
        Some(TierSwitch::Degrade)
    );
    assert!(server.learned.is_empty());
    assert!(server.learned.delegations.get("example.", None, 1_999).is_none());
}

#[test]
fn answers_are_remembered_for_their_time() {
    let mut server = DnsServer::new_with_options(vec![], true, None, false);
    learned_something(&mut server);
    let answers = &mut server.learned.answers;
    let aaaa = Some(RecordKind::AAAA);
    assert_eq!(
        answers.lookup_negative("missing.example.", aaaa, 1_059),
        Some(NegativeKind::NoData)
    );
    assert_eq!(answers.lookup_negative("missing.example.", aaaa, 1_060), None);
    assert_eq!(
        answers.lookup_negative("missing.example.", Some(RecordKind::A), 1_000),
        None
    );

    let upstream = CacheEntry {
        name: "far.example.".to_string(),
        kind: Some(RecordKind::A),
        records: vec![record("far.example.", RecordKind::A, "192.0.2.1")],
        ttl: 30,
    };
    answers.insert(upstream, 1_000);
    let a = Some(RecordKind::A);
    assert_eq!(answers.lookup("far.example.", a, 1_029).len(), 1);
    assert_eq!(answers.lookup("far.example.", a, 1_030).len(), 0);
    assert_eq!(answers.lookup_local_only("far.example.", a, 1_000).len(), 0);
    assert_eq!(answers.lookup_local_only("own.example.", a, u64::MAX).len(), 1);

    let local = vec![record("missing.example.", RecordKind::A, "10.0.0.3")];
    answers.remember_local("missing.example.", a, local);
    assert_eq!(answers.lookup_negative("missing.example.", aaaa, 1_000), None);
    assert_eq!(answers.lookup("missing.example.", a, 1_000).len(), 1);
}

#[test]
fn a_network_remembers_under_a_name_of_its_own() {
    let mut server = DnsServer::new_with_options(vec![], true, None, false);
    learned_something(&mut server);
    let answers = &mut server.learned.answers;
    let a = Some(RecordKind::A);
    let records = vec![record("missing.example.", RecordKind::A, "10.0.0.4")];
    answers.remember_scoped("net", "missing.example.", a, records);
    assert_eq!(answers.lookup("@net/missing.example.", a, 0).len(), 1);
    assert_eq!(answers.lookup("missing.example.", a, 0).len(), 0);
    let aaaa = Some(RecordKind::AAAA);
    assert_eq!(answers.lookup_negative("missing.example.", aaaa, 1_000), None);
}

#[test]
fn test_auto_start_tier_probes_periodically() {
    let now = 1_700_000_000;
    let mut server = DnsServer::new(vec![]);
    assert_eq!(server.auto.auto_start_tier(now), TIER_ROOTS);

    server.auto.active_tier = TIER_LOCAL;
    server.set_auto_params(3, 3600);
    server.auto.last_probe = now;
    assert_eq!(server.auto.auto_start_tier(now), TIER_LOCAL);

    server.auto.last_probe = 0;
    assert_eq!(server.auto.auto_start_tier(now), TIER_ROOTS);
    assert_eq!(server.auto.auto_start_tier(now), TIER_LOCAL);
}

#[test]
fn the_chain_goes_down_tier_by_tier() {
    assert_eq!(after_tier(TIER_ROOTS, true), TierStep::Answer);
    assert_eq!(after_tier(TIER_ROOTS, false), TierStep::Try(1));
    assert_eq!(after_tier(TIER_PUBLIC, false), TierStep::Exhausted);
    let mut auto = AutoState {
        switch_grace_failures: 0,
        ..AutoState::default()
    };
    assert_eq!(auto.prewarm_attempts(), 2);
    assert_eq!(
        auto.note_auto_winner(TIER_LOCAL),
        Some(TierSwitch::Degrade)
    );
}

#[test]
fn test_recursive_mode_local_record_wins() {
    let mut w = world();
    w.add_record("local.example.", RecordKind::A, "10.1.2.3");
    w.server.set_resolution_mode(ResolutionMode::Recursive);
    let response = w.handle_query(&build_query("local.example.", RecordType::A));
    assert_eq!(response.response_code(), ResponseCode::NoError);
    assert_eq!(response.answers().len(), 1);
    assert_eq!(w.asked_upstream, 0);
}

#[test]
fn test_build_response() {
    let query_bytes = build_query("test.local.", RecordType::A);
    let query = Query::parse(&query_bytes).unwrap();
    let response_bytes = build_response(&query, 0, &[]);
    let response = Message::from_bytes(&response_bytes).unwrap();
    assert_eq!(response.id(), query.head.id);
    assert_eq!(response.message_type(), MessageType::Response);
    assert_eq!(response.response_code(), ResponseCode::NoError);
}

#[test]
fn names_in_answers_are_compressed() {
    let query = Query::parse(&build_query("a.example.com.", RecordType::A)).unwrap();
    let answer = ResourceRecord {
        name: query.questions[0].name.clone(),
        rtype: 5,
        ttl: 300,
        rdata: Some(b"\x01b\x07example\x03com\x00".to_vec()),
    };
    let response = build_response(&query, 0, &[answer]);
    // A label, and a pointer to where the question has the rest.
    assert!(response.ends_with(&[0, 4, 1, b'b', 0xc0, 14]));
    let message = Message::from_bytes(&response).unwrap();
    assert_eq!(
        message.answers()[0].data(),
        &RData::CNAME(rdata::CNAME(Name::from_ascii("b.example.com.").unwrap()))
    );
}

#[test]
fn test_make_error_response() {
    let query_bytes = build_query("test.local.", RecordType::A);
    let response_bytes = make_error_response(&query_bytes, SERV_FAIL);
    let response = Message::from_bytes(&response_bytes).unwrap();
    assert_eq!(response.response_code(), ResponseCode::ServFail);
}

#[test]
fn test_scoped_record_lookup() {
    let mut w = world();
    w.create_network_scope("testnet");
    w.add_scoped_record("testnet", "server.testnet.home.", RecordKind::A, "10.0.0.1");
    w.join_network("192.168.1.50", "testnet");
    let query = build_query("server.testnet.home.", RecordType::A);
    let response = w.handle_query_from(&query, "192.168.1.50");
    assert_eq!(expect_single_a(&response), [10, 0, 0, 1]);
    assert!(response.authoritative());
    assert_eq!(w.source, AnswerSource::Scoped);
}

#[test]
fn test_unassociated_overlay_peer_refused_when_scopes_exist() {
    let mut w = world();
    w.create_network_scope("private");
    let query = build_query("anything.com.", RecordType::A);
    let response = w.handle_query_from(&query, "10.64.0.99");
    assert_eq!(response.response_code(), ResponseCode::Refused);
    assert_eq!(w.source, AnswerSource::Refused);
}

#[test]
fn test_unassociated_lan_client_not_refused_when_scopes_exist() {
    let mut w = world();
    w.create_network_scope("private");
    let query = build_query("anything.com.", RecordType::A);
    let response = w.handle_query_from(&query, "192.168.1.99");
    assert_ne!(response.response_code(), ResponseCode::Refused);
}

#[test]
fn test_no_scopes_allows_all_queries() {
    let mut w = world();
    w.add_record("open.test.", RecordKind::A, "1.2.3.4");
    let query = build_query("open.test.", RecordType::A);
    let response = w.handle_query_from(&query, "192.168.1.1");
    assert_eq!(response.response_code(), ResponseCode::NoError);
    assert_eq!(response.answers().len(), 1);
}

#[test]
fn test_scoped_records_isolated_between_scopes() {
    let mut w = world();
    w.create_network_scope("scope_a");
    w.create_network_scope("scope_b");
    w.add_scoped_record("scope_a", "shared.internal.", RecordKind::A, "10.0.0.1");
    w.add_scoped_record("scope_b", "shared.internal.", RecordKind::A, "10.0.0.2");
    w.join_network("192.168.1.1", "scope_a");
    w.join_network("192.168.2.1", "scope_b");
    let query = build_query("shared.internal.", RecordType::A);
    let resp = w.handle_query_from(&query, "192.168.1.1");
    assert_eq!(expect_single_a(&resp), [10, 0, 0, 1]);
    let resp = w.handle_query_from(&query, "192.168.2.1");
    assert_eq!(expect_single_a(&resp), [10, 0, 0, 2]);
}

#[test]
fn test_scoped_rbl_blocks_reverse_dns() {
    let mut w = world();
    w.create_network_scope("rblscope");
    w.join_network("192.168.1.1", "rblscope");
    w.address_listed = true;
    let query = build_query("100.1.168.192.in-addr.arpa.", RecordType::PTR);
    let resp = w.handle_query_from(&query, "192.168.1.1");
    assert_eq!(resp.response_code(), ResponseCode::NXDomain);
    assert!(resp.authoritative());
}

#[test]
fn test_scoped_cname_lookup() {
    let mut w = world();
    w.create_network_scope("cnamescope");
    w.add_scoped_record(
        "cnamescope",
        "alias.cnamescope.home.",
        RecordKind::CNAME,
        "real.cnamescope.home.",
    );
    w.join_network("192.168.1.1", "cnamescope");
    let query = build_query("alias.cnamescope.home.", RecordType::A);
    let resp = w.handle_query_from(&query, "192.168.1.1");
    assert_eq!(resp.response_code(), ResponseCode::NoError);
    assert_eq!(resp.answers().len(), 1);
}

#[test]
fn test_scoped_managed_zone_nxdomain() {
    let mut w = world();
    w.create_network_scope("zonescope");
    w.zones
        .push(("zonescope".to_string(), "zonescope.home.".to_string()));
    w.add_scoped_record("zonescope", "zonescope.home.", RecordKind::A, "10.0.0.1");
    w.add_scoped_record(
        "zonescope",
        "existing.zonescope.home.",
        RecordKind::A,
        "10.0.0.2",
    );
    w.join_network("192.168.1.1", "zonescope");

    let query = build_query("existing.zonescope.home.", RecordType::A);
    let resp = w.handle_query_from(&query, "192.168.1.1");
    assert_eq!(resp.response_code(), ResponseCode::NoError);

    let query = build_query("nonexistent.zonescope.home.", RecordType::A);
    let resp = w.handle_query_from(&query, "192.168.1.1");
    assert_eq!(resp.response_code(), ResponseCode::NXDomain);
}

#[test]
fn test_expired_association_refused() {
    let mut w = world();
    w.create_network_scope("expirenet");
    w.add_scoped_record("expirenet", "host.expirenet.home.", RecordKind::A, "10.0.0.1");
    w.join_network("10.64.0.1", "expirenet");
    let query = build_query("host.expirenet.home.", RecordType::A);
    let resp = w.handle_query_from(&query, "10.64.0.1");
    assert_eq!(resp.response_code(), ResponseCode::NoError);
    assert_eq!(resp.answers().len(), 1);

    w.joined.clear();
    let resp = w.handle_query_from(&query, "10.64.0.1");
    assert_eq!(resp.response_code(), ResponseCode::Refused);
}

#[test]
fn test_scoped_query_falls_through_to_global() {
    let mut w = world();
    w.create_network_scope("fallthrough");
    w.add_record("global.test.", RecordKind::A, "1.2.3.4");
    w.join_network("192.168.1.1", "fallthrough");
    let query = build_query("global.test.", RecordType::A);
    let resp = w.handle_query_from(&query, "192.168.1.1");
    assert_eq!(resp.response_code(), ResponseCode::NoError);
    assert_eq!(resp.answers().len(), 1);
}

#[test]
fn test_extract_qname_simple() {
    let data = b"\x07example\x03com\x00";
    assert_eq!(extract_qname(data).unwrap(), "example.com.");
}

#[test]
fn test_extract_qname_subdomain() {
    let data = b"\x03sub\x07example\x03com\x00";
    assert_eq!(extract_qname(data).unwrap(), "sub.example.com.");
}

#[test]
fn test_extract_qname_single_label() {
    let data = b"\x03com\x00";
    assert_eq!(extract_qname(data).unwrap(), "com.");
}

#[test]
fn test_extract_qname_empty() {
    let data = b"\x00";
    assert_eq!(extract_qname(data).unwrap(), ".");
}

#[test]
fn test_extract_qname_truncated() {
    let data = b"\x07exa";
    assert!(extract_qname(data).is_none());
}

#[test]
fn test_extract_qname_empty_input() {
    assert!(extract_qname(b"").is_none());
}

#[test]
fn test_randomize_qname_case_preserves_structure() {
    let query = build_query("example.com.", RecordType::A);
    let result = randomize_qname_case(&query);
    assert!(result.is_some());
    let (modified, original, _randomized) = result.unwrap();
    assert_eq!(original.to_lowercase(), "example.com.");
    assert_eq!(modified.len(), query.len());
    let msg = Message::from_bytes(&modified).unwrap();
    assert_eq!(msg.id(), 1234);
    assert_eq!(msg.queries().len(), 1);
}

#[test]
fn test_randomize_qname_case_only_changes_alpha() {
    let query = build_query("test-123.example.com.", RecordType::A);
    for _ in 0..20 {
        if let Some((modified, _, _)) = randomize_qname_case(&query) {
            assert_eq!(&modified[..12], &query[..12]);
            let mut pos = 12;
            while pos < modified.len() {
                let label_len = modified[pos] as usize;
                if label_len == 0 {
                    break;
                }
                assert_eq!(modified[pos], query[pos]);
                for i in 1..=label_len {
                    let orig = query[pos + i];
                    let modif = modified[pos + i];
                    if !orig.is_ascii_alphabetic() {
                        assert_eq!(modif, orig);
                    } else {
                        assert_eq!(modif.to_ascii_lowercase(), orig.to_ascii_lowercase());
                    }
                }
                pos += label_len + 1;
            }
        }
    }
}

#[test]
fn test_randomize_qname_case_too_short() {
    assert!(randomize_qname_case(b"").is_none());
    assert!(randomize_qname_case(b"short").is_none());
    assert!(randomize_qname_case(&[0u8; 12]).is_none());
}

#[test]
fn test_randomize_qname_case_round_trip_names() {
    let query = build_query("My.DnS.Name.", RecordType::AAAA);
    let (_, original, randomized) = randomize_qname_case(&query).unwrap();
    assert_eq!(original.to_lowercase(), randomized.to_lowercase());
}

#[test]
fn the_case_changes_sooner_or_later() {
    let query = build_query("abcdefghijklmnop.example.com.", RecordType::A);
    let changed = |_: &usize| randomize_qname_case(&query).unwrap().0 != query;
    assert!((0..64).filter(changed).count() > 0);
}

#[test]
fn a_flip_changes_the_case_of_letters_alone() {
    let query = build_query("a1.B-.", RecordType::A);
    let (sent, before, after) = flip_qname_case(&query, &vec![true; query.len()]).unwrap();
    assert_eq!(before, "a1.B-.");
    assert_eq!(after, "A1.b-.");
    assert_eq!(sent.len(), query.len());
    let (same, _, _) = flip_qname_case(&query, &vec![false; query.len()]).unwrap();
    assert_eq!(same, query);
}

#[test]
fn headers_and_questions_are_read_from_the_wire() {
    assert_eq!(wire_qtype(&build_query("a.b.", RecordType::MX)), Some(15));
    assert_eq!(wire_qtype(&[0; 12]), None);
    let mut pointer = vec![0u8; 12];
    pointer.extend_from_slice(&[0xc0, 12, 0, 1, 0, 1]);
    assert_eq!(wire_qtype(&pointer), None);
    assert_eq!(wire_rcode(&[0, 0, 0, 0xf3]), 3);
    assert_eq!(wire_rcode(&[]), 0);
    assert!(wire_truncated(&[0, 0, 2]));
    assert!(!wire_truncated(&[0, 0, 0xfd]));
}

#[test]
fn test_lookup_with_fallbacks_exact_hit() {
    let mut w = world();
    w.add_record("exact.example.com.", RecordKind::A, "1.2.3.4");
    let resp = w.handle_query(&build_query("exact.example.com.", RecordType::A));
    assert_eq!(resp.response_code(), ResponseCode::NoError);
    assert_eq!(resp.answers().len(), 1);
}

#[test]
fn test_lookup_with_fallbacks_cname_fallback() {
    let mut w = world();
    w.add_record("alias.example.com.", RecordKind::CNAME, "target.example.com.");
    let resp = w.handle_query(&build_query("alias.example.com.", RecordType::A));
    assert_eq!(resp.response_code(), ResponseCode::NoError);
    assert_eq!(resp.answers().len(), 1);
}

#[test]
fn test_lookup_with_fallbacks_aname_resolution() {
    let mut w = world();
    w.add_record("aname.example.com.", RecordKind::ANAME, "target.example.com.");
    w.add_record("target.example.com.", RecordKind::A, "10.0.0.1");
    let resp = w.handle_query(&build_query("aname.example.com.", RecordType::A));
    assert_eq!(expect_single_a(&resp), [10, 0, 0, 1]);
    assert_eq!(resp.answers()[0].name().to_string(), "aname.example.com.");
}

#[test]
fn test_lookup_with_fallbacks_exact_over_cname() {
    let mut w = world();
    w.add_record("both.example.com.", RecordKind::A, "1.1.1.1");
    w.add_record("both.example.com.", RecordKind::CNAME, "other.example.com.");
    let resp = w.handle_query(&build_query("both.example.com.", RecordType::A));
    assert_eq!(expect_single_a(&resp), [1, 1, 1, 1]);
}

#[test]
fn build_canary_query_is_a_valid_recursive_a_query() {
    let bytes = build_canary_query().expect("canary query builds");
    let msg = Message::from_bytes(&bytes).expect("canary query parses");
    let q = msg.queries().first().expect("has a question");
    assert_eq!(q.query_type(), RecordType::A);
    assert_eq!(q.name().to_ascii(), "one.one.one.one.");
    assert!(msg.recursion_desired());
}

fn office() -> World {
    let mut w = world();
    w.create_network_scope("office");
    w.add_scope_tld("office", "office");
    w.join_network("192.168.1.1", "office");
    w
}

#[test]
fn test_owned_tld_serves_scoped_record() {
    let mut w = office();
    w.add_scoped_record("office", "gitea.office.", RecordKind::A, "10.0.0.7");
    let query = build_query("gitea.office.", RecordType::A);
    let resp = w.handle_query_from(&query, "192.168.1.1");
    assert_eq!(resp.response_code(), ResponseCode::NoError);
    assert_eq!(resp.answers().len(), 1);
}

const INGRESS: &str = "127.0.0.9";

fn ingress_office() -> World {
    let mut w = office();
    w.ingress.push(("office.".to_string(), ip(INGRESS)));
    w.add_scoped_record("office", "gitea.office.", RecordKind::A, "10.0.0.7");
    w
}

#[test]
fn test_ingress_override_rewrites_on_ingress_listener() {
    let mut w = ingress_office();
    let query = build_query("gitea.office.", RecordType::A);
    let resp = w.handle_query_on(&query, "127.0.0.1", INGRESS);
    assert_eq!(expect_single_a(&resp), [127, 0, 0, 9]);
}

#[test]
fn test_ingress_no_override_on_main_listener() {
    let mut w = ingress_office();
    let query = build_query("gitea.office.", RecordType::A);
    let resp = w.handle_query_from(&query, "192.168.1.1");
    assert_eq!(expect_single_a(&resp), [10, 0, 0, 7]);
}

#[test]
fn test_ingress_no_override_on_wrong_listener_ip() {
    let mut w = ingress_office();
    let query = build_query("gitea.office.", RecordType::A);
    let resp = w.handle_query_on(&query, "192.168.1.1", "127.0.0.8");
    assert_eq!(answer_a(&resp), [10, 0, 0, 7]);
}

#[test]
fn test_ingress_no_synthesis_for_unprogrammed_name() {
    let mut w = ingress_office();
    let query = build_query("missing.office.", RecordType::A);
    let resp = w.handle_query_on(&query, "127.0.0.1", INGRESS);
    assert_eq!(resp.response_code(), ResponseCode::NXDomain);
    assert!(resp.answers().is_empty());
}

#[test]
fn test_ingress_override_only_matching_family() {
    let mut w = office();
    w.ingress.push(("office.".to_string(), ip(INGRESS)));
    w.add_scoped_record("office", "gitea.office.", RecordKind::AAAA, "fd00::7");
    let query = build_query("gitea.office.", RecordType::AAAA);
    let resp = w.handle_query_on(&query, "127.0.0.1", INGRESS);
    assert_eq!(resp.response_code(), ResponseCode::NoError);
    assert_eq!(resp.answers().len(), 1);
    match resp.answers()[0].data() {
        RData::AAAA(rdata::AAAA(ip)) => {
            assert_eq!(ip.to_string(), "fd00::7")
        }
        other => panic!("expected AAAA record, got {:?}", other),
    }
}

const OVERLAY_PEER: &str = "10.81.113.179";

#[test]
fn test_ingress_listener_resolves_name_outside_its_tld() {
    let mut w = ingress_office();
    w.add_record("example.com.", RecordKind::A, "93.184.216.34");
    let query = build_query("example.com.", RecordType::A);
    let resp = w.handle_query_on(&query, OVERLAY_PEER, INGRESS);
    assert_eq!(expect_single_a(&resp), [93, 184, 216, 34]);
}

#[test]
fn test_ingress_listener_rewrites_owned_tld_for_overlay_peer() {
    let mut w = ingress_office();
    let query = build_query("gitea.office.", RecordType::A);
    let resp = w.handle_query_on(&query, OVERLAY_PEER, INGRESS);
    assert_eq!(resp.response_code(), ResponseCode::NoError);
    assert_eq!(answer_a(&resp), [127, 0, 0, 9]);
}

#[test]
fn test_ingress_listener_still_hides_sibling_network_tld() {
    let mut w = ingress_office();
    w.create_network_scope("lab");
    w.add_scope_tld("lab", "lab");
    w.add_scoped_record("lab", "secret.lab.", RecordKind::A, "10.9.9.9");
    let query = build_query("secret.lab.", RecordType::A);
    let resp = w.handle_query_on(&query, OVERLAY_PEER, INGRESS);
    assert_eq!(resp.response_code(), ResponseCode::NXDomain);
    assert!(resp.answers().is_empty());
}

#[test]
fn test_unassociated_overlay_peer_still_refused_off_ingress() {
    let mut w = ingress_office();
    let query = build_query("example.com.", RecordType::A);
    let resp = w.handle_query_from(&query, OVERLAY_PEER);
    assert_eq!(resp.response_code(), ResponseCode::Refused);
}

fn own_record(record: &Record) -> ResourceRecord {
    ResourceRecord {
        name: rolodex::wire_name::Name {
            labels: record.name().iter().map(|l| l.to_vec()).collect(),
        },
        rtype: record.record_type().into(),
        ttl: record.ttl(),
        rdata: record.data().to_bytes().ok(),
    }
}

fn question(name: &str) -> Question {
    Question {
        name: rolodex::wire_name::Name::from_ascii(name).unwrap(),
        qtype: 1,
        qclass: 1,
    }
}

#[test]
fn test_cname_chain_is_cached_under_the_question() {
    let name = |s: &str| Name::from_ascii(s).unwrap();
    let answers: Vec<ResourceRecord> = [
        Record::from_rdata(
            name("index.crates.io."),
            96,
            RData::CNAME(rdata::CNAME(name("fastly-index.crates.io."))),
        ),
        Record::from_rdata(
            name("fastly-index.crates.io."),
            96,
            RData::CNAME(rdata::CNAME(name("dualstack.k.sni.global.fastly.net."))),
        ),
        Record::from_rdata(
            name("dualstack.k.sni.global.fastly.net."),
            24,
            RData::A(rdata::A([151, 101, 2, 137].into())),
        ),
    ]
    .iter()
    .map(own_record)
    .collect();

    let entry = cache_answers(&question("index.crates.io."), &answers).unwrap();
    assert_eq!(entry.name, "index.crates.io.");
    assert_eq!(entry.kind, Some(RecordKind::A));
    assert_eq!(
        entry.records.len(),
        3,
        "the whole chain is served, not just the CNAME"
    );
    assert_eq!(entry.ttl, 24);
    assert_eq!(entry.records[0].value, "fastly-index.crates.io.");
    assert_eq!(entry.records[2].value, "151.101.2.137");
}

#[test]
fn test_cache_key_survives_qname_case_randomization() {
    let answers = [own_record(&Record::from_rdata(
        Name::from_ascii("eXaMpLe.CoM.").unwrap(),
        300,
        RData::A(rdata::A([93, 184, 216, 34].into())),
    ))];
    let entry = cache_answers(&question("eXaMpLe.CoM."), &answers).unwrap();
    let mut w = world();
    w.server.caching = true;
    w.cache.push((entry.name, entry.kind, entry.records));
    let resp = w.handle_query(&build_query("example.com.", RecordType::A));
    assert_eq!(expect_single_a(&resp), [93, 184, 216, 34]);
    assert_eq!(w.source, AnswerSource::Cache);
}

#[test]
fn only_what_answers_is_remembered() {
    let query = build_query("example.com.", RecordType::A);
    let entry = cache_from_wire(&reply_to(&query, Some([192, 0, 2, 1]))).unwrap();
    assert_eq!(entry.name, "example.com.");
    assert_eq!(entry.ttl, 60);
    assert!(cache_from_wire(&reply_to(&query, None)).is_none());
    assert!(cache_from_wire(&[1, 2, 3]).is_none());

    let q = question("example.com.");
    let negative = cache_negative(&q, 3, 77).unwrap();
    assert_eq!(negative.negative, NegativeKind::NxDomain);
    assert_eq!(negative.ttl, 77);
    let nodata = cache_negative(&q, 0, 77).unwrap();
    assert_eq!(nodata.negative, NegativeKind::NoData);
    assert!(cache_negative(&q, 2, 77).is_none());

    assert_eq!(memory_of(0, 1, Some(5)), Memory::Answers);
    assert_eq!(memory_of(0, 0, Some(5)), Memory::Negative(5));
    assert_eq!(memory_of(2, 1, None), Memory::Nothing);
    assert_eq!(scoped_cache_name("office", "a.b."), "@office/a.b.");
}

#[test]
fn test_split_horizon_overlay_scoped_local_global() {
    let mut w = world();
    w.create_network_scope("office");
    w.add_scope_tld("office", "office");
    w.join_network("10.64.0.5", "office");
    w.add_scoped_record("office", "gitea.office.", RecordKind::A, "10.83.6.1");
    w.add_record("gitea.office.", RecordKind::A, "192.168.122.50");
    let query = build_query("gitea.office.", RecordType::A);
    for (source, want) in [
        ("10.64.0.5", [10, 83, 6, 1]),
        ("127.0.0.1", [192, 168, 122, 50]),
        ("192.168.122.77", [192, 168, 122, 50]),
    ] {
        assert_eq!(expect_single_a(&w.handle_query_from(&query, source)), want);
    }
}

fn owned_tld_scope(w: &mut World, scope: &str, tld: &str, name: &str, ip: &str) {
    w.create_network_scope(scope);
    w.add_scope_tld(scope, tld);
    w.add_scoped_record(scope, name, RecordKind::A, ip);
}

#[test]
fn test_lan_fallback_resolves_all_owned_tlds() {
    let mut w = world();
    owned_tld_scope(&mut w, "fart", "fart", "gitea.default.fart.", "10.83.6.1");
    owned_tld_scope(&mut w, "fart2", "fart2", "wiki.default.fart2.", "10.99.0.2");
    let lan = "192.168.122.77";
    let fart = w.handle_query_from(&build_query("gitea.default.fart.", RecordType::A), lan);
    assert_eq!(expect_single_a(&fart), [10, 83, 6, 1]);
    assert_eq!(w.source, AnswerSource::ScopeFallback);
    let fart2 = w.handle_query_from(&build_query("wiki.default.fart2.", RecordType::A), lan);
    assert_eq!(expect_single_a(&fart2), [10, 99, 0, 2]);
}

#[test]
fn test_lan_fallback_unknown_owned_name_is_authoritative_nxdomain() {
    let mut w = world();
    owned_tld_scope(&mut w, "fart", "fart", "gitea.default.fart.", "10.83.6.1");
    let query = build_query("absent.default.fart.", RecordType::A);
    let resp = w.handle_query_from(&query, "192.168.122.77");
    assert_eq!(resp.response_code(), ResponseCode::NXDomain);
    assert!(resp.authoritative());
}

#[test]
fn test_wg_peer_partition_hides_sibling_tld_and_home() {
    let mut w = world();
    owned_tld_scope(&mut w, "fart", "fart", "gitea.default.fart.", "10.83.6.1");
    owned_tld_scope(&mut w, "fart2", "fart2", "wiki.default.fart2.", "10.99.0.2");
    w.create_network_scope("home");
    w.add_scope_tld("home", "home");
    w.add_record("nginx.default.home.", RecordKind::A, "192.168.122.50");
    w.join_network("10.64.0.5", "fart");
    let peer = "10.64.0.5";

    let own = w.handle_query_from(&build_query("gitea.default.fart.", RecordType::A), peer);
    assert_eq!(expect_single_a(&own), [10, 83, 6, 1]);

    for hidden in ["wiki.default.fart2.", "nginx.default.home."] {
        let resp = w.handle_query_from(&build_query(hidden, RecordType::A), peer);
        assert_eq!(resp.response_code(), ResponseCode::NXDomain);
        assert!(resp.authoritative());
    }
}

#[test]
fn test_lan_resolves_home_global_record() {
    let mut w = world();
    w.create_network_scope("home");
    w.add_scope_tld("home", "home");
    w.add_record("nginx.default.home.", RecordKind::A, "192.168.122.50");
    let query = build_query("nginx.default.home.", RecordType::A);
    let resp = w.handle_query_from(&query, "192.168.122.77");
    assert_eq!(expect_single_a(&resp), [192, 168, 122, 50]);
}

#[test]
fn test_loopback_bypasses_scope_refusal() {
    let mut w = office();
    let query = build_query("example.com.", RecordType::A);
    let resp = w.handle_query_from(&query, "127.0.0.1");
    assert_ne!(resp.response_code(), ResponseCode::Refused);
}

#[test]
fn test_owned_tld_no_record_no_forwarder_nxdomain() {
    let mut w = office();
    let query = build_query("absent.office.", RecordType::A);
    let resp = w.handle_query_from(&query, "192.168.1.1");
    assert_eq!(resp.response_code(), ResponseCode::NXDomain);
    assert!(resp.authoritative());
}

#[test]
fn test_owned_tld_forwards_to_peer() {
    let mut w = office();
    w.peers.push(Some([10, 9, 9, 9]));
    let query = build_query("app.office.", RecordType::A);
    let resp = w.handle_query_from(&query, "192.168.1.1");
    assert_eq!(expect_single_a(&resp), [10, 9, 9, 9]);
    assert_eq!(w.source, AnswerSource::TldPeer);
}

#[test]
fn test_owned_tld_forwarder_failover() {
    let mut w = office();
    w.peers.push(None);
    w.peers.push(Some([10, 8, 8, 8]));
    let query = build_query("svc.office.", RecordType::A);
    let resp = w.handle_query_from(&query, "192.168.1.1");
    assert_eq!(expect_single_a(&resp), [10, 8, 8, 8]);
}

#[test]
fn test_cross_scope_tld_hidden() {
    let mut w = office();
    w.create_network_scope("lab");
    w.add_scope_tld("lab", "lab");
    w.peers.push(Some([10, 5, 5, 5]));
    let query = build_query("secret.lab.", RecordType::A);
    let resp = w.handle_query_from(&query, "192.168.1.1");
    assert_eq!(resp.response_code(), ResponseCode::NXDomain);
    assert!(resp.authoritative());
    assert!(resp.answers().is_empty());
}

#[test]
fn test_partition_does_not_forward_upstream() {
    let mut w = office();
    w.server
        .set_forwarders(vec![SocketAddress::new(ip("203.0.113.1"), 53)]);
    let query = build_query("nothing.office.", RecordType::A);
    let resp = w.handle_query_from(&query, "192.168.1.1");
    assert_eq!(resp.response_code(), ResponseCode::NXDomain);
    assert!(resp.authoritative());
    assert_eq!(w.asked_upstream, 0);
}

#[test]
fn test_non_owned_name_falls_through() {
    let mut w = office();
    let query = build_query("example.com.", RecordType::A);
    let resp = w.handle_query_from(&query, "192.168.1.1");
    assert_eq!(resp.response_code(), ResponseCode::ServFail);
}

#[test]
fn default_recursion_ranges_cover_local_networks_only() {
    let server = DnsServer::new(vec![]);
    for local in [
        "127.0.0.1",
        "192.168.1.10",
        "10.0.0.5",
        "10.64.0.1",
        "172.16.4.4",
        "169.254.1.1",
        "100.64.0.1",
        "::1",
        "fd00::1",
        "fe80::1",
    ] {
        assert!(
            server.may_recurse(ip(local)),
            "{} is a local source and must get recursion",
            local
        );
    }
    for public in [
        "198.51.100.7",
        "8.8.8.8",
        "203.0.113.1",
        "2001:4860:4860::8888",
    ] {
        assert!(
            !server.may_recurse(ip(public)),
            "{} is routable from the internet and must not get recursion",
            public
        );
    }
}

#[test]
fn recursion_guard_sees_through_ipv4_mapped_sources() {
    let mut w = world();
    let query = build_query("not-local.example.", RecordType::A);
    let refused = w.handle_query_from(&query, "::ffff:198.51.100.7");
    assert_eq!(refused.response_code(), ResponseCode::Refused);
    assert_eq!(w.asked_upstream, 0);
    let served = w.handle_query_from(&query, "::ffff:192.168.1.10");
    assert_eq!(served.response_code(), ResponseCode::ServFail);
}

#[test]
fn recursion_ranges_are_replaceable() {
    let mut server = DnsServer::new(vec![]);
    server.set_recursion_cidrs(vec![IpCidr {
        base: ip("198.51.100.0"),
        prefix: 24,
    }]);
    assert!(server.may_recurse(ip("198.51.100.7")));
    assert!(!server.may_recurse(ip("192.168.1.10")));
    server.set_recursion_cidrs(vec![]);
    assert!(!server.may_recurse(ip("127.0.0.1")));
}

#[test]
fn strangers_get_local_data_and_nothing_else() {
    let mut w = world();
    w.server.caching = true;
    w.add_record("here.example.", RecordKind::A, "192.0.2.9");
    let cached = vec![record("there.example.", RecordKind::A, "203.0.113.7")];
    w.cache
        .push(("there.example.".to_string(), Some(RecordKind::A), cached));
    let stranger = "198.51.100.7";
    let here = w.handle_query_from(&build_query("here.example.", RecordType::A), stranger);
    assert_eq!(expect_single_a(&here), [192, 0, 2, 9]);
    let there = w.handle_query_from(&build_query("there.example.", RecordType::A), stranger);
    assert_eq!(there.response_code(), ResponseCode::Refused);
    assert!(there.answers().is_empty());
    assert_eq!(w.provider_lookups, 0);
}

#[test]
fn a_dname_leads_to_a_synthesized_cname() {
    let mut w = world();
    w.add_record("old.example.", RecordKind::DNAME, "new.example.");
    let resp = w.handle_query(&build_query("a.b.old.example.", RecordType::A));
    assert_eq!(resp.response_code(), ResponseCode::NoError);
    assert!(resp.authoritative());
    assert_eq!(resp.answers().len(), 2);
    assert_eq!(u16::from(resp.answers()[0].record_type()), 39);
    assert_eq!(resp.answers()[0].name().to_string(), "old.example.");
    match resp.answers()[1].data() {
        RData::CNAME(c) => assert_eq!(c.0.to_string(), "a.b.new.example."),
        other => panic!("expected CNAME, got {:?}", other),
    }
    assert_eq!(resp.answers()[1].name().to_string(), "a.b.old.example.");
}

#[test]
fn a_cached_negative_is_served() {
    let mut w = world();
    w.server.caching = true;
    let query = build_query("gone.example.", RecordType::A);
    w.negative = Some(NegativeKind::NxDomain);
    assert_eq!(
        w.handle_query(&query).response_code(),
        ResponseCode::NXDomain
    );
    w.negative = Some(NegativeKind::NoData);
    assert_eq!(w.handle_query(&query).response_code(), ResponseCode::NoError);
    assert_eq!(w.asked_upstream, 0);
}

#[test]
fn ipv6_addresses_are_made_from_ipv4_addresses() {
    let mut w = world();
    w.server = DnsServer::new_with_options(vec![], false, Some(0x0064_ff9b << 96), true);
    w.upstream = |query| {
        let asked = wire_qtype(query);
        let mut reply = reply_to(query, Some([192, 0, 2, 1]));
        if asked != Some(1) {
            // No answer but to the question for IPv4 addresses.
            let mut m = Message::from_bytes(&reply).unwrap();
            m.take_answers();
            reply = m.to_bytes().unwrap();
        }
        Some(reply)
    };
    let resp = w.handle_query(&build_query("v4only.example.", RecordType::AAAA));
    assert_eq!(w.source, AnswerSource::Dns64);
    assert_eq!(resp.answers().len(), 1);
    match resp.answers()[0].data() {
        RData::AAAA(a) => assert_eq!(a.0.to_string(), "64:ff9b::c000:201"),
        other => panic!("expected AAAA, got {:?}", other),
    }
    assert_eq!(
        synthesize_dns64_address(0x0064_ff9b << 96, 0xc000_0201),
        (0x0064_ff9b << 96) + 0xc000_0201
    );
}

#[test]
fn a_failing_upstream_leaves_no_response() {
    let mut w = world();
    let query = build_query("example.com.", RecordType::A);
    w.upstream = |_| None;
    match receive(&query) {
        Received::Query(q) => {
            let (mut s, mut action) = Session::begin(&w.server, q, None, None);
            while let Action::Ask(lookup) = action {
                let finding = w.look(&s, lookup, &query);
                action = s.advance(finding);
            }
            assert_eq!(action, Action::RelayUpstream);
            assert!(s.response(action).is_none());
        }
        Received::Answered(_, _) => panic!("a query"),
    }
}

#[test]
fn what_is_no_query_is_answered_at_once() {
    let rcode = |octets: &[u8]| match receive(octets) {
        Received::Answered(r, tag) => (r[3] & 0x0f, tag.rcode(&r)),
        Received::Query(_) => panic!("a query"),
    };
    // A response.
    let mut response = build_query("a.", RecordType::A);
    response[2] |= 0x80;
    assert_eq!(rcode(&response), (4, 4));
    // Another operation.
    let mut status = build_query("a.", RecordType::A);
    status[2] |= 0x10;
    assert_eq!(rcode(&status), (4, 4));
    // No question.
    let mut empty = vec![0u8; 12];
    empty[1] = 9;
    assert_eq!(rcode(&empty), (1, 1));
    // A later version of EDNS: the code is in the OPT record.
    let mut msg = Message::from_bytes(&build_query("a.", RecordType::A)).unwrap();
    let mut edns = hickory_proto::op::Edns::new();
    edns.set_version(1);
    edns.set_max_payload(1232);
    msg.set_edns(edns);
    let octets = msg.to_bytes().unwrap();
    assert_eq!(rcode(&octets), (0, 16));
    match receive(&octets) {
        Received::Answered(r, _) => {
            let parsed = Message::from_bytes(&r).unwrap();
            assert_eq!(u16::from(parsed.response_code()), 16);
            assert_eq!(parsed.extensions().as_ref().unwrap().version(), 0);
        }
        Received::Query(_) => panic!("a query"),
    }
}

#[test]
fn a_tag_knows_the_extended_code() {
    let mut tag = QueryTag::new();
    assert_eq!(tag.source(), AnswerSource::Upstream);
    assert_eq!(tag.rcode(&[0, 0, 0, 5]), 5);
    tag.set(AnswerSource::Local);
    assert_eq!(tag.source(), AnswerSource::Local);
    tag.set_with_rcode(AnswerSource::Error, 16);
    assert_eq!(tag.rcode(&[0, 0, 0, 5]), 16);
}

#[test]
fn a_reply_has_to_match_the_query() {
    let target = SocketAddress::new(ip("192.0.2.53"), 53);
    let query = build_query("eXample.com.", RecordType::A);
    let sent = SentQuery::new(&query, target).unwrap();
    assert!(SentQuery::new(&query[..11], target).is_none());
    let reply = reply_to(&query, Some([192, 0, 2, 1]));
    assert_eq!(sent.judge(target, &reply), Judgement::Accept);
    let other = SocketAddress::new(ip("192.0.2.53"), 54);
    assert_eq!(sent.judge(other, &reply), Judgement::WrongSource);
    let mut renumbered = reply.clone();
    renumbered[1] ^= 1;
    assert_eq!(sent.judge(target, &renumbered), Judgement::WrongId);
    assert_eq!(sent.judge(target, &query[..2]), Judgement::Unreadable);
    let mut bare = query[..12].to_vec();
    bare[5] = 0;
    assert_eq!(sent.judge(target, &bare), Judgement::NoQuestion);
    // The same name, spelled otherwise.
    let respelled = build_query("example.com.", RecordType::A);
    assert_eq!(sent.judge(target, &respelled), Judgement::OtherQuestion);
    let retyped = build_query("eXample.com.", RecordType::AAAA);
    assert_eq!(sent.judge(target, &retyped), Judgement::OtherQuestion);
}

#[test]
fn settings_start_out_as_documented() {
    let mut server = DnsServer::new(vec![]);
    assert_eq!(server.ingress_port, 53);
    assert_eq!(server.udp_shard_count(false, 4), 4);
    assert_eq!(server.udp_shard_count(false, 0), 1);
    assert_eq!(server.udp_shard_count(true, 4), 1);
    server.set_udp_shards(2);
    assert_eq!(server.udp_shard_count(false, 4), 2);
    server.set_ingress_port(5353);
    assert_eq!(server.ingress_port, 5353);
    for i in 0..10 {
        assert_eq!(server.next_forward_socket(), i % 8);
    }
    assert!(server.get_proxy_config().is_none());
    assert!(server.is_overlay_peer(ip("10.64.0.1")));
    assert!(!server.is_overlay_peer(ip("10.128.0.1")));
    assert_eq!(concrete_bind_ip("0.0.0.0:53"), None);
    assert_eq!(concrete_bind_ip("127.0.0.1:53"), Some(ip("127.0.0.1")));
    assert_eq!(ip_from_str("::1"), Some(ip("::1")));
}

#[test]
fn targets_are_tried_until_one_will_do() {
    for (attempt, any_reply, want) in [
        (Attempt::Definitive, false, TargetStep::Accept),
        (Attempt::Unsettled, true, TargetStep::Accept),
        (Attempt::Unsettled, false, TargetStep::Try(1)),
        (Attempt::Failed, true, TargetStep::Try(1)),
    ] {
        assert_eq!(after_target(0, 2, attempt, any_reply), want);
    }
    assert_eq!(
        after_target(1, 2, Attempt::Failed, true),
        TargetStep::Exhausted
    );
}

#[test]
fn a_listener_needs_its_first_socket_and_a_task() {
    assert_eq!(after_bind(0, true), ShardStep::Keep);
    assert_eq!(after_bind(0, false), ShardStep::Fail);
    assert_eq!(after_bind(1, false), ShardStep::Enough);
    assert!(is_live(&[true, false]));
    assert!(!is_live(&[true, true]));
    assert!(!is_live(&[]));
}
