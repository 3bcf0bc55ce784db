//! Domain blocklists: refusal codes, verdicts, caching and rotation.
use hickory_proto::op::{Message, MessageType, OpCode, ResponseCode};
use hickory_proto::rr::{rdata, RData, Record};
use hickory_proto::serialize::binary::{BinDecodable, BinEncodable};
use rolodex::dnsbl::lookup::{
    blocklist_query, conclude, probe_query, probe_targets, read_reply, ReplyProblem,
};
use rolodex::dnsbl::{
    classify, default_refusal_codes, normalize_blocklist_name, resolve_refusal_codes, DnsblAnswer,
    DnsblChecker, DnsblProvider, DnsblVerdict, RefusalCode, DEFAULT_REFUSAL_CODES,
    DEFAULT_REFUSAL_COOLDOWN_SECS, REFUSAL_CODES_NONE,
};

fn ip(octets: [u8; 4]) -> u32 {
    u32::from_be_bytes(octets)
}

#[test]
fn refusal_code_parses_bare_address_and_prefix() {
    let bare = RefusalCode::parse("127.0.0.1").unwrap();
    assert!(bare.matches(ip([127, 0, 0, 1])));
    assert!(!bare.matches(ip([127, 0, 0, 2])));
    assert_eq!(bare.to_string(), "127.0.0.1");

    let range = RefusalCode::parse("127.255.255.0/24").unwrap();
    for last in [252u8, 253, 254, 255] {
        assert!(
            range.matches(ip([127, 255, 255, last])),
            "the Spamhaus error range must cover 127.255.255.{last}, including codes \
             they have not published yet"
        );
    }
    assert!(!range.matches(ip([127, 0, 0, 2])));
    assert_eq!(range.to_string(), "127.255.255.0/24");
}

#[test]
fn refusal_code_masks_base_to_prefix() {
    assert_eq!(
        RefusalCode::parse("127.255.255.254/24").unwrap(),
        RefusalCode::parse("127.255.255.0/24").unwrap()
    );
}

#[test]
fn refusal_code_rejects_malformed() {
    for bad in [
        "",
        "notanip",
        "127.0.0.1/33",
        "127.0.0.1/x",
        "::1",
        "127.0.0.256",
    ] {
        assert!(
            RefusalCode::parse(bad).is_err(),
            "'{bad}' must not parse — a code that silently does not apply is a code \
             that reads as a listing"
        );
    }
}

#[test]
fn default_refusal_codes_all_parse() {
    let parsed = default_refusal_codes();
    assert_eq!(parsed.len(), DEFAULT_REFUSAL_CODES.len());
    for (code, why) in [
        ([127, 255, 255, 252], "Spamhaus: typo in the DNSBL name"),
        (
            [127, 255, 255, 254],
            "Spamhaus: query via a public resolver",
        ),
        ([127, 255, 255, 255], "Spamhaus: excessive queries"),
        ([127, 0, 1, 255], "Spamhaus DBL: IP queries not supported"),
        ([127, 0, 2, 255], "Spamhaus ZRD: IP queries not supported"),
        ([127, 0, 0, 1], "URIBL/SURBL: query blocked"),
        ([127, 0, 0, 255], "URIBL: query blocked"),
    ] {
        let ip = ip(code);
        assert!(
            parsed.iter().any(|c| c.matches(ip)),
            "{ip:#x} must be a refusal code by default ({why})"
        );
    }
    for listing in [
        [127, 0, 0, 2],
        [127, 0, 0, 3],
        [127, 0, 0, 4],
        [127, 0, 0, 10],
    ] {
        let ip = ip(listing);
        assert!(
            !parsed.iter().any(|c| c.matches(ip)),
            "{ip:#x} is a Spamhaus listing and must not be read as a refusal"
        );
    }
}

#[test]
fn resolve_refusal_codes_empty_uses_defaults() {
    let resolved = resolve_refusal_codes(&[]).unwrap();
    assert_eq!(resolved.len(), DEFAULT_REFUSAL_CODES.len());
}

#[test]
fn resolve_refusal_codes_none_disables() {
    let resolved = resolve_refusal_codes(&["none".to_string()]).unwrap();
    assert!(resolved.is_empty());
    assert!(
        resolve_refusal_codes(&["NONE".to_string()])
            .unwrap()
            .is_empty()
    );
}

#[test]
fn resolve_refusal_codes_explicit_does_not_merge_defaults() {
    let resolved = resolve_refusal_codes(&["127.9.9.9".to_string()]).unwrap();
    assert_eq!(resolved.len(), 1);
    assert!(resolved[0].matches(ip([127, 9, 9, 9])));
    assert!(
        !resolved[0].matches(ip([127, 255, 255, 254])),
        "an explicit list is the list; silently adding the defaults would mean an \
         operator cannot narrow it"
    );
}

#[test]
fn resolve_refusal_codes_rejects_none_mixed_with_codes() {
    let err = resolve_refusal_codes(&["none".to_string(), "127.0.0.1".to_string()])
        .expect_err("'none' plus a code is contradictory and must not be guessed at");
    assert!(err.contains("only entry"), "unhelpful error: {err}");
}

#[test]
fn resolve_refusal_codes_rejects_bad_code() {
    assert!(resolve_refusal_codes(&["127.0.0.1".to_string(), "junk".to_string()]).is_err());
}

#[test]
fn classify_reads_refusal_over_listing() {
    let codes = default_refusal_codes();
    let listing = DnsblAnswer::listed(300);
    assert_eq!(classify(Some(&listing), &codes), DnsblVerdict::Listed);

    let mixed = DnsblAnswer {
        codes: vec![
            ip([127, 0, 0, 2]),
            ip([127, 255, 255, 254]),
        ],
        ttl: 300,
    };
    assert_eq!(
        classify(Some(&mixed), &codes),
        DnsblVerdict::Refused(ip([127, 255, 255, 254]))
    );
}

#[test]
fn classify_verdicts() {
    let codes = default_refusal_codes();
    assert_eq!(classify(None, &codes), DnsblVerdict::NotListed);
    assert_eq!(
        classify(Some(&DnsblAnswer::listed(300)), &codes),
        DnsblVerdict::Listed
    );
    assert_eq!(
        classify(
            Some(&DnsblAnswer::single(ip([127, 255, 255, 255]), 300)),
            &codes
        ),
        DnsblVerdict::Refused(ip([127, 255, 255, 255]))
    );
    assert_eq!(
        classify(
            Some(&DnsblAnswer::single(ip([127, 255, 255, 255]), 300)),
            &[]
        ),
        DnsblVerdict::Listed
    );
}

#[test]
fn spelled_refusal_codes_resolve_to_themselves() {
    for codes in [
        default_refusal_codes(),
        resolve_refusal_codes(&["127.255.255.9/24".to_string(), "127.0.0.1".to_string()]).unwrap(),
        Vec::new(),
    ] {
        let p = DnsblProvider {
            refusal_codes: codes.clone(),
            ..DnsblProvider::new("test.example", true)
        };
        assert_eq!(
            resolve_refusal_codes(&p.refusal_code_strings()).unwrap(),
            codes
        );
    }
}

#[test]
fn refusal_code_strings_round_trip() {
    let p = DnsblProvider::new("test.example", true);
    assert_eq!(p.refusal_code_strings().len(), DEFAULT_REFUSAL_CODES.len());
    assert!(
        p.refusal_code_strings()
            .contains(&"127.255.255.0/24".to_string())
    );

    let off = DnsblProvider {
        refusal_codes: Vec::new(),
        ..DnsblProvider::new("test.example", true)
    };
    assert_eq!(
        off.refusal_code_strings(),
        vec![REFUSAL_CODES_NONE.to_string()],
        "a disabled provider must read back as 'none', not as empty — empty means \
         'use the defaults' on the way back in"
    );
}

#[test]
fn test_normalize_blocklist_name() {
    assert_eq!(normalize_blocklist_name("Example.COM."), "example.com");
    assert_eq!(normalize_blocklist_name("example.com"), "example.com");
    assert_eq!(normalize_blocklist_name("."), "");
}

/// A checker whose lookups are answered at once by a function of how many came before.
struct Desk {
    checker: DnsblChecker,
    now: u64,
    count: u32,
    answer: fn(u32) -> Option<DnsblAnswer>,
}

impl Desk {
    fn new(answer: fn(u32) -> Option<DnsblAnswer>) -> Self {
        Desk {
            checker: DnsblChecker::new(),
            now: 1_000_000,
            count: 0,
            answer,
        }
    }

    fn is_name_listed(&mut self, name: &str) -> bool {
        let check = self.checker.is_name_listed(name, self.now);
        for fill in &check.fills {
            let reply = (self.answer)(self.count);
            self.count += 1;
            self.checker.finish_fill(fill, Some(reply), self.now);
        }
        check.listed
    }
}

fn provider(zone: &str, cooldown: Option<u64>) -> DnsblProvider {
    DnsblProvider {
        zone: zone.to_string(),
        enabled: true,
        cooldown,
        ..Default::default()
    }
}

fn refusing(answer: fn(u32) -> Option<DnsblAnswer>, cooldown: Option<u64>) -> Desk {
    let mut desk = Desk::new(answer);
    desk.checker
        .set_config(true, vec![provider("test.example", cooldown)]);
    desk
}

fn listing(answer: fn(u32) -> Option<DnsblAnswer>) -> Desk {
    let mut desk = Desk::new(answer);
    desk.checker
        .set_config(true, vec![provider("dbl.test", None)]);
    desk
}

fn always_listed(_: u32) -> Option<DnsblAnswer> {
    Some(DnsblAnswer::listed(300))
}

fn never_listed(_: u32) -> Option<DnsblAnswer> {
    None
}

fn excessive(_: u32) -> Option<DnsblAnswer> {
    Some(DnsblAnswer::single(ip([127, 255, 255, 255]), 300))
}

fn public_resolver(_: u32) -> Option<DnsblAnswer> {
    Some(DnsblAnswer::single(ip([127, 255, 255, 254]), 300))
}

fn typo(_: u32) -> Option<DnsblAnswer> {
    Some(DnsblAnswer::single(ip([127, 255, 255, 252]), 300))
}

#[test]
fn refusal_code_does_not_list() {
    let mut desk = refusing(excessive, None);
    let name = "one.example.";
    assert!(!desk.is_name_listed(name), "cold query is never blocking");
    assert_eq!(desk.count, 1);
    assert!(
        !desk.is_name_listed(name),
        "127.255.255.255 is 'excessive queries', not a listing"
    );
}

#[test]
fn refusal_rotates_provider_out() {
    let mut desk = refusing(public_resolver, Some(3_600_000));
    assert!(!desk.is_name_listed("one.example."));
    assert_eq!(desk.count, 1);

    let now = desk.now;
    let rotated = desk.checker.rotated_out(now);
    assert_eq!(rotated.len(), 1);
    assert_eq!(rotated[0].zone, "test.example");
    assert_eq!(rotated[0].code, "127.255.255.254");
    assert!(rotated[0].seconds_remaining > 3500);
    assert_eq!(desk.checker.rotated_out_count(now), 1);

    for last in 5..15u8 {
        assert!(!desk.is_name_listed(&format!("h{last}.example.")));
    }
    assert_eq!(
        desk.count, 1,
        "a rotated-out provider must not be queried again"
    );
}

#[test]
fn rotation_expires_after_the_configured_cooldown() {
    let mut desk = refusing(excessive, Some(50));
    let name = "one.example.";
    assert!(!desk.is_name_listed(name));
    assert_eq!(desk.count, 1);
    assert_eq!(desk.checker.rotated_out_count(desk.now), 1);

    desk.now += 80;
    assert_eq!(
        desk.checker.rotated_out_count(desk.now),
        0,
        "the cooldown must lapse on its own"
    );
    assert!(!desk.is_name_listed(name));
    assert_eq!(desk.count, 2);
}

#[test]
fn refusal_is_not_cached_as_a_negative() {
    let mut desk = refusing(typo, Some(30));
    assert!(!desk.is_name_listed("one.example."));
    assert_eq!(desk.count, 1);
    assert_eq!(desk.checker.cache_entries(), 0, "a refusal is not a verdict");
}

fn list_then_refuse(n: u32) -> Option<DnsblAnswer> {
    Some(if n == 0 {
        DnsblAnswer::listed(300)
    } else {
        DnsblAnswer::single(ip([127, 255, 255, 255]), 300)
    })
}

#[test]
fn rotation_keeps_honouring_already_cached_listings() {
    let mut desk = refusing(list_then_refuse, Some(3_600_000));
    let listed = "listed.example.";
    desk.is_name_listed(listed);
    assert!(desk.is_name_listed(listed));

    assert!(!desk.is_name_listed("other.example."));
    assert_eq!(desk.checker.rotated_out_count(desk.now), 1);
    assert!(
        desk.is_name_listed(listed),
        "the cached listing predates the refusal and is still valid"
    );
}

#[test]
fn flush_cache_returns_providers_to_rotation() {
    let mut desk = refusing(public_resolver, Some(3_600_000));
    assert!(!desk.is_name_listed("one.example."));
    assert_eq!(desk.count, 1);
    assert_eq!(desk.checker.rotated_out_count(desk.now), 1);

    desk.checker.flush_cache();
    assert_eq!(desk.checker.rotated_out_count(desk.now), 0);
    assert!(!desk.is_name_listed("third.example."));
    assert_eq!(desk.count, 2);
}

#[test]
fn set_config_returns_providers_to_rotation() {
    let mut desk = refusing(typo, Some(3_600_000));
    assert!(!desk.is_name_listed("one.example."));
    assert_eq!(desk.count, 1);
    assert_eq!(desk.checker.rotated_out_count(desk.now), 1);

    desk.checker
        .set_config(true, vec![DnsblProvider::new("test.example", true)]);
    assert_eq!(desk.checker.rotated_out_count(desk.now), 0);
}

#[test]
fn refusal_detection_can_be_disabled_per_provider() {
    let mut desk = Desk::new(|_| Some(DnsblAnswer::single(ip([127, 0, 0, 1]), 300)));
    desk.checker.set_config(
        true,
        vec![DnsblProvider {
            zone: "test.example".to_string(),
            enabled: true,
            refusal_codes: resolve_refusal_codes(&["none".to_string()]).unwrap(),
            cooldown: None,
        }],
    );
    let name = "one.example.";
    desk.is_name_listed(name);
    assert!(
        desk.is_name_listed(name),
        "with detection off, 127.0.0.1 is read as a listing"
    );
    assert_eq!(desk.checker.rotated_out_count(desk.now), 0);
}

#[test]
fn dnsbl_refusal_rotates_out() {
    let mut desk = Desk::new(|_| Some(DnsblAnswer::single(ip([127, 0, 1, 255]), 300)));
    desk.checker
        .set_config(true, vec![provider("dbl.test", Some(3_600_000))]);
    assert!(!desk.is_name_listed("example.com."));
    assert_eq!(desk.count, 1);
    assert!(
        !desk.is_name_listed("other.example."),
        "127.0.1.255 is the DBL saying 'IP queries not supported', not a listing"
    );
    assert_eq!(desk.checker.rotated_out_count(desk.now), 1);
}

#[test]
fn list_wide_cooldown_defaults_and_rejects_zero() {
    let mut checker = DnsblChecker::new();
    assert_eq!(checker.refusal_cooldown(), DEFAULT_REFUSAL_COOLDOWN_SECS);
    checker.set_refusal_cooldown(120);
    assert_eq!(checker.refusal_cooldown(), 120);
    checker.set_refusal_cooldown(0);
    assert_eq!(checker.refusal_cooldown(), DEFAULT_REFUSAL_COOLDOWN_SECS);
}

#[test]
fn test_resolver_unavailable_skips_lookups() {
    let mut desk = listing(always_listed);
    desk.checker.set_resolver_available(false);
    assert!(!desk.is_name_listed("one.example."));
    assert!(!desk.is_name_listed("evil.example.com"));
    assert_eq!(
        desk.count, 0,
        "no lookups should be attempted while :53 is down"
    );

    desk.checker.set_resolver_available(true);
    desk.is_name_listed("one.example.");
    assert!(desk.is_name_listed("one.example."));
    desk.is_name_listed("evil.example.com");
    assert!(desk.is_name_listed("evil.example.com"));
    assert!(desk.count >= 1);
}

/// What a forwarder replies to a query: listed names resolve, others do not exist.
fn forwarder_reply(query: &[u8]) -> Vec<u8> {
    let req = Message::from_bytes(query).unwrap();
    let mut resp = Message::new();
    resp.set_id(req.id());
    resp.set_message_type(MessageType::Response);
    resp.set_op_code(OpCode::Query);
    for q in req.queries() {
        resp.add_query(q.clone());
    }
    let q = req.queries().first().unwrap();
    if q.name().to_ascii().contains("listed") {
        resp.set_response_code(ResponseCode::NoError);
        resp.add_answer(Record::from_rdata(
            q.name().clone(),
            111,
            RData::A(rdata::A([127, 0, 0, 2].into())),
        ));
    } else {
        resp.set_response_code(ResponseCode::NXDomain);
    }
    resp.to_bytes().unwrap()
}

#[test]
fn recursive_rbl_forwarder_classifies_listed_and_not_listed() {
    let query = blocklist_query("evil.listed.example.").unwrap();
    let listed = read_reply(&forwarder_reply(&query)).unwrap();
    assert_eq!(
        listed,
        Some(DnsblAnswer::single(ip([127, 0, 0, 2]), 111)),
        "listed name must resolve to an A and its codes and TTL"
    );

    let query = blocklist_query("good.example.").unwrap();
    let clean = read_reply(&forwarder_reply(&query)).unwrap();
    assert_eq!(clean, None, "NXDOMAIN means not listed");
}

#[test]
fn a_reply_that_settles_nothing_says_why() {
    assert_eq!(read_reply(&[1, 2, 3]), Err(ReplyProblem::Unreadable));
    let mut resp = Message::new();
    resp.set_message_type(MessageType::Response);
    resp.set_response_code(ResponseCode::ServFail);
    assert_eq!(
        read_reply(&resp.to_bytes().unwrap()),
        Err(ReplyProblem::Code(2))
    );
    assert_eq!(conclude(5, &[]), None);
    assert_eq!(conclude(3, &[]), Some(None));
    assert_eq!(conclude(0, &[]), Some(None));
}

#[test]
fn the_probe_asks_for_a_name_that_resolves() {
    let query = Message::from_bytes(&probe_query().unwrap()).unwrap();
    assert_eq!(query.id(), 0x5311);
    assert!(query.recursion_desired());
    assert_eq!(query.queries()[0].name().to_string(), "one.one.one.one.");
    assert_eq!(probe_targets(), vec!["1.1.1.1:53", "8.8.8.8:53"]);
}

#[test]
fn flush_cache_forces_a_fresh_lookup() {
    let mut desk = listing(always_listed);
    let name = "one.example.";
    desk.is_name_listed(name);
    assert!(desk.is_name_listed(name));
    assert_eq!(desk.count, 1);

    desk.checker.flush_cache();
    desk.is_name_listed(name);
    assert!(desk.is_name_listed(name));
    assert_eq!(desk.count, 2);
}

#[test]
fn test_is_name_listed_listed() {
    let mut desk = listing(always_listed);
    desk.is_name_listed("googleadservices.com.");
    assert!(desk.is_name_listed("googleadservices.com."));
}

#[test]
fn test_is_name_listed_not_listed() {
    let mut desk = listing(never_listed);
    assert!(!desk.is_name_listed("example.com."));
    assert!(!desk.is_name_listed("example.com."));
}

#[test]
fn test_is_name_listed_disabled() {
    let mut desk = Desk::new(always_listed);
    desk.checker
        .set_config(false, vec![provider("dbl.test", None)]);
    assert!(!desk.is_name_listed("googleadservices.com."));
    assert!(!desk.is_name_listed("googleadservices.com."));
}

#[test]
fn test_is_name_listed_caches() {
    let mut desk = listing(always_listed);
    desk.is_name_listed("Ads.Example.com.");
    assert!(desk.is_name_listed("Ads.Example.com."));
    assert_eq!(desk.count, 1);
    assert!(desk.is_name_listed("ads.example.com"));
    assert_eq!(desk.count, 1);
}

#[test]
fn test_expired_positive_still_blocks_while_refreshing() {
    let mut desk = listing(|_| Some(DnsblAnswer::listed(0)));
    desk.is_name_listed("ads.example.com.");
    assert!(desk.is_name_listed("ads.example.com."));
    let after_first = desk.count;
    assert!(after_first >= 1, "the cold check must fire a fill");

    for _ in 0..5 {
        assert!(
            desk.is_name_listed("ads.example.com."),
            "an expired positive must keep blocking, not unblock the name"
        );
    }
    desk.now += 20;
    desk.is_name_listed("ads.example.com.");
    assert!(
        desk.count > after_first,
        "a stale positive must fire a refill"
    );
}

#[test]
fn test_enabled_but_empty_dnsbl_is_noop() {
    let mut desk = Desk::new(always_listed);
    desk.checker.set_config(true, vec![]);
    assert!(!desk.is_name_listed("googleadservices.com."));
    assert_eq!(desk.count, 0);
}

#[test]
fn test_dnsbl_get_set_config() {
    let mut checker = DnsblChecker::new();
    let (enabled, providers) = checker.get_config();
    assert!(!enabled);
    assert!(providers.is_empty());
    assert!(!checker.is_enabled());

    checker.set_config(true, vec![provider("dbl.spamhaus.org", None)]);
    let (enabled, providers) = checker.get_config();
    assert!(enabled);
    assert_eq!(providers.len(), 1);
    assert_eq!(providers[0].zone, "dbl.spamhaus.org");
    assert!(checker.is_enabled());
}

#[test]
fn a_disabled_provider_is_not_queried() {
    let mut desk = Desk::new(always_listed);
    assert!(!desk.is_name_listed("one.example."));
    assert_eq!(desk.count, 0);
}

#[test]
fn a_running_lookup_is_not_doubled() {
    let mut desk = listing(always_listed);
    let first = desk.checker.is_name_listed("one.example.", desk.now);
    assert_eq!(first.fills.len(), 1);
    assert_eq!(first.fills[0].query, "one.example.dbl.test");
    let second = desk.checker.is_name_listed("one.example.", desk.now);
    assert_eq!(second.fills.len(), 0);
}

#[test]
fn default_codes_are_what_their_spelling_says() {
    let codes = default_refusal_codes();
    for (code, spelling) in codes.iter().zip(DEFAULT_REFUSAL_CODES) {
        assert_eq!(RefusalCode::parse(spelling).unwrap(), *code);
        assert_eq!(code.to_string(), spelling);
    }
}
