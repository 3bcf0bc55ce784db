//! Forwarders: their specifications, tiers and health.
use rolodex::addr::{IpAddress, SocketAddress};
use rolodex::forwarder::{
    by_preference, carry_health, Breakers, Forwarder, ForwarderError, Health, Preference,
    Transport, DEFAULT_DOH_PATH, FAILURE_THRESHOLD,
};

fn parse(spec: &str) -> Result<Forwarder, ForwarderError> {
    Forwarder::parse(spec, &mut Breakers::default())
}

const NOW: u64 = 1_000;

#[test]
fn bare_address_is_plaintext_udp() {
    let f = parse("8.8.8.8:53").expect("parse");
    assert_eq!(f.transport, Transport::Do53Udp);
    assert_eq!(f.addr, SocketAddress::new(IpAddress::V4(0x0808_0808), 53));
    assert!(f.server_name.is_none());
    assert!(f.path.is_none());
}

#[test]
fn plaintext_label_stays_the_bare_address() {
    assert_eq!(
        parse("8.8.8.8:53").expect("parse").label,
        "8.8.8.8:53"
    );
    assert_eq!(
        parse("udp://8.8.8.8:53").expect("parse").label,
        "8.8.8.8:53"
    );
}

#[test]
fn secure_labels_match_the_historical_spelling() {
    let doh =
        parse("https://cloudflare-dns.com@1.1.1.1:443/dns-query").expect("parse");
    assert_eq!(doh.label, "https://cloudflare-dns.com");
    let dot = parse("tls://dns.google@8.8.8.8:853").expect("parse");
    assert_eq!(dot.label, "tls://dns.google");
}

#[test]
fn parses_every_transport() {
    for (spec, want) in [
        ("8.8.8.8:53", Transport::Do53Udp),
        ("udp://8.8.8.8:53", Transport::Do53Udp),
        ("tcp://8.8.8.8:53", Transport::Do53Tcp),
        ("tls://dns.google@8.8.8.8:853", Transport::Dot),
        ("dot://dns.google@8.8.8.8:853", Transport::Dot),
        (
            "https://cloudflare-dns.com@1.1.1.1/dns-query",
            Transport::Doh,
        ),
        ("quic://dns.adguard.com@94.140.14.14:853", Transport::Doq),
        ("doq://dns.adguard.com@94.140.14.14:853", Transport::Doq),
    ] {
        let f = parse(spec).unwrap_or_else(|e| panic!("{spec}: {e:?}"));
        assert_eq!(f.transport, want, "{spec}");
    }
}

#[test]
fn default_ports_come_from_the_transport() {
    assert_eq!(
        parse("udp://8.8.8.8")
            .expect("parse")
            .addr
            .port(),
        53
    );
    assert_eq!(
        parse("tls://dns.google@8.8.8.8")
            .expect("parse")
            .addr
            .port(),
        853
    );
    assert_eq!(
        parse("https://cloudflare-dns.com@1.1.1.1")
            .expect("parse")
            .addr
            .port(),
        443
    );
    assert_eq!(
        parse("quic://dns.adguard.com@94.140.14.14")
            .expect("parse")
            .addr
            .port(),
        853
    );
}

#[test]
fn doh_defaults_its_path() {
    let f = parse("https://cloudflare-dns.com@1.1.1.1").expect("parse");
    assert_eq!(f.path.as_deref(), Some(DEFAULT_DOH_PATH));
}

#[test]
fn encrypted_forwarder_may_omit_the_name_and_validate_the_ip() {
    let f = parse("https://1.1.1.1/dns-query").expect("parse");
    assert_eq!(f.hostname.as_deref(), Some("1.1.1.1"));
    assert!(f.server_name.is_some());
}

#[test]
fn ipv6_parses_bracketed_and_bare() {
    assert_eq!(
        parse("udp://[2001:4860:4860::8888]:53")
            .expect("parse")
            .addr
            .port(),
        53
    );
    assert_eq!(
        parse("tls://dns.google@[2001:4860:4860::8888]")
            .expect("parse")
            .addr
            .port(),
        853
    );
}

#[test]
fn rejects_nonsense() {
    for spec in [
        "",
        "   ",
        "gopher://8.8.8.8:53",
        "udp://",
        "udp://not-an-ip",
        "udp://name@8.8.8.8:53",
        "tls://dns.google@8.8.8.8:853/dns-query",
        "tls://@8.8.8.8:853",
    ] {
        assert!(
            parse(spec).is_err(),
            "expected {spec:?} to be rejected"
        );
    }
}

#[test]
fn preference_is_derived_from_the_forwarder() {
    let cases = [
        ("https://cloudflare-dns.com@1.1.1.1", Preference::Encrypted),
        ("tls://dns.google@8.8.8.8:853", Preference::Encrypted),
        ("quic://dns.adguard.com@94.140.14.14", Preference::Encrypted),
        ("tls://dns.home@192.168.1.5:853", Preference::Encrypted),
        ("192.168.122.1:53", Preference::PlaintextPrivate),
        ("10.0.0.53:53", Preference::PlaintextPrivate),
        ("127.0.0.53:53", Preference::PlaintextPrivate),
        ("8.8.8.8:53", Preference::PlaintextPublic),
        ("1.1.1.1:53", Preference::PlaintextPublic),
    ];
    for (spec, want) in cases {
        let f = parse(spec).unwrap_or_else(|e| panic!("{spec}: {e:?}"));
        assert_eq!(f.preference(), want, "{spec}");
    }
}

#[test]
fn encrypted_outranks_private_which_outranks_public() {
    assert!(Preference::Encrypted < Preference::PlaintextPrivate);
    assert!(Preference::PlaintextPrivate < Preference::PlaintextPublic);
}

#[test]
fn by_preference_groups_and_keeps_order_within_a_tier() {
    let forwarders: Vec<Forwarder> = [
        "8.8.8.8:53",
        "https://cloudflare-dns.com@1.1.1.1",
        "192.168.122.1:53",
        "1.1.1.1:53",
        "tls://dns.google@8.8.8.8:853",
    ]
    .iter()
    .map(|s| parse(s).expect("parse"))
    .collect();

    let [encrypted, private, public] = by_preference(&forwarders);
    assert_eq!(
        encrypted
            .iter()
            .map(|f| f.label.as_str())
            .collect::<Vec<_>>(),
        ["https://cloudflare-dns.com", "tls://dns.google"]
    );
    assert_eq!(
        private.iter().map(|f| f.label.as_str()).collect::<Vec<_>>(),
        ["192.168.122.1:53"]
    );
    assert_eq!(
        public.iter().map(|f| f.label.as_str()).collect::<Vec<_>>(),
        ["8.8.8.8:53", "1.1.1.1:53"]
    );
}

#[test]
fn by_preference_deduplicates_across_source_lists() {
    let forwarders: Vec<Forwarder> = [
        "https://cloudflare-dns.com@1.1.1.1/dns-query",
        "8.8.8.8:53",
        "https://cloudflare-dns.com@1.1.1.1/dns-query",
        "8.8.8.8:53",
    ]
    .iter()
    .map(|s| parse(s).expect("parse"))
    .collect();

    let [encrypted, _, public] = by_preference(&forwarders);
    assert_eq!(
        encrypted.len(),
        1,
        "duplicate encrypted upstream not folded"
    );
    assert_eq!(public.len(), 1, "duplicate plaintext forwarder not folded");
}

#[test]
fn round_trips_through_its_spec() {
    for spec in [
        "8.8.8.8:53",
        "tcp://8.8.8.8:53",
        "tls://dns.google@8.8.8.8:853",
        "https://cloudflare-dns.com@1.1.1.1:443/dns-query",
        "quic://dns.adguard.com@94.140.14.14:853",
    ] {
        let parsed = parse(spec).unwrap_or_else(|e| panic!("{spec}: {e:?}"));
        let reparsed = parse(&parsed.to_spec())
            .unwrap_or_else(|e| panic!("{spec} -> {}: {e:?}", parsed.to_spec()));
        assert_eq!(reparsed.label, parsed.label, "{spec}");
        assert_eq!(reparsed.transport, parsed.transport, "{spec}");
        assert_eq!(reparsed.addr, parsed.addr, "{spec}");
    }
}

#[test]
fn health_opens_only_after_the_threshold() {
    let mut health = Health::default();
    for _ in 0..FAILURE_THRESHOLD - 1 {
        health.record_failure(NOW);
        assert!(
            health.is_usable(NOW),
            "opened before {FAILURE_THRESHOLD} failures"
        );
    }
    health.record_failure(NOW);
    assert!(
        !health.is_usable(NOW),
        "did not open at {FAILURE_THRESHOLD} failures"
    );
}

#[test]
fn health_closes_on_success() {
    let mut health = Health::default();
    for _ in 0..FAILURE_THRESHOLD {
        health.record_failure(NOW);
    }
    assert!(!health.is_usable(NOW));

    health.record_success();
    assert!(health.is_usable(NOW));
    assert_eq!(health.failures(), 0);
}

#[test]
fn health_is_carried_across_a_reprogramming() {
    let mut breakers = Breakers::default();
    let existing = vec![Forwarder::parse("8.8.8.8:53", &mut breakers).expect("parse")];
    for _ in 0..FAILURE_THRESHOLD {
        breakers.record_failure(&existing[0], NOW);
    }
    assert!(!existing[0].is_usable(&breakers, NOW));

    let mut incoming = vec![
        Forwarder::parse("8.8.8.8:53", &mut breakers).expect("parse"),
        Forwarder::parse("1.1.1.1:53", &mut breakers).expect("parse"),
    ];
    assert!(
        incoming[0].is_usable(&breakers, NOW),
        "a fresh parse starts healthy"
    );

    carry_health(&existing, &mut incoming);
    assert!(
        !incoming[0].is_usable(&breakers, NOW),
        "health was not carried over"
    );
    assert!(
        incoming[1].is_usable(&breakers, NOW),
        "an unrelated forwarder inherited health"
    );
}

#[test]
fn tiers_share_the_breakers_of_their_list() {
    let mut breakers = Breakers::default();
    let list: Vec<Forwarder> = ["tls://dns.google@8.8.8.8", "192.168.1.1", "9.9.9.9"]
        .iter()
        .map(|s| Forwarder::parse(s, &mut breakers).expect("parse"))
        .collect();
    let [encrypted, private, public] = by_preference(&list);
    for _ in 0..FAILURE_THRESHOLD {
        breakers.record_failure(&encrypted[0], NOW);
        breakers.record_failure(&list[2].clone(), NOW);
    }
    assert!(!list[0].is_usable(&breakers, NOW));
    assert!(!public[0].is_usable(&breakers, NOW));
    assert!(list[1].is_usable(&breakers, NOW) && private[0].is_usable(&breakers, NOW));

    breakers.record_success(&list[0]);
    assert!(encrypted[0].is_usable(&breakers, NOW));
    assert_eq!(breakers.health(list[0].breaker).failures(), 0);
    assert_eq!(
        breakers.health(list[2].breaker).failures(),
        FAILURE_THRESHOLD
    );
}
