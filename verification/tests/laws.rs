//! What holds of the library as a whole, on concrete values.
use std::cmp::Ordering;

use rolodex::addr::{
    ip_from_str, ip_to_string, ipv4_from_str, ipv4_to_string, ipv6_from_str, socket_from_chars,
    socket_to_string, IpAddress, IpCidr, SocketAddress,
};
use rolodex::codec::{base64_decode, base64url_decode};
use rolodex::dns_server::access::{canonical_ip, default_overlay_cidrs, default_recursion_cidrs};
use rolodex::dns_server::records::{db_record_to_dns_record, dns_record_to_db_record};
use rolodex::dnsbl::mask_v4;
use rolodex::dnssec::keys::{generate_pkcs8, to_dnskey_form};
use rolodex::dnssec::{
    canonical_name, canonical_name_cmp, canonical_rdata, encode_type_bitmap, generate_key,
    now_secs, sign_rrset, verify_rrsig, ClockError, DnssecAlgorithm, KeyError, KeyType, Nsec,
    NsecError, RrsetToSign, Rrsig, RrsigError, SigningError, SigningKey, VerifyError,
};
use rolodex::dnssec_validate::base32hex;
use rolodex::forwarder::{
    Breakers, Forwarder, ForwarderError, Health, Transport, OPEN_COOLDOWN_MS,
};
use rolodex::message::ResourceRecord;
use rolodex::names::{name_in_zone, normalize_name};
use rolodex::record::{DnsRecord, RecordKind};
use rolodex::wire_name::Name;

const KINDS: [RecordKind; 11] = [
    RecordKind::A,
    RecordKind::AAAA,
    RecordKind::CNAME,
    RecordKind::MX,
    RecordKind::TXT,
    RecordKind::NS,
    RecordKind::SOA,
    RecordKind::SRV,
    RecordKind::PTR,
    RecordKind::NSEC,
    RecordKind::RRSIG,
];

fn record(name: &str, kind: RecordKind, value: &str) -> DnsRecord {
    DnsRecord {
        id: None,
        name: name.to_string(),
        record_type: kind,
        value: value.to_string(),
        ttl: 300,
        priority: 0,
    }
}

#[test]
fn mnemonics_and_codes_identify_their_types() {
    for kind in KINDS {
        assert_eq!(RecordKind::parse(kind.as_str()), Some(kind));
        assert_eq!(RecordKind::from_wire_type(kind.wire_type()), Some(kind));
    }
    assert_eq!(RecordKind::parse("nonsense"), None);
}

#[test]
fn canonical_order_is_an_order() {
    let names = ["example.com.", "a.example.com.", "Z.a.example.com", "b.example.com."];
    for (i, a) in names.iter().enumerate() {
        for (j, b) in names.iter().enumerate() {
            assert_eq!(canonical_name_cmp(a, b), i.cmp(&j));
        }
    }
    assert_eq!(
        canonical_name_cmp("Example.com", "example.COM."),
        Ordering::Equal
    );
}

#[test]
fn normalizing_settles_case_and_dots() {
    for name in ["WWW.Example.Com", "www.example.com.", "www.example.com.."] {
        assert_eq!(normalize_name(name), "www.example.com.");
        assert_eq!(normalize_name(&normalize_name(name)), normalize_name(name));
    }
    assert!(name_in_zone("www.example.com.", "example.com."));
    assert!(!name_in_zone("notexample.com.", "example.com."));
}

#[test]
fn base64_is_decoded_canonically() {
    assert_eq!(base64_decode("AAEC"), Some(vec![0, 1, 2]));
    assert_eq!(base64_decode("AAE="), Some(vec![0, 1]));
    assert_eq!(base64_decode("AAE"), None);
    assert_eq!(base64_decode("AAF="), None);
    assert_eq!(base64url_decode("-_8"), Some(vec![0xfb, 0xff]));
    assert_eq!(base64url_decode("-_9"), None);
    assert_eq!(base64url_decode("-_8="), None);
}

#[test]
fn addresses_survive_their_text() {
    for x in [0u32, 1, 0x7f00_0001, 0xc0a8_0a63, u32::MAX] {
        assert_eq!(ipv4_from_str(&ipv4_to_string(x)), Some(x));
    }
    assert_eq!(ipv4_from_str("1.2.3"), None);
    assert_eq!(ipv4_from_str("01.2.3.4"), None);
    for x in [0u128, 1, 0x2001_0db8 << 96, u128::MAX] {
        let text = ip_to_string(IpAddress::V6(x));
        assert_eq!(ip_from_str(&text), Some(IpAddress::V6(x)));
    }
    assert_eq!(ip_to_string(IpAddress::V6(1)), "::1");
    assert_eq!(ipv6_from_str("::g"), None);
    for address in [
        SocketAddress::new(IpAddress::V4(0x0808_0808), 53),
        SocketAddress::new(IpAddress::V6(1), 853),
    ] {
        let text: Vec<char> = socket_to_string(address).chars().collect();
        assert_eq!(socket_from_chars(&text), Some(address));
    }
    assert_eq!(
        socket_to_string(SocketAddress::new(IpAddress::V6(1), 853)),
        "[::1]:853"
    );
}

#[test]
fn prefixes_hold_their_addresses() {
    let range = IpCidr {
        base: IpAddress::V4(0x0a40_0000),
        prefix: 10,
    };
    assert!(range.contains(IpAddress::V4(0x0a7f_ffff)));
    assert!(!range.contains(IpAddress::V4(0x0a80_0000)));
    assert!(!range.contains(IpAddress::V6(0x0a7f_ffff)));
    let all = IpCidr {
        base: IpAddress::V6(0),
        prefix: 0,
    };
    assert!(all.contains(IpAddress::V6(u128::MAX)));
}

#[test]
fn mapped_senders_are_ipv4_senders() {
    let mapped = IpAddress::V6(0xffff_0a40_0001);
    assert_eq!(canonical_ip(mapped), IpAddress::V4(0x0a40_0001));
    assert_eq!(canonical_ip(IpAddress::V6(1)), IpAddress::V6(1));
    let peer = IpAddress::V4(0x0a40_0001);
    assert!(default_overlay_cidrs().iter().any(|c| c.contains(peer)));
    assert!(default_recursion_cidrs().iter().any(|c| c.contains(peer)));
}

#[test]
fn names_and_numbers_identify_algorithms_and_key_types() {
    assert_eq!(
        DnssecAlgorithm::parse("ED25519"),
        Some(DnssecAlgorithm::Ed25519)
    );
    assert_eq!(DnssecAlgorithm::parse("\u{130}d25519"), None);
    assert_eq!(DnssecAlgorithm::Ed25519.number(), 15);
    for key_type in [KeyType::KSK, KeyType::ZSK] {
        assert_eq!(KeyType::parse(key_type.as_str()), Some(key_type));
    }
    assert_eq!(KeyType::parse("zsk"), Some(KeyType::ZSK));
    assert_eq!(KeyType::parse("\u{df}sk"), None);
}

#[test]
fn a_bitmap_depends_on_the_set_alone() {
    assert_eq!(
        encode_type_bitmap(&[47, 1, 46, 1, 15]),
        encode_type_bitmap(&[1, 15, 46, 47])
    );
}

#[test]
fn an_nsec_survives_storage() {
    let nsec = Nsec {
        next_owner: "b.example.com.".to_string(),
        types: vec![RecordKind::RRSIG, RecordKind::A],
    };
    let parsed = Nsec::parse(&nsec.to_value()).unwrap();
    assert_eq!(parsed.to_value(), nsec.to_value());
    let stored = record("a.example.com.", RecordKind::NSEC, &nsec.to_value());
    assert_eq!(canonical_rdata(&stored), nsec.rdata());
    assert!(matches!(Nsec::parse("  "), Err(NsecError::Empty)));
    match Nsec::parse("b. WAT") {
        Err(NsecError::UnknownType(word)) => assert_eq!(word, "WAT"),
        other => panic!("unexpected {other:?}"),
    }
}

#[test]
fn every_malformed_rrsig_has_its_error() {
    let error = |value: &str| Rrsig::parse(value).unwrap_err();
    assert_eq!(error("A 15 2 300"), RrsigError::TooFewFields(4));
    assert_eq!(
        error("NOPE 15 2 300 1 2 3 example.com. AAAA"),
        RrsigError::UnknownType
    );
    assert_eq!(
        error("A 99 2 300 1 2 3 example.com. AAAA"),
        RrsigError::UnknownAlgorithm
    );
    assert_eq!(
        error("A 15 999 300 1 2 3 example.com. AAAA"),
        RrsigError::BadNumber
    );
    assert_eq!(
        error("A 15 2 300 1 2 3 example.com. !"),
        RrsigError::BadSignature
    );
}

fn key() -> SigningKey {
    let pair = generate_key("example.com.", DnssecAlgorithm::Ed25519, KeyType::ZSK).unwrap();
    SigningKey::from_pkcs8(DnssecAlgorithm::Ed25519, KeyType::ZSK, &pair.private_key).unwrap()
}

fn to_sign<'a>(zone: &'a str, owner: &'a str, rrset: &'a [DnsRecord]) -> RrsetToSign<'a> {
    RrsetToSign {
        signer_zone: zone,
        owner,
        type_covered: RecordKind::A,
        original_ttl: 300,
        rrset,
        inception: 1,
        expiration: 2,
    }
}

#[test]
fn every_refusal_to_sign_has_its_error() {
    let key = key();
    let error = |set: RrsetToSign| sign_rrset(&key, &set).unwrap_err();
    let good = [record("a.example.com.", RecordKind::A, "192.0.2.1")];
    let bad = [record("a.example.com.", RecordKind::A, "x")];
    assert_eq!(
        error(to_sign("example.com.", "a.example.com.", &[])),
        SigningError::EmptyRrset
    );
    assert_eq!(
        error(to_sign("example.com.", "a.example.com.", &bad)),
        SigningError::CannotEncode
    );
    assert_eq!(
        error(to_sign("example.com.", "a..b", &good)),
        SigningError::BadOwner
    );
    assert_eq!(
        error(to_sign("a..b", "a.example.com.", &good)),
        SigningError::BadSigner
    );
    assert_eq!(
        error(RrsetToSign {
            type_covered: RecordKind::RRSIG,
            ..to_sign("example.com.", "a.example.com.", &good)
        }),
        SigningError::SignsSignatures
    );
    let long = [record(
        "a.example.com.",
        RecordKind::TXT,
        &"x".repeat(70_000),
    )];
    assert_eq!(
        error(RrsetToSign {
            type_covered: RecordKind::TXT,
            ..to_sign("example.com.", "a.example.com.", &long)
        }),
        SigningError::RdataTooLong
    );
}

#[test]
fn every_failed_verification_has_its_error() {
    let key = key();
    let rrset = [record("a.example.com.", RecordKind::A, "192.0.2.1")];
    let value = sign_rrset(&key, &to_sign("example.com.", "a.example.com.", &rrset)).unwrap();
    let verify = |value: &str, owner: &str| verify_rrsig(value, owner, &rrset, key.public_key());
    assert_eq!(verify(&value, "a.example.com."), Ok(()));
    assert_eq!(
        verify("A", "a.example.com."),
        Err(VerifyError::Malformed(RrsigError::TooFewFields(1)))
    );
    assert_eq!(
        verify(&value, "a..b"),
        Err(VerifyError::Unsignable(SigningError::BadOwner))
    );
    assert_eq!(verify(&value, "b.example.com."), Err(VerifyError::Rejected));
    let rsa = value.replacen("15", "8", 1);
    assert_eq!(
        verify(&rsa, "a.example.com."),
        Err(VerifyError::Unsupported)
    );
}

#[test]
fn keys_that_cannot_be_made_or_loaded_say_so() {
    let rsa = generate_key("example.com.", DnssecAlgorithm::RsaSha256, KeyType::ZSK);
    assert!(matches!(rsa, Err(KeyError::NotGenerated)));
    let rsa = SigningKey::from_pkcs8(DnssecAlgorithm::RsaSha256, KeyType::ZSK, &[1, 2, 3]);
    assert!(matches!(rsa, Err(KeyError::Unsupported)));
    let bad = SigningKey::from_pkcs8(DnssecAlgorithm::Ed25519, KeyType::ZSK, &[1, 2, 3]);
    assert!(matches!(bad, Err(KeyError::BadMaterial(_))));
    // A compressed point, a point of another curve, and a key that no document holds.
    let p256 = DnssecAlgorithm::EcdsaP256Sha256;
    assert_eq!(
        to_dnskey_form(p256, &[2; 33]),
        Err(KeyError::NotUncompressed)
    );
    assert_eq!(to_dnskey_form(p256, &[4; 97]), Err(KeyError::WrongLength(96)));
    assert_eq!(to_dnskey_form(p256, &[4; 65]), Ok(vec![4; 64]));
    let hollow = SigningKey {
        pkcs8: vec![],
        ..key()
    };
    assert_eq!(
        hollow.sign(b"message"),
        Err(KeyError::BadMaterial("InvalidEncoding".to_string()))
    );
    let hollow = SigningKey {
        algorithm: p256,
        ..hollow
    };
    assert_eq!(
        hollow.sign(b"message"),
        Err(KeyError::SigningFailed("InvalidEncoding".to_string()))
    );
    let rsa = SigningKey {
        algorithm: DnssecAlgorithm::RsaSha256,
        ..hollow
    };
    assert_eq!(rsa.sign(b"message"), Err(KeyError::Unsupported));
}

#[test]
fn a_signing_time_fits_32_bits() {
    assert_eq!(now_secs(Ok(1_700_000_000)), Ok(1_700_000_000));
    let early = "a second too early".to_string();
    assert_eq!(
        now_secs(Err(early.clone())),
        Err(ClockError::BeforeEpoch(early))
    );
    assert_eq!(now_secs(Ok(1 << 32)), Err(ClockError::PastLimit));
}

#[test]
fn records_have_their_wire_form() {
    let octets = |kind, value: &str| canonical_rdata(&record("a.", kind, value)).unwrap();
    assert_eq!(
        octets(RecordKind::SSHFP, "4 2 0aff"),
        vec![4, 2, 0x0a, 0xff]
    );
    assert_eq!(octets(RecordKind::TLSA, "3 1 1 00FF"), vec![3, 1, 1, 0, 0xff]);
    assert_eq!(octets(RecordKind::URI, "10 1 1"), vec![0, 10, 0, 1, 0x31]);
    assert_eq!(
        octets(RecordKind::URI, "10 1  ftp://a b "),
        b"\x00\x0a\x00\x01ftp://a b".to_vec()
    );
    let mut srv = vec![0, 0, 0, 5, 0x14, 0x95];
    srv.extend(canonical_name("host.example.").unwrap());
    assert_eq!(octets(RecordKind::SRV, "5 5269 host.example."), srv);
    assert_eq!(
        rolodex::svcb::canonical_rdata("1 . alpn=h2,h3 port=443"),
        Some(vec![
            0, 1, 0, 0, 1, 0, 6, 2, b'h', b'2', 2, b'h', b'3', 0, 3, 0, 2, 1, 0xbb
        ])
    );
    assert_eq!(rolodex::svcb::canonical_rdata("x ."), None);
}

#[test]
fn a_cached_address_is_served_as_it_came() {
    let answer = ResourceRecord {
        name: Name::from_ascii("a.example.com.").unwrap(),
        rtype: 1,
        ttl: 60,
        rdata: Some(vec![192, 0, 2, 1]),
    };
    let stored = dns_record_to_db_record(&answer).unwrap();
    assert_eq!(stored.value, "192.0.2.1");
    let served = db_record_to_dns_record(&stored).unwrap();
    assert_eq!(served.name, answer.name);
    assert_eq!(served.rtype, 1);
    assert_eq!(served.ttl, 60);
    assert_eq!(served.rdata, answer.rdata);
}

#[test]
fn cached_values_are_texts() {
    let stored = |rtype: u16, rdata: &[u8]| {
        dns_record_to_db_record(&ResourceRecord {
            name: Name::from_ascii("a.").unwrap(),
            rtype,
            ttl: 60,
            rdata: Some(rdata.to_vec()),
        })
    };
    assert_eq!(
        stored(16, b"\x02ab\x02c\xff").unwrap().value,
        "abc\u{fffd}"
    );
    let mx = stored(15, b"\x00\x0a\x04mail\x00").unwrap();
    assert_eq!((mx.value.as_str(), mx.priority), ("mail.", 10));
    assert_eq!(stored(28, &[0; 16]).unwrap().value, "::");
    assert!(stored(6, &[0; 16]).is_none());
}

#[test]
fn names_compare_without_case() {
    let name = |s: &str| Name::from_ascii(s).unwrap();
    assert!(name("A.b.").is(&name("a.B.")));
    assert!(name("b.").zone_of(&name("a.B.")));
    assert!(name("a.").precedes(&name("z.a.")));
    assert!(!name("z.a.").precedes(&name("a.")));
    assert_eq!(name("a.b.c.").trim_to(2), name("b.c."));
    assert_eq!(name("a.b.").base_name(), name("b."));
    assert_eq!(name("*.b.").num_labels(), 1);
    assert_eq!(name("a\\.b.c.").text(), "a\\.b.c.");
    assert!(Name::from_ascii(&"x".repeat(64)).is_none());
    let wire = name("www.example.").to_wire();
    assert_eq!(Name::from_wire(&wire), Some((name("www.example."), 13)));
}

#[test]
fn base32hex_keeps_the_order() {
    assert!(base32hex(&[0, 1]) < base32hex(&[1, 0]));
    assert!(base32hex(&[0x7f, 0xff]) < base32hex(&[0x80, 0]));
}

#[test]
fn masking_twice_is_masking_once() {
    let once = mask_v4(0x7fff_fffe, 24);
    assert_eq!(once, 0x7fff_ff00);
    assert_eq!(mask_v4(once, 24), once);
    assert_eq!(mask_v4(0x7fff_fffe, 0), 0);
}

#[test]
fn every_malformed_forwarder_has_its_error() {
    let error = |spec: &str| Forwarder::parse(spec, &mut Breakers::default()).unwrap_err();
    assert_eq!(error("  "), ForwarderError::Empty);
    assert_eq!(
        error("gopher://8.8.8.8"),
        ForwarderError::UnsupportedTransport
    );
    assert_eq!(error("udp://"), ForwarderError::NoAddress);
    assert_eq!(
        error("tls://dns.google@8.8.8.8/x"),
        ForwarderError::PathNotAllowed
    );
    assert_eq!(error("tls://@8.8.8.8"), ForwarderError::EmptyServerName);
    assert_eq!(error("udp://not-an-ip"), ForwarderError::BadAddress);
    assert_eq!(
        error("tls://bad name@8.8.8.8"),
        ForwarderError::BadServerName
    );
    assert_eq!(error("udp://name@8.8.8.8"), ForwarderError::NameNotAllowed);
    let plain = Forwarder::from_secure_config(
        "udp",
        "dns.google",
        "8.8.8.8",
        "",
        &mut Breakers::default(),
    );
    assert_eq!(plain.unwrap_err(), ForwarderError::NotEncrypted);
    for transport in [
        Transport::Do53Udp,
        Transport::Do53Tcp,
        Transport::Dot,
        Transport::Doh,
        Transport::Doq,
    ] {
        assert_eq!(Transport::from_scheme(transport.scheme()), Some(transport));
    }
}

#[test]
fn an_open_breaker_closes_after_its_time() {
    let mut health = Health::default();
    for _ in 0..3 {
        health.record_failure(1_000);
    }
    assert!(!health.is_usable(1_000));
    assert!(!health.is_usable(999 + OPEN_COOLDOWN_MS));
    assert!(health.is_usable(1_000 + OPEN_COOLDOWN_MS));
}

#[test]
fn errors_of_stored_values_read_as_they_should() {
    let rrsig = |value: &str| Rrsig::parse(value).unwrap_err().message(value);
    assert_eq!(
        rrsig("A 15 2 300"),
        "RRSIG value has 4 fields, expected 9"
    );
    assert_eq!(
        rrsig("NOPE 15 2 300 1 2 3 example.com. AAAA"),
        "unknown covered type NOPE"
    );
    assert_eq!(
        rrsig("A 99 2 300 1 2 3 example.com. AAAA"),
        "unknown algorithm 99"
    );
    assert_eq!(
        rrsig("A 15 999 300 1 2 3 example.com. AAAA"),
        "number too large to fit in target type"
    );
    assert_eq!(
        rrsig("A 15 2 3x0 1 2 3 example.com. AAAA"),
        "invalid digit found in string"
    );
    assert_eq!(
        rrsig("A 15 2 300 1 4294967296 x example.com. AAAA"),
        "number too large to fit in target type"
    );
    assert_eq!(
        rrsig("A 15 2 300 1 2 65536 example.com. AAAA"),
        "number too large to fit in target type"
    );
    assert_eq!(
        rrsig("A 15 2 300 1 2 3 example.com. AAA!"),
        "Invalid symbol 33, offset 3."
    );
    let nsec = |value: &str| Nsec::parse(value).unwrap_err().message();
    assert_eq!(nsec(""), "NSEC value is empty");
    assert_eq!(nsec("b. A WAT"), "unknown type WAT in NSEC bitmap");
    assert_eq!(
        ClockError::PastLimit.message(),
        "system clock is past the u32 epoch limit"
    );
    assert_eq!(
        ClockError::BeforeEpoch("a second too early".to_string()).message(),
        "system clock is before the Unix epoch: a second too early"
    );
}

#[test]
fn errors_of_keys_read_as_they_should() {
    let p256 = DnssecAlgorithm::EcdsaP256Sha256;
    let ed25519 = DnssecAlgorithm::Ed25519;
    let rsa = DnssecAlgorithm::RsaSha256;
    let generated = generate_key("example.com.", rsa, KeyType::ZSK);
    assert_eq!(
        generated.map(|_| ()).unwrap_err().message(rsa),
        "algorithm RSA-SHA256 is not supported for key generation"
    );
    let load = |algorithm| match SigningKey::from_pkcs8(algorithm, KeyType::ZSK, &[1, 2, 3]) {
        Err(e) => e.message(algorithm),
        Ok(_) => panic!("three octets are no key"),
    };
    assert_eq!(load(rsa), "cannot sign with algorithm RSA-SHA256");
    assert_eq!(
        load(ed25519),
        "key material is not a valid Ed25519 PKCS#8 key: InvalidEncoding"
    );
    assert_eq!(
        load(p256),
        "key material is not a valid ECDSA-P256-SHA256 PKCS#8 key: InvalidEncoding"
    );
    assert_eq!(
        to_dnskey_form(p256, &[4; 97]).unwrap_err().message(p256),
        "ECDSA-P256-SHA256 public key is 96 bytes, expected Some(64)"
    );
    assert_eq!(
        to_dnskey_form(p256, &[2; 33]).unwrap_err().message(p256),
        "ECDSA public key is not in uncompressed SEC1 form"
    );
    assert_eq!(
        KeyError::GenerationFailed("ring::error::Unspecified".to_string()).message(ed25519),
        "failed to generate Ed25519 key: ring::error::Unspecified"
    );
    assert_eq!(
        KeyError::GenerationFailed("ring::error::Unspecified".to_string()).message(p256),
        "failed to generate ECDSA key: ring::error::Unspecified"
    );
    assert_eq!(
        KeyError::SigningFailed("ring::error::Unspecified".to_string()).message(p256),
        "ECDSA signing failed: ring::error::Unspecified"
    );
}

#[test]
fn errors_of_signatures_read_as_they_should() {
    let key = key();
    let good = record("a.example.com.", RecordKind::A, "192.0.2.1");
    let bad = record("a.example.com.", RecordKind::A, "\"x");
    let error = |zone: &str, owner: &str, rrset: &[DnsRecord]| {
        let e = sign_rrset(&key, &to_sign(zone, owner, rrset)).unwrap_err();
        e.message(zone, owner, rrset)
    };
    let (zone, owner) = ("example.com.", "a.example.com.");
    assert_eq!(error(zone, owner, &[]), "cannot sign an empty RRset");
    assert_eq!(
        error(zone, owner, &[good.clone(), bad]),
        "cannot canonically encode A record \"\\\"x\""
    );
    let rrset = [good];
    assert_eq!(
        error(zone, "a..b", &rrset),
        "invalid owner name \"a..b\""
    );
    assert_eq!(
        error("a..b", owner, &rrset),
        "invalid signer name \"a..b\""
    );
    assert_eq!(
        SigningError::SignsSignatures.message(zone, owner, &rrset),
        "RRSIG RRsets are not signed"
    );
    assert_eq!(
        SigningError::RdataTooLong.message(zone, owner, &rrset),
        "RDATA exceeds 65535 bytes"
    );
    let failed = KeyError::SigningFailed("RNG failed".to_string());
    assert_eq!(
        SigningError::KeyFailed(DnssecAlgorithm::EcdsaP384Sha384, failed)
            .message(zone, owner, &rrset),
        "ECDSA signing failed: RNG failed"
    );

    let value = sign_rrset(&key, &to_sign(zone, owner, &rrset)).unwrap();
    let verify = |value: &str, owner: &str| {
        let e = verify_rrsig(value, owner, &rrset, key.public_key()).unwrap_err();
        e.message(value, owner, &rrset)
    };
    assert_eq!(
        verify(&value, "b.example.com."),
        "Ed25519 signature verification failed"
    );
    assert_eq!(verify("A", owner), "RRSIG value has 1 fields, expected 9");
    assert_eq!(verify(&value, "a..b"), "invalid owner name \"a..b\"");
    let rsa = value.replacen("15", "8", 1);
    assert_eq!(
        verify(&rsa, owner),
        "RSA-SHA256 verification is not supported"
    );
    let ecdsa = value.replacen("15", "13", 1);
    assert_eq!(verify(&ecdsa, owner), "ECDSA signature verification failed");
}

#[test]
fn errors_of_forwarders_read_as_they_should() {
    let error = |spec: &str| {
        let e = Forwarder::parse(spec, &mut Breakers::default()).unwrap_err();
        e.message(spec)
    };
    assert_eq!(error("  "), "empty forwarder");
    assert_eq!(
        error("Gopher://8.8.8.8"),
        "unsupported forwarder transport 'gopher' \
         (use udp, tcp, tls/dot, https/doh or quic/doq)"
    );
    assert_eq!(error("udp://"), "forwarder 'udp://' names no address");
    assert_eq!(
        error(" tls://dns.google@8.8.8.8/x"),
        "forwarder 'tls://dns.google@8.8.8.8/x': a path is only meaningful for https/doh"
    );
    assert_eq!(
        error("tls://@8.8.8.8"),
        "forwarder 'tls://@8.8.8.8': empty server name before '@'"
    );
    assert_eq!(
        error("https://dns.google@nowhere/dns-query"),
        "forwarder 'https://dns.google@nowhere/dns-query': invalid address 'nowhere'"
    );
    assert_eq!(
        error("tls://bad name@8.8.8.8"),
        "forwarder 'tls://bad name@8.8.8.8': invalid server name 'bad name'"
    );
    assert_eq!(
        error("udp://name@8.8.8.8"),
        "forwarder 'udp://name@8.8.8.8': \
         a server name is only meaningful for an encrypted transport"
    );
    assert_eq!(
        ForwarderError::NotEncrypted.transport_message("udp"),
        "secure upstream transport 'udp' is not encrypted (use tls/dot, https/doh or quic/doq)"
    );
}

#[test]
fn key_material_loads_under_its_own_label_alone() {
    let algorithms = [
        DnssecAlgorithm::Ed25519,
        DnssecAlgorithm::EcdsaP256Sha256,
        DnssecAlgorithm::EcdsaP384Sha384,
    ];
    for made in algorithms {
        let pair = generate_key("example.com.", made, KeyType::KSK).unwrap();
        let drawn = generate_pkcs8(made).unwrap();
        assert!(SigningKey::from_pkcs8(made, KeyType::ZSK, &drawn).is_ok());
        for label in algorithms {
            let loaded = SigningKey::from_pkcs8(label, KeyType::KSK, &pair.private_key);
            assert_eq!(loaded.is_ok(), label == made);
            let Ok(loaded) = loaded else {
                continue;
            };
            assert_eq!(loaded.public_key(), pair.public_key);
            assert_eq!(loaded.key_tag, pair.key_tag);
        }
    }
    assert_eq!(
        generate_pkcs8(DnssecAlgorithm::RsaSha256),
        Err(KeyError::NotGenerated)
    );
}

#[test]
fn a_signature_is_of_one_owner_and_one_set_of_data() {
    let key = key();
    let signed = [record("a.example.com.", RecordKind::A, "192.0.2.1")];
    let other = [record("a.example.com.", RecordKind::A, "192.0.2.2")];
    let value = sign_rrset(&key, &to_sign("example.com.", "a.example.com.", &signed)).unwrap();
    let verify = |owner: &str, rrset: &[DnsRecord], public: &[u8]| {
        verify_rrsig(&value, owner, rrset, public)
    };
    assert_eq!(verify("a.example.com.", &signed, key.public_key()), Ok(()));
    for refused in [
        verify("b.example.com.", &signed, key.public_key()),
        verify("a.example.com.", &other, key.public_key()),
        verify("a.example.com.", &signed, self::key().public_key()),
    ] {
        assert_eq!(refused, Err(VerifyError::Rejected));
    }
}
