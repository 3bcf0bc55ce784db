//! Keys, signatures and the denial chain of signed zones.
use std::cmp::Ordering;

use rolodex::dnssec::{
    build_nsec_chain, canonical_name, canonical_name_cmp, canonical_rdata, character_strings,
    compute_ds_sha256, compute_key_tag, encode_type_bitmap, generate_ed25519_key, generate_key,
    label_count, nsec_covers, sign_rrset, verify_rrsig, DnssecAlgorithm, KeyType, Nsec, RrsetToSign,
    Rrsig, SigningKey,
};
use rolodex::record::{DnsRecord, RecordKind};

fn record(name: &str, kind: RecordKind, value: &str) -> DnsRecord {
    DnsRecord {
        id: None,
        name: name.to_string(),
        record_type: kind,
        value: value.to_string(),
        ttl: 300,
        priority: 0,
    }
}

#[test]
fn test_algorithm_from_str() {
    assert_eq!(
        DnssecAlgorithm::parse("ed25519"),
        Some(DnssecAlgorithm::Ed25519)
    );
    assert_eq!(DnssecAlgorithm::parse("15"), Some(DnssecAlgorithm::Ed25519));
    assert_eq!(
        DnssecAlgorithm::parse("ecdsa-p256"),
        Some(DnssecAlgorithm::EcdsaP256Sha256)
    );
    assert!(DnssecAlgorithm::parse("unknown").is_none());
}

#[test]
fn algorithm_names_round_trip_through_storage() {
    for algorithm in [
        DnssecAlgorithm::Ed25519,
        DnssecAlgorithm::EcdsaP256Sha256,
        DnssecAlgorithm::EcdsaP384Sha384,
        DnssecAlgorithm::RsaSha256,
    ] {
        assert_eq!(
            DnssecAlgorithm::parse(algorithm.as_str()),
            Some(algorithm),
            "{} must parse back from its stored spelling",
            algorithm.as_str()
        );
    }
}

#[test]
fn test_key_type() {
    assert_eq!(KeyType::ZSK.flags(), 256);
    assert_eq!(KeyType::KSK.flags(), 257);
}

#[test]
fn test_generate_ed25519_key() {
    let key = generate_ed25519_key("example.com.", KeyType::ZSK).unwrap();
    assert_eq!(key.algorithm, DnssecAlgorithm::Ed25519);
    assert_eq!(key.key_type, KeyType::ZSK);
    assert_eq!(key.public_key.len(), 32);
    assert!(!key.private_key.is_empty());
    assert!(key.key_tag > 0);
}

#[test]
fn test_key_tag_deterministic() {
    let key1 = generate_ed25519_key("test.com.", KeyType::ZSK).unwrap();
    let tag1 = compute_key_tag(key1.algorithm, key1.key_type, &key1.public_key);
    let tag2 = compute_key_tag(key1.algorithm, key1.key_type, &key1.public_key);
    assert_eq!(tag1, tag2);
}

#[test]
fn test_ds_record_generation() {
    let key = generate_ed25519_key("example.com.", KeyType::KSK).unwrap();
    let ds = compute_ds_sha256(
        "example.com.",
        key.key_tag,
        key.algorithm,
        &key.public_key,
        key.key_type,
    );
    assert!(!ds.is_empty());
    assert!(ds.contains(&key.key_tag.to_string()));
}

#[test]
fn canonical_name_is_case_and_dot_insensitive() {
    let a = canonical_name("Example.COM.").expect("encode");
    let b = canonical_name("example.com").expect("encode");
    let c = canonical_name("EXAMPLE.com.").expect("encode");
    assert_eq!(a, b);
    assert_eq!(b, c);
    assert_eq!(a, b"\x07example\x03com\x00");
    assert_eq!(canonical_name(".").expect("root"), b"\x00");
}

#[test]
fn canonical_name_rejects_malformed_labels() {
    assert!(canonical_name("a..b").is_none());
    assert!(canonical_name(&format!("{}.com", "x".repeat(64))).is_none());
}

#[test]
fn label_count_excludes_root_and_wildcard() {
    assert_eq!(label_count("example.com."), 2);
    assert_eq!(label_count("www.example.com."), 3);
    assert_eq!(label_count("*.example.com."), 2);
    assert_eq!(label_count("."), 0);
}

#[test]
fn character_strings_chunk_at_255_bytes() {
    let long = "a".repeat(300);
    let encoded = character_strings(&long);
    assert_eq!(encoded[0], 255);
    assert_eq!(encoded[256], 45);
    assert_eq!(encoded.len(), 1 + 255 + 1 + 45);
    assert_eq!(character_strings(""), vec![0u8]);
}

#[test]
fn canonical_rdata_encodes_addresses() {
    let a = record("host.example.com.", RecordKind::A, "192.0.2.1");
    assert_eq!(canonical_rdata(&a).expect("A"), vec![192, 0, 2, 1]);

    let aaaa = record("host.example.com.", RecordKind::AAAA, "2001:db8::1");
    assert_eq!(canonical_rdata(&aaaa).expect("AAAA").len(), 16);
}

#[test]
fn canonical_rdata_downcases_embedded_names() {
    let upper = record("example.com.", RecordKind::CNAME, "Target.Example.COM.");
    let lower = record("example.com.", RecordKind::CNAME, "target.example.com.");
    assert_eq!(
        canonical_rdata(&upper).expect("upper"),
        canonical_rdata(&lower).expect("lower")
    );
}

#[test]
fn canonical_rdata_encodes_mx_priority_from_the_column() {
    let mut mx = record("example.com.", RecordKind::MX, "mail.example.com.");
    mx.priority = 10;
    let encoded = canonical_rdata(&mx).expect("MX");
    assert_eq!(&encoded[..2], &10u16.to_be_bytes());
    assert_eq!(&encoded[2..], b"\x04mail\x07example\x03com\x00");
}

#[test]
fn canonical_rdata_encodes_soa_fields() {
    let soa = record(
        "example.com.",
        RecordKind::SOA,
        "ns1.example.com. admin.example.com. 42 7200 3600 1209600 300",
    );
    let encoded = canonical_rdata(&soa).expect("SOA");
    let names_len =
        b"\x03ns1\x07example\x03com\x00".len() + b"\x05admin\x07example\x03com\x00".len();
    assert_eq!(encoded.len(), names_len + 20);
    assert_eq!(&encoded[names_len..names_len + 4], &42u32.to_be_bytes());
}

#[test]
fn canonical_rdata_refuses_types_it_cannot_encode() {
    for kind in [RecordKind::NSEC3, RecordKind::NSEC3PARAM, RecordKind::ANAME] {
        let rec = record("example.com.", kind, "whatever");
        assert!(
            canonical_rdata(&rec).is_none(),
            "{} must not be canonically encoded",
            kind.as_str()
        );
    }
}

#[test]
fn canonical_rdata_refuses_malformed_values() {
    let bad_a = record("example.com.", RecordKind::A, "not-an-ip");
    assert!(canonical_rdata(&bad_a).is_none());
    let short_soa = record("example.com.", RecordKind::SOA, "ns1. admin. 1");
    assert!(canonical_rdata(&short_soa).is_none());
    let bad_tlsa = record("example.com.", RecordKind::TLSA, "3 1 1 nothex");
    assert!(canonical_rdata(&bad_tlsa).is_none());
}

#[test]
fn rrsig_value_round_trips() {
    let rrsig = Rrsig {
        type_covered: RecordKind::A,
        algorithm: DnssecAlgorithm::Ed25519,
        labels: 2,
        original_ttl: 300,
        expiration: 1_800_000_000,
        inception: 1_700_000_000,
        key_tag: 12345,
        signer_name: "example.com.".to_string(),
        signature: vec![1, 2, 3, 4, 5],
    };
    let parsed = Rrsig::parse(&rrsig.to_value()).expect("parse");
    assert_eq!(parsed, rrsig);
}

#[test]
fn rrsig_parse_rejects_short_and_unknown_values() {
    assert!(Rrsig::parse("A 15 2 300").is_err());
    assert!(Rrsig::parse("NOPE 15 2 300 1 2 3 example.com. AAAA").is_err());
}

#[test]
fn sign_and_verify_round_trip_per_algorithm() {
    for algorithm in [
        DnssecAlgorithm::Ed25519,
        DnssecAlgorithm::EcdsaP256Sha256,
        DnssecAlgorithm::EcdsaP384Sha384,
    ] {
        let pair = generate_key("example.com.", algorithm, KeyType::ZSK).expect("generate key");
        let key = SigningKey::from_pkcs8(algorithm, KeyType::ZSK, &pair.private_key)
            .expect("load key");
        assert_eq!(key.public_key(), pair.public_key.as_slice());

        let rrset = vec![
            record("www.example.com.", RecordKind::A, "192.0.2.1"),
            record("www.example.com.", RecordKind::A, "192.0.2.2"),
        ];
        let value = sign_rrset(
            &key,
            &RrsetToSign {
                signer_zone: "example.com.",
                owner: "www.example.com.",
                type_covered: RecordKind::A,
                original_ttl: 300,
                rrset: &rrset,
                inception: 1_700_000_000,
                expiration: 1_800_000_000,
            },
        )
        .expect("sign");

        verify_rrsig(&value, "www.example.com.", &rrset, key.public_key())
            .unwrap_or_else(|e| panic!("{} must verify: {e:?}", algorithm.as_str()));

        let parsed = Rrsig::parse(&value).expect("parse");
        assert_eq!(parsed.algorithm, algorithm);
        assert_eq!(parsed.key_tag, key.key_tag);
        assert_eq!(parsed.labels, 3);
        assert_eq!(parsed.type_covered, RecordKind::A);
    }
}

#[test]
fn verification_fails_when_the_rrset_changes() {
    let pair = generate_ed25519_key("example.com.", KeyType::ZSK).expect("generate");
    let key = SigningKey::from_pkcs8(DnssecAlgorithm::Ed25519, KeyType::ZSK, &pair.private_key)
        .expect("load");
    let rrset = vec![record("www.example.com.", RecordKind::A, "192.0.2.1")];
    let value = sign_rrset(
        &key,
        &RrsetToSign {
            signer_zone: "example.com.",
            owner: "www.example.com.",
            type_covered: RecordKind::A,
            original_ttl: 300,
            rrset: &rrset,
            inception: 1_700_000_000,
            expiration: 1_800_000_000,
        },
    )
    .expect("sign");

    let tampered = vec![record("www.example.com.", RecordKind::A, "198.51.100.9")];
    assert!(verify_rrsig(&value, "www.example.com.", &tampered, key.public_key()).is_err());

    assert!(verify_rrsig(&value, "other.example.com.", &rrset, key.public_key()).is_err());

    let other = generate_ed25519_key("example.com.", KeyType::ZSK).expect("generate");
    assert!(verify_rrsig(&value, "www.example.com.", &rrset, &other.public_key).is_err());
}

#[test]
fn rrset_order_does_not_change_the_signature() {
    let pair = generate_ed25519_key("example.com.", KeyType::ZSK).expect("generate");
    let key = SigningKey::from_pkcs8(DnssecAlgorithm::Ed25519, KeyType::ZSK, &pair.private_key)
        .expect("load");
    let forward = vec![
        record("www.example.com.", RecordKind::A, "192.0.2.1"),
        record("www.example.com.", RecordKind::A, "192.0.2.2"),
    ];
    let reversed: Vec<DnsRecord> = forward.iter().rev().cloned().collect();

    let sign = |rrset: &[DnsRecord]| {
        sign_rrset(
            &key,
            &RrsetToSign {
                signer_zone: "example.com.",
                owner: "www.example.com.",
                type_covered: RecordKind::A,
                original_ttl: 300,
                rrset,
                inception: 1_700_000_000,
                expiration: 1_800_000_000,
            },
        )
        .expect("sign")
    };

    assert_eq!(sign(&forward), sign(&reversed));
    verify_rrsig(
        &sign(&forward),
        "www.example.com.",
        &reversed,
        key.public_key(),
    )
    .expect("verify");
}

#[test]
fn loading_rejects_key_material_that_contradicts_its_label() {
    let ed =
        generate_key("example.com.", DnssecAlgorithm::Ed25519, KeyType::ZSK).expect("generate");
    let err = SigningKey::from_pkcs8(
        DnssecAlgorithm::EcdsaP256Sha256,
        KeyType::ZSK,
        &ed.private_key,
    );
    assert!(err.is_err(), "Ed25519 material must not load as P-256");

    let p256 = generate_key(
        "example.com.",
        DnssecAlgorithm::EcdsaP256Sha256,
        KeyType::ZSK,
    )
    .expect("generate");
    assert!(
        SigningKey::from_pkcs8(DnssecAlgorithm::Ed25519, KeyType::ZSK, &p256.private_key)
            .is_err(),
        "P-256 material must not load as Ed25519"
    );
    assert!(
        SigningKey::from_pkcs8(
            DnssecAlgorithm::EcdsaP384Sha384,
            KeyType::ZSK,
            &p256.private_key
        )
        .is_err(),
        "P-256 material must not load as P-384"
    );
}

#[test]
fn rsa_is_refused_rather_than_substituted() {
    assert!(!DnssecAlgorithm::RsaSha256.signing_supported());
    assert!(generate_key("example.com.", DnssecAlgorithm::RsaSha256, KeyType::ZSK).is_err());
    assert!(
        SigningKey::from_pkcs8(DnssecAlgorithm::RsaSha256, KeyType::ZSK, &[0u8; 32]).is_err()
    );
}

#[test]
fn generated_public_keys_have_the_algorithms_size() {
    for (algorithm, len) in [
        (DnssecAlgorithm::Ed25519, 32),
        (DnssecAlgorithm::EcdsaP256Sha256, 64),
        (DnssecAlgorithm::EcdsaP384Sha384, 96),
    ] {
        let pair = generate_key("example.com.", algorithm, KeyType::KSK).expect("generate");
        assert_eq!(pair.public_key.len(), len, "{}", algorithm.as_str());
        assert_eq!(pair.algorithm, algorithm);
        assert_eq!(
            pair.key_tag,
            compute_key_tag(algorithm, KeyType::KSK, &pair.public_key)
        );
    }
}

#[test]
fn rrsig_rrsets_are_never_signed() {
    let pair = generate_ed25519_key("example.com.", KeyType::ZSK).expect("generate");
    let key = SigningKey::from_pkcs8(DnssecAlgorithm::Ed25519, KeyType::ZSK, &pair.private_key)
        .expect("load");
    let rrset = vec![record("www.example.com.", RecordKind::RRSIG, "irrelevant")];
    assert!(
        sign_rrset(
            &key,
            &RrsetToSign {
                signer_zone: "example.com.",
                owner: "www.example.com.",
                type_covered: RecordKind::RRSIG,
                original_ttl: 300,
                rrset: &rrset,
                inception: 1,
                expiration: 2,
            },
        )
        .is_err()
    );
}

#[test]
fn signing_an_empty_rrset_is_an_error() {
    let pair = generate_ed25519_key("example.com.", KeyType::ZSK).expect("generate");
    let key = SigningKey::from_pkcs8(DnssecAlgorithm::Ed25519, KeyType::ZSK, &pair.private_key)
        .expect("load");
    assert!(
        sign_rrset(
            &key,
            &RrsetToSign {
                signer_zone: "example.com.",
                owner: "www.example.com.",
                type_covered: RecordKind::A,
                original_ttl: 300,
                rrset: &[],
                inception: 1,
                expiration: 2,
            },
        )
        .is_err()
    );
}

#[test]
fn type_bitmap_sets_the_high_bit_first() {
    assert_eq!(encode_type_bitmap(&[1]), vec![0x00, 0x01, 0x40]);
    assert_eq!(encode_type_bitmap(&[0]), vec![0x00, 0x01, 0x80]);
    assert_eq!(encode_type_bitmap(&[1, 2, 6]), vec![0x00, 0x01, 0x62]);
}

#[test]
fn type_bitmap_matches_the_rfc_worked_example() {
    assert_eq!(
        encode_type_bitmap(&[1, 15, 46, 47]),
        vec![0x00, 0x06, 0x40, 0x01, 0x00, 0x00, 0x00, 0x03],
    );
}

#[test]
fn type_bitmap_omits_empty_windows_and_trims() {
    assert_eq!(
        encode_type_bitmap(&[256, 1]),
        vec![0x00, 0x01, 0x40, 0x01, 0x01, 0x80],
        "windows ascend regardless of input order, and neither is padded"
    );
    assert!(encode_type_bitmap(&[]).is_empty());
}

#[test]
fn canonical_order_is_not_string_order() {
    let mut names = vec![
        "z.sub.example.com.".to_string(),
        "a.example.com.".to_string(),
        "example.com.".to_string(),
        "sub.example.com.".to_string(),
    ];
    names.sort_by(|a, b| canonical_name_cmp(a, b));
    assert_eq!(
        names,
        vec![
            "example.com.",
            "a.example.com.",
            "sub.example.com.",
            "z.sub.example.com.",
        ],
    );

    let mut byte_order = names.clone();
    byte_order.sort();
    assert_ne!(byte_order, names);
}

#[test]
fn canonical_order_folds_case() {
    assert_eq!(
        canonical_name_cmp("WWW.Example.COM.", "www.example.com."),
        Ordering::Equal
    );
    assert_eq!(
        canonical_name_cmp("a.example.com.", "b.example.com."),
        Ordering::Less
    );
}

fn nsec_record(name: &str, kind: RecordKind) -> DnsRecord {
    record(name, kind, "192.0.2.1")
}

#[test]
fn nsec_chain_is_canonically_ordered_and_wraps() {
    let records = vec![
        nsec_record("example.com.", RecordKind::SOA),
        nsec_record("b.example.com.", RecordKind::A),
        nsec_record("a.example.com.", RecordKind::A),
    ];
    let chain = build_nsec_chain("example.com.", &records);
    let owners: Vec<&str> = chain.iter().map(|(o, _)| o.as_str()).collect();
    assert_eq!(
        owners,
        vec!["example.com.", "a.example.com.", "b.example.com."]
    );

    assert_eq!(chain[0].1.next_owner, "a.example.com.");
    assert_eq!(chain[1].1.next_owner, "b.example.com.");
    assert_eq!(
        chain[2].1.next_owner, "example.com.",
        "the last name wraps to the apex, closing the ring"
    );
}

#[test]
fn every_nsec_bitmap_claims_nsec_and_rrsig() {
    let records = vec![nsec_record("a.example.com.", RecordKind::A)];
    let chain = build_nsec_chain("example.com.", &records);
    for (owner, nsec) in &chain {
        assert!(
            nsec.types.contains(&RecordKind::NSEC),
            "{owner} bitmap omits NSEC"
        );
        assert!(
            nsec.types.contains(&RecordKind::RRSIG),
            "{owner} bitmap omits RRSIG"
        );
    }
    let a = chain
        .iter()
        .find(|(o, _)| o == "a.example.com.")
        .expect("a");
    assert!(a.1.types.contains(&RecordKind::A));
    assert!(!a.1.types.contains(&RecordKind::MX));
}

#[test]
fn empty_non_terminals_get_no_nsec_but_stay_covered() {
    let records = vec![nsec_record("_https._tcp.a.example.com.", RecordKind::TLSA)];
    let chain = build_nsec_chain("example.com.", &records);
    let owners: Vec<&str> = chain.iter().map(|(o, _)| o.as_str()).collect();
    assert_eq!(
        owners,
        vec!["example.com.", "_https._tcp.a.example.com."],
        "only names with authoritative data are chained"
    );

    for ent in ["a.example.com.", "_tcp.a.example.com."] {
        let covering = chain
            .iter()
            .filter(|(owner, nsec)| nsec_covers(owner, &nsec.next_owner, ent))
            .count();
        assert_eq!(covering, 1, "{ent} must be covered by exactly one link");
    }
}

#[test]
fn aname_is_chained_but_never_claimed_in_the_bitmap() {
    let records = vec![
        nsec_record("example.com.", RecordKind::SOA),
        record("www.example.com.", RecordKind::ANAME, "target.example.com."),
    ];
    let chain = build_nsec_chain("example.com.", &records);
    let www = chain
        .iter()
        .find(|(o, _)| o == "www.example.com.")
        .expect("the ANAME name is in the chain");
    assert!(!www.1.types.contains(&RecordKind::ANAME));

    let records = vec![
        nsec_record("example.com.", RecordKind::SOA),
        nsec_record("www.example.com.", RecordKind::A),
    ];
    let chain = build_nsec_chain("example.com.", &records);
    let www = chain
        .iter()
        .find(|(o, _)| o == "www.example.com.")
        .expect("www");
    assert!(www.1.types.contains(&RecordKind::A));
}

#[test]
fn nsec_chain_stops_at_the_zone_boundary() {
    let records = vec![
        nsec_record("a.example.com.", RecordKind::A),
        nsec_record("evil.notexample.com.", RecordKind::A),
        record(
            "a.example.com.",
            RecordKind::RRSIG,
            "A 15 3 300 2 1 1 example.com. AA==",
        ),
    ];
    let chain = build_nsec_chain("example.com.", &records);
    let owners: Vec<&str> = chain.iter().map(|(o, _)| o.as_str()).collect();
    assert_eq!(owners, vec!["example.com.", "a.example.com."]);

    let a = chain
        .iter()
        .find(|(o, _)| o == "a.example.com.")
        .expect("a");
    assert!(a.1.types.contains(&RecordKind::A));
}

#[test]
fn nsec_value_round_trips_in_wire_code_order() {
    let nsec = Nsec {
        next_owner: "b.example.com.".to_string(),
        types: vec![RecordKind::RRSIG, RecordKind::A, RecordKind::NSEC],
    };
    assert_eq!(nsec.to_value(), "b.example.com. A RRSIG NSEC");

    let parsed = Nsec::parse(&nsec.to_value()).expect("parse");
    assert_eq!(parsed.next_owner, "b.example.com.");
    assert_eq!(
        parsed.rdata(),
        nsec.rdata(),
        "the round trip is byte-identical, not merely equal as a set"
    );
}

#[test]
fn nsec_parse_refuses_an_unknown_type() {
    assert!(Nsec::parse("b.example.com. A WAT").is_err());
    assert!(Nsec::parse("b.example.com. A RRSIG").is_ok());
}

#[test]
fn nsec_covers_the_open_range_and_wraps() {
    assert!(nsec_covers(
        "a.example.com.",
        "c.example.com.",
        "b.example.com."
    ));
    assert!(!nsec_covers(
        "a.example.com.",
        "c.example.com.",
        "a.example.com."
    ));
    assert!(!nsec_covers(
        "a.example.com.",
        "c.example.com.",
        "c.example.com."
    ));
    assert!(!nsec_covers(
        "a.example.com.",
        "c.example.com.",
        "d.example.com."
    ));

    assert!(nsec_covers(
        "z.example.com.",
        "example.com.",
        "zz.example.com."
    ));
    assert!(!nsec_covers(
        "z.example.com.",
        "example.com.",
        "a.example.com."
    ));
    assert!(nsec_covers(
        "example.com.",
        "z.example.com.",
        "a.example.com."
    ));
    assert!(!nsec_covers(
        "z.example.com.",
        "example.com.",
        "example.com."
    ));
}

#[test]
fn the_generated_chain_covers_every_absent_name() {
    let records = vec![
        nsec_record("example.com.", RecordKind::SOA),
        nsec_record("a.example.com.", RecordKind::A),
        nsec_record("m.example.com.", RecordKind::A),
        nsec_record("z.example.com.", RecordKind::A),
    ];
    let chain = build_nsec_chain("example.com.", &records);

    for absent in [
        "0.example.com.",
        "b.example.com.",
        "n.example.com.",
        "zz.example.com.",
        "deep.sub.example.com.",
    ] {
        let covering = chain
            .iter()
            .filter(|(owner, nsec)| nsec_covers(owner, &nsec.next_owner, absent))
            .count();
        assert_eq!(covering, 1, "{absent} must be covered by exactly one NSEC");
    }

    for present in ["example.com.", "a.example.com.", "m.example.com."] {
        let covering = chain
            .iter()
            .filter(|(owner, nsec)| nsec_covers(owner, &nsec.next_owner, present))
            .count();
        assert_eq!(covering, 0, "{present} exists and must be covered by none");
    }
}

#[test]
fn an_nsec_record_is_now_canonically_encodable() {
    let nsec = record(
        "example.com.",
        RecordKind::NSEC,
        "a.example.com. A SOA RRSIG NSEC",
    );
    let encoded = canonical_rdata(&nsec).expect("NSEC must encode");
    let mut expected = canonical_name("a.example.com.").expect("name");
    expected.extend_from_slice(&encode_type_bitmap(&[1, 6, 46, 47]));
    assert_eq!(encoded, expected);

    assert!(canonical_rdata(&record("example.com.", RecordKind::NSEC3, "whatever")).is_none());
}
