//! Validation of answers: verdicts, denial of existence, signatures and zone cuts.
use hickory_proto::dnssec::rdata::{DNSSECRData, DNSKEY, RRSIG};
use hickory_proto::dnssec::{Algorithm, PublicKey, PublicKeyBuf};
use hickory_proto::rr::{rdata, RData, Record, RecordType};
use hickory_proto::serialize::binary::BinEncodable;
use rolodex::codec::base64_decode;
use rolodex::dnssec::{
    compute_ds_sha256, compute_key_tag, generate_key, sign_rrset, DnssecAlgorithm, DnssecKeyPair,
    KeyType, RrsetToSign, Rrsig, SigningKey,
};
use rolodex::dnssec_validate::anchors::{parse_anchor, ROOT_KEY_20326, ROOT_KEY_38696};
use rolodex::dnssec_validate::denial::hashed;
use rolodex::dnssec_validate::{
    dnskey_algorithms, ds_records, has_any_rrsig, is_dnssec_type, min_ttl, records_at,
    validate_dnskey_rrset, verify_rrset, zone_keys, AnchorProblem, Anchors, Dnskey,
    KeySource, Nsec3Data,
    base32hex, ds_algorithms_supported, group_rrsets, next_closer_name, nsec_covers_name,
    prove_no_ds, prove_nodata, prove_nxdomain, prove_wildcard_expansion, serial_lt, signer_below,
    soa_below, wildcard_of, Denial, Denied, Ds, NsecData, RecordData, Signature, Verdict,
    WireRecord,
};
use rolodex::record::{DnsRecord, RecordKind};
use rolodex::wire_name::Name;

const A: u16 = 1;
const NS: u16 = 2;
const CNAME: u16 = 5;
const SOA: u16 = 6;
const MX: u16 = 15;
const DS: u16 = 43;

fn nsec(next: Name, types: Vec<u16>) -> NsecData {
    NsecData { next, types }
}

fn wire(s: &str) -> hickory_proto::rr::Name {
    hickory_proto::rr::Name::from_ascii(s).expect("test name parses")
}

fn own_name(name: &hickory_proto::rr::Name) -> Name {
    Name {
        labels: name.iter().map(|l| l.to_vec()).collect(),
    }
}

fn wire_record(record: &Record) -> WireRecord {
    let data = match record.data() {
        RData::DNSSEC(DNSSECRData::RRSIG(sig)) => RecordData::Rrsig(Signature {
            type_covered: sig.type_covered().into(),
            algorithm: sig.algorithm().into(),
            labels: sig.num_labels(),
            original_ttl: sig.original_ttl(),
            expiration: sig.sig_expiration().get(),
            inception: sig.sig_inception().get(),
            key_tag: sig.key_tag(),
            signer: own_name(sig.signer_name()),
            signature: sig.sig().to_vec(),
        }),
        _ => RecordData::Other,
    };
    WireRecord {
        name: own_name(record.name()),
        rtype: record.record_type().into(),
        ttl: record.ttl(),
        data,
        wire: record.to_bytes().expect("record encodes"),
    }
}


fn name(s: &str) -> Name {
    Name::from_ascii(s).expect("test name parses")
}

#[test]
fn verdict_merge_takes_the_worst() {
    assert_eq!(Verdict::Secure.merge(Verdict::Insecure), Verdict::Insecure);
    assert_eq!(Verdict::Insecure.merge(Verdict::Secure), Verdict::Insecure);
    assert_eq!(
        Verdict::Insecure.merge(Verdict::Bogus("x".into())),
        Verdict::Bogus("x".into())
    );
    assert_eq!(
        Verdict::Bogus("first".into()).merge(Verdict::Indeterminate("second".into())),
        Verdict::Bogus("first".into())
    );
    assert_eq!(Verdict::Secure.merge(Verdict::Secure), Verdict::Secure);
}

#[test]
fn bogus_and_indeterminate_withhold_the_answer() {
    assert!(Verdict::Bogus("x".into()).withholds_answer());
    assert!(Verdict::Indeterminate("x".into()).withholds_answer());
    assert!(!Verdict::Secure.withholds_answer());
    assert!(!Verdict::Insecure.withholds_answer());
}

#[test]
fn base32hex_matches_rfc4648_vectors() {
    assert_eq!(base32hex(b""), "");
    assert_eq!(base32hex(b"f"), "CO");
    assert_eq!(base32hex(b"fo"), "CPNG");
    assert_eq!(base32hex(b"foo"), "CPNMU");
    assert_eq!(base32hex(b"foob"), "CPNMUOG");
    assert_eq!(base32hex(b"fooba"), "CPNMUOJ1");
    assert_eq!(base32hex(b"foobar"), "CPNMUOJ1E8");
}

#[test]
fn base32hex_preserves_order_for_equal_lengths() {
    let mut raw: Vec<[u8; 4]> = vec![
        [0x00, 0x00, 0x00, 0x01],
        [0xff, 0xff, 0xff, 0xff],
        [0x10, 0x20, 0x30, 0x40],
        [0x0f, 0xff, 0xff, 0xff],
        [0x80, 0x00, 0x00, 0x00],
    ];
    raw.sort();
    let encoded: Vec<String> = raw.iter().map(|b| base32hex(b)).collect();
    let mut sorted = encoded.clone();
    sorted.sort();
    assert_eq!(encoded, sorted, "base32hex must preserve byte ordering");
}

#[test]
fn serial_comparison_wraps_per_rfc1982() {
    assert!(serial_lt(1, 2));
    assert!(!serial_lt(2, 1));
    assert!(!serial_lt(5, 5), "a serial is not less than itself");
    assert!(serial_lt(u32::MAX - 10, 10));
    assert!(!serial_lt(10, u32::MAX - 10));
}

#[test]
fn wildcard_of_clamps_to_the_zone_apex() {
    let zone = name("example.com.");
    assert_eq!(
        wildcard_of(&name("a.b.example.com."), &zone),
        name("*.b.example.com.")
    );
    assert_eq!(
        wildcard_of(&name("a.example.com."), &zone),
        name("*.example.com.")
    );
    assert_eq!(wildcard_of(&zone, &zone), name("*.example.com."));
}

#[test]
fn next_closer_is_one_label_below_the_encloser() {
    assert_eq!(
        next_closer_name(&name("a.b.c.example.com."), &name("c.example.com.")),
        Some(name("b.c.example.com."))
    );
    assert_eq!(
        next_closer_name(&name("a.example.com."), &name("example.com.")),
        Some(name("a.example.com."))
    );
    assert_eq!(
        next_closer_name(&name("example.com."), &name("example.com.")),
        None
    );
}

#[test]
fn nsec_coverage_handles_the_wrapping_last_record() {
    let denial = Denial {
        nsec: vec![(
            name("z.example.com."),
            nsec(name("example.com."), vec![A]),
        )],
        nsec3: Vec::new(),
    };
    assert!(nsec_covers_name(&denial, &name("zz.example.com.")));
    assert!(!nsec_covers_name(&denial, &name("a.example.com.")));
}

#[test]
fn nsec_coverage_is_exclusive_at_both_ends() {
    let denial = Denial {
        nsec: vec![(
            name("a.example.com."),
            nsec(name("c.example.com."), vec![A]),
        )],
        nsec3: Vec::new(),
    };
    assert!(nsec_covers_name(&denial, &name("b.example.com.")));
    assert!(!nsec_covers_name(&denial, &name("a.example.com.")));
    assert!(!nsec_covers_name(&denial, &name("c.example.com.")));
}

#[test]
fn no_ds_proof_refuses_an_empty_authority_section() {
    let err = prove_no_ds(&name("child.example.com."), &Denial::default())
        .expect_err("a delegation with no DS and no denial must not be accepted");
    assert!(
        err.contains("neither a DS record nor any NSEC/NSEC3"),
        "unexpected reason: {err}"
    );
}

#[test]
fn no_ds_proof_rejects_an_nsec_that_asserts_a_ds() {
    let child = name("child.example.com.");
    let denial = Denial {
        nsec: vec![(
            child.clone(),
            nsec(name("d.example.com."), vec![NS, DS]),
        )],
        nsec3: Vec::new(),
    };
    let err = prove_no_ds(&child, &denial).expect_err("a DS-asserting NSEC must be refused");
    assert!(
        err.contains("asserts a DS exists"),
        "unexpected reason: {err}"
    );
}

#[test]
fn no_ds_proof_rejects_the_child_apex_nsec() {
    let child = name("child.example.com.");
    let denial = Denial {
        nsec: vec![(
            child.clone(),
            nsec(
                name("a.child.example.com."),
                vec![NS, SOA],
            ),
        )],
        nsec3: Vec::new(),
    };
    let err = prove_no_ds(&child, &denial)
        .expect_err("the child's own apex NSEC proves nothing about the parent");
    assert!(err.contains("child apex"), "unexpected reason: {err}");
}

#[test]
fn no_ds_proof_accepts_a_delegation_nsec_without_ds() {
    let child = name("child.example.com.");
    let denial = Denial {
        nsec: vec![(
            child.clone(),
            nsec(name("d.example.com."), vec![NS]),
        )],
        nsec3: Vec::new(),
    };
    assert_eq!(prove_no_ds(&child, &denial), Ok(Denied::Proven));
}

#[test]
fn nxdomain_needs_the_wildcard_denial_too() {
    let denial = Denial {
        nsec: vec![(
            name("a.example.com."),
            nsec(name("c.example.com."), vec![A]),
        )],
        nsec3: Vec::new(),
    };
    let err = prove_nxdomain(&name("b.example.com."), &name("example.com."), &denial)
        .expect_err("an NXDOMAIN with no wildcard denial must not be proven");
    assert!(err.contains("wildcard"), "unexpected reason: {err}");
}

#[test]
fn nxdomain_is_proven_when_both_spans_are_covered() {
    let denial = Denial {
        nsec: vec![
            (
                name("a.example.com."),
                nsec(name("c.example.com."), vec![A]),
            ),
            (
                name("example.com."),
                nsec(name("a.example.com."), vec![SOA]),
            ),
        ],
        nsec3: Vec::new(),
    };
    assert_eq!(
        prove_nxdomain(&name("b.example.com."), &name("example.com."), &denial),
        Ok(Denied::Proven)
    );
}

#[test]
fn nodata_rejects_an_nsec_that_asserts_the_type() {
    let qname = name("a.example.com.");
    let denial = Denial {
        nsec: vec![(
            qname.clone(),
            nsec(name("c.example.com."), vec![A, MX]),
        )],
        nsec3: Vec::new(),
    };
    let err = prove_nodata(&qname, MX, &name("example.com."), &denial)
        .expect_err("an NSEC listing the type contradicts NODATA");
    assert!(
        err.contains("asserts MX exists"),
        "unexpected reason: {err}"
    );
}

#[test]
fn nodata_rejects_an_nsec_hiding_a_cname() {
    let qname = name("a.example.com.");
    let denial = Denial {
        nsec: vec![(
            qname.clone(),
            nsec(name("c.example.com."), vec![CNAME]),
        )],
        nsec3: Vec::new(),
    };
    let err = prove_nodata(&qname, A, &name("example.com."), &denial)
        .expect_err("a CNAME should have been followed rather than yielding NODATA");
    assert!(err.contains("CNAME"), "unexpected reason: {err}");
}

#[test]
fn nodata_is_proven_by_a_matching_nsec_without_the_type() {
    let qname = name("a.example.com.");
    let denial = Denial {
        nsec: vec![(
            qname.clone(),
            nsec(name("c.example.com."), vec![A]),
        )],
        nsec3: Vec::new(),
    };
    assert_eq!(
        prove_nodata(&qname, MX, &name("example.com."), &denial),
        Ok(Denied::Proven)
    );
}

#[test]
fn wildcard_expansion_without_a_denial_is_refused() {
    let err = prove_wildcard_expansion(
        &name("a.example.com."),
        &name("example.com."),
        &Denial::default(),
    )
    .expect_err("a wildcard answer with no denial must not be accepted");
    assert!(err.contains("does not exist"), "unexpected reason: {err}");
}

#[test]
fn wildcard_expansion_is_proven_when_the_qname_is_covered() {
    let denial = Denial {
        nsec: vec![(
            name("a.example.com."),
            nsec(name("c.example.com."), vec![A]),
        )],
        nsec3: Vec::new(),
    };
    assert_eq!(
        prove_wildcard_expansion(&name("b.example.com."), &name("example.com."), &denial),
        Ok(Denied::Proven)
    );
}

fn address(owner: &str, ip: [u8; 4]) -> WireRecord {
    wire_record(&Record::from_rdata(
        wire(owner),
        60,
        RData::A(rdata::A(ip.into())),
    ))
}

#[test]
fn group_rrsets_separates_signatures_from_data() {
    let a1 = address("a.example.com.", [192, 0, 2, 1]);
    let a2 = address("a.example.com.", [192, 0, 2, 2]);
    let b = address("b.example.com.", [192, 0, 2, 3]);
    let (sets, sigs) = group_rrsets(&[a1, a2, b]);
    assert_eq!(sets.len(), 2, "two owners means two RRsets");
    assert_eq!(sets[0].records.len(), 2, "the two a. records are one RRset");
    assert!(sigs.is_empty());
}

fn signed_by(owner: &str, signer: &str) -> Vec<WireRecord> {
    let sig = Record::from_rdata(
        wire(owner),
        60,
        RData::DNSSEC(DNSSECRData::RRSIG(RRSIG::new(
            RecordType::A,
            Algorithm::ED25519,
            wire(owner).num_labels(),
            60,
            2_000_000_000,
            1_000_000_000,
            1234,
            wire(signer),
            vec![0u8; 64],
        ))),
    );
    vec![address(owner, [192, 0, 2, 1]), wire_record(&sig)]
}

#[test]
fn signer_below_finds_a_child_zone_that_answered_for_itself() {
    let records = signed_by("cdnjs.cloudflare.com.", "cdnjs.cloudflare.com.");
    assert_eq!(
        signer_below(&records, &name("cloudflare.com.")),
        Some(name("cdnjs.cloudflare.com.")),
        "an answer signed below the zone we are talking to names the cut to cross"
    );
}

#[test]
fn signer_below_is_silent_when_the_current_zone_signed() {
    let records = signed_by("www.example.com.", "example.com.");
    assert_eq!(signer_below(&records, &name("example.com.")), None);
}

#[test]
fn signer_below_ignores_a_signer_outside_the_zone() {
    let records = signed_by("www.example.com.", "attacker.test.");
    assert_eq!(signer_below(&records, &name("example.com.")), None);
}

#[test]
fn signer_below_rejects_a_signer_that_does_not_contain_its_owner() {
    let records = signed_by("www.example.com.", "nowhere.example.com.");
    assert_eq!(
        signer_below(&records, &name("example.com.")),
        None,
        "a signer that does not enclose the owner is a claim, not a zone cut"
    );
}

#[test]
fn signer_below_refuses_a_section_with_two_signers() {
    let mut records = signed_by("a.sub.example.com.", "sub.example.com.");
    records.extend(signed_by("b.example.com.", "example.com."));
    assert_eq!(signer_below(&records, &name("example.com.")), None);
}

#[test]
fn signer_below_reports_nothing_for_unsigned_records() {
    let unsigned = vec![address("www.example.com.", [192, 0, 2, 1])];
    assert_eq!(signer_below(&unsigned, &name("example.com.")), None);
}

#[test]
fn signer_below_reports_a_signer_several_labels_down() {
    let records = signed_by("host.a.b.example.com.", "a.b.example.com.");
    assert_eq!(
        signer_below(&records, &name("example.com.")),
        Some(name("a.b.example.com."))
    );
}

fn soa_at(owner: &str) -> WireRecord {
    wire_record(&Record::from_rdata(
        wire(owner),
        60,
        RData::SOA(rdata::SOA::new(
            wire("ns1.example.com."),
            wire("hostmaster.example.com."),
            1,
            7200,
            3600,
            1_209_600,
            300,
        )),
    ))
}

#[test]
fn soa_below_names_a_child_apex() {
    let authority = vec![soa_at("cdn.example.com.")];
    assert_eq!(
        soa_below(&authority, &name("example.com.")),
        Some(name("cdn.example.com."))
    );
}

#[test]
fn soa_below_ignores_the_zones_own_apex() {
    let authority = vec![soa_at("example.com.")];
    assert_eq!(soa_below(&authority, &name("example.com.")), None);
}

#[test]
fn soa_below_ignores_a_foreign_apex() {
    let authority = vec![soa_at("elsewhere.test.")];
    assert_eq!(soa_below(&authority, &name("example.com.")), None);
}

#[test]
fn soa_below_reports_nothing_without_an_soa() {
    assert_eq!(soa_below(&[], &name("example.com.")), None);
}

#[test]
fn ds_algorithm_support_gates_the_insecure_downgrade() {
    let supported = Ds {
        key_tag: 1234,
        algorithm: 8,
        digest_type: 2,
        digest: vec![0u8; 32],
    };
    assert!(ds_algorithms_supported(&[supported]));
    assert!(!ds_algorithms_supported(&[]));
}

// ---------------------------------------------------------------------------
// Chains of trust
// ---------------------------------------------------------------------------

const ZONE: &str = "example.com.";
const NOW: u32 = 1_750_000_000;

fn base64(octets: &[u8]) -> String {
    base64::Engine::encode(&base64::engine::general_purpose::STANDARD, octets)
}

/// A signature over records of `owner`, made with the zone's key.
fn signed(pair: &DnssecKeyPair, owner: &str, kind: RecordKind, values: &[&str]) -> WireRecord {
    let rrset: Vec<DnsRecord> = values
        .iter()
        .map(|v| DnsRecord {
            id: None,
            name: owner.to_string(),
            record_type: kind,
            value: v.to_string(),
            ttl: 300,
            priority: 0,
        })
        .collect();
    let key = SigningKey::from_pkcs8(pair.algorithm, pair.key_type, &pair.private_key).unwrap();
    let value = sign_rrset(
        &key,
        &RrsetToSign {
            signer_zone: ZONE,
            owner,
            type_covered: kind,
            original_ttl: 300,
            rrset: &rrset,
            inception: 1_700_000_000,
            expiration: 1_800_000_000,
        },
    )
    .unwrap();
    let sig = Rrsig::parse(&value).unwrap();
    wire_record(&Record::from_rdata(
        wire(owner),
        300,
        RData::DNSSEC(DNSSECRData::RRSIG(RRSIG::new(
            kind.wire_type().into(),
            Algorithm::from_u8(sig.algorithm.number()),
            sig.labels,
            sig.original_ttl,
            sig.expiration,
            sig.inception,
            sig.key_tag,
            wire(&sig.signer_name),
            sig.signature,
        ))),
    ))
}

fn dnskey_record(pair: &DnssecKeyPair) -> WireRecord {
    let public = PublicKeyBuf::new(
        pair.public_key.clone(),
        Algorithm::from_u8(pair.algorithm.number()),
    );
    let record = Record::from_rdata(
        wire(ZONE),
        300,
        RData::DNSSEC(DNSSECRData::DNSKEY(DNSKEY::with_flags(
            pair.key_type.flags(),
            public,
        ))),
    );
    WireRecord {
        data: RecordData::Dnskey(own_key(pair)),
        ..wire_record(&record)
    }
}

fn own_key(pair: &DnssecKeyPair) -> Dnskey {
    Dnskey {
        flags: pair.key_type.flags(),
        algorithm: pair.algorithm.number(),
        public_key: pair.public_key.clone(),
    }
}

fn zone_pair(algorithm: DnssecAlgorithm) -> DnssecKeyPair {
    generate_key(ZONE, algorithm, KeyType::KSK).unwrap()
}

fn dnskey_text(pair: &DnssecKeyPair) -> String {
    format!(
        "{} 3 {} {}",
        pair.key_type.flags(),
        pair.algorithm.number(),
        base64(&pair.public_key)
    )
}

#[test]
fn a_signed_rrset_verifies_with_the_zones_keys() {
    for algorithm in [
        DnssecAlgorithm::Ed25519,
        DnssecAlgorithm::EcdsaP256Sha256,
        DnssecAlgorithm::EcdsaP384Sha384,
    ] {
        let pair = zone_pair(algorithm);
        let owner = "www.example.com.";
        let sig = signed(&pair, owner, RecordKind::A, &["192.0.2.1", "192.0.2.2"]);
        let rrset = [address(owner, [192, 0, 2, 2]), address(owner, [192, 0, 2, 1])];
        let keys = [own_key(&pair)];
        let sigs = [sig];
        let verify = |rrset: &[WireRecord], now: u32| {
            verify_rrset(&name(owner), A, rrset, &sigs, &keys, &name(ZONE), now)
        };
        let facts = verify(&rrset, NOW).unwrap();
        assert!(facts.wildcard_closest_encloser.is_none());

        // Other data, no data, and times outside the signature's.
        let forged = [address(owner, [198, 51, 100, 9])];
        assert!(verify(&forged, NOW).is_err());
        assert!(verify(&[], NOW).unwrap_err().starts_with("nothing to verify"));
        assert!(verify(&rrset, 1_600_000_000).is_err());
        assert!(verify(&rrset, 1_900_000_000).is_err());

        // Another key, and none.
        let other = [own_key(&zone_pair(algorithm))];
        let by_other = verify_rrset(&name(owner), A, &rrset, &sigs, &other, &name(ZONE), NOW);
        assert!(by_other.is_err());
        let by_none = verify_rrset(&name(owner), A, &rrset, &sigs, &[], &name(ZONE), NOW);
        assert_eq!(by_none.unwrap_err(), "no DNSKEYs available for example.com.");
    }
}

#[test]
fn a_wildcard_answer_names_its_closest_encloser() {
    let pair = zone_pair(DnssecAlgorithm::Ed25519);
    let mut sig = signed(&pair, "*.example.com.", RecordKind::A, &["192.0.2.1"]);
    let owner = "anything.example.com.";
    sig.name = name(owner);
    let rrset = [address(owner, [192, 0, 2, 1])];
    let facts = verify_rrset(
        &name(owner),
        A,
        &rrset,
        &[sig],
        &[own_key(&pair)],
        &name(ZONE),
        NOW,
    )
    .unwrap();
    assert_eq!(facts.wildcard_closest_encloser, Some(name(ZONE)));
}

/// The DS record of a key, with the number of its digest's algorithm.
fn ds_of(pair: &DnssecKeyPair) -> Ds {
    let text = compute_ds_sha256(
        ZONE,
        pair.key_tag,
        pair.algorithm,
        &pair.public_key,
        pair.key_type,
    );
    let digest = text.split_whitespace().last().unwrap();
    let octet = |i: usize| u8::from_str_radix(&digest[2 * i..2 * i + 2], 16).unwrap();
    Ds {
        key_tag: pair.key_tag,
        algorithm: pair.algorithm.number(),
        digest_type: 2,
        digest: (0..32).map(octet).collect(),
    }
}

#[test]
fn keys_are_trusted_through_the_parent_or_an_anchor() {
    let pair = zone_pair(DnssecAlgorithm::EcdsaP256Sha256);
    let records = [dnskey_record(&pair)];
    let sigs = [signed(
        &pair,
        ZONE,
        RecordKind::DNSKEY,
        &[dnskey_text(&pair).as_str()],
    )];
    let validate =
        |source: &KeySource| validate_dnskey_rrset(&name(ZONE), &records, &sigs, source, NOW);

    let ds = [ds_of(&pair)];
    let keys = validate(&KeySource::Ds(&ds)).unwrap();
    assert_eq!(keys.len(), 1);
    assert_eq!(keys[0].public_key, pair.public_key);

    let anchors = Anchors::from_dnskey_strings(&[dnskey_text(&pair)]).unwrap();
    assert_eq!(anchors.len(), 1);
    assert!(validate(&KeySource::Anchors(anchors.get())).is_ok());

    // A DS of another key, and anchors that do not hold this one.
    let other = [ds_of(&zone_pair(DnssecAlgorithm::EcdsaP256Sha256))];
    assert!(validate(&KeySource::Ds(&other)).is_err());
    let roots = Anchors::iana_defaults();
    assert!(!roots.is_empty());
    assert!(validate(&KeySource::Anchors(roots.get())).is_err());
}

#[test]
fn the_root_keys_are_the_published_ones() {
    let roots = Anchors::iana_defaults();
    assert_eq!(roots.len(), 2);
    for (i, (text, tag)) in [(ROOT_KEY_20326, 20326), (ROOT_KEY_38696, 38696)]
        .into_iter()
        .enumerate()
    {
        let key = base64_decode(text).unwrap();
        let rsa = DnssecAlgorithm::RsaSha256;
        assert_eq!(compute_key_tag(rsa, KeyType::KSK, &key), tag);
        let anchor = roots.get().get(i).unwrap();
        assert_eq!(anchor.public_bytes(), key);
        assert_eq!(anchor.algorithm(), Algorithm::RSASHA256);
        // The same key as it is published.
        let listed = Anchors::from_dnskey_strings(&[format!("257 3 8 {text}")]).unwrap();
        assert_eq!(listed.get().get(0).unwrap().public_bytes(), key);
    }
}

#[test]
fn every_malformed_anchor_has_its_problem() {
    let problem = |entry: &str| match parse_anchor(entry) {
        Err(problem) => problem,
        Ok(_) => panic!("{entry} is no anchor"),
    };
    assert_eq!(problem("257 3"), AnchorProblem::TooFewFields(2));
    assert_eq!(problem("x 3 15 AAAA"), AnchorProblem::BadFlags);
    assert_eq!(problem("1 3 15 AAAA"), AnchorProblem::NotZoneKey);
    assert_eq!(problem("257 x 15 AAAA"), AnchorProblem::BadProtocol);
    assert_eq!(problem("257 4 15 AAAA"), AnchorProblem::WrongProtocol(4));
    assert_eq!(problem("257 3 x AAAA"), AnchorProblem::BadAlgorithm);
    assert_eq!(
        problem("257 3 3 AAAA"),
        AnchorProblem::UnsupportedAlgorithm(3)
    );
    assert_eq!(problem("257 3 15 !"), AnchorProblem::UndecodableKey);
    assert_eq!(
        problem("257 3 15 AAAA"),
        AnchorProblem::WrongKeyLength(3, 32)
    );
}

#[test]
fn a_malformed_anchor_is_named_in_its_error() {
    let error = |entry: &str| match Anchors::from_dnskey_strings(&[entry.to_string()]) {
        Err(text) => text,
        Ok(_) => panic!("{entry} is no anchor"),
    };
    assert_eq!(
        error(" 257 3 "),
        "trust anchor \"257 3\" has 2 fields, expected \
         \"<flags> <protocol> <algorithm> <base64 key>\""
    );
    assert_eq!(
        error("x\t3 15 AAAA"),
        "trust anchor \"x\\t3 15 AAAA\" has non-numeric flags"
    );
    assert_eq!(
        error("1 3 15 AAAA"),
        "trust anchor \"1 3 15 AAAA\" does not have the zone-key flag set"
    );
    assert_eq!(
        error("257 x 15 AAAA"),
        "trust anchor \"257 x 15 AAAA\" has a non-numeric protocol"
    );
    assert_eq!(
        error("257 4 15 AAAA"),
        "trust anchor \"257 4 15 AAAA\" has protocol 4, which must be 3"
    );
    assert_eq!(
        error("257 3 x AAAA"),
        "trust anchor \"257 3 x AAAA\" has a non-numeric algorithm"
    );
    assert_eq!(
        error("257 3 3 AAAA"),
        "trust anchor \"257 3 3 AAAA\" uses algorithm 3, which this build cannot verify \
         \u{2014} anchoring to it would make every signed zone fail"
    );
    assert!(error("257 3 15 !")
        .starts_with("trust anchor \"257 3 15 !\" has an undecodable key: Invalid"));
    assert_eq!(
        error("257 3 13 AAAA"),
        "trust anchor \"257 3 13 AAAA\" carries a 3-byte key, \
         but algorithm ECDSAP256SHA256 (13) needs 64"
    );
    assert!(error("257 3 14 AAAA").ends_with("algorithm ECDSAP384SHA384 (14) needs 96"));
    assert!(error("257 3 15 AAAA").ends_with("algorithm ED25519 (15) needs 32"));
    match Anchors::from_dnskey_strings(&[]) {
        Err(text) => assert_eq!(text, "no trust anchors were parsed"),
        Ok(_) => panic!("there is no anchor"),
    }
}

#[test]
fn nsec3_hashes_match_the_rfc() {
    let parameters = Nsec3Data {
        hash_algorithm: 1,
        opt_out: false,
        iterations: 12,
        salt: vec![0xaa, 0xbb, 0xcc, 0xdd],
        next: vec![],
        types: vec![],
    };
    assert_eq!(
        hashed(&parameters, &name("example.")).unwrap(),
        "0P9MHAVEQVM6T7VBL5LOP2U3T2RP3TOM"
    );
    let many = Nsec3Data {
        iterations: 101,
        ..parameters
    };
    assert!(hashed(&many, &name("example.")).is_err());
}

#[test]
fn an_nsec3_proves_that_a_name_is_absent() {
    // One record that spans all other hashes: the apex, back to itself.
    let parameters = |next: Vec<u8>| Nsec3Data {
        hash_algorithm: 1,
        opt_out: false,
        iterations: 0,
        salt: vec![],
        next,
        types: vec![SOA, NS],
    };
    let apex = hashed(&parameters(vec![]), &name(ZONE)).unwrap();
    let value = |c: u8| match c {
        b'0'..=b'9' => c - b'0',
        _ => c - b'A' + 10,
    };
    let mut digest = Vec::new();
    for group in apex.as_bytes().chunks(8) {
        let bits = group.iter().fold(0u64, |acc, c| acc << 5 | u64::from(value(*c)));
        digest.extend_from_slice(&bits.to_be_bytes()[3..]);
    }
    let owner = name(&format!("{apex}.{ZONE}"));
    let denial = Denial {
        nsec: Vec::new(),
        nsec3: vec![(owner, parameters(digest))],
    };
    assert_eq!(
        prove_nxdomain(&name("absent.example.com."), &name(ZONE), &denial),
        Ok(Denied::Proven)
    );
    assert_eq!(
        prove_nodata(&name(ZONE), MX, &name(ZONE), &denial),
        Ok(Denied::Proven)
    );
    assert!(prove_nodata(&name(ZONE), SOA, &name(ZONE), &denial).is_err());
}

#[test]
fn records_are_picked_by_owner_and_type() {
    let pair = zone_pair(DnssecAlgorithm::Ed25519);
    let ds = WireRecord {
        name: name("child.example.com."),
        rtype: DS,
        ttl: 60,
        data: RecordData::Ds(ds_of(&pair)),
        wire: vec![],
    };
    let section = [
        dnskey_record(&pair),
        address("www.example.com.", [192, 0, 2, 1]),
        ds,
    ];
    assert_eq!(records_at(&section, &name("WWW.example.com."), A).len(), 1);
    assert_eq!(records_at(&section, &name(ZONE), A).len(), 0);
    let keys = zone_keys(&section, &name(ZONE));
    assert_eq!(keys.len(), 1);
    assert_eq!(dnskey_algorithms(&keys), vec![15]);
    assert_eq!(ds_records(&section, &name("child.example.com.")).len(), 1);
    assert_eq!(min_ttl(&section, 900), 60);
    assert_eq!(min_ttl(&[], 900), 900);
    assert!(!has_any_rrsig(&section));
    assert!(has_any_rrsig(&signed_by("a.example.com.", ZONE)));
    assert!(is_dnssec_type(46));
    assert!(!is_dnssec_type(A));
}

#[test]
fn verdicts_have_labels_and_reasons() {
    let verdicts = [
        (Verdict::Secure, 0, None),
        (Verdict::Insecure, 1, None),
        (Verdict::Bogus("x".into()), 2, Some("x")),
        (Verdict::Indeterminate("y".into()), 3, Some("y")),
    ];
    for (verdict, index, reason) in verdicts {
        assert_eq!(verdict.index(), index);
        assert_eq!(verdict.reason(), reason);
        assert!(!verdict.label().is_empty());
    }
}

#[test]
fn denial_records_are_gathered_from_a_section() {
    let denial_record = |owner: &str, rtype: u16, data: RecordData| WireRecord {
        name: name(owner),
        rtype,
        ttl: 60,
        data,
        wire: vec![],
    };
    let section = [
        address("www.example.com.", [192, 0, 2, 1]),
        denial_record(
            "a.example.com.",
            47,
            RecordData::Nsec(nsec(name("c.example.com."), vec![A])),
        ),
    ];
    let denial = Denial::from_records(&section);
    assert!(!denial.is_empty());
    assert_eq!(denial.nsec.len(), 1);
    assert!(nsec_covers_name(&denial, &name("b.example.com.")));
    assert!(Denial::from_records(&section[..1]).is_empty());
}

#[test]
fn a_wildcard_that_exists_is_not_ruled_out() {
    let denial = Denial {
        nsec: vec![
            (name("a.example.com."), nsec(name("c.example.com."), vec![A])),
            (name("*.example.com."), nsec(name("a.example.com."), vec![A])),
        ],
        nsec3: Vec::new(),
    };
    let err = prove_nxdomain(&name("b.example.com."), &name(ZONE), &denial).unwrap_err();
    assert!(err.contains("rules out the wildcard"), "unexpected {err}");
}
