//! DNSSEC algorithms, key types, key tags and DS digests.
use vstd::prelude::*;
use vstd::string::*;
use vstd::utf8::*;

use crate::codec::{be16, hex_encode, hex_encoded, push_be16};
use crate::names::{wire_labels, DOT};
use crate::text::{
    byte_strings, decimal, eq_text, lower_chars, lowercase, push_decimal, split, split_bytes,
    strip_end, strip_end_bytes, to_lowercase, to_uppercase, upper_chars, uppercase,
};

verus! {

/// DNSSEC algorithm identifiers.
#[derive(Debug, Clone, Copy, PartialEq, Eq, Structural)]
pub enum DnssecAlgorithm {
    /// RSA/SHA-256 (algorithm 8)
    RsaSha256,
    /// ECDSA P-256/SHA-256 (algorithm 13)
    EcdsaP256Sha256,
    /// ECDSA P-384/SHA-384 (algorithm 14)
    EcdsaP384Sha384,
    /// Ed25519 (algorithm 15)
    Ed25519,
}

/// The registered number of an algorithm.
pub open spec fn algorithm_number(algorithm: DnssecAlgorithm) -> u8 {
    match algorithm {
        DnssecAlgorithm::RsaSha256 => 8,
        DnssecAlgorithm::EcdsaP256Sha256 => 13,
        DnssecAlgorithm::EcdsaP384Sha384 => 14,
        DnssecAlgorithm::Ed25519 => 15,
    }
}

/// The stored name of an algorithm.
pub open spec fn algorithm_name(algorithm: DnssecAlgorithm) -> Seq<char> {
    match algorithm {
        DnssecAlgorithm::RsaSha256 => "RSA-SHA256"@,
        DnssecAlgorithm::EcdsaP256Sha256 => "ECDSA-P256-SHA256"@,
        DnssecAlgorithm::EcdsaP384Sha384 => "ECDSA-P384-SHA384"@,
        DnssecAlgorithm::Ed25519 => "Ed25519"@,
    }
}

/// The algorithm with a lowercase name or a number.
pub open spec fn algorithm_named(s: Seq<char>) -> Option<DnssecAlgorithm> {
    if s == "rsa-sha256"@ || s == "rsasha256"@ || s == "8"@ {
        Some(DnssecAlgorithm::RsaSha256)
    } else if s == "ecdsa-p256"@ || s == "ecdsap256sha256"@ || s == "ecdsa-p256-sha256"@ || s
        == "13"@ {
        Some(DnssecAlgorithm::EcdsaP256Sha256)
    } else if s == "ecdsa-p384"@ || s == "ecdsap384sha384"@ || s == "ecdsa-p384-sha384"@ || s
        == "14"@ {
        Some(DnssecAlgorithm::EcdsaP384Sha384)
    } else if s == "ed25519"@ || s == "15"@ {
        Some(DnssecAlgorithm::Ed25519)
    } else {
        None
    }
}

/// The algorithm that a name in any case, or a number, stands for.
pub open spec fn algorithm_of(s: Seq<char>) -> Option<DnssecAlgorithm> {
    algorithm_named(lowercase(s))
}

/// The size of an algorithm's public key in a DNSKEY record.
pub open spec fn key_len(algorithm: DnssecAlgorithm) -> Option<usize> {
    match algorithm {
        DnssecAlgorithm::Ed25519 => Some(32),
        DnssecAlgorithm::EcdsaP256Sha256 => Some(64),
        DnssecAlgorithm::EcdsaP384Sha384 => Some(96),
        DnssecAlgorithm::RsaSha256 => None,
    }
}

impl DnssecAlgorithm {
    /// Parses an algorithm name or number.
    pub fn parse(s: &str) -> (r: Option<DnssecAlgorithm>)
        ensures
            r == algorithm_of(s@),
    {
        let lower = to_lowercase(s);
        let l = lower.as_str();
        if eq_text(l, "rsa-sha256") || eq_text(l, "rsasha256") || eq_text(l, "8") {
            Some(DnssecAlgorithm::RsaSha256)
        } else if eq_text(l, "ecdsa-p256") || eq_text(l, "ecdsap256sha256") || eq_text(
            l,
            "ecdsa-p256-sha256",
        ) || eq_text(l, "13") {
            Some(DnssecAlgorithm::EcdsaP256Sha256)
        } else if eq_text(l, "ecdsa-p384") || eq_text(l, "ecdsap384sha384") || eq_text(
            l,
            "ecdsa-p384-sha384",
        ) || eq_text(l, "14") {
            Some(DnssecAlgorithm::EcdsaP384Sha384)
        } else if eq_text(l, "ed25519") || eq_text(l, "15") {
            Some(DnssecAlgorithm::Ed25519)
        } else {
            None
        }
    }

    /// The name this algorithm is stored under.
    pub fn as_str(&self) -> (r: &'static str)
        ensures
            r@ == algorithm_name(*self),
    {
        match self {
            DnssecAlgorithm::RsaSha256 => "RSA-SHA256",
            DnssecAlgorithm::EcdsaP256Sha256 => "ECDSA-P256-SHA256",
            DnssecAlgorithm::EcdsaP384Sha384 => "ECDSA-P384-SHA384",
            DnssecAlgorithm::Ed25519 => "Ed25519",
        }
    }

    /// The registered number of this algorithm.
    pub fn number(&self) -> (r: u8)
        ensures
            r == algorithm_number(*self),
    {
        match self {
            DnssecAlgorithm::RsaSha256 => 8,
            DnssecAlgorithm::EcdsaP256Sha256 => 13,
            DnssecAlgorithm::EcdsaP384Sha384 => 14,
            DnssecAlgorithm::Ed25519 => 15,
        }
    }

    /// Whether keys can be generated and signatures made with this algorithm.
    pub fn signing_supported(&self) -> (r: bool)
        ensures
            r == (*self != DnssecAlgorithm::RsaSha256),
    {
        match self {
            DnssecAlgorithm::RsaSha256 => false,
            _ => true,
        }
    }

    /// The size, in bytes, of the DNSKEY public key this algorithm produces.
    pub fn public_key_len(&self) -> (r: Option<usize>)
        ensures
            r == key_len(*self),
    {
        match self {
            DnssecAlgorithm::Ed25519 => Some(32),
            DnssecAlgorithm::EcdsaP256Sha256 => Some(64),
            DnssecAlgorithm::EcdsaP384Sha384 => Some(96),
            DnssecAlgorithm::RsaSha256 => None,
        }
    }
}

/// The stored name of an algorithm parses back to it.
pub proof fn law_algorithm_name_round_trip(algorithm: DnssecAlgorithm)
    ensures
        algorithm_of(algorithm_name(algorithm)) == Some(algorithm),
{
    reveal_strlit("RSA-SHA256");
    reveal_strlit("ECDSA-P256-SHA256");
    reveal_strlit("ECDSA-P384-SHA384");
    reveal_strlit("Ed25519");
    reveal_strlit("rsa-sha256");
    reveal_strlit("rsasha256");
    reveal_strlit("8");
    reveal_strlit("ecdsa-p256");
    reveal_strlit("ecdsap256sha256");
    reveal_strlit("ecdsa-p256-sha256");
    reveal_strlit("13");
    reveal_strlit("ecdsa-p384");
    reveal_strlit("ecdsap384sha384");
    reveal_strlit("ecdsa-p384-sha384");
    reveal_strlit("14");
    reveal_strlit("ed25519");
    reveal_strlit("15");
    let n = algorithm_name(algorithm);
    assert(is_ascii_chars(n));
    match algorithm {
        DnssecAlgorithm::RsaSha256 => {
            assert(lower_chars(n) =~= "rsa-sha256"@);
        },
        DnssecAlgorithm::EcdsaP256Sha256 => {
            assert(lower_chars(n) =~= "ecdsa-p256-sha256"@);
        },
        DnssecAlgorithm::EcdsaP384Sha384 => {
            assert(lower_chars(n) =~= "ecdsa-p384-sha384"@);
            assert("ecdsa-p384-sha384"@[7] == '3');
            assert("ecdsa-p256-sha256"@[7] == '2');
        },
        DnssecAlgorithm::Ed25519 => {
            assert(lower_chars(n) =~= "ed25519"@);
        },
    }
}

/// The number of an algorithm, in decimal, parses back to it.
pub proof fn law_algorithm_number_round_trip(algorithm: DnssecAlgorithm)
    ensures
        algorithm_of(decimal(algorithm_number(algorithm) as nat)) == Some(algorithm),
{
    reveal_with_fuel(decimal, 2);
    reveal_strlit("rsa-sha256");
    reveal_strlit("rsasha256");
    reveal_strlit("8");
    reveal_strlit("ecdsa-p256");
    reveal_strlit("ecdsap256sha256");
    reveal_strlit("ecdsa-p256-sha256");
    reveal_strlit("13");
    reveal_strlit("ecdsa-p384");
    reveal_strlit("ecdsap384sha384");
    reveal_strlit("ecdsa-p384-sha384");
    reveal_strlit("14");
    reveal_strlit("ed25519");
    reveal_strlit("15");
    let n = decimal(algorithm_number(algorithm) as nat);
    assert(is_ascii_chars(n));
    assert(lower_chars(n) =~= n);
    match algorithm {
        DnssecAlgorithm::RsaSha256 => {
            assert(n =~= "8"@);
        },
        DnssecAlgorithm::EcdsaP256Sha256 => {
            assert(n =~= "13"@);
        },
        DnssecAlgorithm::EcdsaP384Sha384 => {
            assert(n =~= "14"@);
            assert(n[1] == '4' && "13"@[1] == '3');
        },
        DnssecAlgorithm::Ed25519 => {
            assert(n =~= "15"@);
            assert(n[1] == '5' && "13"@[1] == '3' && "14"@[1] == '4');
        },
    }
}

/// Key type: zone signing key or key signing key.
#[derive(Debug, Clone, Copy, PartialEq, Eq, Structural)]
pub enum KeyType {
    /// Zone signing key (flags 256)
    ZSK,
    /// Key signing key (flags 257)
    KSK,
}

pub open spec fn key_type_name(key_type: KeyType) -> Seq<char> {
    match key_type {
        KeyType::ZSK => "ZSK"@,
        KeyType::KSK => "KSK"@,
    }
}

/// The key type that a name in any case stands for.
pub open spec fn key_type_of(s: Seq<char>) -> Option<KeyType> {
    let u = uppercase(s);
    if u == "ZSK"@ {
        Some(KeyType::ZSK)
    } else if u == "KSK"@ {
        Some(KeyType::KSK)
    } else {
        None
    }
}

/// The DNSKEY flags of a key type.
pub open spec fn key_flags(key_type: KeyType) -> u16 {
    match key_type {
        KeyType::ZSK => 256,
        KeyType::KSK => 257,
    }
}

impl KeyType {
    /// Parses a key type's name.
    pub fn parse(s: &str) -> (r: Option<KeyType>)
        ensures
            r == key_type_of(s@),
    {
        let upper = to_uppercase(s);
        if eq_text(upper.as_str(), "ZSK") {
            Some(KeyType::ZSK)
        } else if eq_text(upper.as_str(), "KSK") {
            Some(KeyType::KSK)
        } else {
            None
        }
    }

    /// The name of this key type.
    pub fn as_str(&self) -> (r: &'static str)
        ensures
            r@ == key_type_name(*self),
    {
        match self {
            KeyType::ZSK => "ZSK",
            KeyType::KSK => "KSK",
        }
    }

    /// The DNSKEY flags of this key type.
    pub fn flags(&self) -> (r: u16)
        ensures
            r == key_flags(*self),
    {
        match self {
            KeyType::ZSK => 256,
            KeyType::KSK => 257,
        }
    }
}

/// The name of a key type parses back to it.
pub proof fn law_key_type_name_round_trip(key_type: KeyType)
    ensures
        key_type_of(key_type_name(key_type)) == Some(key_type),
{
    reveal_strlit("ZSK");
    reveal_strlit("KSK");
    let n = key_type_name(key_type);
    assert(is_ascii_chars(n));
    assert(upper_chars(n) =~= n);
    assert("ZSK"@[0] == 'Z' && "KSK"@[0] == 'K');
}

// ---------------------------------------------------------------------------
// Key tags and DS digests
// ---------------------------------------------------------------------------
/// The RDATA of a DNSKEY record.
pub open spec fn dnskey_rdata(
    algorithm: DnssecAlgorithm,
    key_type: KeyType,
    public_key: Seq<u8>,
) -> Seq<u8> {
    be16(key_flags(key_type)) + seq![3u8, algorithm_number(algorithm)] + public_key
}

/// The sum of a byte string read as 16-bit numbers, a last odd octet being a high one.
pub open spec fn octet_pair_sum(b: Seq<u8>) -> nat
    decreases b.len(),
{
    if b.len() == 0 {
        0
    } else {
        octet_pair_sum(b.drop_last()) + if b.len() % 2 == 1 {
            (b.last() * 256) as nat
        } else {
            b.last() as nat
        }
    }
}

/// The key tag of DNSKEY RDATA (RFC 4034 appendix B).
pub open spec fn key_tag_of(rdata: Seq<u8>) -> u16 {
    let sum = octet_pair_sum(rdata);
    ((sum + sum / 0x1_0000) % 0x1_0000) as u16
}

/// Whether a sum of octet pairs and its carries fit in 32 bits.
pub open spec fn tag_sum_fits(rdata: Seq<u8>) -> bool {
    octet_pair_sum(rdata) + octet_pair_sum(rdata) / 0x1_0000 <= 0xffff_ffff
}

/// Each pair of octets adds at most 0xffff to the sum.
pub proof fn lemma_octet_pair_sum_bound(b: Seq<u8>)
    ensures
        b.len() % 2 == 0 ==> octet_pair_sum(b) <= 0xffff * (b.len() / 2),
        b.len() % 2 == 1 ==> octet_pair_sum(b) <= 0xffff * (b.len() / 2) + 0xff00,
    decreases b.len(),
{
    if b.len() > 0 {
        lemma_octet_pair_sum_bound(b.drop_last());
    }
}

proof fn lemma_octet_pair_sum_prefix(b: Seq<u8>, i: int)
    requires
        0 <= i <= b.len(),
    ensures
        octet_pair_sum(b.subrange(0, i)) <= octet_pair_sum(b),
    decreases b.len() - i,
{
    if i < b.len() {
        assert(b.subrange(0, i + 1).drop_last() =~= b.subrange(0, i));
        lemma_octet_pair_sum_prefix(b, i + 1);
    } else {
        assert(b.subrange(0, i) =~= b);
    }
}

/// The RDATA of a DNSKEY record.
pub fn encode_dnskey(
    algorithm: DnssecAlgorithm,
    key_type: KeyType,
    public_key: &[u8],
) -> (r: Vec<u8>)
    ensures
        r@ == dnskey_rdata(algorithm, key_type, public_key@),
{
    let mut rdata: Vec<u8> = Vec::new();
    push_be16(&mut rdata, key_type.flags());
    rdata.push(3);
    rdata.push(algorithm.number());
    rdata.extend_from_slice(public_key);
    assert(rdata@ =~= dnskey_rdata(algorithm, key_type, public_key@));
    rdata
}

proof fn lemma_short_sum_fits(rdata: Seq<u8>)
    requires
        rdata.len() <= 131072,
    ensures
        tag_sum_fits(rdata),
{
    lemma_octet_pair_sum_bound(rdata);
    assert(octet_pair_sum(rdata) <= 0xffff_0000);
}

/// The key tag of DNSKEY RDATA. That of up to 131072 octets always has one.
pub fn sum_key_tag(rdata: &[u8]) -> (r: u16)
    requires
        rdata@.len() <= 131072 || tag_sum_fits(rdata@),
    ensures
        r == key_tag_of(rdata@),
{
    proof {
        if rdata@.len() <= 131072 {
            lemma_short_sum_fits(rdata@);
        }
    }
    let mut ac: u32 = 0;
    let mut i: usize = 0;
    while i < rdata.len()
        invariant
            i <= rdata.len(),
            ac == octet_pair_sum(rdata@.subrange(0, i as int)),
            tag_sum_fits(rdata@),
        decreases rdata.len() - i,
    {
        proof {
            assert(rdata@.subrange(0, i + 1).drop_last() =~= rdata@.subrange(0, i as int));
            lemma_octet_pair_sum_prefix(rdata@, i + 1);
        }
        if i % 2 == 0 {
            ac = ac + (rdata[i] as u32) * 256;
        } else {
            ac = ac + rdata[i] as u32;
        }
        i = i + 1;
    }
    assert(rdata@.subrange(0, i as int) =~= rdata@);
    ac = ac + ac / 0x1_0000;
    (ac % 0x1_0000) as u16
}

/// Computes the DNSKEY key tag (RFC 4034 appendix B).
pub fn compute_key_tag(
    algorithm: DnssecAlgorithm,
    key_type: KeyType,
    public_key: &[u8],
) -> (r: u16)
    requires
        public_key@.len() <= 131068 || tag_sum_fits(dnskey_rdata(algorithm, key_type, public_key@)),
    ensures
        r == key_tag_of(dnskey_rdata(algorithm, key_type, public_key@)),
{
    let rdata = encode_dnskey(algorithm, key_type, public_key);
    sum_key_tag(rdata.as_slice())
}

/// The SHA-256 digest of a byte string.
pub uninterp spec fn sha256(b: Seq<u8>) -> Seq<u8>;

/// `sha2::Sha256::digest`: the 32-octet SHA-256 digest of the input.
#[verifier::external_body]
fn sha256_digest(b: &[u8]) -> (r: Vec<u8>)
    ensures
        r@ == sha256(b@),
        r@.len() == 32,
{
    <sha2::Sha256 as sha2::Digest>::digest(b).to_vec()
}

/// What a DS digest is taken over: the owner's labels as written, then the DNSKEY's
/// RDATA.
pub open spec fn ds_input(
    zone: Seq<char>,
    algorithm: DnssecAlgorithm,
    public_key: Seq<u8>,
    key_type: KeyType,
) -> Seq<u8> {
    wire_labels(split(strip_end(encode_utf8(zone), DOT), DOT)).push(0u8) + dnskey_rdata(
        algorithm,
        key_type,
        public_key,
    )
}

/// A DS record's text around its hexadecimal digest.
pub open spec fn ds_text(
    key_tag: u16,
    algorithm: DnssecAlgorithm,
    digest: Seq<u8>,
) -> Seq<char> {
    decimal(key_tag as nat).push(' ') + decimal(algorithm_number(algorithm) as nat) + seq![
        ' ',
        '1',
        ' ',
        '1',
        ' ',
    ] + hex_encoded(digest)
}

/// Renders a DS record from its digest.
pub fn render_ds(key_tag: u16, algorithm: DnssecAlgorithm, digest: &[u8]) -> (r: String)
    ensures
        r@ == ds_text(key_tag, algorithm, digest@),
{
    let mut out = String::new();
    push_decimal(&mut out, key_tag as u64);
    out.push(' ');
    push_decimal(&mut out, algorithm.number() as u64);
    out.push(' ');
    out.push('1');
    out.push(' ');
    out.push('1');
    out.push(' ');
    let digits = hex_encode(digest);
    out.append(digits.as_str());
    assert(out@ =~= ds_text(key_tag, algorithm, digest@));
    out
}

/// The labels of a name in wire form, as written, and the root label.
fn raw_wire_name(zone: &str) -> (r: Vec<u8>)
    ensures
        r@ == wire_labels(split(strip_end(encode_utf8(zone@), DOT), DOT)).push(0u8),
{
    let mut out: Vec<u8> = Vec::new();
    let labels = split_bytes(strip_end_bytes(zone.as_bytes(), DOT), DOT);
    let ghost ls = byte_strings(labels@);
    let mut i: usize = 0;
    assert(ls.subrange(0, 0) =~= Seq::empty());
    while i < labels.len()
        invariant
            i <= labels.len(),
            ls == byte_strings(labels@),
            out@ == wire_labels(ls.subrange(0, i as int)),
        decreases labels.len() - i,
    {
        out.push((labels[i].len() % 256) as u8);
        out.extend_from_slice(labels[i].as_slice());
        proof {
            let p = ls.subrange(0, i + 1);
            assert(p.drop_last() =~= ls.subrange(0, i as int));
            assert(p.last() == ls[i as int]);
            assert(out@ =~= wire_labels(p));
        }
        i = i + 1;
    }
    assert(ls.subrange(0, i as int) =~= ls);
    out.push(0);
    out
}

/// Computes a DS record (SHA-256) from a DNSKEY.
pub fn compute_ds_sha256(
    zone: &str,
    key_tag: u16,
    algorithm: DnssecAlgorithm,
    public_key: &[u8],
    key_type: KeyType,
) -> (r: String)
    ensures
        r@ == ds_text(
            key_tag,
            algorithm,
            sha256(ds_input(zone@, algorithm, public_key@, key_type)),
        ),
{
    let mut input = raw_wire_name(zone);
    let rdata = encode_dnskey(algorithm, key_type, public_key);
    input.extend_from_slice(rdata.as_slice());
    assert(input@ =~= ds_input(zone@, algorithm, public_key@, key_type));
    let digest = sha256_digest(input.as_slice());
    render_ds(key_tag, algorithm, digest.as_slice())
}

} // verus!
