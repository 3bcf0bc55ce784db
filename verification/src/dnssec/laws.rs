//! What signing and denying existence write down, said of the octets that are written.
use vstd::prelude::*;
use vstd::utf8::encode_utf8;

use crate::codec::{base64_decoded, be16, be32, read16};
use crate::dns_server::record_laws::number_at;
use crate::dnssec::algorithm::{
    algorithm_number, algorithm_of, dnskey_rdata, ds_input, key_flags, key_tag_of, octet_pair_sum, DnssecAlgorithm,
    KeyType,
};
use crate::dnssec::chain::{is_authoritative_data, is_chained, is_claimed, kinds_at};
use crate::dnssec::keys::{
    curve_number, dnskey_form, ecdsa_accepts, ed25519_accepts, key_accepts, Curve,
    SigningKey,
};
use crate::dnssec::nsec::{
    bitmap_bits, bitmap_block, bitmap_windows, nsec_rdata, type_bitmap, type_codes,
};
use crate::dnssec::rdata::rdata_of;
use crate::dnssec::rrsig::{rrsig_fields, rrsig_parsed, rrsig_prefix, rrsig_rdata, RrsigView};
use crate::dnssec::sign::{
    rdatas_of, rr_octets, rrs_octets, rrsig_for, signed_message, sorted_set, verification_of,
    RrsetToSign, SigningError,
};
use crate::laws::{law_name_octets_are_read_back, law_strip_end_takes_the_suffix};
use crate::names::{canonical_form, in_zone, labels_fit, normalized, rrsig_label_count};
use crate::record::{kind_of, type_code, DnsRecord, RecordKind};
use crate::text::{decimal, parse_unsigned, split, strip_end, words};
use crate::wire_name::{labels_at, name_octets};

verus! {

// ---------------------------------------------------------------------------
// Type bit maps
// ---------------------------------------------------------------------------
/// Whether a bit of an octet is set, the highest one being bit 0.
pub open spec fn bit_of(octet: u8, k: int) -> bool {
    if k == 0 {
        octet as int / 128 % 2 == 1
    } else if k == 1 {
        octet as int / 64 % 2 == 1
    } else if k == 2 {
        octet as int / 32 % 2 == 1
    } else if k == 3 {
        octet as int / 16 % 2 == 1
    } else if k == 4 {
        octet as int / 8 % 2 == 1
    } else if k == 5 {
        octet as int / 4 % 2 == 1
    } else if k == 6 {
        octet as int / 2 % 2 == 1
    } else {
        octet as int % 2 == 1
    }
}

/// Whether octets are windows, each behind its number and its length.
pub open spec fn are_windows(b: Seq<u8>) -> bool
    decreases b.len(),
{
    b.len() == 0 || (b.len() >= 2 && b.len() >= 2 + b[1] && are_windows(
        b.subrange(2 + b[1] as int, b.len() as int),
    ))
}

/// Whether a type bit map claims a type, read as RFC 4034 section 4.1.2 says: the window of
/// the type's high octet has the octet and the bit of its low octet set.
pub open spec fn claims(b: Seq<u8>, t: u16) -> bool
    decreases b.len(),
{
    if b.len() < 2 || b.len() < 2 + b[1] {
        false
    } else {
        let at = t as int % 256 / 8;
        ||| b[0] == t / 256 && at < b[1] && bit_of(b[2 + at], t as int % 8)
        ||| claims(b.subrange(2 + b[1] as int, b.len() as int), t)
    }
}

proof fn lemma_windows_append(x: Seq<u8>, y: Seq<u8>, t: u16)
    requires
        are_windows(x),
        are_windows(y),
    ensures
        are_windows(x + y),
        claims(x + y, t) == (claims(x, t) || claims(y, t)),
    decreases x.len(),
{
    if x.len() == 0 {
        assert(x + y =~= y);
    } else {
        let n = 2 + x[1] as int;
        let rest = x.subrange(n, x.len() as int);
        let both = x + y;
        lemma_windows_append(rest, y, t);
        assert(both.subrange(n, both.len() as int) =~= rest + y);
        assert(both[0] == x[0] && both[1] == x[1]);
        let at = t as int % 256 / 8;
        if at < x[1] {
            assert(both[2 + at] == x[2 + at]);
        }
    }
}

/// A type's bit, as a number.
spec fn flag(types: Seq<u16>, w: int, j: int, k: int) -> int {
    if types.contains((w * 256 + j * 8 + k) as u16) {
        1
    } else {
        0
    }
}

#[verifier::spinoff_prover]
#[verifier::rlimit(40)]
proof fn lemma_bits(types: Seq<u16>, w: int, j: int)
    ensures
        bitmap_bits(types, w, j, 8) == flag(types, w, j, 0) * 128 + flag(types, w, j, 1) * 64 + flag(
            types,
            w,
            j,
            2,
        ) * 32 + flag(types, w, j, 3) * 16 + flag(types, w, j, 4) * 8 + flag(types, w, j, 5) * 4
            + flag(types, w, j, 6) * 2 + flag(types, w, j, 7),
{
    assert(bitmap_bits(types, w, j, 0) == 0);
    assert(bitmap_bits(types, w, j, 1) == flag(types, w, j, 0));
    assert(bitmap_bits(types, w, j, 2) == bitmap_bits(types, w, j, 1) * 2 + flag(types, w, j, 1));
    assert(bitmap_bits(types, w, j, 3) == bitmap_bits(types, w, j, 2) * 2 + flag(types, w, j, 2));
    assert(bitmap_bits(types, w, j, 4) == bitmap_bits(types, w, j, 3) * 2 + flag(types, w, j, 3));
    assert(bitmap_bits(types, w, j, 5) == bitmap_bits(types, w, j, 4) * 2 + flag(types, w, j, 4));
    assert(bitmap_bits(types, w, j, 6) == bitmap_bits(types, w, j, 5) * 2 + flag(types, w, j, 5));
    assert(bitmap_bits(types, w, j, 7) == bitmap_bits(types, w, j, 6) * 2 + flag(types, w, j, 6));
    assert(bitmap_bits(types, w, j, 8) == bitmap_bits(types, w, j, 7) * 2 + flag(types, w, j, 7));
}

proof fn lemma_digit(high: int, bit: int, low: int, unit: int)
    requires
        0 <= high,
        0 <= bit <= 1,
        0 <= low < unit,
    ensures
        (high * (2 * unit) + bit * unit + low) / unit % 2 == bit,
{
    let v = high * (2 * unit) + bit * unit + low;
    let q = 2 * high + bit;
    assert(v == q * unit + low) by (nonlinear_arith)
        requires
            v == high * (2 * unit) + bit * unit + low,
            q == 2 * high + bit,
    ;
    vstd::arithmetic::div_mod::lemma_fundamental_div_mod_converse(v, unit, q, low);
}

proof fn lemma_digits(a: int, b: int, c: int, d: int, e: int, f: int, g: int, h: int)
    requires
        0 <= a <= 1,
        0 <= b <= 1,
        0 <= c <= 1,
        0 <= d <= 1,
        0 <= e <= 1,
        0 <= f <= 1,
        0 <= g <= 1,
        0 <= h <= 1,
    ensures
        ({
            let v = a * 128 + b * 64 + c * 32 + d * 16 + e * 8 + f * 4 + g * 2 + h;
            &&& 0 <= v <= 255
            &&& v / 128 % 2 == a && v / 64 % 2 == b && v / 32 % 2 == c && v / 16 % 2 == d
            &&& v / 8 % 2 == e && v / 4 % 2 == f && v / 2 % 2 == g && v % 2 == h
        }),
{
    lemma_digit(0, a, b * 64 + c * 32 + d * 16 + e * 8 + f * 4 + g * 2 + h, 128);
    lemma_digit(a, b, c * 32 + d * 16 + e * 8 + f * 4 + g * 2 + h, 64);
    lemma_digit(a * 2 + b, c, d * 16 + e * 8 + f * 4 + g * 2 + h, 32);
    lemma_digit(a * 4 + b * 2 + c, d, e * 8 + f * 4 + g * 2 + h, 16);
    lemma_digit(a * 8 + b * 4 + c * 2 + d, e, f * 4 + g * 2 + h, 8);
    lemma_digit(a * 16 + b * 8 + c * 4 + d * 2 + e, f, g * 2 + h, 4);
    lemma_digit(a * 32 + b * 16 + c * 8 + d * 4 + e * 2 + f, g, h, 2);
    lemma_digit(a * 64 + b * 32 + c * 16 + d * 8 + e * 4 + f * 2 + g, h, 0, 1);
}

proof fn lemma_bit(types: Seq<u16>, w: int, j: int, k: int)
    requires
        0 <= k < 8,
    ensures
        0 <= bitmap_bits(types, w, j, 8) <= 255,
        bit_of(bitmap_bits(types, w, j, 8) as u8, k) <==> types.contains(
            (w * 256 + j * 8 + k) as u16,
        ),
{
    lemma_bits(types, w, j);
    lemma_digits(
        flag(types, w, j, 0),
        flag(types, w, j, 1),
        flag(types, w, j, 2),
        flag(types, w, j, 3),
        flag(types, w, j, 4),
        flag(types, w, j, 5),
        flag(types, w, j, 6),
        flag(types, w, j, 7),
    );
    assert(k == 0 || k == 1 || k == 2 || k == 3 || k == 4 || k == 5 || k == 6 || k == 7);
    assert(flag(types, w, j, k) == 1 <==> types.contains((w * 256 + j * 8 + k) as u16));
}

#[verifier::spinoff_prover]
#[verifier::rlimit(40)]
proof fn lemma_window(types: Seq<u16>, w: int, t: u16)
    requires
        0 <= w < 256,
    ensures
        ({
            let block = bitmap_block(types, w);
            let b = seq![w as u8, block.len() as u8] + block;
            &&& block.len() <= 32
            &&& are_windows(b)
            &&& claims(b, t) <==> t / 256 == w && types.contains(t)
            &&& block.len() == 0 && t / 256 == w ==> !types.contains(t)
        }),
{
    let all = Seq::new(32, |j: int| bitmap_bits(types, w, j, 8) as u8);
    let block = bitmap_block(types, w);
    law_strip_end_takes_the_suffix(all, 0u8);
    let b = seq![w as u8, block.len() as u8] + block;
    assert(b[1] == block.len());
    assert(b.subrange(2 + b[1] as int, b.len() as int) =~= Seq::empty());
    assert(are_windows(Seq::<u8>::empty()));
    let j = t as int % 256 / 8;
    let k = t as int % 8;
    assert(t as int == t as int / 256 * 256 + j * 8 + k);
    lemma_bit(types, w, j, k);
    assert(all[j] == bitmap_bits(types, w, j, 8) as u8);
    if j < block.len() {
        assert(b[2 + j] == block[j]);
        assert(block[j] == all[j]);
    } else {
        assert(all[j] == 0);
        assert(!bit_of(0u8, k));
    }
    assert(!claims(Seq::<u8>::empty(), t));
    if t / 256 == w {
        assert((w * 256 + j * 8 + k) as u16 == t);
    }
}

proof fn lemma_windows(types: Seq<u16>, n: nat, t: u16)
    requires
        n <= 256,
    ensures
        are_windows(bitmap_windows(types, n)),
        claims(bitmap_windows(types, n), t) <==> t / 256 < n && types.contains(t),
    decreases n,
{
    if n > 0 {
        let w = n - 1;
        let block = bitmap_block(types, w);
        let done = bitmap_windows(types, w as nat);
        lemma_windows(types, w as nat, t);
        lemma_window(types, w, t);
        if block.len() > 0 {
            let b = seq![w as u8, block.len() as u8] + block;
            lemma_windows_append(done, b, t);
            assert(bitmap_windows(types, n) =~= done + b);
        }
    }
}

/// A type bit map claims exactly the types that it was made of.
pub proof fn law_bitmaps_claim_their_types(types: Seq<u16>, t: u16)
    ensures
        are_windows(type_bitmap(types)),
        claims(type_bitmap(types), t) <==> types.contains(t),
{
    lemma_windows(types, 256, t);
}

/// An NSEC record's data is the next owner in canonical form and a bit map that claims the
/// types.
pub proof fn law_nsec_data_claims_the_types(next: Seq<char>, types: Seq<RecordKind>, t: u16)
    ensures
        nsec_rdata(next, types) is Some <==> canonical_form(next) is Some,
        nsec_rdata(next, types) matches Some(b) ==> {
            let name = canonical_form(next)->0;
            &&& b.len() >= name.len() && b.subrange(0, name.len() as int) == name
            &&& claims(b.subrange(name.len() as int, b.len() as int), t) <==> type_codes(
                types,
            ).contains(t)
        },
{
    if let Some(b) = nsec_rdata(next, types) {
        let name = canonical_form(next)->0;
        let map = type_bitmap(type_codes(types));
        law_bitmaps_claim_their_types(type_codes(types), t);
        assert(b.subrange(0, name.len() as int) =~= name);
        assert(b.subrange(name.len() as int, b.len() as int) =~= map);
    }
}

/// The types stored at a name are found among all the records: each record of the name with a
/// type that a bit map names, in their order.
pub proof fn law_stored_types_are_all_found(a: Seq<DnsRecord>, b: Seq<DnsRecord>, name: Seq<char>)
    ensures
        kinds_at(a + b, name) == kinds_at(a, name) + kinds_at(b, name),
        a.len() == 0 ==> kinds_at(a, name).len() == 0,
        a.len() == 1 ==> kinds_at(a, name) == if normalized(a[0].name@) == name && a[0].record_type
            != RecordKind::RRSIG && a[0].record_type != RecordKind::NSEC && a[0].record_type
            != RecordKind::ANAME {
            seq![a[0].record_type]
        } else {
            Seq::empty()
        },
    decreases b.len(),
{
    if a.len() == 1 {
        assert(a.drop_last() =~= Seq::empty());
        assert(kinds_at(a.drop_last(), name) =~= Seq::empty());
        assert(is_claimed(a[0].record_type) <==> a[0].record_type != RecordKind::RRSIG
            && a[0].record_type != RecordKind::NSEC && a[0].record_type != RecordKind::ANAME);
        if normalized(a[0].name@) == name && is_claimed(a[0].record_type) {
            assert(kinds_at(a, name) =~= seq![a[0].record_type]);
        }
    }
    if b.len() == 0 {
        assert(a + b =~= a);
        assert(kinds_at(a, name) + kinds_at(b, name) =~= kinds_at(a, name));
    } else {
        law_stored_types_are_all_found(a, b.drop_last(), name);
        assert((a + b).drop_last() =~= a + b.drop_last());
        assert(kinds_at(a + b, name) =~= kinds_at(a, name) + kinds_at(b, name));
    }
}

/// A chain has a link at its apex, and at each name of the zone with a record that is neither
/// a signature nor a denial: one record more adds its own name and no other.
pub proof fn law_which_names_are_chained(
    apex: Seq<char>,
    records: Seq<DnsRecord>,
    r: DnsRecord,
    name: Seq<char>,
)
    ensures
        is_chained(apex, Seq::empty(), name) <==> name == apex,
        is_chained(apex, records.push(r), name) <==> is_chained(apex, records, name) || (normalized(
            r.name@,
        ) == name && in_zone(name, apex) && r.record_type != RecordKind::RRSIG && r.record_type
            != RecordKind::NSEC),
{
    let all = records.push(r);
    if is_chained(apex, records, name) && name != apex {
        let i = choose|i: int|
            {
                &&& 0 <= i < records.len()
                &&& normalized((#[trigger] records[i]).name@) == name
                &&& in_zone(name, apex)
                &&& is_authoritative_data(records[i].record_type)
            };
        assert(all[i] == records[i]);
    }
    assert(all[records.len() as int] == r);
    if is_chained(apex, all, name) && name != apex {
        let i = choose|i: int|
            {
                &&& 0 <= i < all.len()
                &&& normalized((#[trigger] all[i]).name@) == name
                &&& in_zone(name, apex)
                &&& is_authoritative_data(all[i].record_type)
            };
        if i < records.len() {
            assert(all[i] == records[i]);
        }
    }
}

// ---------------------------------------------------------------------------
// Keys
// ---------------------------------------------------------------------------
/// The sum behind a key tag is that of the numbers that each two octets make, the first octet
/// of two being the high one.
pub proof fn law_key_tags_sum_pairs(a: Seq<u8>, b: Seq<u8>)
    requires
        a.len() % 2 == 0,
    ensures
        octet_pair_sum(a + b) == octet_pair_sum(a) + octet_pair_sum(b),
        b.len() == 0 ==> octet_pair_sum(b) == 0,
        b.len() == 1 ==> octet_pair_sum(b) == b[0] * 256,
        b.len() == 2 ==> octet_pair_sum(b) == read16(b, 0),
    decreases b.len(),
{
    reveal_with_fuel(octet_pair_sum, 3);
    if b.len() == 0 {
        assert(a + b =~= a);
    } else {
        law_key_tags_sum_pairs(a, b.drop_last());
        assert((a + b).drop_last() =~= a + b.drop_last());
        assert((a + b).last() == b.last());
        if b.len() == 2 {
            assert(b.drop_last().drop_last() =~= Seq::empty());
            assert(b.drop_last().last() == b[0]);
            assert(octet_pair_sum(b.drop_last().drop_last()) == 0);
        }
        if b.len() == 1 {
            assert(b.drop_last() =~= Seq::empty());
        }
    }
}

/// A key tag is the low half of the sum with its high half added once.
pub proof fn law_key_tags_fold_the_carry(rdata: Seq<u8>)
    ensures
        ({
            let sum = octet_pair_sum(rdata);
            key_tag_of(rdata) == (sum % 0x1_0000 + sum / 0x1_0000) % 0x1_0000
        }),
{
    let sum = octet_pair_sum(rdata) as int;
    let (h, l) = (sum / 0x1_0000, sum % 0x1_0000);
    assert(sum + h == 0x1_0000 * h + (l + h));
    assert((0x1_0000 * h + (l + h)) % 0x1_0000 == (l + h) % 0x1_0000) by {
        vstd::arithmetic::div_mod::lemma_mod_multiples_vanish(h, l + h, 0x1_0000);
    }
}

/// A DNSKEY record has the flag 256 of a zone key, and the flag 1 where it signs keys; then
/// the protocol 3, the algorithm's number and the key.
pub proof fn law_dnskey_data(algorithm: DnssecAlgorithm, key_type: KeyType, key: Seq<u8>)
    ensures
        ({
            let b = dnskey_rdata(algorithm, key_type, key);
            &&& b.len() == 4 + key.len()
            &&& read16(b, 0) == key_flags(key_type)
            &&& b[2] == 3 && b[3] == algorithm_number(algorithm)
            &&& b.subrange(4, b.len() as int) == key
            &&& key_type == KeyType::KSK ==> read16(b, 0) == 257
            &&& key_type == KeyType::ZSK ==> read16(b, 0) == 256
        }),
{
    let b = dnskey_rdata(algorithm, key_type, key);
    assert(b[0] == be16(key_flags(key_type))[0] && b[1] == be16(key_flags(key_type))[1]);
    assert(b.subrange(4, b.len() as int) =~= key);
}

/// A DS digest is taken over the zone's name in wire form and the key's DNSKEY data.
pub proof fn law_ds_digests_cover_name_and_key(
    zone: Seq<char>,
    algorithm: DnssecAlgorithm,
    key: Seq<u8>,
    key_type: KeyType,
)
    requires
        labels_fit(split(strip_end(encode_utf8(zone), 0x2eu8), 0x2eu8)),
    ensures
        ({
            let b = ds_input(zone, algorithm, key, key_type);
            let labels = split(strip_end(encode_utf8(zone), 0x2eu8), 0x2eu8);
            &&& labels_at(b) matches Some((found, n))
            &&& found == labels
            &&& b.subrange(n as int, b.len() as int) == dnskey_rdata(algorithm, key_type, key)
        }),
{
    let labels = split(strip_end(encode_utf8(zone), 0x2eu8), 0x2eu8);
    let data = dnskey_rdata(algorithm, key_type, key);
    law_name_octets_are_read_back(labels, data);
    let b = ds_input(zone, algorithm, key, key_type);
    assert(b =~= name_octets(labels) + data);
    assert(b.subrange(name_octets(labels).len() as int, b.len() as int) =~= data);
}

/// A key is published as it is, but for the mark in front of an ECDSA point, which is put back
/// to check a signature.
pub proof fn law_published_keys_check_signatures(
    algorithm: DnssecAlgorithm,
    raw: Seq<u8>,
    message: Seq<u8>,
    signature: Seq<u8>,
)
    ensures
        dnskey_form(algorithm, raw) matches Ok(key) ==> {
            &&& algorithm == DnssecAlgorithm::Ed25519 ==> key == raw && key.len() == 32
                && key_accepts(algorithm, key, message, signature) == ed25519_accepts(
                raw,
                message,
                signature,
            )
            &&& algorithm == DnssecAlgorithm::EcdsaP256Sha256 ==> raw == seq![4u8] + key
                && key.len() == 64 && key_accepts(algorithm, key, message, signature)
                == ecdsa_accepts(13, raw, message, signature)
            &&& algorithm == DnssecAlgorithm::EcdsaP384Sha384 ==> raw == seq![4u8] + key
                && key.len() == 96 && key_accepts(algorithm, key, message, signature)
                == ecdsa_accepts(14, raw, message, signature)
            &&& algorithm != DnssecAlgorithm::RsaSha256
        },
        algorithm == DnssecAlgorithm::Ed25519 && raw.len() == 32 ==> dnskey_form(algorithm, raw)
            is Ok,
        algorithm == DnssecAlgorithm::EcdsaP256Sha256 && raw.len() == 65 && raw[0] == 4
            ==> dnskey_form(algorithm, raw) is Ok,
        algorithm == DnssecAlgorithm::EcdsaP384Sha384 && raw.len() == 97 && raw[0] == 4
            ==> dnskey_form(algorithm, raw) is Ok,
        curve_number(Curve::P256) == 13 && curve_number(Curve::P384) == 14,
{
    if raw.len() > 0 && raw[0] == 4 {
        assert(raw =~= seq![4u8] + raw.drop_first());
    }
}

// ---------------------------------------------------------------------------
// Signatures
// ---------------------------------------------------------------------------
proof fn lemma_pair_at(front: Seq<u8>, x: u16, behind: Seq<u8>)
    ensures
        read16(front + be16(x) + behind, front.len() as int) == x,
{
    let b = front + be16(x) + behind;
    let at = front.len() as int;
    assert(b[at] == be16(x)[0] && b[at + 1] == be16(x)[1]);
}

proof fn lemma_quad_at(front: Seq<u8>, x: u32, behind: Seq<u8>)
    ensures
        number_at(front + be32(x) + behind, front.len() as int) == x,
{
    let b = front + be32(x) + behind;
    let at = front.len() as int;
    crate::laws::law_be32_keeps_the_number(x);
    assert(b[at] == be32(x)[0] && b[at + 1] == be32(x)[1] && b[at + 2] == be32(x)[2] && b[at + 3]
        == be32(x)[3]);
}

/// A signature's data is the type covered, the algorithm, the labels, the original TTL, the
/// expiration, the inception, the key tag, the signer and the signature, in this order; all
/// but the signature is what is signed.
#[verifier::spinoff_prover]
#[verifier::rlimit(40)]
pub proof fn law_rrsig_fields_stand_in_order(r: RrsigView)
    ensures
        rrsig_prefix(r) is Some <==> canonical_form(r.signer_name) is Some,
        rrsig_prefix(r) matches Some(b) ==> {
            &&& b.len() >= 18
            &&& read16(b, 0) == type_code(r.type_covered)
            &&& b[2] == algorithm_number(r.algorithm) && b[3] == r.labels
            &&& number_at(b, 4) == r.original_ttl
            &&& number_at(b, 8) == r.expiration
            &&& number_at(b, 12) == r.inception
            &&& read16(b, 16) == r.key_tag
            &&& Some(b.subrange(18, b.len() as int)) == canonical_form(r.signer_name)
            &&& rrsig_rdata(r) == Some(b + r.signature)
        },
{
    if let Some(b) = rrsig_prefix(r) {
        let none = Seq::<u8>::empty();
        let p0 = be16(type_code(r.type_covered));
        let p1 = seq![algorithm_number(r.algorithm), r.labels];
        let p2 = be32(r.original_ttl);
        let p3 = be32(r.expiration);
        let p4 = be32(r.inception);
        let p5 = be16(r.key_tag);
        let tail = canonical_form(r.signer_name)->0;
        assert(b =~= none + p0 + (p1 + p2 + p3 + p4 + p5 + tail));
        lemma_pair_at(none, type_code(r.type_covered), p1 + p2 + p3 + p4 + p5 + tail);
        assert(b =~= p0 + p1 + p2 + (p3 + p4 + p5 + tail));
        lemma_quad_at(p0 + p1, r.original_ttl, p3 + p4 + p5 + tail);
        assert(b =~= p0 + p1 + p2 + p3 + (p4 + p5 + tail));
        lemma_quad_at(p0 + p1 + p2, r.expiration, p4 + p5 + tail);
        assert(b =~= p0 + p1 + p2 + p3 + p4 + (p5 + tail));
        lemma_quad_at(p0 + p1 + p2 + p3, r.inception, p5 + tail);
        assert(b =~= p0 + p1 + p2 + p3 + p4 + p5 + tail);
        lemma_pair_at(p0 + p1 + p2 + p3 + p4, r.key_tag, tail);
        assert(b[2] == p1[0] && b[3] == p1[1]);
        assert(b.subrange(18, b.len() as int) =~= tail);
    }
}

/// The stored form of a signature gives, in this order, the type covered, the algorithm, the
/// labels, the original TTL, the expiration, the inception, the key tag, the signer and the
/// signature.
pub proof fn law_stored_signature_fields_stand_in_order(value: Seq<char>, r: RrsigView)
    ensures
        rrsig_parsed(value) matches Ok(p) ==> {
            let f = words(value);
            &&& f.len() >= 9
            &&& kind_of(f[0]) == Some(p.type_covered) && algorithm_of(f[1]) == Some(p.algorithm)
            &&& parse_unsigned(f[2], 0xff) == Some(p.labels as nat)
            &&& parse_unsigned(f[3], 0xffff_ffff) == Some(p.original_ttl as nat)
            &&& parse_unsigned(f[4], 0xffff_ffff) == Some(p.expiration as nat)
            &&& parse_unsigned(f[5], 0xffff_ffff) == Some(p.inception as nat)
            &&& parse_unsigned(f[6], 0xffff) == Some(p.key_tag as nat)
            &&& f[7] == p.signer_name
            &&& base64_decoded(f[8]) == Some(p.signature)
        },
        rrsig_fields(r).len() == 9,
        rrsig_fields(r)[4] == decimal(r.expiration as nat),
        rrsig_fields(r)[5] == decimal(r.inception as nat),
        rrsig_fields(r)[3] == decimal(r.original_ttl as nat),
        rrsig_fields(r)[2] == decimal(r.labels as nat),
        rrsig_fields(r)[6] == decimal(r.key_tag as nat),
        rrsig_fields(r)[7] == r.signer_name,
{
}

/// A record is signed as its owner, its type, the class IN, the original TTL, the length of
/// its data and its data.
#[verifier::spinoff_prover]
#[verifier::rlimit(40)]
pub proof fn law_signed_record_fields_stand_in_order(
    owner: Seq<u8>,
    kind: RecordKind,
    ttl: u32,
    rdata: Seq<u8>,
)
    requires
        rdata.len() <= 0xffff,
    ensures
        ({
            let b = rr_octets(owner, kind, ttl, rdata);
            let n = owner.len() as int;
            &&& b.len() == n + 10 + rdata.len()
            &&& b.subrange(0, n) == owner
            &&& read16(b, n) == type_code(kind)
            &&& read16(b, n + 2) == 1
            &&& number_at(b, n + 4) == ttl
            &&& read16(b, n + 8) == rdata.len()
            &&& b.subrange(n + 10, b.len() as int) == rdata
        }),
{
    let b = rr_octets(owner, kind, ttl, rdata);
    let n = owner.len() as int;
    let p0 = be16(type_code(kind));
    let p1 = be16(1);
    let p2 = be32(ttl);
    let p3 = be16(rdata.len() as u16);
    assert(b =~= owner + p0 + (p1 + p2 + p3 + rdata));
    lemma_pair_at(owner, type_code(kind), p1 + p2 + p3 + rdata);
    assert(b =~= owner + p0 + p1 + (p2 + p3 + rdata));
    lemma_pair_at(owner + p0, 1, p2 + p3 + rdata);
    assert(b =~= owner + p0 + p1 + p2 + (p3 + rdata));
    lemma_quad_at(owner + p0 + p1, ttl, p3 + rdata);
    lemma_pair_at(owner + p0 + p1 + p2, rdata.len() as u16, rdata);
    assert(b.subrange(0, n) =~= owner);
    assert(b.subrange(n + 10, b.len() as int) =~= rdata);
}

/// Every record of a set is signed, one after the other.
pub proof fn law_every_record_is_signed(
    owner: Seq<u8>,
    kind: RecordKind,
    ttl: u32,
    a: Seq<Seq<u8>>,
    b: Seq<Seq<u8>>,
)
    ensures
        rrs_octets(owner, kind, ttl, a + b) == rrs_octets(owner, kind, ttl, a) + rrs_octets(
            owner,
            kind,
            ttl,
            b,
        ),
        a.len() == 0 ==> rrs_octets(owner, kind, ttl, a).len() == 0,
        a.len() == 1 ==> rrs_octets(owner, kind, ttl, a) == rr_octets(owner, kind, ttl, a[0]),
    decreases b.len(),
{
    if a.len() == 1 {
        assert(a.drop_last() =~= Seq::empty());
        assert(rrs_octets(owner, kind, ttl, a.drop_last()) =~= Seq::empty());
        assert(rrs_octets(owner, kind, ttl, a) =~= rr_octets(owner, kind, ttl, a[0]));
    }
    if b.len() == 0 {
        assert(a + b =~= a);
        assert(rrs_octets(owner, kind, ttl, a) + rrs_octets(owner, kind, ttl, b) =~= rrs_octets(
            owner,
            kind,
            ttl,
            a,
        ));
    } else {
        law_every_record_is_signed(owner, kind, ttl, a, b.drop_last());
        assert((a + b).drop_last() =~= a + b.drop_last());
        assert(rrs_octets(owner, kind, ttl, a + b) =~= rrs_octets(owner, kind, ttl, a) + rrs_octets(
            owner,
            kind,
            ttl,
            b,
        ));
    }
}

/// The data of a record, in the form that is signed.
#[verifier::opaque]
pub open spec fn signed_data(r: DnsRecord) -> Option<Seq<u8>> {
    rdata_of(r.record_type, r.value@, r.priority)
}

proof fn lemma_one_more_data(rrset: Seq<DnsRecord>)
    requires
        rrset.len() > 0,
    ensures
        rdatas_of(rrset) == match (rdatas_of(rrset.drop_last()), signed_data(rrset.last())) {
            (Some(before), Some(rdata)) => Some(before.push(rdata)),
            _ => None,
        },
{
    reveal(signed_data);
}

/// The data of a set is that of each of its records, in their order; one record without data
/// spoils it.
pub proof fn law_data_is_taken_record_by_record(rrset: Seq<DnsRecord>)
    ensures
        rdatas_of(rrset) is Some <==> forall|i: int|
            0 <= i < rrset.len() ==> signed_data(#[trigger] rrset[i]) is Some,
        rdatas_of(rrset) matches Some(v) ==> v.len() == rrset.len() && forall|i: int|
            0 <= i < rrset.len() ==> signed_data(#[trigger] rrset[i]) == Some(v[i]),
    decreases rrset.len(),
{
    if rrset.len() > 0 {
        let d = rrset.drop_last();
        law_data_is_taken_record_by_record(d);
        lemma_one_more_data(rrset);
        assert(forall|i: int| 0 <= i < d.len() ==> #[trigger] d[i] == rrset[i]);
        if rdatas_of(d) is Some && signed_data(rrset.last()) is Some {
            assert forall|i: int| 0 <= i < rrset.len() implies signed_data(#[trigger] rrset[i])
                == Some(rdatas_of(rrset)->0[i]) by {
                if i < d.len() {
                    assert(d[i] == rrset[i]);
                }
            }
        } else if rdatas_of(d) is None {
            let i = choose|i: int| 0 <= i < d.len() && signed_data(#[trigger] d[i]) is None;
            assert(signed_data(rrset[i]) is None);
        }
    }
}

/// What is signed is the signature's own data, then each record of the set in canonical order;
/// nothing is signed where a record or a name cannot be written.
pub proof fn law_what_is_signed(r: RrsigView, owner: Seq<char>, rrset: Seq<DnsRecord>)
    ensures
        signed_message(r, owner, rrset) matches Ok(message) ==> {
            &&& rrsig_prefix(r) matches Some(prefix)
            &&& canonical_form(owner) matches Some(name)
            &&& rdatas_of(rrset) matches Some(rdatas)
            &&& message == prefix + rrs_octets(
                name,
                r.type_covered,
                r.original_ttl,
                sorted_set(rdatas),
            )
            &&& forall|i: int|
                0 <= i < sorted_set(rdatas).len() ==> (#[trigger] sorted_set(rdatas)[i]).len()
                    <= 0xffff
        },
        signed_message(r, owner, rrset) == Err::<Seq<u8>, SigningError>(SigningError::CannotEncode)
            <==> rdatas_of(rrset) is None,
        signed_message(r, owner, rrset) == Err::<Seq<u8>, SigningError>(SigningError::BadOwner)
            <==> rdatas_of(rrset) is Some && canonical_form(owner) is None,
        signed_message(r, owner, rrset) == Err::<Seq<u8>, SigningError>(SigningError::BadSigner)
            <==> rdatas_of(rrset) is Some && canonical_form(owner) is Some && rrsig_prefix(r)
            is None,
{
}

/// A signature is said to be of the set's type, TTL and times, of the key's algorithm and tag,
/// and of the zone that signs.
pub proof fn law_signatures_name_what_they_sign(
    key: SigningKey,
    set: RrsetToSign<'_>,
    signature: Seq<u8>,
)
    ensures
        ({
            let r = rrsig_for(key, set, signature);
            &&& r.type_covered == set.type_covered && r.original_ttl == set.original_ttl
            &&& r.expiration == set.expiration && r.inception == set.inception
            &&& r.algorithm == key.algorithm && r.key_tag == key.key_tag
            &&& r.signer_name == normalized(set.signer_zone@) && r.signature == signature
            &&& rrsig_label_count(set.owner@) <= 255 ==> r.labels == rrsig_label_count(set.owner@)
        }),
{
}

/// A signature is good exactly where there is a message that the key accepts it for.
pub proof fn law_when_a_stored_signature_is_good(
    r: RrsigView,
    owner: Seq<char>,
    rrset: Seq<DnsRecord>,
    key: Seq<u8>,
)
    ensures
        verification_of(r, owner, rrset, key) is Ok <==> {
            &&& signed_message(r, owner, rrset) matches Ok(message)
            &&& r.algorithm != DnssecAlgorithm::RsaSha256
            &&& key_accepts(r.algorithm, key, message, r.signature)
        },
{
}

} // verus!
