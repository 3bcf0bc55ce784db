//! What stored records become on the wire, and answers in storage, said field by field.
use vstd::arithmetic::power::pow;
use vstd::prelude::*;
use vstd::utf8::encode_utf8;

use crate::addr::{ipv4_of, ipv6_of, socket_of, IpAddress};
use crate::codec::{base64_decoded, be128, be16, be32, hex_decoded, read16};
use crate::dns_server::records::{
    a_address, answer_of, answers_of, asked_kind, blocklist_codes, bound_address, cert_rdata,
    dname_answers, dns64_address, dns64_answers, hex_octet, lemma_read32, lemma_served_a,
    name_rdata, read32, renamed, reverse_number, reverse_v4, scoped_answer_of, scoped_answers_of,
    served_rdata, signed_octets, single_string, soa_rdata, stored_value, txt_text, unsigned_octets,
};
use crate::dnssec::rdata::{
    character_string_octets, chunked, field_octets, layout_octets, layout_of, rdata_of, Field,
};
use crate::laws::{law_be128_has_the_high_octet_first, law_name_octets_are_read_back};
use crate::message::ResourceView;
use crate::names::{canonical_form, labels_fit, normalized};
use crate::record::{kind_with_code, type_code, DnsRecord, RecordKind};
use crate::text::{lossy_text, parse_digits, parse_unsigned, trimmed, words};
use crate::wire_name::{name_octets, name_of, name_text};

verus! {

// ---------------------------------------------------------------------------
// Numbers in data
// ---------------------------------------------------------------------------
/// A number of two octets stands where it was put, between what is in front and behind.
proof fn lemma_number_at(front: Seq<u8>, x: u16, behind: Seq<u8>)
    ensures
        read16(front + be16(x) + behind, front.len() as int) == x,
{
    let b = front + be16(x) + behind;
    let at = front.len() as int;
    assert(b[at] == be16(x)[0] && b[at + 1] == be16(x)[1]);
}

/// The number of four octets at a place in data.
pub open spec fn number_at(b: Seq<u8>, at: int) -> int {
    b[at] * 0x100_0000 + b[at + 1] * 0x1_0000 + b[at + 2] * 256 + b[at + 3]
}

proof fn lemma_be32(x: u32)
    ensures
        number_at(be32(x), 0) == x,
{
    crate::laws::law_be32_keeps_the_number(x);
}

// ---------------------------------------------------------------------------
// Serving
// ---------------------------------------------------------------------------
/// An SRV record is served with its priority in octets 0 and 1, the number of its first field
/// in octets 2 and 3 (the weight), that of its second in octets 4 and 5 (the port), and the
/// name in its third field behind them. It is served wherever these fields are there.
#[verifier::spinoff_prover]
#[verifier::rlimit(40)]
pub proof fn law_srv_fields_stand_in_order(value: Seq<char>, priority: u32)
    ensures
        ({
            let f = words(value);
            let served = served_rdata(RecordKind::SRV, value, priority);
            &&& served is Some <==> f.len() >= 3 && parse_unsigned(f[0], 0xffff) is Some
                && parse_unsigned(f[1], 0xffff) is Some && name_of(f[2]) is Some
            &&& served matches Some((rtype, rdata)) ==> {
                &&& rtype == 33
                &&& rdata matches Some(b)
                &&& b.len() >= 6
                &&& read16(b, 0) == priority % 0x1_0000
                &&& parse_unsigned(f[0], 0xffff) == Some(read16(b, 2) as nat)
                &&& parse_unsigned(f[1], 0xffff) == Some(read16(b, 4) as nat)
                &&& b.subrange(6, b.len() as int) == name_octets(name_of(f[2])->0)
            }
        }),
{
    let f = words(value);
    if let Some((_, Some(b))) = served_rdata(RecordKind::SRV, value, priority) {
        let p = (priority % 0x1_0000) as u16;
        let w = parse_unsigned(f[0], 0xffff)->0 as u16;
        let o = parse_unsigned(f[1], 0xffff)->0 as u16;
        let target = name_rdata(f[2])->0;
        assert(b == be16(p) + be16(w) + be16(o) + target);
        assert(b =~= Seq::empty() + be16(p) + (be16(w) + be16(o) + target));
        assert(b =~= be16(p) + be16(w) + (be16(o) + target));
        assert(b =~= be16(p) + be16(w) + be16(o) + target);
        lemma_number_at(Seq::empty(), p, be16(w) + be16(o) + target);
        lemma_number_at(be16(p), w, be16(o) + target);
        lemma_number_at(be16(p) + be16(w), o, target);
        assert(b.subrange(6, b.len() as int) =~= target);
    }
}

/// The numbers that an SRV record is signed with stand as those that it is served with: its
/// first six octets are the same.
#[verifier::spinoff_prover]
#[verifier::rlimit(40)]
pub proof fn law_srv_is_served_as_it_is_signed(value: Seq<char>, priority: u32)
    requires
        trimmed(value) == value,
    ensures
        (served_rdata(RecordKind::SRV, value, priority), rdata_of(RecordKind::SRV, value, priority))
            matches (Some((_, Some(b))), Some(c)) ==> b.len() >= 6 && c.len() >= 6 && b.subrange(0, 6)
            == c.subrange(0, 6),
{
    let f = words(value);
    let layout = layout_of(RecordKind::SRV);
    lemma_three(layout, f);
    match (
        served_rdata(RecordKind::SRV, value, priority),
        rdata_of(RecordKind::SRV, value, priority),
    ) {
        (Some((_, Some(b))), Some(c)) => {
            assert(b.subrange(0, 6) =~= c.subrange(0, 6));
        },
        _ => {},
    }
}

proof fn lemma_two(layout: Seq<Field>, f: Seq<Seq<char>>)
    requires
        layout.len() == 2,
    ensures
        layout_octets(layout, f) is Some <==> f.len() >= 2 && field_octets(layout[0], f[0]) is Some
            && field_octets(layout[1], f[1]) is Some,
        layout_octets(layout, f) matches Some(b) ==> b == field_octets(layout[0], f[0])->0
            + field_octets(layout[1], f[1])->0,
{
    reveal_with_fuel(layout_octets, 3);
    let one = layout.drop_last();
    assert(one.drop_last() =~= Seq::empty());
    if f.len() >= 2 && field_octets(layout[0], f[0]) is Some {
        assert(layout_octets(one, f) == Some(
            Seq::<u8>::empty() + field_octets(layout[0], f[0])->0,
        ));
        assert(Seq::<u8>::empty() + field_octets(layout[0], f[0])->0 =~= field_octets(
            layout[0],
            f[0],
        )->0);
    }
}

proof fn lemma_three(layout: Seq<Field>, f: Seq<Seq<char>>)
    requires
        layout.len() == 3,
    ensures
        layout_octets(layout, f) is Some <==> f.len() >= 3 && field_octets(layout[0], f[0]) is Some
            && field_octets(layout[1], f[1]) is Some && field_octets(layout[2], f[2]) is Some,
        layout_octets(layout, f) matches Some(b) ==> b == field_octets(layout[0], f[0])->0
            + field_octets(layout[1], f[1])->0 + field_octets(layout[2], f[2])->0,
{
    lemma_two(layout.drop_last(), f);
}

proof fn lemma_four(layout: Seq<Field>, f: Seq<Seq<char>>)
    requires
        layout.len() == 4,
    ensures
        layout_octets(layout, f) is Some <==> f.len() >= 4 && field_octets(layout[0], f[0]) is Some
            && field_octets(layout[1], f[1]) is Some && field_octets(layout[2], f[2]) is Some
            && field_octets(layout[3], f[3]) is Some,
        layout_octets(layout, f) matches Some(b) ==> b == field_octets(layout[0], f[0])->0
            + field_octets(layout[1], f[1])->0 + field_octets(layout[2], f[2])->0 + field_octets(
            layout[3],
            f[3],
        )->0,
{
    lemma_three(layout.drop_last(), f);
}

/// An SRV record is signed with its priority, weight and port in this order, and its target
/// in canonical form behind them.
#[verifier::spinoff_prover]
#[verifier::rlimit(40)]
pub proof fn law_signed_srv_fields_stand_in_order(value: Seq<char>, priority: u32)
    ensures
        ({
            let f = words(trimmed(value));
            let signed = rdata_of(RecordKind::SRV, value, priority);
            &&& signed is Some <==> f.len() >= 3 && priority <= 0xffff && parse_unsigned(
                f[0],
                0xffff,
            ) is Some && parse_unsigned(f[1], 0xffff) is Some && canonical_form(f[2]) is Some
            &&& signed matches Some(c) ==> {
                &&& c.len() >= 6
                &&& read16(c, 0) == priority
                &&& parse_unsigned(f[0], 0xffff) == Some(read16(c, 2) as nat)
                &&& parse_unsigned(f[1], 0xffff) == Some(read16(c, 4) as nat)
                &&& canonical_form(f[2]) == Some(c.subrange(6, c.len() as int))
            }
        }),
{
    let f = words(trimmed(value));
    lemma_three(layout_of(RecordKind::SRV), f);
    if let Some(c) = rdata_of(RecordKind::SRV, value, priority) {
        let p = priority as u16;
        let w = parse_unsigned(f[0], 0xffff)->0 as u16;
        let o = parse_unsigned(f[1], 0xffff)->0 as u16;
        let target = canonical_form(f[2])->0;
        assert(c =~= be16(p) + be16(w) + be16(o) + target);
        assert(c =~= Seq::empty() + be16(p) + (be16(w) + be16(o) + target));
        assert(c =~= be16(p) + be16(w) + (be16(o) + target));
        lemma_number_at(Seq::empty(), p, be16(w) + be16(o) + target);
        lemma_number_at(be16(p), w, be16(o) + target);
        lemma_number_at(be16(p) + be16(w), o, target);
        assert(c.subrange(6, c.len() as int) =~= target);
    }
}

/// An MX record is served and signed with its preference in front of its exchange.
#[verifier::spinoff_prover]
#[verifier::rlimit(40)]
pub proof fn law_mx_preference_comes_first(value: Seq<char>, priority: u32)
    ensures
        served_rdata(RecordKind::MX, value, priority) is Some <==> name_of(value) is Some,
        served_rdata(RecordKind::MX, value, priority) matches Some((rtype, rdata)) ==> {
            &&& rtype == 15
            &&& rdata matches Some(b)
            &&& b.len() >= 2
            &&& read16(b, 0) == priority % 0x1_0000
            &&& b.subrange(2, b.len() as int) == name_octets(name_of(value)->0)
        },
        rdata_of(RecordKind::MX, value, priority) is Some <==> priority <= 0xffff
            && canonical_form(trimmed(value)) is Some,
        rdata_of(RecordKind::MX, value, priority) matches Some(c) ==> {
            &&& c.len() >= 2
            &&& read16(c, 0) == priority
            &&& canonical_form(trimmed(value)) == Some(c.subrange(2, c.len() as int))
        },
{
    if let Some((_, Some(b))) = served_rdata(RecordKind::MX, value, priority) {
        let n = name_rdata(value)->0;
        let p = (priority % 0x1_0000) as u16;
        lemma_number_at(Seq::empty(), p, n);
        assert(b =~= Seq::empty() + be16(p) + n);
        assert(b.subrange(2, b.len() as int) =~= n);
    }
    if let Some(c) = rdata_of(RecordKind::MX, value, priority) {
        let n = canonical_form(trimmed(value))->0;
        let p = priority as u16;
        lemma_number_at(Seq::empty(), p, n);
        assert(c =~= Seq::empty() + be16(p) + n);
        assert(c.subrange(2, c.len() as int) =~= n);
    }
}

/// Addresses are served and signed as the octets of what their text spells.
pub proof fn law_addresses_are_served_as_spelled(value: Seq<char>, priority: u32)
    ensures
        ipv4_of(value) matches Some(a) ==> served_rdata(RecordKind::A, value, priority) == Some(
            (1u16, Some(be32(a))),
        ),
        ipv6_of(value) matches Some(a) ==> served_rdata(RecordKind::AAAA, value, priority) == Some(
            (28u16, Some(be128(a))),
        ),
        ipv4_of(value) is None ==> served_rdata(RecordKind::A, value, priority) is None,
        ipv6_of(value) is None ==> served_rdata(RecordKind::AAAA, value, priority) is None,
        ipv4_of(trimmed(value)) matches Some(a) ==> rdata_of(RecordKind::A, value, priority) == Some(
            be32(a),
        ),
        ipv6_of(trimmed(value)) matches Some(a) ==> rdata_of(RecordKind::AAAA, value, priority)
            == Some(be128(a)),
{
}

/// A record whose value is a name is served under its own type with that name's labels.
#[verifier::spinoff_prover]
#[verifier::rlimit(40)]
pub proof fn law_names_are_served_label_by_label(kind: RecordKind, value: Seq<char>, priority: u32)
    requires
        kind == RecordKind::CNAME || kind == RecordKind::NS || kind == RecordKind::PTR || kind
            == RecordKind::DNAME,
    ensures
        served_rdata(kind, value, priority) is Some <==> name_of(value) is Some,
        name_of(value) matches Some(n) ==> labels_fit(n) ==> {
            let served = served_rdata(kind, value, priority)->0;
            &&& served.0 == type_code(kind)
            &&& served.1 matches Some(b)
            &&& crate::wire_name::labels_at(b) == Some((n, b.len()))
        },
{
    if let Some(n) = name_of(value) {
        if labels_fit(n) {
            law_name_octets_are_read_back(n, Seq::empty());
            assert(name_octets(n) + Seq::<u8>::empty() =~= name_octets(n));
        }
    }
}

/// Text is served as one character string: its length, then its octets; text of more than
/// 255 octets has no such form.
#[verifier::spinoff_prover]
#[verifier::rlimit(40)]
pub proof fn law_text_is_served_behind_its_length(value: Seq<char>, priority: u32)
    ensures
        ({
            let (rtype, rdata) = served_rdata(RecordKind::TXT, value, priority)->0;
            &&& served_rdata(RecordKind::TXT, value, priority) is Some && rtype == 16
            &&& rdata is Some <==> encode_utf8(value).len() <= 255
            &&& rdata matches Some(b) ==> b.len() == b[0] + 1 && b.subrange(1, b.len() as int)
                == encode_utf8(value)
        }),
{
    let u = encode_utf8(value);
    if u.len() <= 255 {
        let b = seq![u.len() as u8] + u;
        assert(single_string(value) == Some(b));
        assert(b.subrange(1, b.len() as int) =~= u);
    }
}

/// What character strings hold, one behind the other, their lengths left out.
pub open spec fn string_contents(d: Seq<u8>) -> Option<Seq<u8>>
    decreases d.len(),
{
    if d.len() == 0 {
        Some(Seq::empty())
    } else if d[0] as int + 1 > d.len() {
        None
    } else {
        match string_contents(d.subrange(d[0] as int + 1, d.len() as int)) {
            Some(rest) => Some(d.subrange(1, d[0] as int + 1) + rest),
            None => None,
        }
    }
}

/// Text is signed as character strings that hold it whole, each as long as it can be but the
/// last.
pub proof fn law_character_strings_hold_the_text(b: Seq<u8>)
    ensures
        string_contents(character_string_octets(b)) == Some(b),
        character_string_octets(b).len() > 0,
        b.len() > 255 ==> character_string_octets(b)[0] == 255,
        b.len() <= 255 ==> character_string_octets(b).len() == b.len() + 1,
{
    if b.len() == 0 {
        let d = seq![0u8];
        assert(d.subrange(1, 1) =~= Seq::empty());
        assert(string_contents(d.subrange(1, 1)) == Some(Seq::<u8>::empty()));
        assert(Seq::<u8>::empty() + Seq::<u8>::empty() =~= b);
    } else {
        lemma_chunked(b);
    }
}

proof fn lemma_chunked(b: Seq<u8>)
    requires
        b.len() > 0,
    ensures
        string_contents(chunked(b)) == Some(b),
        chunked(b).len() > 0,
    decreases b.len(),
{
    let d = chunked(b);
    if b.len() <= 255 {
        assert(d.subrange(1, d.len() as int) =~= b);
        assert(d.subrange(d.len() as int, d.len() as int) =~= Seq::empty());
        assert(string_contents(Seq::<u8>::empty()) == Some(Seq::<u8>::empty()));
        assert(b + Seq::<u8>::empty() =~= b);
    } else {
        let rest = b.subrange(255, b.len() as int);
        lemma_chunked(rest);
        assert(d.subrange(1, 256) =~= b.subrange(0, 255));
        assert(d.subrange(256, d.len() as int) =~= chunked(rest));
        assert(b.subrange(0, 255) + rest =~= b);
    }
}

/// A number is written in two's complement: what is behind a minus sign and what is written
/// add up to a power of two, or to nothing.
pub proof fn law_signed_numbers_wrap(s: Seq<char>)
    ensures
        s.len() > 0 && s[0] == '-' ==> match parse_digits(s.drop_first(), 0x8000_0000) {
            Some(v) => {
                &&& signed_octets(s) matches Some(b)
                &&& b.len() == 4
                &&& number_at(b, 0) + v == 0x1_0000_0000 || (v == 0 && number_at(b, 0) == 0)
            },
            None => signed_octets(s) is None,
        },
        s.len() == 0 || s[0] != '-' ==> match parse_unsigned(s, 0x7fff_ffff) {
            Some(v) => {
                &&& signed_octets(s) matches Some(b)
                &&& b.len() == 4
                &&& number_at(b, 0) == v
            },
            None => signed_octets(s) is None,
        },
        match parse_unsigned(s, 0xffff_ffff) {
            Some(v) => {
                &&& unsigned_octets(s) matches Some(b)
                &&& b.len() == 4
                &&& number_at(b, 0) == v
            },
            None => unsigned_octets(s) is None,
        },
{
    if s.len() > 0 && s[0] == '-' {
        if let Some(v) = parse_digits(s.drop_first(), 0x8000_0000) {
            lemma_be32(((0x1_0000_0000 - v) % 0x1_0000_0000) as u32);
        }
    } else if let Some(v) = parse_unsigned(s, 0x7fff_ffff) {
        lemma_be32(v as u32);
    }
    if let Some(v) = parse_unsigned(s, 0xffff_ffff) {
        lemma_be32(v as u32);
    }
}

/// An SOA record is served with its two names, then its five numbers in the order of its
/// fields, four octets each.
#[verifier::spinoff_prover]
#[verifier::rlimit(40)]
pub proof fn law_soa_fields_stand_in_order(value: Seq<char>, priority: u32)
    ensures
        ({
            let f = words(value);
            served_rdata(RecordKind::SOA, value, priority) matches Some((rtype, rdata)) ==> {
                &&& rtype == 6 && f.len() >= 7
                &&& rdata matches Some(b)
                &&& name_of(f[0]) matches Some(mname)
                &&& name_of(f[1]) matches Some(rname)
                &&& b.len() == name_octets(mname).len() + name_octets(rname).len() + 20
                &&& b.subrange(0, b.len() - 20) == name_octets(mname) + name_octets(rname)
                &&& unsigned_octets(f[2]) == Some(b.subrange(b.len() - 20, b.len() - 16))
                &&& signed_octets(f[3]) == Some(b.subrange(b.len() - 16, b.len() - 12))
                &&& signed_octets(f[4]) == Some(b.subrange(b.len() - 12, b.len() - 8))
                &&& signed_octets(f[5]) == Some(b.subrange(b.len() - 8, b.len() - 4))
                &&& unsigned_octets(f[6]) == Some(b.subrange(b.len() - 4, b.len() as int))
            }
        }),
{
    let f = words(value);
    if let Some((_, Some(b))) = served_rdata(RecordKind::SOA, value, priority) {
        assert(b == soa_rdata(f)->0);
        lemma_seven_parts(
            name_rdata(f[0])->0,
            name_rdata(f[1])->0,
            unsigned_octets(f[2])->0,
            signed_octets(f[3])->0,
            signed_octets(f[4])->0,
            signed_octets(f[5])->0,
            unsigned_octets(f[6])->0,
        );
    }
}

proof fn lemma_seven_parts(
    m: Seq<u8>,
    r: Seq<u8>,
    p0: Seq<u8>,
    p1: Seq<u8>,
    p2: Seq<u8>,
    p3: Seq<u8>,
    p4: Seq<u8>,
)
    requires
        p0.len() == 4,
        p1.len() == 4,
        p2.len() == 4,
        p3.len() == 4,
        p4.len() == 4,
    ensures
        ({
            let b = m + r + p0 + p1 + p2 + p3 + p4;
            let l = b.len() as int;
            &&& l == m.len() + r.len() + 20
            &&& b.subrange(0, l - 20) == m + r
            &&& b.subrange(l - 20, l - 16) == p0
            &&& b.subrange(l - 16, l - 12) == p1
            &&& b.subrange(l - 12, l - 8) == p2
            &&& b.subrange(l - 8, l - 4) == p3
            &&& b.subrange(l - 4, l) == p4
        }),
{
    let b = m + r + p0 + p1 + p2 + p3 + p4;
    let l = b.len() as int;
    assert(b.subrange(0, l - 20) =~= m + r);
    assert(b.subrange(l - 20, l - 16) =~= p0);
    assert(b.subrange(l - 16, l - 12) =~= p1);
    assert(b.subrange(l - 12, l - 8) =~= p2);
    assert(b.subrange(l - 8, l - 4) =~= p3);
    assert(b.subrange(l - 4, l) =~= p4);
}

/// A certificate keeps its length and all that follows its type; the type is kept too, but
/// for the two reserved ones, which become 0.
pub proof fn law_certificates_keep_their_data(b: Seq<u8>)
    requires
        b.len() >= 2,
    ensures
        cert_rdata(b).len() == b.len(),
        cert_rdata(b).subrange(2, b.len() as int) == b.subrange(2, b.len() as int),
        read16(b, 0) == 255 || read16(b, 0) == 65535 ==> read16(cert_rdata(b), 0) == 0,
        read16(b, 0) != 255 && read16(b, 0) != 65535 ==> cert_rdata(b) == b,
{
    assert(cert_rdata(b).subrange(2, b.len() as int) =~= b.subrange(2, b.len() as int));
}

/// DS data is a key tag, an algorithm, a digest type and a digest.
#[verifier::spinoff_prover]
#[verifier::rlimit(40)]
pub proof fn law_ds_fields_stand_in_order(f: Seq<Seq<char>>)
    ensures
        layout_octets(layout_of(RecordKind::DS), f) matches Some(b) ==> {
            &&& f.len() >= 4
            &&& parse_unsigned(f[0], 0xffff) == Some(read16(b, 0) as nat)
            &&& parse_unsigned(f[1], 0xff) == Some(b[2] as nat)
            &&& parse_unsigned(f[2], 0xff) == Some(b[3] as nat)
            &&& hex_decoded(f[3]) == Some(b.subrange(4, b.len() as int))
        },
{
    let layout = layout_of(RecordKind::DS);
    lemma_four(layout, f);
    if let Some(b) = layout_octets(layout, f) {
        assert(b.subrange(4, b.len() as int) =~= hex_decoded(f[3])->0);
    }
}

/// DNSKEY data is flags, a protocol, an algorithm and a key.
#[verifier::spinoff_prover]
#[verifier::rlimit(40)]
pub proof fn law_dnskey_fields_stand_in_order(f: Seq<Seq<char>>)
    ensures
        layout_octets(layout_of(RecordKind::DNSKEY), f) matches Some(b) ==> {
            &&& f.len() >= 4
            &&& parse_unsigned(f[0], 0xffff) == Some(read16(b, 0) as nat)
            &&& parse_unsigned(f[1], 0xff) == Some(b[2] as nat)
            &&& parse_unsigned(f[2], 0xff) == Some(b[3] as nat)
            &&& base64_decoded(f[3]) == Some(b.subrange(4, b.len() as int))
        },
{
    let layout = layout_of(RecordKind::DNSKEY);
    lemma_four(layout, f);
    if let Some(b) = layout_octets(layout, f) {
        assert(b.subrange(4, b.len() as int) =~= base64_decoded(f[3])->0);
    }
}

/// CERT data is a type, a key tag, an algorithm and a certificate.
#[verifier::spinoff_prover]
#[verifier::rlimit(40)]
pub proof fn law_cert_fields_stand_in_order(f: Seq<Seq<char>>)
    ensures
        layout_octets(layout_of(RecordKind::CERT), f) matches Some(b) ==> {
            &&& f.len() >= 4
            &&& parse_unsigned(f[0], 0xffff) == Some(read16(b, 0) as nat)
            &&& parse_unsigned(f[1], 0xffff) == Some(read16(b, 2) as nat)
            &&& parse_unsigned(f[2], 0xff) == Some(b[4] as nat)
            &&& base64_decoded(f[3]) == Some(b.subrange(5, b.len() as int))
        },
{
    let layout = layout_of(RecordKind::CERT);
    lemma_four(layout, f);
    if let Some(b) = layout_octets(layout, f) {
        assert(b.subrange(5, b.len() as int) =~= base64_decoded(f[3])->0);
    }
}

/// TLSA data is a usage, a selector, a matching type and what is matched.
#[verifier::spinoff_prover]
#[verifier::rlimit(40)]
pub proof fn law_tlsa_fields_stand_in_order(f: Seq<Seq<char>>)
    ensures
        layout_octets(layout_of(RecordKind::TLSA), f) matches Some(b) ==> {
            &&& f.len() >= 4
            &&& parse_unsigned(f[0], 0xff) == Some(b[0] as nat)
            &&& parse_unsigned(f[1], 0xff) == Some(b[1] as nat)
            &&& parse_unsigned(f[2], 0xff) == Some(b[2] as nat)
            &&& hex_decoded(f[3]) == Some(b.subrange(3, b.len() as int))
        },
{
    let layout = layout_of(RecordKind::TLSA);
    lemma_four(layout, f);
    if let Some(b) = layout_octets(layout, f) {
        assert(b.subrange(3, b.len() as int) =~= hex_decoded(f[3])->0);
    }
}

/// SSHFP data is an algorithm, a fingerprint type and a fingerprint.
#[verifier::spinoff_prover]
#[verifier::rlimit(40)]
pub proof fn law_sshfp_fields_stand_in_order(f: Seq<Seq<char>>)
    ensures
        layout_octets(layout_of(RecordKind::SSHFP), f) matches Some(b) ==> {
            &&& f.len() >= 3
            &&& parse_unsigned(f[0], 0xff) == Some(b[0] as nat)
            &&& parse_unsigned(f[1], 0xff) == Some(b[1] as nat)
            &&& hex_decoded(f[2]) == Some(b.subrange(2, b.len() as int))
        },
{
    let layout = layout_of(RecordKind::SSHFP);
    lemma_three(layout, f);
    if let Some(b) = layout_octets(layout, f) {
        assert(b.subrange(2, b.len() as int) =~= hex_decoded(f[2])->0);
    }
}

/// ZONEMD data is a serial number, a scheme, a hash algorithm and a digest.
#[verifier::spinoff_prover]
#[verifier::rlimit(40)]
pub proof fn law_zonemd_fields_stand_in_order(f: Seq<Seq<char>>)
    ensures
        layout_octets(layout_of(RecordKind::ZONEMD), f) matches Some(b) ==> {
            &&& f.len() >= 4
            &&& parse_unsigned(f[0], 0xffff_ffff) == Some(number_at(b, 0) as nat)
            &&& parse_unsigned(f[1], 0xff) == Some(b[4] as nat)
            &&& parse_unsigned(f[2], 0xff) == Some(b[5] as nat)
            &&& hex_decoded(f[3]) == Some(b.subrange(6, b.len() as int))
        },
{
    let layout = layout_of(RecordKind::ZONEMD);
    lemma_four(layout, f);
    if let Some(b) = layout_octets(layout, f) {
        lemma_be32(parse_unsigned(f[0], 0xffff_ffff)->0 as u32);
        assert(b.subrange(6, b.len() as int) =~= hex_decoded(f[3])->0);
    }
}

/// URI data starts with a priority and a weight.
pub proof fn law_uri_fields_stand_in_order(f: Seq<Seq<char>>)
    ensures
        layout_octets(layout_of(RecordKind::URI), f) matches Some(b) ==> {
            &&& f.len() >= 2
            &&& parse_unsigned(f[0], 0xffff) == Some(read16(b, 0) as nat)
            &&& parse_unsigned(f[1], 0xffff) == Some(read16(b, 2) as nat)
            &&& b.len() == 4
        },
{
    let layout = layout_of(RecordKind::URI);
    lemma_two(layout, f);
}

/// Each type is signed in a form of its own: fields in the order of its layout, a name in
/// canonical form, character strings, or a service binding; types that have no such form are
/// not signed.
pub proof fn law_signed_forms(kind: RecordKind, value: Seq<char>, priority: u32)
    ensures
        kind == RecordKind::SOA || kind == RecordKind::SSHFP || kind == RecordKind::TLSA || kind
            == RecordKind::CERT || kind == RecordKind::ZONEMD || kind == RecordKind::DNSKEY || kind
            == RecordKind::DS ==> rdata_of(kind, value, priority) == layout_octets(
            layout_of(kind),
            words(trimmed(value)),
        ),
        kind == RecordKind::CNAME || kind == RecordKind::NS || kind == RecordKind::PTR || kind
            == RecordKind::DNAME ==> rdata_of(kind, value, priority) == canonical_form(
            trimmed(value),
        ),
        kind == RecordKind::TXT ==> rdata_of(kind, value, priority) == Some(
            character_string_octets(encode_utf8(trimmed(value))),
        ),
        kind == RecordKind::SVCB || kind == RecordKind::HTTPS ==> rdata_of(kind, value, priority)
            == crate::svcb::service_binding(trimmed(value)),
        kind == RecordKind::ANAME || kind == RecordKind::NSEC3 || kind == RecordKind::NSEC3PARAM
            ==> rdata_of(kind, value, priority) is None,
{
}

/// An SOA record is signed with its two names in canonical form, then its five numbers.
#[verifier::spinoff_prover]
#[verifier::rlimit(40)]
pub proof fn law_signed_soa_fields_stand_in_order(f: Seq<Seq<char>>)
    ensures
        layout_octets(layout_of(RecordKind::SOA), f) matches Some(b) ==> {
            &&& f.len() >= 7
            &&& canonical_form(f[0]) matches Some(mname)
            &&& canonical_form(f[1]) matches Some(rname)
            &&& b.len() == mname.len() + rname.len() + 20
            &&& b.subrange(0, b.len() - 20) == mname + rname
            &&& unsigned_octets(f[2]) == Some(b.subrange(b.len() - 20, b.len() - 16))
            &&& unsigned_octets(f[3]) == Some(b.subrange(b.len() - 16, b.len() - 12))
            &&& unsigned_octets(f[4]) == Some(b.subrange(b.len() - 12, b.len() - 8))
            &&& unsigned_octets(f[5]) == Some(b.subrange(b.len() - 8, b.len() - 4))
            &&& unsigned_octets(f[6]) == Some(b.subrange(b.len() - 4, b.len() as int))
        },
{
    let l7 = layout_of(RecordKind::SOA);
    let l6 = l7.drop_last();
    let l5 = l6.drop_last();
    let l4 = l5.drop_last();
    lemma_four(l4, f);
    if layout_octets(l7, f) is Some {
        assert(layout_octets(l6, f) is Some);
        assert(layout_octets(l5, f) is Some);
        assert(layout_octets(l4, f) is Some);
        lemma_seven_parts(
            canonical_form(f[0])->0,
            canonical_form(f[1])->0,
            unsigned_octets(f[2])->0,
            unsigned_octets(f[3])->0,
            unsigned_octets(f[4])->0,
            unsigned_octets(f[5])->0,
            unsigned_octets(f[6])->0,
        );
    }
}

/// A URI record is its priority, its weight, and its target as it is written, without the
/// white space round it.
pub proof fn law_uri_fields_and_target(value: Seq<char>, priority: u32)
    ensures
        ({
            let v = trimmed(value);
            let f = words(v);
            rdata_of(RecordKind::URI, value, priority) matches Some(b) ==> {
                &&& f.len() >= 3 && b.len() >= 4
                &&& parse_unsigned(f[0], 0xffff) == Some(read16(b, 0) as nat)
                &&& parse_unsigned(f[1], 0xffff) == Some(read16(b, 2) as nat)
                &&& b.subrange(4, b.len() as int) == encode_utf8(
                    trimmed(v.subrange(crate::text::word_at(v, 2), v.len() as int)),
                )
            }
        }),
{
    let v = trimmed(value);
    let f = words(v);
    lemma_two(layout_of(RecordKind::URI), f);
    if let Some(b) = rdata_of(RecordKind::URI, value, priority) {
        let p = parse_unsigned(f[0], 0xffff)->0 as u16;
        let w = parse_unsigned(f[1], 0xffff)->0 as u16;
        let target = encode_utf8(
            trimmed(v.subrange(crate::text::word_at(v, 2), v.len() as int)),
        );
        assert(b =~= be16(p) + be16(w) + target);
        assert(b =~= Seq::empty() + be16(p) + (be16(w) + target));
        lemma_number_at(Seq::empty(), p, be16(w) + target);
        lemma_number_at(be16(p), w, target);
        assert(b.subrange(4, b.len() as int) =~= target);
    }
}

/// A record is served under its own type; an ANAME, which has none, as text.
#[verifier::spinoff_prover]
#[verifier::rlimit(40)]
pub proof fn law_records_are_served_under_their_type(
    kind: RecordKind,
    value: Seq<char>,
    priority: u32,
)
    ensures
        served_rdata(kind, value, priority) matches Some((rtype, _)) ==> if kind
            == RecordKind::ANAME {
            rtype == 16
        } else {
            rtype == type_code(kind)
        },
        kind == RecordKind::NSEC || kind == RecordKind::NSEC3 || kind == RecordKind::NSEC3PARAM
            ==> served_rdata(kind, value, priority) is None,
        kind == RecordKind::DS || kind == RecordKind::DNSKEY || kind == RecordKind::RRSIG || kind
            == RecordKind::HTTPS || kind == RecordKind::SVCB || kind == RecordKind::URI || kind
            == RecordKind::ZONEMD ==> match rdata_of(kind, value, priority) {
            Some(b) => b.len() > 0 ==> served_rdata(kind, value, priority) == Some(
                (type_code(kind), Some(b)),
            ),
            None => served_rdata(kind, value, priority) is None,
        },
        kind == RecordKind::SSHFP || kind == RecordKind::TLSA ==> match layout_octets(
            layout_of(kind),
            words(value),
        ) {
            Some(b) => served_rdata(kind, value, priority) == Some((type_code(kind), Some(b))),
            None => served_rdata(kind, value, priority) is None,
        },
{
}

/// The answer that a record makes has the record's owner and TTL, and there is one wherever
/// both the owner and the value can be written.
pub proof fn law_answers_keep_owner_and_ttl(r: DnsRecord)
    ensures
        answer_of(r) is Some <==> name_of(r.name@) is Some && served_rdata(
            r.record_type,
            r.value@,
            r.priority,
        ) is Some,
        answer_of(r) matches Some(a) ==> {
            &&& name_of(r.name@) == Some(a.name)
            &&& a.ttl == r.ttl
            &&& served_rdata(r.record_type, r.value@, r.priority) == Some((a.rtype, a.rdata))
        },
{
}

/// Every record that can be served is answered with, once and in its place: answering two
/// lists of records one behind the other is answering each.
pub proof fn law_every_servable_record_is_answered(a: Seq<DnsRecord>, b: Seq<DnsRecord>)
    ensures
        answers_of(a + b) == answers_of(a) + answers_of(b),
        a.len() == 1 ==> answers_of(a) == match answer_of(a[0]) {
            Some(x) => seq![x],
            None => Seq::empty(),
        },
        a.len() == 0 ==> answers_of(a).len() == 0,
    decreases b.len(),
{
    if a.len() == 1 {
        assert(a.drop_last() =~= Seq::empty());
        assert(answers_of(a.drop_last()) =~= Seq::empty());
        assert(answers_of(a) =~= match answer_of(a[0]) {
            Some(x) => seq![x],
            None => Seq::empty(),
        });
    }
    if b.len() == 0 {
        assert(a + b =~= a);
        assert(answers_of(a) + answers_of(b) =~= answers_of(a));
    } else {
        law_every_servable_record_is_answered(a, b.drop_last());
        assert((a + b).drop_last() =~= a + b.drop_last());
        assert(answers_of(a + b) =~= answers_of(a) + answers_of(b));
    }
}

/// The same of a listener whose address stands for the backend.
pub proof fn law_every_scoped_record_is_answered(
    a: Seq<DnsRecord>,
    b: Seq<DnsRecord>,
    ip: Option<IpAddress>,
)
    ensures
        scoped_answers_of(a + b, ip) == scoped_answers_of(a, ip) + scoped_answers_of(b, ip),
        a.len() == 1 ==> scoped_answers_of(a, ip) == match scoped_answer_of(a[0], ip) {
            Some(x) => seq![x],
            None => Seq::empty(),
        },
        a.len() == 0 ==> scoped_answers_of(a, ip).len() == 0,
        ip is None ==> scoped_answers_of(b, ip) == answers_of(b),
    decreases b.len(),
{
    if a.len() == 1 {
        assert(a.drop_last() =~= Seq::empty());
        assert(scoped_answers_of(a.drop_last(), ip) =~= Seq::empty());
        assert(scoped_answers_of(a, ip) =~= match scoped_answer_of(a[0], ip) {
            Some(x) => seq![x],
            None => Seq::empty(),
        });
    }
    if b.len() == 0 {
        assert(a + b =~= a);
        assert(scoped_answers_of(a, ip) + scoped_answers_of(b, ip) =~= scoped_answers_of(a, ip));
    } else {
        law_every_scoped_record_is_answered(a, b.drop_last(), ip);
        assert((a + b).drop_last() =~= a + b.drop_last());
        assert(scoped_answers_of(a + b, ip) =~= scoped_answers_of(a, ip) + scoped_answers_of(
            b,
            ip,
        ));
    }
}

/// On such a listener an address record of the listener's family carries the listener's
/// address, under its own owner and TTL; any other record is answered with as it is.
pub proof fn law_scoped_answers_carry_the_ingress(r: DnsRecord, ip: Option<IpAddress>)
    ensures
        ip is None ==> scoped_answer_of(r, ip) == answer_of(r),
        ip matches Some(IpAddress::V4(a)) ==> r.record_type == RecordKind::A ==> match name_of(
            r.name@,
        ) {
            Some(n) => scoped_answer_of(r, ip) == Some(
                ResourceView { name: n, rtype: 1, ttl: r.ttl, rdata: Some(be32(a)) },
            ),
            None => scoped_answer_of(r, ip) is None,
        },
        ip matches Some(IpAddress::V4(_)) ==> r.record_type != RecordKind::A ==> scoped_answer_of(
            r,
            ip,
        ) == answer_of(r),
        ip matches Some(IpAddress::V6(_)) ==> r.record_type != RecordKind::AAAA
            ==> scoped_answer_of(r, ip) == answer_of(r),
{
    if let Some(IpAddress::V4(a)) = ip {
        lemma_served_a(a);
    }
}

/// Renaming gives each answer the new owner and changes nothing else.
pub proof fn law_renaming_changes_the_owner_alone(answers: Seq<ResourceView>, owner: Seq<char>)
    ensures
        name_of(owner) is None ==> renamed(answers, owner).len() == 0,
        name_of(owner) matches Some(n) ==> {
            &&& renamed(answers, owner).len() == answers.len()
            &&& forall|i: int|
                0 <= i < answers.len() ==> {
                    let a = #[trigger] renamed(answers, owner)[i];
                    a.name == n && a.rtype == answers[i].rtype && a.ttl == answers[i].ttl && a.rdata
                        == answers[i].rdata
                }
        },
{
}

/// A DNAME record is answered with itself, and with a CNAME of its TTL at the name that was
/// asked for.
pub proof fn law_dname_answers_hold_record_and_alias(qname: Seq<char>, i: int, dname: DnsRecord)
    requires
        name_of(normalized(qname)) is Some,
        name_of(crate::dns_server::records::dname_target(qname, i, dname.value@)) is Some,
        answer_of(dname) is Some,
    ensures
        ({
            let answers = dname_answers(qname, i, dname);
            let target = name_of(
                crate::dns_server::records::dname_target(qname, i, dname.value@),
            )->0;
            &&& answers.len() == 2
            &&& answer_of(dname) == Some(answers[0])
            &&& name_of(normalized(qname)) == Some(answers[1].name)
            &&& answers[1].rtype == 5 && answers[1].ttl == dname.ttl
            &&& answers[1].rdata == Some(name_octets(target))
        }),
{
}

// ---------------------------------------------------------------------------
// DNS64 and blocklists
// ---------------------------------------------------------------------------
proof fn lemma_small_powers()
    ensures
        pow(256, 0) == 1,
        pow(256, 1) == 256,
        pow(256, 2) == 0x1_0000,
        pow(256, 3) == 0x100_0000,
        pow(256, 4) == 0x1_0000_0000,
{
    reveal_with_fuel(pow, 5);
}

proof fn lemma_low_digits(hi: int, v: int)
    requires
        0 <= v < 0x1_0000_0000,
        0 <= hi,
    ensures
        (hi * 0x1_0000_0000 + v) / 0x100_0000 % 256 == v / 0x100_0000,
        (hi * 0x1_0000_0000 + v) / 0x1_0000 % 256 == v / 0x1_0000 % 256,
        (hi * 0x1_0000_0000 + v) / 256 % 256 == v / 256 % 256,
        (hi * 0x1_0000_0000 + v) % 256 == v % 256,
{
    let x = hi * 0x1_0000_0000 + v;
    assert(x / 0x100_0000 == hi * 256 + v / 0x100_0000);
    assert(x / 0x1_0000 == hi * 0x1_0000 + v / 0x1_0000);
    assert(x / 256 == hi * 0x100_0000 + v / 256);
}

#[verifier::spinoff_prover]
proof fn lemma_last_four(prefix: u128, a: u32)
    ensures
        be128(dns64_address(prefix, a)).subrange(12, 16) == be32(a),
{
    let x = dns64_address(prefix, a);
    let hi = prefix as int / 0x1_0000_0000;
    assert(x as int == hi * 0x1_0000_0000 + a as int);
    lemma_small_powers();
    lemma_low_digits(hi, a as int);
    law_be128_has_the_high_octet_first(x, 12);
    law_be128_has_the_high_octet_first(x, 13);
    law_be128_has_the_high_octet_first(x, 14);
    law_be128_has_the_high_octet_first(x, 15);
    let made = be128(x).subrange(12, 16);
    let want = be32(a);
    assert(made[0] == want[0]);
    assert(made[1] == want[1]);
    assert(made[2] == want[2]);
    assert(made[3] == want[3]);
    assert(made =~= want);
}

proof fn lemma_high_digit(x: u128, y: u128, i: int)
    requires
        0 <= i < 12,
        x as int / 0x1_0000_0000 == y as int / 0x1_0000_0000,
    ensures
        be128(x)[i] == be128(y)[i],
{
    let k = (11 - i) as nat;
    lemma_small_powers();
    vstd::arithmetic::power::lemma_pow_positive(256, k);
    vstd::arithmetic::power::lemma_pow_adds(256, 4, k);
    vstd::arithmetic::div_mod::lemma_div_denominator(x as int, 0x1_0000_0000, pow(256, k));
    vstd::arithmetic::div_mod::lemma_div_denominator(y as int, 0x1_0000_0000, pow(256, k));
    law_be128_has_the_high_octet_first(x, i);
    law_be128_has_the_high_octet_first(y, i);
}

/// An IPv6 address made from an IPv4 address has the prefix in its first twelve octets and
/// the octets of the IPv4 address in its last four.
pub proof fn law_dns64_octets(prefix: u128, b: Seq<u8>)
    requires
        b.len() == 4,
    ensures
        ({
            let made = be128(dns64_address(prefix, read32(b)));
            &&& made.subrange(12, 16) == b
            &&& made.subrange(0, 12) == be128(prefix).subrange(0, 12)
        }),
{
    let x = dns64_address(prefix, read32(b));
    lemma_read32(b);
    lemma_last_four(prefix, read32(b));
    crate::dns_server::records::law_dns64_keeps_the_address(prefix, read32(b));
    assert forall|i: int| 0 <= i < 12 implies #[trigger] be128(x)[i] == be128(prefix)[i] by {
        lemma_high_digit(x, prefix, i);
    }
    assert(be128(x).subrange(0, 12) =~= be128(prefix).subrange(0, 12));
}

/// Every IPv4 answer makes one IPv6 answer of its owner and TTL, in its place; no other
/// answer makes one.
#[verifier::spinoff_prover]
#[verifier::rlimit(40)]
pub proof fn law_each_ipv4_answer_makes_one_ipv6_answer(
    a: Seq<ResourceView>,
    b: Seq<ResourceView>,
    prefix: u128,
)
    ensures
        dns64_answers(a + b, prefix) == dns64_answers(a, prefix) + dns64_answers(b, prefix),
        a.len() == 0 ==> dns64_answers(a, prefix).len() == 0,
        a.len() == 1 && a[0].rtype == 1 && a[0].rdata is Some && a[0].rdata->0.len() == 4 ==> {
            let made = dns64_answers(a, prefix);
            &&& made.len() == 1 && made[0].name == a[0].name && made[0].ttl == a[0].ttl
            &&& made[0].rtype == 28
            &&& made[0].rdata matches Some(d)
            &&& d.len() == 16 && d.subrange(12, 16) == a[0].rdata->0
            &&& d.subrange(0, 12) == be128(prefix).subrange(0, 12)
        },
        a.len() == 1 && a[0].rtype != 1 ==> dns64_answers(a, prefix).len() == 0,
    decreases b.len(),
{
    if a.len() == 1 {
        assert(a.drop_last() =~= Seq::empty());
        assert(dns64_answers(a.drop_last(), prefix) =~= Seq::empty());
        if a[0].rtype == 1 && a[0].rdata is Some && a[0].rdata->0.len() == 4 {
            law_dns64_octets(prefix, a[0].rdata->0);
        }
    }
    if b.len() == 0 {
        assert(a + b =~= a);
        assert(dns64_answers(a, prefix) + dns64_answers(b, prefix) =~= dns64_answers(a, prefix));
    } else {
        law_each_ipv4_answer_makes_one_ipv6_answer(a, b.drop_last(), prefix);
        assert((a + b).drop_last() =~= a + b.drop_last());
        assert(dns64_answers(a + b, prefix) =~= dns64_answers(a, prefix) + dns64_answers(b, prefix));
    }
}

/// The address of an A record is the number that its four octets make, the first one highest;
/// no other record has one.
pub proof fn law_a_record_address(r: ResourceView)
    ensures
        r.rtype == 1 && r.rdata is Some && r.rdata->0.len() == 4 ==> {
            &&& a_address(r) matches Some(a)
            &&& be32(a) == r.rdata->0
        },
        a_address(r) is Some ==> r.rtype == 1 && r.rdata is Some && r.rdata->0.len() == 4,
{
    if let Some(b) = r.rdata {
        if b.len() == 4 {
            lemma_read32(b);
        }
    }
}

/// A blocklist's codes are all the addresses in its answer, in their order, and its TTL is
/// that of the first of them.
pub proof fn law_blocklist_codes_are_the_addresses(a: Seq<ResourceView>, b: Seq<ResourceView>)
    ensures
        blocklist_codes(a + b).0 == blocklist_codes(a).0 + blocklist_codes(b).0,
        blocklist_codes(a).0.len() > 0 ==> blocklist_codes(a + b).1 == blocklist_codes(a).1,
        blocklist_codes(a).0.len() == 0 && blocklist_codes(b).0.len() > 0 ==> blocklist_codes(
            a + b,
        ).1 == blocklist_codes(b).1,
        a.len() == 0 ==> blocklist_codes(a).0.len() == 0,
        a.len() == 1 ==> match a_address(a[0]) {
            Some(x) => blocklist_codes(a) == (seq![x], a[0].ttl),
            None => blocklist_codes(a).0.len() == 0,
        },
    decreases b.len(),
{
    if a.len() == 1 {
        assert(a.drop_last() =~= Seq::empty());
        assert(blocklist_codes(a.drop_last()).0 =~= Seq::empty());
        if a_address(a[0]) is Some {
            assert(blocklist_codes(a).0 =~= seq![a_address(a[0])->0]);
        }
    }
    if b.len() == 0 {
        assert(a + b =~= a);
        assert(blocklist_codes(a).0 + blocklist_codes(b).0 =~= blocklist_codes(a).0);
    } else {
        law_blocklist_codes_are_the_addresses(a, b.drop_last());
        assert((a + b).drop_last() =~= a + b.drop_last());
        assert(blocklist_codes(a + b).0 =~= blocklist_codes(a).0 + blocklist_codes(b).0);
    }
}

// ---------------------------------------------------------------------------
// Caching
// ---------------------------------------------------------------------------
/// An answer is cached under its own type, with a priority only where it is an MX record.
pub proof fn law_answers_are_cached_under_their_type(rtype: u16, b: Seq<u8>)
    ensures
        stored_value(rtype, b) matches Some((kind, _, priority)) ==> {
            &&& type_code(kind) == rtype
            &&& rtype != 15 ==> priority == 0
        },
        stored_value(rtype, b) is Some ==> rtype == 1 || rtype == 28 || rtype == 5 || rtype == 15
            || rtype == 16 || rtype == 2 || rtype == 12,
        rtype == 1 && b.len() == 4 ==> stored_value(rtype, b) is Some,
        rtype == 28 && b.len() == 16 ==> stored_value(rtype, b) is Some,
        rtype == 16 ==> stored_value(rtype, b) == Some((RecordKind::TXT, txt_text(b), 0u32)),
{
}

/// A name in an answer is cached as the text of its labels, and an MX record's preference as
/// its priority.
pub proof fn law_targets_are_cached_as_their_text(rtype: u16, labels: Seq<Seq<u8>>, preference: u16)
    requires
        labels_fit(labels),
    ensures
        rtype == 5 || rtype == 2 || rtype == 12 ==> {
            &&& stored_value(rtype, name_octets(labels)) matches Some((kind, text, priority))
            &&& type_code(kind) == rtype && text == name_text(labels) && priority == 0
        },
        stored_value(15, be16(preference) + name_octets(labels)) == Some(
            (RecordKind::MX, name_text(labels), preference as u32),
        ),
{
    let n = name_octets(labels);
    law_name_octets_are_read_back(labels, Seq::empty());
    assert(n + Seq::<u8>::empty() =~= n);
    let b = be16(preference) + n;
    assert(b.subrange(2, b.len() as int) =~= n);
    lemma_number_at(Seq::empty(), preference, n);
    assert(b =~= Seq::empty() + be16(preference) + n);
}

/// The text that TXT data is cached as is that of its character strings, one behind the
/// other.
pub proof fn law_character_strings_are_joined(piece: Seq<u8>, rest: Seq<u8>)
    requires
        piece.len() <= 255,
    ensures
        txt_text(seq![piece.len() as u8] + piece + rest) == lossy_text(piece) + txt_text(rest),
        txt_text(Seq::empty()).len() == 0,
{
    let b = seq![piece.len() as u8] + piece + rest;
    assert(b[0] == piece.len());
    assert(b.subrange(1, piece.len() as int + 1) =~= piece);
    assert(b.subrange(piece.len() as int + 1, b.len() as int) =~= rest);
}

// ---------------------------------------------------------------------------
// Reverse names
// ---------------------------------------------------------------------------
/// The labels of a reverse name spell an IPv4 address from its last octet to its first.
pub proof fn law_reverse_ipv4_labels(parts: Seq<Seq<char>>)
    ensures
        reverse_v4(parts) is Some <==> parts.len() == 4 && forall|i: int|
            0 <= i < 4 ==> parse_unsigned(#[trigger] parts[i], 255) is Some,
        reverse_v4(parts) matches Some(ip) ==> {
            &&& ip matches IpAddress::V4(a)
            &&& forall|i: int|
                0 <= i < 4 ==> parse_unsigned(#[trigger] parts[i], 255) == Some(
                    be32(a)[3 - i] as nat,
                )
        },
{
    if parts.len() == 4 && parse_unsigned(parts[0], 255) is Some && parse_unsigned(parts[1], 255)
        is Some && parse_unsigned(parts[2], 255) is Some && parse_unsigned(parts[3], 255) is Some {
        let b = seq![
            parse_unsigned(parts[3], 255)->0 as u8,
            parse_unsigned(parts[2], 255)->0 as u8,
            parse_unsigned(parts[1], 255)->0 as u8,
            parse_unsigned(parts[0], 255)->0 as u8,
        ];
        lemma_read32(b);
        assert(reverse_v4(parts) == Some(IpAddress::V4(read32(b))));
        assert forall|i: int| 0 <= i < 4 implies parse_unsigned(#[trigger] parts[i], 255) == Some(
            be32(read32(b))[3 - i] as nat,
        ) by {
            assert(i == 0 || i == 1 || i == 2 || i == 3);
        }
    }
}

proof fn lemma_half_octets(h: u8, l: u8)
    requires
        h < 16,
        l < 16,
    ensures
        (h << 4u8) | l == 16 * h + l,
{
    assert(h < 16 && l < 16 ==> (h << 4u8) | l == 16 * h + l) by (bit_vector);
}

proof fn lemma_reverse_digit(parts: Seq<Seq<char>>, n: nat, j: int)
    requires
        2 * n <= parts.len(),
        parts.len() - 2 * n <= j < parts.len(),
        forall|i: int|
            0 <= i < parts.len() ==> hex_octet(#[trigger] parts[i]) is Some && hex_octet(parts[i])->0
                < 16,
    ensures
        reverse_number(parts, n) matches Some(v) && v as int / pow(
            16,
            (j - (parts.len() - 2 * n)) as nat,
        ) % 16 == hex_octet(parts[j])->0,
    decreases n,
{
    let at = parts.len() - 2 * n;
    let (low, high) = (hex_octet(parts[at])->0, hex_octet(parts[at + 1])->0);
    lemma_half_octets(high, low);
    let before = reverse_number(parts, (n - 1) as nat);
    if n > 1 {
        lemma_reverse_digit(parts, (n - 1) as nat, parts.len() - 1);
    }
    assert(before is Some);
    let r = before->0 as int;
    let v = reverse_number(parts, n)->0 as int;
    assert(v == r * 256 + 16 * high + low);
    vstd::arithmetic::power::lemma_pow0(16);
    vstd::arithmetic::power::lemma_pow1(16);
    if j == at {
    } else if j == at + 1 {
        assert(v / 16 == r * 16 + high);
    } else {
        lemma_reverse_digit(parts, (n - 1) as nat, j);
        let k = (j - at - 2) as nat;
        vstd::arithmetic::power::lemma_pow_positive(16, k);
        vstd::arithmetic::power::lemma_pow_adds(16, 1, 1);
        vstd::arithmetic::power::lemma_pow_adds(16, 2, k);
        vstd::arithmetic::div_mod::lemma_div_denominator(v, 256, pow(16, k));
        assert(v / 256 == r);
    }
}

/// The labels of a reverse name spell an IPv6 address from its last hexadecimal digit to its
/// first.
pub proof fn law_reverse_ipv6_labels(parts: Seq<Seq<char>>)
    requires
        parts.len() == 32,
        forall|i: int|
            0 <= i < 32 ==> hex_octet(#[trigger] parts[i]) is Some && hex_octet(parts[i])->0 < 16,
    ensures
        reverse_number(parts, 16) is Some,
        forall|i: int|
            0 <= i < 32 ==> reverse_number(parts, 16)->0 as int / pow(16, i as nat) % 16 == hex_octet(
                #[trigger] parts[i],
            )->0,
{
    lemma_reverse_digit(parts, 16, 0);
    assert forall|i: int| 0 <= i < 32 implies reverse_number(parts, 16)->0 as int / pow(
        16,
        i as nat,
    ) % 16 == hex_octet(#[trigger] parts[i])->0 by {
        lemma_reverse_digit(parts, 16, i);
    }
}

/// A listener is bound to a particular address wherever its text holds one that is not all
/// zeros.
pub proof fn law_bound_addresses_are_particular(text: Seq<char>)
    ensures
        bound_address(text) != Some(IpAddress::V4(0)) && bound_address(text) != Some(
            IpAddress::V6(0),
        ),
        socket_of(text) is None ==> bound_address(text) is None,
        socket_of(text) matches Some(a) ==> a.ip != IpAddress::V4(0) && a.ip != IpAddress::V6(0)
            ==> bound_address(text) == Some(a.ip),
{
}

/// A question asks for the stored type with its code; the service binding types are not
/// looked up so.
pub proof fn law_questions_ask_for_their_type(qtype: u16)
    ensures
        asked_kind(qtype) matches Some(kind) ==> kind_with_code(qtype) == Some(kind),
        qtype != 64 && qtype != 65 ==> asked_kind(qtype) == kind_with_code(qtype),
        asked_kind(64) is None && asked_kind(65) is None,
{
}

} // verus!
