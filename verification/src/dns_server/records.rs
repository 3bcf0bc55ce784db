//! Stored records as answers, and answers as stored records.
use vstd::prelude::*;
use vstd::slice::slice_subrange;
use vstd::string::*;
use vstd::utf8::encode_utf8;

use crate::addr::{
    ip_text, ip_to_string, ipv4_from_str, ipv4_of, ipv4_text, ipv4_to_string, ipv6_from_str,
    ipv6_of, socket_from_chars, socket_of, IpAddress,
};
use crate::codec::{be128, be16, be32, push_be128, push_be16, push_be32, read16, read_be16};
use crate::dnssec::rdata::{canonical_rdata, layout_octets, layout_of, push_layout, rdata_of};
use crate::message::{resource_views, ResourceRecord, ResourceView};
use crate::names::{ends_with, ends_with_chars, normalize_name, normalized};
use crate::record::{kind_with_code, type_code, DnsRecord, RecordKind};
use crate::text::{
    chars_of, from_utf8_lossy, join, join3, lossy_text, parse_digits_max, parse_unsigned,
    parse_unsigned_max, split, split_chars, split_words, string_of, strip_end, strip_end_chars,
    texts, words,
};
use crate::wire_name::{labels_at, name_octets, name_of, name_text, Name};

verus! {

broadcast use vstd::string::group_string_axioms;

// ---------------------------------------------------------------------------
// Types and addresses in questions
// ---------------------------------------------------------------------------
/// The stored record type that a question's type asks for.
pub open spec fn asked_kind(qtype: u16) -> Option<RecordKind> {
    if qtype == 64 || qtype == 65 {
        None
    } else {
        kind_with_code(qtype)
    }
}

/// Maps a question's type to the stored record type.
pub fn map_query_type_to_kind(qtype: u16) -> (r: Option<RecordKind>)
    ensures
        r == asked_kind(qtype),
{
    if qtype == 64 || qtype == 65 {
        None
    } else {
        RecordKind::from_wire_type(qtype)
    }
}

/// The value of hexadecimal digits.
pub open spec fn hex_value(s: Seq<char>) -> nat
    decreases s.len(),
{
    if s.len() == 0 {
        0
    } else {
        (hex_value(s.drop_last()) * 16 + crate::codec::hex_digit(s.last())->0) as nat
    }
}

/// Whether every character is a hexadecimal digit.
pub open spec fn all_hex(s: Seq<char>) -> bool {
    forall|i: int| 0 <= i < s.len() ==> crate::codec::hex_digit(#[trigger] s[i]) is Some
}

/// What an octet parses from hexadecimal text: an optional `+`, then digits.
pub open spec fn hex_octet(s: Seq<char>) -> Option<u8> {
    let digits = if s.len() > 0 && s[0] == '+' {
        s.drop_first()
    } else {
        s
    };
    if digits.len() > 0 && all_hex(digits) && hex_value(digits) <= 255 {
        Some(hex_value(digits) as u8)
    } else {
        None
    }
}

/// The address that the labels of a name under `in-addr.arpa` spell, last octet first.
pub open spec fn reverse_v4(parts: Seq<Seq<char>>) -> Option<IpAddress> {
    if parts.len() == 4 && parse_unsigned(parts[0], 255) is Some && parse_unsigned(parts[1], 255)
        is Some && parse_unsigned(parts[2], 255) is Some && parse_unsigned(parts[3], 255) is Some {
        Some(
            IpAddress::V4(
                (parse_unsigned(parts[3], 255)->0 * 0x100_0000 + parse_unsigned(parts[2], 255)->0
                    * 0x1_0000 + parse_unsigned(parts[1], 255)->0 * 256 + parse_unsigned(
                    parts[0],
                    255,
                )->0) as u32,
            ),
        )
    } else {
        None
    }
}

/// The octet that two labels of a name under `ip6.arpa` spell, the low half first.
pub open spec fn reverse_octet(low: Seq<char>, high: Seq<char>) -> Option<u8> {
    match (hex_octet(high), hex_octet(low)) {
        (Some(h), Some(l)) => Some((h << 4u8) | l),
        _ => None,
    }
}

/// The number that the last `2 * n` labels spell; they stand least significant first.
pub open spec fn reverse_number(parts: Seq<Seq<char>>, n: nat) -> Option<nat>
    decreases n,
{
    if n == 0 {
        Some(0)
    } else {
        match (
            reverse_number(parts, (n - 1) as nat),
            reverse_octet(parts[parts.len() - 2 * n], parts[parts.len() - 2 * n + 1]),
        ) {
            (Some(before), Some(octet)) => Some(before * 256 + octet as nat),
            _ => None,
        }
    }
}

/// The address that a name for reverse lookups is about.
pub open spec fn reverse_address(name: Seq<char>) -> Option<IpAddress> {
    let s = strip_end(name, '.');
    let v4 = ".in-addr.arpa"@;
    let v6 = ".ip6.arpa"@;
    let from_v4 = if ends_with(s, v4) {
        reverse_v4(split(s.subrange(0, s.len() - v4.len()), '.'))
    } else {
        None
    };
    let nibbles = split(s.subrange(0, s.len() - v6.len()), '.');
    if from_v4 is Some {
        from_v4
    } else if ends_with(s, v6) && nibbles.len() == 32 {
        match reverse_number(nibbles, 16) {
            Some(n) => Some(IpAddress::V6(n as u128)),
            None => None,
        }
    } else {
        None
    }
}

fn parse_hex_digit(c: char) -> (r: Option<u32>)
    ensures
        match r {
            Some(v) => crate::codec::hex_digit(c) == Some(v as int) && v < 16,
            None => crate::codec::hex_digit(c) is None,
        },
{
    if '0' <= c && c <= '9' {
        Some(c as u32 - '0' as u32)
    } else if 'a' <= c && c <= 'f' {
        Some(c as u32 - 'a' as u32 + 10)
    } else if 'A' <= c && c <= 'F' {
        Some(c as u32 - 'A' as u32 + 10)
    } else {
        None
    }
}

proof fn lemma_hex_value_prefix(s: Seq<char>, i: int)
    requires
        0 <= i <= s.len(),
        forall|k: int| 0 <= k < s.len() ==> crate::codec::hex_digit(#[trigger] s[k]) is Some,
    ensures
        hex_value(s.subrange(0, i)) <= hex_value(s),
    decreases s.len() - i,
{
    if i < s.len() {
        assert(s.subrange(0, i + 1).drop_last() =~= s.subrange(0, i));
        assert(crate::codec::hex_digit(s[i]) is Some);
        lemma_hex_value_prefix(s, i + 1);
    } else {
        assert(s.subrange(0, i) =~= s);
    }
}

fn parse_hex_octet(s: &[char]) -> (r: Option<u8>)
    ensures
        r == hex_octet(s@),
{
    let start: usize = if s.len() > 0 && s[0] == '+' {
        1
    } else {
        0
    };
    let digits = slice_subrange(s, start, s.len());
    proof {
        if start == 1 {
            assert(digits@ =~= s@.drop_first());
        } else {
            assert(digits@ =~= s@);
        }
    }
    if digits.len() == 0 {
        return None;
    }
    let mut value: u32 = 0;
    let mut i: usize = 0;
    while i < digits.len()
        invariant
            i <= digits.len(),
            value == hex_value(digits@.subrange(0, i as int)),
            value <= 255,
            forall|k: int| 0 <= k < i ==> crate::codec::hex_digit(#[trigger] digits@[k]) is Some,
            digits@.len() > 0,
            hex_octet(s@) == (if all_hex(digits@) && hex_value(digits@) <= 255 {
                Some(hex_value(digits@) as u8)
            } else {
                None
            }),
        decreases digits.len() - i,
    {
        proof {
            let p = digits@.subrange(0, i + 1);
            assert(p.drop_last() =~= digits@.subrange(0, i as int));
            assert(p.last() == digits@[i as int]);
        }
        match parse_hex_digit(digits[i]) {
            None => {
                return None;
            },
            Some(v) => {
                value = value * 16 + v;
            },
        }
        if value > 255 {
            proof {
                if all_hex(digits@) {
                    lemma_hex_value_prefix(digits@, i + 1);
                }
            }
            return None;
        }
        i = i + 1;
    }
    assert(digits@.subrange(0, i as int) =~= digits@);
    Some(value as u8)
}

fn parse_reverse_v4(parts: &Vec<Vec<char>>) -> (r: Option<IpAddress>)
    ensures
        r == reverse_v4(texts(parts@)),
{
    if parts.len() != 4 {
        return None;
    }
    let ghost p = texts(parts@);
    assert(p[0] == parts@[0]@ && p[1] == parts@[1]@ && p[2] == parts@[2]@ && p[3] == parts@[3]@);
    match (
        parse_unsigned_max(parts[0].as_slice(), 255),
        parse_unsigned_max(parts[1].as_slice(), 255),
        parse_unsigned_max(parts[2].as_slice(), 255),
        parse_unsigned_max(parts[3].as_slice(), 255),
    ) {
        (Some(d), Some(c), Some(b), Some(a)) => Some(
            IpAddress::V4((a * 0x100_0000 + b * 0x1_0000 + c * 256 + d) as u32),
        ),
        _ => None,
    }
}

proof fn lemma_reverse_none(parts: Seq<Seq<char>>, n: nat, m: nat)
    requires
        n <= m,
        reverse_number(parts, n) is None,
    ensures
        reverse_number(parts, m) is None,
    decreases m,
{
    if n < m {
        lemma_reverse_none(parts, n, (m - 1) as nat);
    }
}

fn parse_reverse_v6(parts: &Vec<Vec<char>>) -> (r: Option<u128>)
    requires
        parts@.len() == 32,
    ensures
        match r {
            Some(v) => reverse_number(texts(parts@), 16) == Some(v as nat),
            None => reverse_number(texts(parts@), 16) is None,
        },
{
    let ghost p = texts(parts@);
    let mut value: u128 = 0;
    let mut i: usize = 0;
    let ghost mut bound: nat = 1;
    proof {
        vstd::arithmetic::power::lemma_pow0(256);
    }
    while i < 16
        invariant
            i <= 16,
            parts@.len() == 32,
            p == texts(parts@),
            reverse_number(p, i as nat) == Some(value as nat),
            value < bound,
            bound == vstd::arithmetic::power::pow(256, i as nat),
        decreases 16 - i,
    {
        let at: usize = 30 - 2 * i;
        proof {
            let n = (i + 1) as nat;
            assert(p.len() - 2 * n == at);
            assert(p[at as int] == parts@[at as int]@);
            assert(p[at + 1] == parts@[at + 1]@);
            vstd::arithmetic::power::lemma_pow_adds(256, i as nat, 1);
            vstd::arithmetic::power::lemma_pow1(256);
            if i < 15 {
                vstd::arithmetic::power::lemma_pow_increases(256, (i + 1) as nat, 16);
            }
            lemma_pow_256_16();
        }
        match (parse_hex_octet(parts[at + 1].as_slice()), parse_hex_octet(parts[at].as_slice())) {
            (Some(high), Some(low)) => {
                let octet: u8 = (high << 4u8) | low;
                proof {
                    assert(value * 256 + octet < bound * 256) by (nonlinear_arith)
                        requires
                            value < bound,
                            octet <= 255,
                    ;
                    bound = (bound * 256) as nat;
                }
                value = value * 256 + octet as u128;
            },
            _ => {
                proof {
                    lemma_reverse_none(p, (i + 1) as nat, 16);
                }
                return None;
            },
        }
        i = i + 1;
    }
    Some(value)
}

pub(crate) proof fn lemma_pow_256_16()
    ensures
        vstd::arithmetic::power::pow(256, 16) == 0x1_0000_0000_0000_0000_0000_0000_0000_0000,
{
    vstd::arithmetic::power::lemma_pow_adds(256, 2, 2);
    vstd::arithmetic::power::lemma_pow_adds(256, 4, 4);
    vstd::arithmetic::power::lemma_pow_adds(256, 8, 8);
    vstd::arithmetic::power::lemma_pow_adds(256, 1, 1);
    vstd::arithmetic::power::lemma_pow1(256);
    assert(0x1_0000 * 0x1_0000 == 0x1_0000_0000);
    assert(0x1_0000_0000 * 0x1_0000_0000 == 0x1_0000_0000_0000_0000);
    assert(0x1_0000_0000_0000_0000 * 0x1_0000_0000_0000_0000
        == 0x1_0000_0000_0000_0000_0000_0000_0000_0000);
}

/// Extracts the address that a reverse DNS name is about.
pub fn extract_ip_from_name(name: &str) -> (r: Option<IpAddress>)
    ensures
        r == reverse_address(name@),
{
    let chars = chars_of(name);
    let s = strip_end_chars(chars.as_slice(), '.');
    let v4 = chars_of(".in-addr.arpa");
    if ends_with_chars(s, v4.as_slice()) {
        let head = slice_subrange(s, 0, s.len() - v4.len());
        let parts = split_chars(head, '.');
        if let Some(ip) = parse_reverse_v4(&parts) {
            return Some(ip);
        }
    }
    let v6 = chars_of(".ip6.arpa");
    if ends_with_chars(s, v6.as_slice()) {
        let head = slice_subrange(s, 0, s.len() - v6.len());
        let parts = split_chars(head, '.');
        assert(texts(parts@).len() == parts@.len());
        if parts.len() == 32 {
            return match parse_reverse_v6(&parts) {
                Some(v) => Some(IpAddress::V6(v)),
                None => None,
            };
        }
    }
    None
}

/// The address that a listener is bound to, where it is a particular one.
pub open spec fn bound_address(text: Seq<char>) -> Option<IpAddress> {
    match socket_of(text) {
        Some(a) => if a.ip == IpAddress::V4(0) || a.ip == IpAddress::V6(0) {
            None
        } else {
            Some(a.ip)
        },
        None => None,
    }
}

/// The address in `ip:port`, unless it is a wildcard.
pub fn concrete_bind_ip(bind_addr: &str) -> (r: Option<IpAddress>)
    ensures
        r == bound_address(bind_addr@),
{
    let chars = chars_of(bind_addr);
    match socket_from_chars(chars.as_slice()) {
        Some(a) => match a.ip {
            IpAddress::V4(0) | IpAddress::V6(0) => None,
            ip => Some(ip),
        },
        None => None,
    }
}

// ---------------------------------------------------------------------------
// From storage to the wire
// ---------------------------------------------------------------------------
/// A text as one DNS character string; none where it is longer than one can be.
pub open spec fn single_string(value: Seq<char>) -> Option<Seq<u8>> {
    let b = encode_utf8(value);
    if b.len() <= 255 {
        Some(seq![b.len() as u8] + b)
    } else {
        None
    }
}

/// What a signed 32-bit number parses from text, as the octets it is written in.
pub open spec fn signed_octets(s: Seq<char>) -> Option<Seq<u8>> {
    if s.len() > 0 && s[0] == '-' {
        match crate::text::parse_digits(s.drop_first(), 0x8000_0000) {
            Some(v) => Some(be32(((0x1_0000_0000 - v) % 0x1_0000_0000) as u32)),
            None => None,
        }
    } else {
        match parse_unsigned(s, 0x7fff_ffff) {
            Some(v) => Some(be32(v as u32)),
            None => None,
        }
    }
}

pub open spec fn unsigned_octets(s: Seq<char>) -> Option<Seq<u8>> {
    match parse_unsigned(s, 0xffff_ffff) {
        Some(v) => Some(be32(v as u32)),
        None => None,
    }
}

pub open spec fn name_rdata(s: Seq<char>) -> Option<Seq<u8>> {
    match name_of(s) {
        Some(n) => Some(name_octets(n)),
        None => None,
    }
}

/// The data of an SOA record from its seven fields.
pub open spec fn soa_rdata(f: Seq<Seq<char>>) -> Option<Seq<u8>> {
    if f.len() < 7 {
        None
    } else {
        match (
            name_rdata(f[0]),
            name_rdata(f[1]),
            unsigned_octets(f[2]),
            signed_octets(f[3]),
            signed_octets(f[4]),
            signed_octets(f[5]),
            unsigned_octets(f[6]),
        ) {
            (
                Some(mname),
                Some(rname),
                Some(serial),
                Some(refresh),
                Some(retry),
                Some(expire),
                Some(minimum),
            ) => Some(mname + rname + serial + refresh + retry + expire + minimum),
            _ => None,
        }
    }
}

/// The data of an SRV record from its three fields.
pub open spec fn srv_rdata(f: Seq<Seq<char>>, priority: u32) -> Option<Seq<u8>> {
    if f.len() < 3 {
        None
    } else {
        match (parse_unsigned(f[0], 0xffff), parse_unsigned(f[1], 0xffff), name_rdata(f[2])) {
            (Some(weight), Some(port), Some(target)) => Some(
                be16((priority % 0x1_0000) as u16) + be16(weight as u16) + be16(port as u16)
                    + target,
            ),
            _ => None,
        }
    }
}

/// The data of a CERT record: the reserved certificate types are written as type 0.
pub open spec fn cert_rdata(b: Seq<u8>) -> Seq<u8> {
    let t = read16(b, 0);
    if b.len() >= 2 && (t == 255 || t == 65535) {
        be16(0) + b.subrange(2, b.len() as int)
    } else {
        b
    }
}

/// A type with its data, where there is data.
pub open spec fn whole(rtype: u16, rdata: Option<Seq<u8>>) -> Option<(u16, Option<Seq<u8>>)> {
    match rdata {
        Some(b) => Some((rtype, Some(b))),
        None => None,
    }
}

/// The type and data that a stored record is served with. Data that has no wire form is
/// none; where the stored value is malformed, or the type is not served, there is nothing.
pub open spec fn served_rdata(kind: RecordKind, value: Seq<char>, priority: u32) -> Option<
    (u16, Option<Seq<u8>>),
> {
    let fields = words(value);
    match kind {
        RecordKind::A => whole(
            1,
            match ipv4_of(value) {
                Some(a) => Some(be32(a)),
                None => None,
            },
        ),
        RecordKind::AAAA => whole(
            28,
            match ipv6_of(value) {
                Some(a) => Some(be128(a)),
                None => None,
            },
        ),
        RecordKind::CNAME => whole(5, name_rdata(value)),
        RecordKind::DNAME => whole(39, name_rdata(value)),
        RecordKind::NS => whole(2, name_rdata(value)),
        RecordKind::PTR => whole(12, name_rdata(value)),
        RecordKind::MX => whole(
            15,
            match name_rdata(value) {
                Some(n) => Some(be16((priority % 0x1_0000) as u16) + n),
                None => None,
            },
        ),
        RecordKind::TXT | RecordKind::ANAME => Some((16, single_string(value))),
        RecordKind::SOA => whole(6, soa_rdata(fields)),
        RecordKind::SRV => whole(33, srv_rdata(fields, priority)),
        RecordKind::SSHFP | RecordKind::TLSA => whole(
            type_code(kind),
            layout_octets(layout_of(kind), fields),
        ),
        RecordKind::CERT => whole(
            37,
            match layout_octets(layout_of(kind), fields) {
                Some(b) => Some(cert_rdata(b)),
                None => None,
            },
        ),
        RecordKind::NSEC | RecordKind::NSEC3 | RecordKind::NSEC3PARAM => None,
        _ => match rdata_of(kind, value, priority) {
            Some(b) => if b.len() == 0 {
                None
            } else {
                Some((type_code(kind), Some(b)))
            },
            None => None,
        },
    }
}

/// The answer that a stored record makes.
pub open spec fn served_record(
    name: Seq<char>,
    kind: RecordKind,
    value: Seq<char>,
    ttl: u32,
    priority: u32,
) -> Option<ResourceView> {
    match (name_of(name), served_rdata(kind, value, priority)) {
        (Some(n), Some((rtype, rdata))) => Some(ResourceView { name: n, rtype, ttl, rdata }),
        _ => None,
    }
}

/// The answer that a stored record makes.
pub open spec fn answer_of(r: DnsRecord) -> Option<ResourceView> {
    served_record(r.name@, r.record_type, r.value@, r.ttl, r.priority)
}

fn encode_name_text(s: &str) -> (r: Option<Vec<u8>>)
    ensures
        crate::message::octets_of(r) == name_rdata(s@),
{
    match Name::from_ascii(s) {
        Some(n) => Some(n.to_wire()),
        None => None,
    }
}

fn push_signed(out: &mut Vec<u8>, s: &[char]) -> (ok: bool)
    ensures
        ok == (signed_octets(s@) is Some),
        ok ==> final(out)@ == old(out)@ + signed_octets(s@)->0,
{
    if s.len() > 0 && s[0] == '-' {
        let digits = slice_subrange(s, 1, s.len());
        assert(digits@ =~= s@.drop_first());
        match parse_digits_max(digits, 0x8000_0000) {
            Some(v) => {
                push_be32(out, ((0x1_0000_0000 - v) % 0x1_0000_0000) as u32);
                true
            },
            None => false,
        }
    } else {
        match parse_unsigned_max(s, 0x7fff_ffff) {
            Some(v) => {
                push_be32(out, v as u32);
                true
            },
            None => false,
        }
    }
}

fn push_unsigned(out: &mut Vec<u8>, s: &[char]) -> (ok: bool)
    ensures
        ok == (unsigned_octets(s@) is Some),
        ok ==> final(out)@ == old(out)@ + unsigned_octets(s@)->0,
{
    match parse_unsigned_max(s, 0xffff_ffff) {
        Some(v) => {
            push_be32(out, v as u32);
            true
        },
        None => false,
    }
}

fn push_name_field(out: &mut Vec<u8>, s: &[char]) -> (ok: bool)
    ensures
        ok == (name_rdata(s@) is Some),
        ok ==> final(out)@ == old(out)@ + name_rdata(s@)->0,
{
    let text = string_of(s);
    match encode_name_text(text.as_str()) {
        Some(b) => {
            out.extend_from_slice(b.as_slice());
            assert(out@ =~= old(out)@ + b@);
            true
        },
        None => false,
    }
}

fn encode_soa(f: &Vec<Vec<char>>) -> (r: Option<Vec<u8>>)
    ensures
        crate::message::octets_of(r) == soa_rdata(texts(f@)),
{
    if f.len() < 7 {
        return None;
    }
    let ghost t = texts(f@);
    assert(forall|i: int| 0 <= i < 7 ==> #[trigger] t[i] == f@[i]@);
    let mut out: Vec<u8> = Vec::new();
    if !push_name_field(&mut out, f[0].as_slice()) {
        return None;
    }
    if !push_name_field(&mut out, f[1].as_slice()) {
        return None;
    }
    if !push_unsigned(&mut out, f[2].as_slice()) {
        return None;
    }
    if !push_signed(&mut out, f[3].as_slice()) {
        return None;
    }
    if !push_signed(&mut out, f[4].as_slice()) {
        return None;
    }
    if !push_signed(&mut out, f[5].as_slice()) {
        return None;
    }
    if !push_unsigned(&mut out, f[6].as_slice()) {
        return None;
    }
    assert(out@ =~= soa_rdata(t)->0);
    Some(out)
}

fn encode_srv(f: &Vec<Vec<char>>, priority: u32) -> (r: Option<Vec<u8>>)
    ensures
        crate::message::octets_of(r) == srv_rdata(texts(f@), priority),
{
    if f.len() < 3 {
        return None;
    }
    let ghost t = texts(f@);
    assert(t[0] == f@[0]@ && t[1] == f@[1]@ && t[2] == f@[2]@);
    let mut out: Vec<u8> = Vec::new();
    push_be16(&mut out, (priority % 0x1_0000) as u16);
    match (parse_unsigned_max(f[0].as_slice(), 0xffff), parse_unsigned_max(f[1].as_slice(), 0xffff)) {
        (Some(weight), Some(port)) => {
            push_be16(&mut out, weight as u16);
            push_be16(&mut out, port as u16);
            if !push_name_field(&mut out, f[2].as_slice()) {
                return None;
            }
            assert(out@ =~= srv_rdata(t, priority)->0);
            Some(out)
        },
        _ => None,
    }
}

fn encode_layout(kind: RecordKind, f: &Vec<Vec<char>>) -> (r: Option<Vec<u8>>)
    ensures
        crate::message::octets_of(r) == layout_octets(layout_of(kind), texts(f@)),
{
    let mut out: Vec<u8> = Vec::new();
    if push_layout(&mut out, kind, f) {
        assert(out@ =~= layout_octets(layout_of(kind), texts(f@))->0);
        Some(out)
    } else {
        None
    }
}

fn encode_cert(f: &Vec<Vec<char>>) -> (r: Option<Vec<u8>>)
    ensures
        crate::message::octets_of(r) == match layout_octets(layout_of(RecordKind::CERT), texts(f@)) {
            Some(b) => Some(cert_rdata(b)),
            None => None,
        },
{
    match encode_layout(RecordKind::CERT, f) {
        Some(b) => {
            if b.len() >= 2 {
                let t: u16 = read_be16(b.as_slice(), 0);
                if t == 255 || t == 65535 {
                    let mut out: Vec<u8> = Vec::new();
                    push_be16(&mut out, 0);
                    out.extend_from_slice(slice_subrange(b.as_slice(), 2, b.len()));
                    assert(out@ =~= cert_rdata(b@));
                    return Some(out);
                }
            }
            Some(b)
        },
        None => None,
    }
}

fn encode_string(value: &str) -> (r: Option<Vec<u8>>)
    ensures
        crate::message::octets_of(r) == single_string(value@),
{
    let b = value.as_bytes();
    if b.len() > 255 {
        return None;
    }
    let mut out: Vec<u8> = Vec::new();
    out.push(b.len() as u8);
    out.extend_from_slice(b);
    assert(out@ =~= single_string(value@)->0);
    Some(out)
}

/// The data of the types that only the canonical encoder knows.
pub open spec fn opaque_octets(kind: RecordKind, value: Seq<char>, priority: u32) -> Option<
    Seq<u8>,
> {
    match rdata_of(kind, value, priority) {
        Some(b) => if b.len() == 0 {
            None
        } else {
            Some(b)
        },
        None => None,
    }
}

/// Encodes a record by its canonical form, so that what is served is what was signed.
pub fn opaque_rdata(record: &DnsRecord) -> (r: Option<Vec<u8>>)
    ensures
        crate::message::octets_of(r) == opaque_octets(
            record.record_type,
            record.value@,
            record.priority,
        ),
{
    match canonical_rdata(record) {
        Some(b) => {
            if b.len() == 0 {
                None
            } else {
                Some(b)
            }
        },
        None => None,
    }
}

/// The data and type of a stored record.
fn encode_served(record: &DnsRecord) -> (r: Option<(u16, Option<Vec<u8>>)>)
    ensures
        match r {
            Some((rtype, rdata)) => served_rdata(
                record.record_type,
                record.value@,
                record.priority,
            ) == Some((rtype, crate::message::octets_of(rdata))),
            None => served_rdata(record.record_type, record.value@, record.priority) is None,
        },
{
    let value = record.value.as_str();
    let chars = chars_of(value);
    let fields = split_words(chars.as_slice());
    let kind = record.record_type;
    let (rtype, rdata) = match kind {
        RecordKind::A => (
            1u16,
            match ipv4_from_str(value) {
                Some(a) => {
                    let mut out: Vec<u8> = Vec::new();
                    push_be32(&mut out, a);
                    assert(out@ =~= be32(a));
                    Some(out)
                },
                None => None,
            },
        ),
        RecordKind::AAAA => (
            28u16,
            match ipv6_from_str(value) {
                Some(a) => {
                    let mut out: Vec<u8> = Vec::new();
                    push_be128(&mut out, a);
                    assert(out@ =~= be128(a));
                    Some(out)
                },
                None => None,
            },
        ),
        RecordKind::CNAME => (5u16, encode_name_text(value)),
        RecordKind::DNAME => (39u16, encode_name_text(value)),
        RecordKind::NS => (2u16, encode_name_text(value)),
        RecordKind::PTR => (12u16, encode_name_text(value)),
        RecordKind::MX => (
            15u16,
            match encode_name_text(value) {
                Some(n) => {
                    let mut out: Vec<u8> = Vec::new();
                    push_be16(&mut out, (record.priority % 0x1_0000) as u16);
                    out.extend_from_slice(n.as_slice());
                    assert(out@ =~= be16((record.priority % 0x1_0000) as u16) + n@);
                    Some(out)
                },
                None => None,
            },
        ),
        RecordKind::TXT | RecordKind::ANAME => {
            return Some((16, encode_string(value)));
        },
        RecordKind::SOA => (6u16, encode_soa(&fields)),
        RecordKind::SRV => (33u16, encode_srv(&fields, record.priority)),
        RecordKind::SSHFP | RecordKind::TLSA => (kind.wire_type(), encode_layout(kind, &fields)),
        RecordKind::CERT => (37u16, encode_cert(&fields)),
        RecordKind::NSEC | RecordKind::NSEC3 | RecordKind::NSEC3PARAM => {
            return None;
        },
        _ => (kind.wire_type(), opaque_rdata(record)),
    };
    match rdata {
        Some(b) => Some((rtype, Some(b))),
        None => None,
    }
}

/// Converts a stored record to an answer.
pub fn db_record_to_dns_record(record: &DnsRecord) -> (r: Option<ResourceRecord>)
    ensures
        match r {
            Some(a) => answer_of(*record) == Some(a@),
            None => answer_of(*record) is None,
        },
{
    let name = match Name::from_ascii(record.name.as_str()) {
        Some(n) => n,
        None => {
            return None;
        },
    };
    match encode_served(record) {
        Some((rtype, rdata)) => Some(ResourceRecord { name, rtype, ttl: record.ttl, rdata }),
        None => None,
    }
}

/// The answers of stored records, those that make none left out.
pub open spec fn answers_of(records: Seq<DnsRecord>) -> Seq<ResourceView>
    decreases records.len(),
{
    if records.len() == 0 {
        Seq::empty()
    } else {
        let before = answers_of(records.drop_last());
        match answer_of(records.last()) {
            Some(a) => before.push(a),
            None => before,
        }
    }
}

/// Converts stored records to answers.
pub fn build_answers(records: &[DnsRecord]) -> (r: Vec<ResourceRecord>)
    ensures
        resource_views(r@) == answers_of(records@),
{
    let mut out: Vec<ResourceRecord> = Vec::new();
    let mut i: usize = 0;
    assert(records@.subrange(0, 0) =~= Seq::empty());
    assert(resource_views(out@) =~= Seq::empty());
    while i < records.len()
        invariant
            i <= records.len(),
            resource_views(out@) == answers_of(records@.subrange(0, i as int)),
        decreases records.len() - i,
    {
        let ghost before = resource_views(out@);
        proof {
            let p = records@.subrange(0, i + 1);
            assert(p.drop_last() =~= records@.subrange(0, i as int));
            assert(p.last() == records@[i as int]);
        }
        if let Some(a) = db_record_to_dns_record(&records[i]) {
            let ghost v = a@;
            out.push(a);
            assert(resource_views(out@) =~= before.push(v));
        }
        i = i + 1;
    }
    assert(records@.subrange(0, i as int) =~= records@);
    out
}

/// The answer of a stored record on a listener whose address stands for the backend: an
/// address record of the same family carries that address instead of its own.
pub open spec fn scoped_answer_of(r: DnsRecord, override_ip: Option<IpAddress>) -> Option<
    ResourceView,
> {
    let rewritten = match override_ip {
        Some(IpAddress::V4(_)) => r.record_type == RecordKind::A,
        Some(IpAddress::V6(_)) => r.record_type == RecordKind::AAAA,
        None => false,
    };
    if rewritten {
        served_record(r.name@, r.record_type, ip_text(override_ip->0), r.ttl, r.priority)
    } else {
        answer_of(r)
    }
}

/// The answers of stored records on such a listener.
pub open spec fn scoped_answers_of(records: Seq<DnsRecord>, override_ip: Option<IpAddress>) -> Seq<
    ResourceView,
>
    decreases records.len(),
{
    if records.len() == 0 {
        Seq::empty()
    } else {
        let before = scoped_answers_of(records.drop_last(), override_ip);
        match scoped_answer_of(records.last(), override_ip) {
            Some(a) => before.push(a),
            None => before,
        }
    }
}

fn build_scoped_answer(r: &DnsRecord, override_ip: Option<IpAddress>) -> (a: Option<ResourceRecord>)
    ensures
        match a {
            Some(x) => scoped_answer_of(*r, override_ip) == Some(x@),
            None => scoped_answer_of(*r, override_ip) is None,
        },
        override_ip matches Some(IpAddress::V6(ip)) ==> r.record_type == RecordKind::AAAA
            ==> name_of(r.name@) is Some ==> a is Some && a->0@.rdata == Some(be128(ip)) && a->0@.rtype
            == 28,
        override_ip matches Some(IpAddress::V4(ip)) ==> r.record_type == RecordKind::A ==> name_of(
            r.name@,
        ) is Some ==> a is Some && a->0@.rdata == Some(be32(ip)) && a->0@.rtype == 1,
{
    let rewritten = match override_ip {
        Some(IpAddress::V4(_)) => r.record_type == RecordKind::A,
        Some(IpAddress::V6(_)) => r.record_type == RecordKind::AAAA,
        None => false,
    };
    if rewritten {
        if let Some(ip) = override_ip {
            let changed = DnsRecord {
                id: r.id,
                name: r.name.clone(),
                record_type: r.record_type,
                value: ip_to_string(ip),
                ttl: r.ttl,
                priority: r.priority,
            };
            proof {
                if let IpAddress::V4(a) = ip {
                    lemma_served_a(a);
                }
            }
            return db_record_to_dns_record(&changed);
        }
    }
    db_record_to_dns_record(r)
}

/// Builds the answers for a scoped lookup, applying the ingress rewrite.
pub fn build_scoped_answers(records: &[DnsRecord], override_ip: Option<IpAddress>) -> (r: Vec<
    ResourceRecord,
>)
    ensures
        resource_views(r@) == scoped_answers_of(records@, override_ip),
{
    let mut out: Vec<ResourceRecord> = Vec::new();
    let mut i: usize = 0;
    assert(records@.subrange(0, 0) =~= Seq::empty());
    assert(resource_views(out@) =~= Seq::empty());
    while i < records.len()
        invariant
            i <= records.len(),
            resource_views(out@) == scoped_answers_of(records@.subrange(0, i as int), override_ip),
        decreases records.len() - i,
    {
        let ghost before = resource_views(out@);
        proof {
            let p = records@.subrange(0, i + 1);
            assert(p.drop_last() =~= records@.subrange(0, i as int));
            assert(p.last() == records@[i as int]);
        }
        if let Some(a) = build_scoped_answer(&records[i], override_ip) {
            let ghost v = a@;
            out.push(a);
            assert(resource_views(out@) =~= before.push(v));
        }
        i = i + 1;
    }
    assert(records@.subrange(0, i as int) =~= records@);
    out
}

/// Answers under another owner; none where the owner's text is no name.
pub open spec fn renamed(answers: Seq<ResourceView>, owner: Seq<char>) -> Seq<ResourceView> {
    match name_of(owner) {
        Some(n) => Seq::new(answers.len(), |i: int| ResourceView { name: n, ..answers[i] }),
        None => Seq::empty(),
    }
}

/// Gives answers the owner that was asked for.
pub fn rename_answers(answers: Vec<ResourceRecord>, owner: &str) -> (r: Vec<ResourceRecord>)
    ensures
        resource_views(r@) == renamed(resource_views(answers@), owner@),
{
    let mut out: Vec<ResourceRecord> = Vec::new();
    match Name::from_ascii(owner) {
        None => {
            assert(resource_views(out@) =~= Seq::empty());
        },
        Some(name) => {
            let mut i: usize = 0;
            while i < answers.len()
                invariant
                    i <= answers.len(),
                    out.len() == i,
                    forall|k: int|
                        0 <= k < i ==> (#[trigger] out@[k])@ == (ResourceView {
                            name: name@,
                            ..answers@[k]@
                        }),
                decreases answers.len() - i,
            {
                let mut a = answers[i].clone();
                a.name = name.clone();
                out.push(a);
                i = i + 1;
            }
            assert(resource_views(out@) =~= renamed(resource_views(answers@), owner@));
        },
    }
    out
}

// ---------------------------------------------------------------------------
// DNAME
// ---------------------------------------------------------------------------
/// The labels of a name, normalized.
pub open spec fn label_texts(qname: Seq<char>) -> Seq<Seq<char>> {
    split(strip_end(normalized(qname), '.'), '.')
}

/// The ancestor of a name without its first `i` labels, normalized.
pub open spec fn ancestor(qname: Seq<char>, i: int) -> Seq<char> {
    let parts = label_texts(qname);
    join(parts.subrange(i, parts.len() as int), '.').push('.')
}

/// Where a DNAME at the ancestor without the first `i` labels leads a name (RFC 6672).
pub open spec fn dname_target(qname: Seq<char>, i: int, target: Seq<char>) -> Seq<char> {
    let parts = label_texts(qname);
    normalized(join(parts.subrange(0, i), '.') + "."@ + strip_end(target, '.'))
}

fn label_parts(qname: &str) -> (r: Vec<Vec<char>>)
    ensures
        texts(r@) == label_texts(qname@),
{
    let n = normalize_name(qname);
    let chars = chars_of(n.as_str());
    split_chars(strip_end_chars(chars.as_slice(), '.'), '.')
}

/// How many labels a name has, normalized.
pub fn ancestor_count(qname: &str) -> (r: usize)
    ensures
        r == label_texts(qname@).len(),
{
    let parts = label_parts(qname);
    assert(texts(parts@).len() == parts@.len());
    parts.len()
}

fn join_parts(parts: &Vec<Vec<char>>, from: usize, to: usize) -> (r: Vec<char>)
    requires
        from <= to <= parts@.len(),
    ensures
        r@ == join(texts(parts@).subrange(from as int, to as int), '.'),
{
    let ghost all = texts(parts@).subrange(from as int, to as int);
    let mut out: Vec<char> = Vec::new();
    let mut i: usize = from;
    assert(all.subrange(0, 0) =~= Seq::empty());
    assert(out@ =~= Seq::empty());
    while i < to
        invariant
            from <= i <= to <= parts@.len(),
            all == texts(parts@).subrange(from as int, to as int),
            out@ == join(all.subrange(0, i - from), '.'),
        decreases to - i,
    {
        let ghost p = all.subrange(0, i - from + 1);
        proof {
            assert(p.drop_last() =~= all.subrange(0, i - from));
            assert(p.last() == parts@[i as int]@);
        }
        let ghost before = out@;
        if i > from {
            out.push('.');
        }
        out.extend_from_slice(parts[i].as_slice());
        proof {
            if i > from {
                assert(out@ =~= before.push('.') + p.last());
            } else {
                assert(before =~= Seq::empty());
                assert(p[0] == p.last());
                assert(out@ =~= p.last());
            }
        }
        i = i + 1;
    }
    assert(all.subrange(0, i - from) =~= all);
    out
}

/// The ancestor of a name without its first `i` labels.
pub fn ancestor_name(qname: &str, i: usize) -> (r: String)
    requires
        i <= label_texts(qname@).len(),
    ensures
        r@ == ancestor(qname@, i as int),
{
    let parts = label_parts(qname);
    assert(texts(parts@).len() == parts@.len());
    let mut out = join_parts(&parts, i, parts.len());
    out.push('.');
    string_of(out.as_slice())
}

/// The answers that a DNAME record makes: the record itself, and a CNAME from the name
/// that was asked for to where the record leads it.
pub open spec fn dname_answers(qname: Seq<char>, i: int, dname: DnsRecord) -> Seq<ResourceView> {
    let first = match answer_of(dname) {
        Some(a) => seq![a],
        None => Seq::empty(),
    };
    match served_record(
        normalized(qname),
        RecordKind::CNAME,
        dname_target(qname, i, dname.value@),
        dname.ttl,
        0,
    ) {
        Some(c) => first.push(c),
        None => first,
    }
}

/// Builds the answers that a DNAME record makes.
pub fn build_dname_answers(qname: &str, i: usize, dname: &DnsRecord) -> (r: Vec<ResourceRecord>)
    requires
        i <= label_texts(qname@).len(),
    ensures
        resource_views(r@) == dname_answers(qname@, i as int, *dname),
{
    let parts = label_parts(qname);
    assert(texts(parts@).len() == parts@.len());
    let prefix = string_of(join_parts(&parts, 0, i).as_slice());
    let value = chars_of(dname.value.as_str());
    let target = string_of(strip_end_chars(value.as_slice(), '.'));
    let synthesized = join3(prefix.as_str(), ".", target.as_str());
    let cname = DnsRecord {
        id: None,
        name: normalize_name(qname),
        record_type: RecordKind::CNAME,
        value: normalize_name(synthesized.as_str()),
        ttl: dname.ttl,
        priority: 0,
    };
    let mut out: Vec<ResourceRecord> = Vec::new();
    assert(resource_views(out@) =~= Seq::empty());
    if let Some(a) = db_record_to_dns_record(dname) {
        let ghost v = a@;
        out.push(a);
        assert(resource_views(out@) =~= seq![v]);
    }
    let ghost before = resource_views(out@);
    if let Some(c) = db_record_to_dns_record(&cname) {
        let ghost v = c@;
        out.push(c);
        assert(resource_views(out@) =~= before.push(v));
    }
    out
}

// ---------------------------------------------------------------------------
// DNS64
// ---------------------------------------------------------------------------
/// An IPv4 address in the last 32 bits of a prefix (RFC 6052).
pub open spec fn dns64_address(prefix: u128, ipv4: u32) -> u128 {
    (prefix / 0x1_0000_0000 * 0x1_0000_0000 + ipv4) as u128
}

/// Synthesizes an IPv6 address by embedding an IPv4 address in the prefix.
pub fn synthesize_dns64_address(prefix: u128, ipv4: u32) -> (r: u128)
    ensures
        r == dns64_address(prefix, ipv4),
{
    prefix / 0x1_0000_0000 * 0x1_0000_0000 + ipv4 as u128
}

/// The number in four octets.
pub open spec fn read32(b: Seq<u8>) -> u32 {
    (b[0] * 0x100_0000 + b[1] * 0x1_0000 + b[2] * 256 + b[3]) as u32
}

/// The address of an A record.
pub open spec fn a_address(r: ResourceView) -> Option<u32> {
    match r.rdata {
        Some(b) => if r.rtype == 1 && b.len() == 4 {
            Some(read32(b))
        } else {
            None
        },
        None => None,
    }
}

/// The IPv6 answers that IPv4 answers make under a prefix.
pub open spec fn dns64_answers(answers: Seq<ResourceView>, prefix: u128) -> Seq<ResourceView>
    decreases answers.len(),
{
    if answers.len() == 0 {
        Seq::empty()
    } else {
        let before = dns64_answers(answers.drop_last(), prefix);
        let last = answers.last();
        match a_address(last) {
            Some(a) => before.push(
                ResourceView {
                    name: last.name,
                    rtype: 28,
                    ttl: last.ttl,
                    rdata: Some(be128(dns64_address(prefix, a))),
                },
            ),
            None => before,
        }
    }
}

fn address_of(r: &ResourceRecord) -> (a: Option<u32>)
    ensures
        a == a_address(r@),
{
    match &r.rdata {
        Some(b) => {
            if r.rtype == 1 && b.len() == 4 {
                Some(
                    b[0] as u32 * 0x100_0000 + b[1] as u32 * 0x1_0000 + b[2] as u32 * 256
                        + b[3] as u32,
                )
            } else {
                None
            }
        },
        None => None,
    }
}

/// Synthesizes IPv6 answers from IPv4 answers.
pub fn synthesize_dns64_answers(answers: &[ResourceRecord], prefix: u128) -> (r: Vec<
    ResourceRecord,
>)
    ensures
        resource_views(r@) == dns64_answers(resource_views(answers@), prefix),
{
    let mut out: Vec<ResourceRecord> = Vec::new();
    let ghost all = resource_views(answers@);
    let mut i: usize = 0;
    assert(all.subrange(0, 0) =~= Seq::empty());
    assert(resource_views(out@) =~= Seq::empty());
    while i < answers.len()
        invariant
            i <= answers.len(),
            all == resource_views(answers@),
            resource_views(out@) == dns64_answers(all.subrange(0, i as int), prefix),
        decreases answers.len() - i,
    {
        let ghost before = resource_views(out@);
        proof {
            let p = all.subrange(0, i + 1);
            assert(p.drop_last() =~= all.subrange(0, i as int));
            assert(p.last() == answers@[i as int]@);
        }
        if let Some(a) = address_of(&answers[i]) {
            let mut rdata: Vec<u8> = Vec::new();
            push_be128(&mut rdata, synthesize_dns64_address(prefix, a));
            assert(rdata@ =~= be128(dns64_address(prefix, a)));
            let record = ResourceRecord {
                name: answers[i].name.clone(),
                rtype: 28,
                ttl: answers[i].ttl,
                rdata: Some(rdata),
            };
            let ghost v = record@;
            out.push(record);
            assert(resource_views(out@) =~= before.push(v));
        }
        i = i + 1;
    }
    assert(all.subrange(0, i as int) =~= all);
    out
}

/// The codes and TTL of a blocklist's answer: the addresses, and the TTL of the first.
pub open spec fn blocklist_codes(answers: Seq<ResourceView>) -> (Seq<u32>, u32)
    decreases answers.len(),
{
    if answers.len() == 0 {
        (Seq::empty(), 0)
    } else {
        let (codes, ttl) = blocklist_codes(answers.drop_last());
        match a_address(answers.last()) {
            Some(a) => (
                codes.push(a),
                if codes.len() == 0 {
                    answers.last().ttl
                } else {
                    ttl
                },
            ),
            None => (codes, ttl),
        }
    }
}

/// Collects the addresses in a blocklist's answer; none where there are none.
pub fn a_answer(answers: &[ResourceRecord]) -> (r: Option<crate::dnsbl::DnsblAnswer>)
    ensures
        match r {
            Some(a) => (a.codes@, a.ttl) == blocklist_codes(resource_views(answers@)) && a.codes@.len()
                > 0,
            None => blocklist_codes(resource_views(answers@)).0.len() == 0,
        },
{
    let ghost all = resource_views(answers@);
    let mut codes: Vec<u32> = Vec::new();
    let mut ttl: u32 = 0;
    let mut i: usize = 0;
    assert(all.subrange(0, 0) =~= Seq::empty());
    assert(codes@ =~= Seq::empty());
    while i < answers.len()
        invariant
            i <= answers.len(),
            all == resource_views(answers@),
            (codes@, ttl) == blocklist_codes(all.subrange(0, i as int)),
        decreases answers.len() - i,
    {
        proof {
            let p = all.subrange(0, i + 1);
            assert(p.drop_last() =~= all.subrange(0, i as int));
            assert(p.last() == answers@[i as int]@);
        }
        if let Some(a) = address_of(&answers[i]) {
            if codes.len() == 0 {
                ttl = answers[i].ttl;
            }
            codes.push(a);
        }
        i = i + 1;
    }
    assert(all.subrange(0, i as int) =~= all);
    if codes.len() == 0 {
        None
    } else {
        Some(crate::dnsbl::DnsblAnswer { codes, ttl })
    }
}

// ---------------------------------------------------------------------------
// From the wire to storage
// ---------------------------------------------------------------------------
/// The number in sixteen octets.
pub open spec fn read128(b: Seq<u8>, n: nat) -> nat
    decreases n,
{
    if n == 0 {
        0
    } else {
        read128(b, (n - 1) as nat) * 256 + b[n - 1] as nat
    }
}

/// The character strings of TXT data as one text.
pub open spec fn txt_text(b: Seq<u8>) -> Seq<char>
    decreases b.len(),
{
    if b.len() == 0 || b[0] as int + 1 > b.len() {
        Seq::empty()
    } else {
        lossy_text(b.subrange(1, b[0] as int + 1)) + txt_text(
            b.subrange(b[0] as int + 1, b.len() as int),
        )
    }
}

/// The text of the name at the front of data.
pub open spec fn target_text(b: Seq<u8>) -> Option<Seq<char>> {
    match labels_at(b) {
        Some((labels, _)) => Some(name_text(labels)),
        None => None,
    }
}

/// The type, value and priority that an answer is cached under.
pub open spec fn stored_value(rtype: u16, b: Seq<u8>) -> Option<(RecordKind, Seq<char>, u32)> {
    if rtype == 1 && b.len() == 4 {
        Some((RecordKind::A, ipv4_text(read32(b)), 0))
    } else if rtype == 28 && b.len() == 16 {
        Some((RecordKind::AAAA, crate::addr::ipv6_text(read128(b, 16) as u128), 0))
    } else if rtype == 5 && target_text(b) is Some {
        Some((RecordKind::CNAME, target_text(b)->0, 0))
    } else if rtype == 15 && b.len() >= 2 && target_text(b.subrange(2, b.len() as int)) is Some {
        Some((RecordKind::MX, target_text(b.subrange(2, b.len() as int))->0, read16(b, 0) as u32))
    } else if rtype == 16 {
        Some((RecordKind::TXT, txt_text(b), 0))
    } else if rtype == 2 && target_text(b) is Some {
        Some((RecordKind::NS, target_text(b)->0, 0))
    } else if rtype == 12 && target_text(b) is Some {
        Some((RecordKind::PTR, target_text(b)->0, 0))
    } else {
        None
    }
}

/// Whether a stored record is what an answer is cached as.
pub open spec fn is_stored_form(a: ResourceView, r: DnsRecord) -> bool {
    &&& a.rdata is Some
    &&& stored_value(a.rtype, a.rdata->0) == Some((r.record_type, r.value@, r.priority))
    &&& r.name@ == name_text(a.name)
    &&& r.ttl == a.ttl
    &&& r.id is None
}

/// Whether an answer is cached at all.
pub open spec fn is_storable(a: ResourceView) -> bool {
    a.rdata is Some && stored_value(a.rtype, a.rdata->0) is Some
}

fn decode_target(b: &[u8]) -> (r: Option<String>)
    ensures
        match r {
            Some(s) => target_text(b@) == Some(s@),
            None => target_text(b@) is None,
        },
{
    match Name::from_wire(b) {
        Some((n, _)) => Some(n.text()),
        None => None,
    }
}

fn decode_txt(b: &[u8]) -> (r: String)
    ensures
        r@ == txt_text(b@),
{
    let mut out = String::new();
    let mut at: usize = 0;
    assert(b@.subrange(0, b@.len() as int) =~= b@);
    assert(out@ + txt_text(b@) =~= txt_text(b@));
    loop
        invariant
            at <= b.len(),
            out@ + txt_text(b@.subrange(at as int, b@.len() as int)) == txt_text(b@),
        decreases b.len() - at,
    {
        let ghost tail = b@.subrange(at as int, b@.len() as int);
        if at == b.len() || b[at] as usize + 1 > b.len() - at {
            assert(txt_text(tail) =~= Seq::empty());
            assert(out@ + Seq::<char>::empty() =~= out@);
            return out;
        }
        let n: usize = b[at] as usize;
        let ghost before = out@;
        let part = from_utf8_lossy(slice_subrange(b, at + 1, at + 1 + n));
        out.append(part.as_str());
        proof {
            assert(tail[0] == n);
            assert(tail.subrange(1, n + 1) =~= b@.subrange(at + 1, at + 1 + n));
            assert(tail.subrange(n + 1, tail.len() as int) =~= b@.subrange(
                at + 1 + n,
                b@.len() as int,
            ));
            let rest = txt_text(b@.subrange(at + 1 + n, b@.len() as int));
            assert(before + part@ + rest =~= before + (part@ + rest));
        }
        at = at + 1 + n;
    }
}

fn decode_v6(b: &[u8]) -> (r: u128)
    requires
        b@.len() == 16,
    ensures
        r == read128(b@, 16),
{
    let mut value: u128 = 0;
    let mut i: usize = 0;
    let ghost mut bound: nat = 1;
    proof {
        vstd::arithmetic::power::lemma_pow0(256);
    }
    while i < 16
        invariant
            i <= 16,
            b@.len() == 16,
            value == read128(b@, i as nat),
            value < bound,
            bound == vstd::arithmetic::power::pow(256, i as nat),
        decreases 16 - i,
    {
        proof {
            vstd::arithmetic::power::lemma_pow_adds(256, i as nat, 1);
            vstd::arithmetic::power::lemma_pow1(256);
            if i < 15 {
                vstd::arithmetic::power::lemma_pow_increases(256, (i + 1) as nat, 16);
            }
            lemma_pow_256_16();
            assert(value * 256 + b@[i as int] < bound * 256) by (nonlinear_arith)
                requires
                    value < bound,
                    b@[i as int] <= 255,
            ;
            bound = (bound * 256) as nat;
        }
        value = value * 256 + b[i] as u128;
        i = i + 1;
    }
    value
}

fn decode_value(rtype: u16, b: &[u8]) -> (r: Option<(RecordKind, String, u32)>)
    ensures
        match r {
            Some((kind, value, priority)) => stored_value(rtype, b@) == Some(
                (kind, value@, priority),
            ) && (rtype == 1 || rtype == 28 ==> served_rdata(kind, value@, priority) == Some(
                (rtype, Some(b@)),
            )),
            None => stored_value(rtype, b@) is None,
        },
{
    if rtype == 1 && b.len() == 4 {
        let a: u32 = b[0] as u32 * 0x100_0000 + b[1] as u32 * 0x1_0000 + b[2] as u32 * 256
            + b[3] as u32;
        proof {
            lemma_served_a(a);
            lemma_read32(b@);
        }
        return Some((RecordKind::A, ipv4_to_string(a), 0));
    }
    if rtype == 28 && b.len() == 16 {
        proof {
            law_ipv6_octets_survive(b@);
        }
        return Some((RecordKind::AAAA, ip_to_string(IpAddress::V6(decode_v6(b))), 0));
    }
    if rtype == 16 {
        return Some((RecordKind::TXT, decode_txt(b), 0));
    }
    if rtype == 15 {
        if b.len() < 2 {
            return None;
        }
        return match decode_target(slice_subrange(b, 2, b.len())) {
            Some(s) => Some((RecordKind::MX, s, read_be16(b, 0) as u32)),
            None => None,
        };
    }
    let kind = match rtype {
        5 => RecordKind::CNAME,
        2 => RecordKind::NS,
        12 => RecordKind::PTR,
        _ => {
            return None;
        },
    };
    match decode_target(b) {
        Some(s) => Some((kind, s, 0)),
        None => None,
    }
}

/// Converts an answer to a stored record, for the cache. An address is served from there as
/// it came.
pub fn dns_record_to_db_record(record: &ResourceRecord) -> (r: Option<DnsRecord>)
    ensures
        match r {
            Some(d) => is_stored_form(record@, d) && (record.rtype == 1 || record.rtype == 28
                ==> served_rdata(d.record_type, d.value@, d.priority) == Some(
                (record.rtype, record@.rdata),
            )),
            None => !is_storable(record@),
        },
{
    match &record.rdata {
        None => None,
        Some(b) => match decode_value(record.rtype, b.as_slice()) {
            None => None,
            Some((record_type, value, priority)) => Some(
                DnsRecord {
                    id: None,
                    name: record.name.text(),
                    record_type,
                    value,
                    ttl: record.ttl,
                    priority,
                },
            ),
        },
    }
}

// ---------------------------------------------------------------------------
// Laws
// ---------------------------------------------------------------------------
pub(crate) proof fn lemma_read32(b: Seq<u8>)
    requires
        b.len() == 4,
    ensures
        be32(read32(b)) == b,
{
    let (b0, b1, b2, b3) = (b[0] as int, b[1] as int, b[2] as int, b[3] as int);
    let x = b0 * 0x100_0000 + b1 * 0x1_0000 + b2 * 256 + b3;
    assert(0 <= x <= 0xffff_ffff);
    assert(x / 0x100_0000 == b0);
    assert(x / 0x1_0000 == b0 * 256 + b1);
    assert(x / 256 == b0 * 0x1_0000 + b1 * 256 + b2);
    assert((b0 * 256 + b1) % 256 == b1);
    assert((b0 * 0x1_0000 + b1 * 256 + b2) % 256 == b2) by {
        assert(b0 * 0x1_0000 + b1 * 256 + b2 == 256 * (b0 * 256 + b1) + b2);
    }
    assert(x % 256 == b3) by {
        assert(x == 256 * (b0 * 0x1_0000 + b1 * 256 + b2) + b3);
    }
    assert(be32(read32(b)) =~= b);
}

proof fn lemma_read128(b: Seq<u8>, n: nat, i: int)
    requires
        0 <= i < n <= b.len(),
    ensures
        read128(b, n) as int / vstd::arithmetic::power::pow(256, (n - 1 - i) as nat) % 256
            == b[i] as int,
    decreases n,
{
    let before = read128(b, (n - 1) as nat) as int;
    let all = read128(b, n) as int;
    assert(all == before * 256 + b[n - 1] as int);
    if i == n - 1 {
        vstd::arithmetic::power::lemma_pow0(256);
    } else {
        let k = (n - 2 - i) as nat;
        lemma_read128(b, (n - 1) as nat, i);
        vstd::arithmetic::power::lemma_pow_positive(256, k);
        vstd::arithmetic::power::lemma_pow1(256);
        vstd::arithmetic::power::lemma_pow_adds(256, 1, k);
        vstd::arithmetic::div_mod::lemma_div_denominator(
            all,
            256,
            vstd::arithmetic::power::pow(256, k),
        );
        assert(all / 256 == before);
    }
}

proof fn lemma_read128_fits(b: Seq<u8>, n: nat)
    requires
        n <= b.len(),
    ensures
        read128(b, n) < vstd::arithmetic::power::pow(256, n),
    decreases n,
{
    if n == 0 {
        vstd::arithmetic::power::lemma_pow0(256);
    } else {
        lemma_read128_fits(b, (n - 1) as nat);
        vstd::arithmetic::power::lemma_pow1(256);
        vstd::arithmetic::power::lemma_pow_adds(256, (n - 1) as nat, 1);
    }
}

/// The number in sixteen octets has each octet as the digit of its place in base 256, the
/// first one highest, and its octets are those it was read from.
pub proof fn law_ipv6_octets_survive(b: Seq<u8>)
    requires
        b.len() == 16,
    ensures
        read128(b, 16) <= u128::MAX,
        be128(read128(b, 16) as u128) == b,
        forall|i: int|
            0 <= i < 16 ==> read128(b, 16) as int / vstd::arithmetic::power::pow(
                256,
                (15 - i) as nat,
            ) % 256 == #[trigger] b[i] as int,
{
    lemma_read128_fits(b, 16);
    lemma_pow_256_16();
    assert forall|i: int| 0 <= i < 16 implies read128(b, 16) as int / vstd::arithmetic::power::pow(
        256,
        (15 - i) as nat,
    ) % 256 == #[trigger] b[i] as int by {
        lemma_read128(b, 16, i);
    }
    assert(be128(read128(b, 16) as u128) =~= b);
}

pub(crate) proof fn lemma_served_a(x: u32)
    ensures
        served_rdata(RecordKind::A, ipv4_text(x), 0) == whole(1, Some(be32(x))),
{
    crate::addr::law_ipv4_text_round_trip(x);
}

/// An IPv4 address that is cached is served as it came: what the cache makes of the data
/// of an A record makes the same data again.
pub proof fn law_cached_ipv4_is_served_unchanged(b: Seq<u8>)
    requires
        b.len() == 4,
    ensures
        ({
            let (kind, value, priority) = stored_value(1, b)->0;
            stored_value(1, b) is Some && served_rdata(kind, value, priority) == Some(
                (1u16, Some(b)),
            )
        }),
{
    lemma_served_a(read32(b));
    lemma_read32(b);
}

/// The IPv4 address that an IPv6 address was made from is its last 32 bits, and all of them;
/// the rest is the prefix.
pub proof fn law_dns64_keeps_the_address(prefix: u128, ipv4: u32)
    ensures
        dns64_address(prefix, ipv4) % 0x1_0000_0000 == ipv4,
        dns64_address(prefix, ipv4) / 0x1_0000_0000 == prefix / 0x1_0000_0000,
{
}

} // verus!
