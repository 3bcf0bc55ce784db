//! Stored values as canonical RDATA (RFC 4034 section 6.2).
use vstd::prelude::*;
use vstd::slice::slice_subrange;
use vstd::string::*;
use vstd::utf8::encode_utf8;

use crate::addr::{ipv4_from_str, ipv4_of, ipv6_from_str, ipv6_of};
use crate::codec::{
    base64_decode, base64_decoded, be128, be16, be32, hex_decode, hex_decoded, push_be128,
    push_be16, push_be32,
};
use crate::dnssec::nsec::{nsec_parsed, nsec_rdata, Nsec};
use crate::dnssec::rrsig::{rrsig_parsed, rrsig_rdata, Rrsig};
use crate::names::{canonical_form, canonical_name};
use crate::record::{DnsRecord, RecordKind};
use crate::svcb::service_binding;
use crate::text::{
    chars_of, find_word, parse_unsigned, parse_unsigned_max, split_words, string_of, texts, trim,
    trim_str, trimmed, word_at, words,
};

verus! {

broadcast use vstd::string::group_string_axioms;

// ---------------------------------------------------------------------------
// Character strings
// ---------------------------------------------------------------------------
/// Octets cut into pieces of at most 255, each behind its length.
pub open spec fn chunked(b: Seq<u8>) -> Seq<u8>
    decreases b.len(),
{
    if b.len() == 0 {
        Seq::empty()
    } else if b.len() <= 255 {
        seq![b.len() as u8] + b
    } else {
        seq![255u8] + b.subrange(0, 255) + chunked(b.subrange(255, b.len() as int))
    }
}

/// A text as DNS character strings; an empty text is one empty string.
pub open spec fn character_string_octets(b: Seq<u8>) -> Seq<u8> {
    if b.len() == 0 {
        seq![0u8]
    } else {
        chunked(b)
    }
}

/// Splits a string into DNS character strings.
pub fn character_strings(value: &str) -> (r: Vec<u8>)
    ensures
        r@ == character_string_octets(encode_utf8(value@)),
{
    let bytes = value.as_bytes();
    let mut out: Vec<u8> = Vec::new();
    if bytes.len() == 0 {
        out.push(0);
        assert(out@ =~= seq![0u8]);
        return out;
    }
    let mut at: usize = 0;
    assert(bytes@.subrange(0, bytes@.len() as int) =~= bytes@);
    assert(out@ + chunked(bytes@) =~= chunked(bytes@));
    while at < bytes.len()
        invariant
            at <= bytes.len(),
            out@ + chunked(bytes@.subrange(at as int, bytes@.len() as int)) == chunked(bytes@),
        decreases bytes.len() - at,
    {
        let ghost rest = bytes@.subrange(at as int, bytes@.len() as int);
        let ghost before = out@;
        let n: usize = if bytes.len() - at < 255 {
            bytes.len() - at
        } else {
            255
        };
        out.push(n as u8);
        out.extend_from_slice(slice_subrange(bytes, at, at + n));
        proof {
            let tail = bytes@.subrange(at + n, bytes@.len() as int);
            if rest.len() <= 255 {
                assert(rest.subrange(0, n as int) =~= rest);
                assert(bytes@.subrange(at as int, at + n) =~= rest);
                assert(tail =~= Seq::empty());
                assert(out@ + chunked(tail) =~= before + chunked(rest));
            } else {
                assert(rest.subrange(255, rest.len() as int) =~= tail);
                assert(rest.subrange(0, 255) =~= bytes@.subrange(at as int, at + n));
                assert(out@ + chunked(tail) =~= before + chunked(rest));
            }
        }
        at = at + n;
    }
    assert(bytes@.subrange(at as int, bytes@.len() as int) =~= Seq::empty());
    assert(out@ + chunked(Seq::empty()) =~= out@);
    out
}

// ---------------------------------------------------------------------------
// Field layouts
// ---------------------------------------------------------------------------
/// How one field of a stored value stands in RDATA.
#[derive(Clone, Copy, Debug, PartialEq, Eq, Structural)]
pub enum Field {
    /// A number of one octet.
    U8,
    /// A number of two octets.
    U16,
    /// A number of four octets.
    U32,
    /// A name in canonical form.
    Name,
    /// Octets written in hexadecimal.
    Hex,
    /// Octets written in base64.
    Base64,
}

/// The octets of one field.
pub open spec fn field_octets(field: Field, text: Seq<char>) -> Option<Seq<u8>> {
    match field {
        Field::U8 => match parse_unsigned(text, 0xff) {
            Some(n) => Some(seq![n as u8]),
            None => None,
        },
        Field::U16 => match parse_unsigned(text, 0xffff) {
            Some(n) => Some(be16(n as u16)),
            None => None,
        },
        Field::U32 => match parse_unsigned(text, 0xffff_ffff) {
            Some(n) => Some(be32(n as u32)),
            None => None,
        },
        Field::Name => canonical_form(text),
        Field::Hex => hex_decoded(text),
        Field::Base64 => base64_decoded(text),
    }
}

/// The fields that `layout` describes, one after another.
pub open spec fn layout_octets(layout: Seq<Field>, fields: Seq<Seq<char>>) -> Option<Seq<u8>>
    decreases layout.len(),
{
    if layout.len() == 0 {
        Some(Seq::empty())
    } else if fields.len() < layout.len() {
        None
    } else {
        match (
            layout_octets(layout.drop_last(), fields),
            field_octets(layout.last(), fields[layout.len() - 1]),
        ) {
            (Some(a), Some(b)) => Some(a + b),
            _ => None,
        }
    }
}

/// The layout of the types whose stored value is a fixed list of fields.
pub open spec fn layout_of(kind: RecordKind) -> Seq<Field> {
    match kind {
        RecordKind::SOA => seq![
            Field::Name,
            Field::Name,
            Field::U32,
            Field::U32,
            Field::U32,
            Field::U32,
            Field::U32,
        ],
        RecordKind::SRV => seq![Field::U16, Field::U16, Field::Name],
        RecordKind::SSHFP => seq![Field::U8, Field::U8, Field::Hex],
        RecordKind::TLSA => seq![Field::U8, Field::U8, Field::U8, Field::Hex],
        RecordKind::CERT => seq![Field::U16, Field::U16, Field::U8, Field::Base64],
        RecordKind::ZONEMD => seq![Field::U32, Field::U8, Field::U8, Field::Hex],
        RecordKind::DNSKEY => seq![Field::U16, Field::U8, Field::U8, Field::Base64],
        RecordKind::DS => seq![Field::U16, Field::U8, Field::U8, Field::Hex],
        RecordKind::URI => seq![Field::U16, Field::U16],
        _ => Seq::empty(),
    }
}

/// The number in front of the RDATA of MX and SRV records.
pub open spec fn priority_octets(priority: u32) -> Option<Seq<u8>> {
    if priority <= 0xffff {
        Some(be16(priority as u16))
    } else {
        None
    }
}

pub open spec fn both(a: Option<Seq<u8>>, b: Option<Seq<u8>>) -> Option<Seq<u8>> {
    match (a, b) {
        (Some(x), Some(y)) => Some(x + y),
        _ => None,
    }
}

/// The canonical RDATA of a stored record; none where its value has no such form.
pub open spec fn rdata_of(kind: RecordKind, stored: Seq<char>, priority: u32) -> Option<Seq<u8>> {
    let value = trimmed(stored);
    let fields = words(value);
    match kind {
        RecordKind::A => match ipv4_of(value) {
            Some(a) => Some(be32(a)),
            None => None,
        },
        RecordKind::AAAA => match ipv6_of(value) {
            Some(a) => Some(be128(a)),
            None => None,
        },
        RecordKind::CNAME | RecordKind::NS | RecordKind::PTR | RecordKind::DNAME => canonical_form(
            value,
        ),
        RecordKind::MX => both(priority_octets(priority), canonical_form(value)),
        RecordKind::TXT => Some(character_string_octets(encode_utf8(value))),
        RecordKind::SRV => both(priority_octets(priority), layout_octets(layout_of(kind), fields)),
        RecordKind::SVCB | RecordKind::HTTPS => service_binding(value),
        RecordKind::URI => if fields.len() < 3 {
            None
        } else {
            let target = value.subrange(word_at(value, 2), value.len() as int);
            both(layout_octets(layout_of(kind), fields), Some(encode_utf8(trimmed(target))))
        },
        RecordKind::RRSIG => match rrsig_parsed(value) {
            Ok(r) => rrsig_rdata(r),
            Err(_) => None,
        },
        RecordKind::NSEC => match nsec_parsed(value) {
            Some((next_owner, types)) => nsec_rdata(next_owner, types),
            None => None,
        },
        RecordKind::ANAME | RecordKind::NSEC3 | RecordKind::NSEC3PARAM => None,
        _ => layout_octets(layout_of(kind), fields),
    }
}

fn push_field(out: &mut Vec<u8>, field: Field, text: &[char]) -> (ok: bool)
    ensures
        ok == (field_octets(field, text@) is Some),
        ok ==> final(out)@ == old(out)@ + field_octets(field, text@)->0,
{
    match field {
        Field::U8 => match parse_unsigned_max(text, 0xff) {
            Some(n) => {
                out.push(n as u8);
                assert(out@ =~= old(out)@ + seq![n as u8]);
                true
            },
            None => false,
        },
        Field::U16 => match parse_unsigned_max(text, 0xffff) {
            Some(n) => {
                push_be16(out, n as u16);
                true
            },
            None => false,
        },
        Field::U32 => match parse_unsigned_max(text, 0xffff_ffff) {
            Some(n) => {
                push_be32(out, n as u32);
                true
            },
            None => false,
        },
        _ => {
            let s = string_of(text);
            let octets = match field {
                Field::Name => canonical_name(s.as_str()),
                Field::Hex => hex_decode(s.as_str()),
                _ => base64_decode(s.as_str()),
            };
            match octets {
                Some(o) => {
                    out.extend_from_slice(o.as_slice());
                    assert(out@ =~= old(out)@ + o@);
                    true
                },
                None => false,
            }
        },
    }
}

/// The layout of a type, for the encoder.
fn layout_fields(kind: RecordKind) -> (r: Vec<Field>)
    ensures
        r@ == layout_of(kind),
{
    let mut out: Vec<Field> = Vec::new();
    match kind {
        RecordKind::SOA => {
            out.push(Field::Name);
            out.push(Field::Name);
            out.push(Field::U32);
            out.push(Field::U32);
            out.push(Field::U32);
            out.push(Field::U32);
            out.push(Field::U32);
        },
        RecordKind::SRV => {
            out.push(Field::U16);
            out.push(Field::U16);
            out.push(Field::Name);
        },
        RecordKind::SSHFP => {
            out.push(Field::U8);
            out.push(Field::U8);
            out.push(Field::Hex);
        },
        RecordKind::TLSA => {
            out.push(Field::U8);
            out.push(Field::U8);
            out.push(Field::U8);
            out.push(Field::Hex);
        },
        RecordKind::CERT => {
            out.push(Field::U16);
            out.push(Field::U16);
            out.push(Field::U8);
            out.push(Field::Base64);
        },
        RecordKind::ZONEMD => {
            out.push(Field::U32);
            out.push(Field::U8);
            out.push(Field::U8);
            out.push(Field::Hex);
        },
        RecordKind::DNSKEY => {
            out.push(Field::U16);
            out.push(Field::U8);
            out.push(Field::U8);
            out.push(Field::Base64);
        },
        RecordKind::DS => {
            out.push(Field::U16);
            out.push(Field::U8);
            out.push(Field::U8);
            out.push(Field::Hex);
        },
        RecordKind::URI => {
            out.push(Field::U16);
            out.push(Field::U16);
        },
        _ => {},
    }
    assert(out@ =~= layout_of(kind));
    out
}

proof fn lemma_layout_prefix(layout: Seq<Field>, fields: Seq<Seq<char>>, n: int)
    requires
        0 <= n <= layout.len(),
        layout_octets(layout.subrange(0, n), fields) is None,
    ensures
        layout_octets(layout, fields) is None,
    decreases layout.len() - n,
{
    if n == layout.len() {
        assert(layout.subrange(0, n) =~= layout);
    } else {
        let p = layout.subrange(0, n + 1);
        assert(p.drop_last() =~= layout.subrange(0, n));
        lemma_layout_prefix(layout, fields, n + 1);
    }
}

pub fn push_layout(out: &mut Vec<u8>, kind: RecordKind, fields: &Vec<Vec<char>>) -> (ok: bool)
    ensures
        ok == (layout_octets(layout_of(kind), texts(fields@)) is Some),
        ok ==> final(out)@ == old(out)@ + layout_octets(layout_of(kind), texts(fields@))->0,
{
    let layout = layout_fields(kind);
    let ghost all = texts(fields@);
    let ghost start = out@;
    let mut i: usize = 0;
    if fields.len() < layout.len() {
        return false;
    }
    proof {
        assert(layout@.subrange(0, 0) =~= Seq::empty());
        assert(start + Seq::<u8>::empty() =~= start);
    }
    while i < layout.len()
        invariant
            i <= layout.len(),
            layout.len() <= fields.len(),
            layout@ == layout_of(kind),
            all == texts(fields@),
            layout_octets(layout@.subrange(0, i as int), all) is Some,
            out@ == start + layout_octets(layout@.subrange(0, i as int), all)->0,
        decreases layout.len() - i,
    {
        let ghost before = out@;
        proof {
            let p = layout@.subrange(0, i + 1);
            assert(p.drop_last() =~= layout@.subrange(0, i as int));
            assert(p.last() == layout@[i as int]);
            assert(all[i as int] == fields@[i as int]@);
        }
        if !push_field(out, layout[i], fields[i].as_slice()) {
            proof {
                lemma_layout_prefix(layout@, all, i + 1);
            }
            return false;
        }
        proof {
            let done = layout_octets(layout@.subrange(0, i as int), all)->0;
            let more = field_octets(layout@[i as int], all[i as int])->0;
            assert(out@ =~= start + (done + more));
        }
        i = i + 1;
    }
    assert(layout@.subrange(0, i as int) =~= layout@);
    true
}

fn push_some(out: &mut Vec<u8>, octets: Option<Vec<u8>>) -> (ok: bool)
    ensures
        ok == (octets is Some),
        ok ==> final(out)@ == old(out)@ + octets->0@,
{
    match octets {
        Some(o) => {
            out.extend_from_slice(o.as_slice());
            assert(out@ =~= old(out)@ + o@);
            true
        },
        None => false,
    }
}

/// Encodes a stored record's value as canonical-form RDATA.
pub fn canonical_rdata(record: &DnsRecord) -> (r: Option<Vec<u8>>)
    ensures
        match r {
            Some(v) => rdata_of(record.record_type, record.value@, record.priority) == Some(v@),
            None => rdata_of(record.record_type, record.value@, record.priority) is None,
        },
{
    let value = trim_str(record.value.as_str());
    let text = value.as_str();
    let chars = chars_of(text);
    let fields = split_words(chars.as_slice());
    let kind = record.record_type;
    let mut out: Vec<u8> = Vec::new();
    let ghost v = value@;
    let ok = match kind {
        RecordKind::A => match ipv4_from_str(text) {
            Some(a) => {
                push_be32(&mut out, a);
                assert(out@ =~= be32(a));
                true
            },
            None => false,
        },
        RecordKind::AAAA => match ipv6_from_str(text) {
            Some(a) => {
                push_be128(&mut out, a);
                assert(out@ =~= be128(a));
                true
            },
            None => false,
        },
        RecordKind::CNAME | RecordKind::NS | RecordKind::PTR | RecordKind::DNAME => {
            let ok = push_some(&mut out, canonical_name(text));
            assert(ok ==> out@ =~= canonical_form(v)->0);
            ok
        },
        RecordKind::MX => {
            if record.priority > 0xffff {
                false
            } else {
                push_be16(&mut out, record.priority as u16);
                let ok = push_some(&mut out, canonical_name(text));
                assert(ok ==> out@ =~= be16(record.priority as u16) + canonical_form(v)->0);
                ok
            }
        },
        RecordKind::TXT => {
            let ok = push_some(&mut out, Some(character_strings(text)));
            assert(out@ =~= character_string_octets(encode_utf8(v)));
            ok
        },
        RecordKind::SRV => {
            if record.priority > 0xffff {
                false
            } else {
                push_be16(&mut out, record.priority as u16);
                let ok = push_layout(&mut out, kind, &fields);
                assert(ok ==> out@ =~= be16(record.priority as u16) + layout_octets(
                    layout_of(kind),
                    words(v),
                )->0);
                ok
            }
        },
        RecordKind::SVCB | RecordKind::HTTPS => {
            let ok = push_some(&mut out, crate::svcb::canonical_rdata(text));
            assert(ok ==> out@ =~= service_binding(v)->0);
            ok
        },
        RecordKind::URI => {
            if fields.len() < 3 {
                false
            } else {
                let ok = push_layout(&mut out, kind, &fields);
                let at: usize = find_word(chars.as_slice(), 2);
                let target = string_of(trim(slice_subrange(chars.as_slice(), at, chars.len())));
                out.extend_from_slice(target.as_str().as_bytes());
                proof {
                    if ok {
                        assert(out@ =~= layout_octets(layout_of(kind), words(v))->0
                            + encode_utf8(target@));
                    }
                }
                ok
            }
        },
        RecordKind::RRSIG => match Rrsig::parse(text) {
            Ok(rrsig) => {
                let ok = push_some(&mut out, rrsig.rdata());
                assert(ok ==> out@ =~= rrsig_rdata(rrsig@)->0);
                ok
            },
            Err(_) => false,
        },
        RecordKind::NSEC => match Nsec::parse(text) {
            Ok(nsec) => {
                let ok = push_some(&mut out, nsec.rdata());
                assert(ok ==> out@ =~= nsec_rdata(nsec.next_owner@, nsec.types@)->0);
                ok
            },
            Err(_) => false,
        },
        RecordKind::ANAME | RecordKind::NSEC3 | RecordKind::NSEC3PARAM => false,
        _ => {
            let ok = push_layout(&mut out, kind, &fields);
            assert(ok ==> out@ =~= layout_octets(layout_of(kind), words(v))->0);
            ok
        },
    };
    if ok {
        Some(out)
    } else {
        None
    }
}

} // verus!
