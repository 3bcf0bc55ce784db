//! What the encodings of numbers, texts and names mean, said of the octets and characters
//! that they are made of.
use vstd::arithmetic::power::{lemma_pow0, lemma_pow1, lemma_pow_adds, lemma_pow_positive, pow};
use vstd::prelude::*;
use vstd::utf8::encode_utf8;

use crate::addr::{after, before, ipv4_of, octet_of, socket_of, IpAddress};
use crate::codec::{be128, be16, be32, hex_char, hex_decoded, hex_digit, hex_encoded, read16};
use crate::dnssec::algorithm::{algorithm_number, DnssecAlgorithm};
use crate::dnssec_validate::base32::{base32_digit, base32_text, five_bits};
use crate::names::{
    canonical_form, canonical_key, canonical_lt, in_zone, labels_fit, labels_lt,
    lemma_encode_concat, lemma_encode_scalar, lemma_split_concat, lowered_octets, normalized,
    octets_lt, rrsig_label_count, wire_labels,
};
use crate::record::{type_code, RecordKind};
use crate::text::{
    digits_value, is_digit, lemma_join_split, lower_byte, lower_bytes, lower_char, occurrence, parse_digits,
    parse_unsigned, split, strip_end, trim_end, trim_start, trimmed, upper_char, white_space, words,
};
use crate::wire_name::{
    counted_labels, is_zone_of, labels_at, name_key, name_lt, name_octets, same_name, wire_len,
};

verus! {

// ---------------------------------------------------------------------------
// Numbers
// ---------------------------------------------------------------------------
/// A number of two octets has its high octet first, and is read as it was written.
pub proof fn law_be16_is_read_back(x: u16, b: Seq<u8>)
    ensures
        be16(x).len() == 2,
        be16(x)[0] * 256 + be16(x)[1] == x,
        read16(be16(x), 0) == x,
        b.len() == 2 ==> be16(read16(b, 0)) == b,
{
    if b.len() == 2 {
        assert(be16(read16(b, 0)) =~= b);
    }
}

/// A number of four octets has its high octet first.
pub proof fn law_be32_keeps_the_number(x: u32)
    ensures
        be32(x).len() == 4,
        be32(x)[0] * 0x100_0000 + be32(x)[1] * 0x1_0000 + be32(x)[2] * 256 + be32(x)[3] == x,
{
    let v = x as int;
    assert(v / 0x100_0000 <= 255);
    assert(v / 0x1_0000 == v / 0x100_0000 * 256 + v / 0x1_0000 % 256);
    assert(v / 256 == v / 0x1_0000 * 256 + v / 256 % 256);
    assert(v == v / 256 * 256 + v % 256);
}

/// A number of sixteen octets has its high octet first: each octet is the digit of its place
/// in base 256.
pub proof fn law_be128_has_the_high_octet_first(x: u128, i: int)
    requires
        0 <= i < 16,
    ensures
        be128(x).len() == 16,
        be128(x)[i] as int == x as int / pow(256, (15 - i) as nat) % 256,
        be128(x)[15] == x % 256,
        i < 15 ==> pow(256, (15 - i) as nat) == 256 * pow(256, (14 - i) as nat),
{
    lemma_pow0(256);
    lemma_pow_positive(256, (15 - i) as nat);
    if i < 15 {
        lemma_pow1(256);
        lemma_pow_adds(256, 1, (14 - i) as nat);
    }
}

/// Octets survive being written in hexadecimal.
pub proof fn law_hex_round_trip(b: Seq<u8>)
    ensures
        hex_decoded(hex_encoded(b)) == Some(b),
{
    let s = hex_encoded(b);
    assert forall|i: int| 0 <= i < s.len() implies hex_digit(#[trigger] s[i]) is Some && hex_digit(
        s[i],
    )->0 == (if i % 2 == 0 {
        b[i / 2] as int / 16
    } else {
        b[i / 2] as int % 16
    }) by {
        let v = if i % 2 == 0 {
            b[i / 2] as int / 16
        } else {
            b[i / 2] as int % 16
        };
        assert(0 <= v < 16);
        assert(s[i] == hex_char(v));
    }
    assert(s.len() / 2 == b.len());
    assert forall|i: int| 0 <= i < b.len() implies (hex_digit(s[2 * i])->0 * 16 + hex_digit(
        s[2 * i + 1],
    )->0) as u8 == b[i] by {
        assert(2 * i / 2 == i && (2 * i + 1) / 2 == i && (2 * i + 1) % 2 == 1);
    }
    assert(hex_decoded(s)->0 =~= b);
}

// ---------------------------------------------------------------------------
// Texts
// ---------------------------------------------------------------------------
/// Folding ASCII case moves the letters `A` to `Z` by 32 and nothing else.
pub proof fn law_case_folding(c: char, b: u8)
    ensures
        'A' <= c <= 'Z' ==> lower_char(c) as int == c as int + 32,
        !('A' <= c <= 'Z') ==> lower_char(c) == c,
        'a' <= c <= 'z' ==> upper_char(c) as int == c as int - 32,
        !('a' <= c <= 'z') ==> upper_char(c) == c,
        0x41 <= b <= 0x5a ==> lower_byte(b) == b + 32,
        !(0x41 <= b <= 0x5a) ==> lower_byte(b) == b,
{
}

/// Stripping a suffix takes away copies of the element alone, and all of them.
pub proof fn law_strip_end_takes_the_suffix<T>(s: Seq<T>, x: T)
    ensures
        strip_end(s, x).len() <= s.len(),
        strip_end(s, x) == s.subrange(0, strip_end(s, x).len() as int),
        forall|i: int| strip_end(s, x).len() <= i < s.len() ==> #[trigger] s[i] == x,
        strip_end(s, x).len() > 0 ==> strip_end(s, x).last() != x,
    decreases s.len(),
{
    if s.len() > 0 && s.last() == x {
        law_strip_end_takes_the_suffix(s.drop_last(), x);
        let r = strip_end(s, x);
        assert(s.drop_last().subrange(0, r.len() as int) =~= s.subrange(0, r.len() as int));
        assert forall|i: int| r.len() <= i < s.len() implies #[trigger] s[i] == x by {
            if i < s.len() - 1 {
                assert(s.drop_last()[i] == x);
            }
        }
    } else {
        assert(s.subrange(0, s.len() as int) =~= s);
    }
}

/// Trimming takes white space away at both ends, all of it and nothing else.
pub proof fn law_trimming_takes_white_space(s: Seq<char>)
    ensures
        exists|i: int, j: int|
            {
                &&& 0 <= i <= j <= s.len()
                &&& trimmed(s) == #[trigger] s.subrange(i, j)
                &&& forall|k: int| 0 <= k < i ==> white_space(#[trigger] s[k])
                &&& forall|k: int| j <= k < s.len() ==> white_space(#[trigger] s[k])
            },
        trimmed(s).len() > 0 ==> !white_space(trimmed(s)[0]) && !white_space(trimmed(s).last()),
{
    lemma_trim_start(s);
    let t = trim_start(s);
    let i = s.len() - t.len();
    lemma_trim_end(t);
    let u = trim_end(t);
    let j = i + u.len();
    assert(s.subrange(i, j) =~= t.subrange(0, u.len() as int));
    assert forall|k: int| j <= k < s.len() implies white_space(#[trigger] s[k]) by {
        assert(t[k - i] == s[k]);
    }
    assert(trimmed(s) == s.subrange(i, j));
    if u.len() > 0 {
        assert(u[0] == t[0]);
    }
}

proof fn lemma_trim_start(s: Seq<char>)
    ensures
        trim_start(s).len() <= s.len(),
        trim_start(s) == s.subrange(s.len() - trim_start(s).len(), s.len() as int),
        forall|k: int| 0 <= k < s.len() - trim_start(s).len() ==> white_space(#[trigger] s[k]),
        trim_start(s).len() > 0 ==> !white_space(trim_start(s)[0]),
    decreases s.len(),
{
    if s.len() > 0 && white_space(s[0]) {
        let d = s.drop_first();
        lemma_trim_start(d);
        let n = trim_start(s).len() as int;
        assert(d.subrange(d.len() - n, d.len() as int) =~= s.subrange(s.len() - n, s.len() as int));
        assert forall|k: int| 0 <= k < s.len() - n implies white_space(#[trigger] s[k]) by {
            if k > 0 {
                assert(d[k - 1] == s[k]);
            }
        }
    } else {
        assert(s.subrange(0, s.len() as int) =~= s);
    }
}

proof fn lemma_trim_end(s: Seq<char>)
    ensures
        trim_end(s).len() <= s.len(),
        trim_end(s) == s.subrange(0, trim_end(s).len() as int),
        forall|k: int| trim_end(s).len() <= k < s.len() ==> white_space(#[trigger] s[k]),
        trim_end(s).len() > 0 ==> !white_space(trim_end(s).last()),
    decreases s.len(),
{
    if s.len() > 0 && white_space(s.last()) {
        let d = s.drop_last();
        lemma_trim_end(d);
        let n = trim_end(s).len() as int;
        assert(d.subrange(0, n) =~= s.subrange(0, n));
        assert forall|k: int| n <= k < s.len() implies white_space(#[trigger] s[k]) by {
            if k < s.len() - 1 {
                assert(d[k] == s[k]);
            }
        }
    } else {
        assert(s.subrange(0, s.len() as int) =~= s);
    }
}

// ---------------------------------------------------------------------------
// Names
// ---------------------------------------------------------------------------
/// A normal form ends in one dot, and has no other behind its last label.
pub proof fn law_normal_form_ends_in_one_dot(name: Seq<char>)
    ensures
        normalized(name).len() > 0,
        normalized(name).last() == '.',
        normalized(name).len() > 1 ==> normalized(name)[normalized(name).len() - 2] != '.',
        normalized(name).len() <= name.len() + 1,
        forall|i: int|
            0 <= i < normalized(name).len() - 1 ==> #[trigger] normalized(name)[i] == lower_char(
                name[i],
            ),
        forall|i: int| normalized(name).len() - 1 <= i < name.len() ==> #[trigger] name[i] == '.',
{
    law_strip_end_takes_the_suffix(name, '.');
    let s = strip_end(name, '.');
    assert(normalized(name).len() == s.len() + 1);
    if s.len() > 0 {
        law_case_folding(s.last(), 0);
        assert(s.last() == name[s.len() - 1]);
        assert(normalized(name)[s.len() - 1] == lower_char(s.last()));
    }
}

/// A name belongs to a zone that it ends in at a label's border, and to no other; the root
/// has them all.
pub proof fn law_zones_end_their_names(name: Seq<char>, zone: Seq<char>, head: Seq<char>)
    ensures
        in_zone(name, seq!['.']),
        in_zone(zone, zone),
        in_zone(head + seq!['.'] + zone, zone),
        in_zone(name, zone) && zone != seq!['.'] && name != zone ==> {
            &&& name.len() > zone.len()
            &&& name[name.len() - zone.len() - 1] == '.'
            &&& name.subrange(name.len() - zone.len(), name.len() as int) == zone
        },
{
    let n = head + seq!['.'] + zone;
    assert(n.subrange(n.len() - (zone.len() + 1), n.len() as int) =~= seq!['.'] + zone);
    if in_zone(name, zone) && zone != seq!['.'] && name != zone {
        let tail = name.subrange(name.len() - zone.len() - 1, name.len() as int);
        assert(tail == seq!['.'] + zone);
        assert(tail[0] == name[name.len() - zone.len() - 1]);
        assert(name.subrange(name.len() - zone.len(), name.len() as int) =~= tail.subrange(
            1,
            tail.len() as int,
        ));
        assert(zone =~= tail.subrange(1, tail.len() as int));
    }
}

/// Two names are the same exactly where their labels are, ASCII case aside.
pub proof fn law_same_names_have_the_same_labels(a: Seq<Seq<u8>>, b: Seq<Seq<u8>>)
    ensures
        same_name(a, b) <==> a.len() == b.len() && forall|i: int|
            0 <= i < a.len() ==> lower_bytes(#[trigger] a[i]) == lower_bytes(b[i]),
{
    let (ka, kb) = (name_key(a), name_key(b));
    if same_name(a, b) {
        assert(ka.len() == kb.len());
        assert forall|i: int| 0 <= i < a.len() implies lower_bytes(#[trigger] a[i]) == lower_bytes(
            b[i],
        ) by {
            assert(ka[a.len() - 1 - i] == kb[a.len() - 1 - i]);
        }
    }
    if a.len() == b.len() && forall|i: int|
        0 <= i < a.len() ==> lower_bytes(#[trigger] a[i]) == lower_bytes(b[i]) {
        assert(ka =~= kb);
    }
}

/// A name lies in a zone exactly where its last labels are the zone's, ASCII case aside.
pub proof fn law_zones_are_suffixes(zone: Seq<Seq<u8>>, name: Seq<Seq<u8>>)
    ensures
        is_zone_of(zone, name) <==> zone.len() <= name.len() && forall|i: int|
            0 <= i < zone.len() ==> lower_bytes(#[trigger] zone[i]) == lower_bytes(
                name[name.len() - zone.len() + i],
            ),
        is_zone_of(Seq::empty(), name),
{
    let (kz, kn) = (name_key(zone), name_key(name));
    if is_zone_of(zone, name) {
        assert forall|i: int| 0 <= i < zone.len() implies lower_bytes(#[trigger] zone[i])
            == lower_bytes(name[name.len() - zone.len() + i]) by {
            assert(kz[zone.len() - 1 - i] == kn.subrange(0, zone.len() as int)[zone.len() - 1 - i]);
        }
    }
    if zone.len() <= name.len() && forall|i: int|
        0 <= i < zone.len() ==> lower_bytes(#[trigger] zone[i]) == lower_bytes(
            name[name.len() - zone.len() + i],
        ) {
        assert forall|j: int| 0 <= j < zone.len() implies #[trigger] kz[j] == kn[j] by {
            assert(lower_bytes(zone[zone.len() - 1 - j]) == lower_bytes(name[name.len() - 1 - j]));
        }
        assert(kn.subrange(0, zone.len() as int) =~= kz);
    }
    assert(name_key(Seq::<Seq<u8>>::empty()) =~= kn.subrange(0, 0));
}

proof fn lemma_wire_front(label: Seq<u8>, rest: Seq<Seq<u8>>)
    requires
        label.len() <= 255,
    ensures
        wire_labels(seq![label] + rest) == seq![label.len() as u8] + label + wire_labels(rest),
    decreases rest.len(),
{
    let all = seq![label] + rest;
    if rest.len() == 0 {
        assert(all.drop_last() =~= rest);
        assert(wire_labels(rest) =~= Seq::empty());
        assert(wire_labels(all) =~= seq![label.len() as u8] + label + wire_labels(rest));
    } else {
        assert(all.drop_last() =~= seq![label] + rest.drop_last());
        lemma_wire_front(label, rest.drop_last());
        assert(wire_labels(all) =~= seq![label.len() as u8] + label + wire_labels(rest));
    }
}

proof fn lemma_wire_len_front(label: Seq<u8>, rest: Seq<Seq<u8>>)
    ensures
        wire_len(seq![label] + rest) == label.len() + 1 + wire_len(rest),
    decreases rest.len(),
{
    let all = seq![label] + rest;
    if rest.len() == 0 {
        assert(all.drop_last() =~= Seq::empty());
        assert(wire_len(all) == wire_len(all.drop_last()) + label.len() + 1);
    } else {
        assert(all.drop_last() =~= seq![label] + rest.drop_last());
        lemma_wire_len_front(label, rest.drop_last());
    }
}

/// The labels of a name are read back from its wire form, whatever follows it, and the wire
/// form is as long as it is said to be.
#[verifier::spinoff_prover]
#[verifier::rlimit(40)]
pub proof fn law_name_octets_are_read_back(name: Seq<Seq<u8>>, after: Seq<u8>)
    requires
        labels_fit(name),
    ensures
        labels_at(name_octets(name) + after) == Some((name, name_octets(name).len())),
        name_octets(name).len() == wire_len(name),
    decreases name.len(),
{
    let b = name_octets(name) + after;
    if name.len() == 0 {
        assert(wire_labels(name) =~= Seq::empty());
        assert(b[0] == 0);
        assert(name =~= Seq::empty());
    } else {
        let label = name[0];
        let rest = name.drop_first();
        assert(name =~= seq![label] + rest);
        assert(1 <= label.len() <= 63);
        assert forall|i: int| 0 <= i < rest.len() implies 1 <= (#[trigger] rest[i]).len() <= 63 by {
            assert(rest[i] == name[i + 1]);
        }
        law_name_octets_are_read_back(rest, after);
        lemma_wire_front(label, rest);
        lemma_wire_len_front(label, rest);
        assert(b =~= seq![label.len() as u8] + label + (name_octets(rest) + after));
        assert(b[0] == label.len());
        assert(b.subrange(1, label.len() as int + 1) =~= label);
        assert(b.subrange(label.len() as int + 1, b.len() as int) =~= name_octets(rest) + after);
        assert(seq![label] + rest =~= name);
    }
}

/// The canonical form of a name holds the labels that its lowercased text has between dots.
pub proof fn law_canonical_form_holds_the_labels(name: Seq<char>)
    ensures
        canonical_form(name) matches Some(b) ==> labels_at(b) == Some(
            (
                if lowered_octets(name).len() == 0 {
                    Seq::empty()
                } else {
                    split(lowered_octets(name), 0x2eu8)
                },
                b.len(),
            ),
        ),
        canonical_form(name) is None <==> lowered_octets(name).len() > 0 && !labels_fit(
            split(lowered_octets(name), 0x2eu8),
        ),
{
    let octets = lowered_octets(name);
    let none = Seq::<u8>::empty();
    if octets.len() == 0 {
        let b = canonical_form(name)->0;
        assert(b[0] == 0);
    } else if labels_fit(split(octets, 0x2eu8)) {
        let labels = split(octets, 0x2eu8);
        law_name_octets_are_read_back(labels, none);
        assert(name_octets(labels) + none =~= name_octets(labels));
    }
}

// ---------------------------------------------------------------------------
// Order
// ---------------------------------------------------------------------------
/// Octet strings are ordered by the first octet in which they differ, the smaller one first;
/// a proper prefix comes before what it begins.
pub proof fn law_octets_are_ordered_by_the_first_difference(
    front: Seq<u8>,
    x: u8,
    y: u8,
    a: Seq<u8>,
    b: Seq<u8>,
)
    ensures
        x != y ==> (octets_lt(front + seq![x] + a, front + seq![y] + b) <==> x < y),
        octets_lt(front, front + seq![x] + a),
        !octets_lt(front + seq![x] + a, front),
    decreases front.len(),
{
    let (p, q) = (front + seq![x] + a, front + seq![y] + b);
    if front.len() > 0 {
        let d = front.drop_first();
        law_octets_are_ordered_by_the_first_difference(d, x, y, a, b);
        assert(p.drop_first() =~= d + seq![x] + a);
        assert(q.drop_first() =~= d + seq![y] + b);
        assert(p[0] == front[0] && q[0] == front[0]);
    } else {
        assert(p[0] == x && q[0] == y);
    }
}

/// Names are ordered by their labels in the same way, from the right.
pub proof fn law_labels_are_ordered_by_the_first_difference(
    front: Seq<Seq<u8>>,
    x: Seq<u8>,
    y: Seq<u8>,
    a: Seq<Seq<u8>>,
    b: Seq<Seq<u8>>,
)
    ensures
        x != y ==> (labels_lt(front + seq![x] + a, front + seq![y] + b) <==> octets_lt(x, y)),
        labels_lt(front, front + seq![x] + a),
        !labels_lt(front + seq![x] + a, front),
    decreases front.len(),
{
    let (p, q) = (front + seq![x] + a, front + seq![y] + b);
    if front.len() > 0 {
        let d = front.drop_first();
        law_labels_are_ordered_by_the_first_difference(d, x, y, a, b);
        assert(p.drop_first() =~= d + seq![x] + a);
        assert(q.drop_first() =~= d + seq![y] + b);
        assert(p[0] == front[0] && q[0] == front[0]);
    } else {
        assert(p[0] == x && q[0] == y);
    }
}

/// A name sorts before all names below it, and names below one parent sort by the label that
/// tells them apart, ASCII case aside.
pub proof fn law_names_sort_from_the_right(parent: Seq<Seq<u8>>, x: Seq<u8>, y: Seq<u8>)
    ensures
        name_lt(parent, seq![x] + parent),
        lower_bytes(x) != lower_bytes(y) ==> (name_lt(seq![x] + parent, seq![y] + parent)
            <==> octets_lt(lower_bytes(x), lower_bytes(y))),
        lower_bytes(x) == lower_bytes(y) ==> same_name(seq![x] + parent, seq![y] + parent),
{
    let none = Seq::<Seq<u8>>::empty();
    let key = name_key(parent);
    law_labels_are_ordered_by_the_first_difference(key, lower_bytes(x), lower_bytes(y), none, none);
    assert(name_key(seq![x] + parent) =~= key + seq![lower_bytes(x)] + none);
    assert(name_key(seq![y] + parent) =~= key + seq![lower_bytes(y)] + none);
}

proof fn lemma_strip_behind(a: Seq<u8>, b: Seq<u8>)
    requires
        strip_end(b, 0x2eu8).len() > 0,
    ensures
        strip_end(a + b, 0x2eu8) == a + strip_end(b, 0x2eu8),
    decreases b.len(),
{
    let s = a + b;
    assert(s.last() == b.last());
    if b.last() == 0x2eu8 {
        lemma_strip_behind(a, b.drop_last());
        assert(s.drop_last() =~= a + b.drop_last());
    }
}

/// The sort key of a name below another is the other's key and then its own label: names sort
/// below what they are under, and beside each other by the label in front.
pub proof fn law_sort_keys_grow_with_labels(label: Seq<char>, parent: Seq<char>)
    requires
        strip_end(encode_utf8(parent), 0x2eu8).len() > 0,
        split(encode_utf8(label), 0x2eu8).len() == 1,
    ensures
        canonical_key(label + seq!['.'] + parent) == canonical_key(parent).push(
            lower_bytes(encode_utf8(label)),
        ),
        canonical_lt(parent, label + seq!['.'] + parent),
{
    let (x, p) = (encode_utf8(label), encode_utf8(parent));
    let name = label + seq!['.'] + parent;
    let q = strip_end(p, 0x2eu8);
    lemma_encode_concat(label + seq!['.'], parent);
    lemma_encode_concat(label, seq!['.']);
    lemma_encode_scalar('.' as u32);
    assert(seq!['.'].drop_first() =~= Seq::<char>::empty());
    assert(encode_utf8(Seq::<char>::empty()) =~= Seq::<u8>::empty());
    assert(encode_utf8(seq!['.']) =~= seq![0x2eu8]);
    lemma_strip_behind(x + seq![0x2eu8], p);
    lemma_split_concat(x, q);
    lemma_join_split(x, 0x2eu8);
    assert(split(x, 0x2eu8)[0] == x);
    let labels = split(strip_end(encode_utf8(name), 0x2eu8), 0x2eu8);
    assert(labels == split(x, 0x2eu8) + split(q, 0x2eu8));
    let key = canonical_key(parent);
    assert(canonical_key(name) =~= key.push(lower_bytes(x)));
    let none = Seq::<Seq<u8>>::empty();
    law_labels_are_ordered_by_the_first_difference(key, lower_bytes(x), lower_bytes(x), none, none);
    assert(key.push(lower_bytes(x)) =~= key + seq![lower_bytes(x)] + none);
}

/// The label count of a signature over a name is the number of labels in its canonical form,
/// a leading wildcard not counted, and at most 255.
pub proof fn law_label_counts_count_labels(name: Seq<char>)
    requires
        canonical_form(name) is Some,
    ensures
        ({
            &&& labels_at(canonical_form(name)->0) matches Some((labels, _))
            &&& counted_labels(labels) <= 255 ==> rrsig_label_count(name) == counted_labels(labels)
            &&& counted_labels(labels) > 255 ==> rrsig_label_count(name) == 255
        }),
{
    law_canonical_form_holds_the_labels(name);
}

// ---------------------------------------------------------------------------
// Numbers in text
// ---------------------------------------------------------------------------
/// A decimal number is ten times what stands before its last digit, and that digit.
pub proof fn law_decimal_digits(s: Seq<char>, c: char)
    requires
        '0' <= c <= '9',
    ensures
        digits_value(s.push(c)) == digits_value(s) * 10 + (c as int - '0' as int),
        digits_value(Seq::empty()) == 0,
{
    assert(s.push(c).drop_last() =~= s);
}

/// A number is read where there are digits and nothing else, behind a plus sign or not, and
/// it is no larger than what is allowed.
pub proof fn law_when_a_number_is_read(s: Seq<char>, max: nat)
    ensures
        s.len() > 0 && (forall|i: int| 0 <= i < s.len() ==> '0' <= #[trigger] s[i] <= '9')
            && digits_value(s) <= max ==> parse_unsigned(s, max) == Some(digits_value(s))
            && parse_unsigned(seq!['+'] + s, max) == Some(digits_value(s)),
        parse_unsigned(s, max) matches Some(n) ==> n <= max,
        s.len() > 0 && digits_value(s) > max && s[0] != '+' ==> parse_unsigned(s, max) is None,
        parse_unsigned(Seq::empty(), max) is None,
        s.len() > 0 && !('0' <= s.last() <= '9') ==> parse_unsigned(s, max) is None,
{
    let plus = seq!['+'] + s;
    assert(plus.drop_first() =~= s);
    if s.len() > 0 && !('0' <= s.last() <= '9') {
        assert(!is_digit(s[s.len() - 1]));
        let d = s.drop_first();
        if d.len() > 0 {
            assert(d[d.len() - 1] == s.last());
            assert(!is_digit(d[d.len() - 1]));
        }
    }
}

/// A dotted quad is read from left to right: each number is the octet in its place.
pub proof fn law_dotted_quads_read_from_left_to_right(s: Seq<char>)
    ensures
        ipv4_of(s) matches Some(a) ==> {
            let parts = split(s, '.');
            &&& parts.len() == 4
            &&& octet_of(parts[0]) == Some(be32(a)[0] as nat)
            &&& octet_of(parts[1]) == Some(be32(a)[1] as nat)
            &&& octet_of(parts[2]) == Some(be32(a)[2] as nat)
            &&& octet_of(parts[3]) == Some(be32(a)[3] as nat)
        },
        ({
            let parts = split(s, '.');
            parts.len() == 4 && octet_of(parts[0]) is Some && octet_of(parts[1]) is Some && octet_of(
                parts[2],
            ) is Some && octet_of(parts[3]) is Some ==> ipv4_of(s) is Some
        }),
{
    if let Some(a) = ipv4_of(s) {
        let parts = split(s, '.');
        let b = seq![
            octet_of(parts[0])->0 as u8,
            octet_of(parts[1])->0 as u8,
            octet_of(parts[2])->0 as u8,
            octet_of(parts[3])->0 as u8,
        ];
        crate::dns_server::records::lemma_read32(b);
        assert(a == crate::dns_server::records::read32(b));
    }
}

/// A socket address has its port behind the colon and its address before it.
pub proof fn law_ports_stand_behind_the_colon(s: Seq<char>)
    ensures
        s.len() > 0 && s[0] != '[' ==> (socket_of(s) matches Some(a) ==> {
            &&& ipv4_of(before(s, ':')) matches Some(ip)
            &&& a.ip == IpAddress::V4(ip)
            &&& parse_digits(after(s, ':'), 0xffff) == Some(a.port as nat)
            &&& a.scope == 0
        }),
        s.len() > 0 && s[0] == '[' ==> (socket_of(s) matches Some(a) ==> {
            &&& a.ip is V6
            &&& parse_digits(after(s.drop_first(), ']').drop_first(), 0xffff) == Some(a.port as nat)
        }),
{
}

// ---------------------------------------------------------------------------
// Words and parts
// ---------------------------------------------------------------------------
/// The words of two texts with white space between them are those of the first and then those
/// of the second.
#[verifier::spinoff_prover]
#[verifier::rlimit(40)]
pub proof fn law_words_are_cut_at_white_space(a: Seq<char>, blank: char, b: Seq<char>)
    requires
        white_space(blank),
    ensures
        words(a.push(blank) + b) == words(a) + words(b),
        words(Seq::empty()).len() == 0,
    decreases b.len(),
{
    let s = a.push(blank) + b;
    if b.len() == 0 {
        assert(s =~= a.push(blank));
        assert(s.drop_last() =~= a);
        assert(words(a) + words(b) =~= words(a));
    } else {
        let d = b.drop_last();
        law_words_are_cut_at_white_space(a, blank, d);
        assert(s.drop_last() =~= a.push(blank) + d);
        assert(s.last() == b.last());
        if b.len() == 1 {
            assert(s[s.len() - 2] == blank);
            assert(d =~= Seq::empty());
            assert(words(d) =~= Seq::empty());
            assert(words(s) =~= words(a) + words(b));
        } else {
            assert(s[s.len() - 2] == b[b.len() - 2]);
            lemma_last_word(d);
            assert(words(s) =~= words(a) + words(b));
        }
    }
}

proof fn lemma_last_word(s: Seq<char>)
    ensures
        s.len() > 0 && !white_space(s.last()) ==> words(s).len() > 0,
{
}

/// A part is found at the first place where it stands.
pub proof fn law_first_occurrence(s: Seq<char>, part: Seq<char>, i: int)
    requires
        0 <= i <= s.len(),
        part.len() > 0,
    ensures
        ({
            let at = occurrence(s, part, i);
            &&& i <= at <= s.len()
            &&& at < s.len() ==> at + part.len() <= s.len() && s.subrange(at, at + part.len())
                == part
            &&& forall|k: int|
                i <= k < at && k + part.len() <= s.len() ==> #[trigger] s.subrange(
                    k,
                    k + part.len(),
                ) != part
        }),
    decreases s.len() - i,
{
    if i < s.len() && i + part.len() <= s.len() && s.subrange(i, i + part.len()) != part {
        law_first_occurrence(s, part, i + 1);
    }
}

// ---------------------------------------------------------------------------
// Registered numbers
// ---------------------------------------------------------------------------
/// The record types have the codes that are registered for them.
pub proof fn law_registered_types()
    ensures
        type_code(RecordKind::A) == 1 && type_code(RecordKind::NS) == 2,
        type_code(RecordKind::CNAME) == 5 && type_code(RecordKind::SOA) == 6,
        type_code(RecordKind::PTR) == 12 && type_code(RecordKind::MX) == 15,
        type_code(RecordKind::TXT) == 16 && type_code(RecordKind::AAAA) == 28,
        type_code(RecordKind::SRV) == 33 && type_code(RecordKind::CERT) == 37,
        type_code(RecordKind::DNAME) == 39 && type_code(RecordKind::DS) == 43,
        type_code(RecordKind::SSHFP) == 44 && type_code(RecordKind::RRSIG) == 46,
        type_code(RecordKind::NSEC) == 47 && type_code(RecordKind::DNSKEY) == 48,
        type_code(RecordKind::NSEC3) == 50 && type_code(RecordKind::NSEC3PARAM) == 51,
        type_code(RecordKind::TLSA) == 52 && type_code(RecordKind::ZONEMD) == 63,
        type_code(RecordKind::SVCB) == 64 && type_code(RecordKind::HTTPS) == 65,
        type_code(RecordKind::URI) == 256 && type_code(RecordKind::ANAME) == 65305,
        algorithm_number(DnssecAlgorithm::RsaSha256) == 8,
        algorithm_number(DnssecAlgorithm::EcdsaP256Sha256) == 13,
        algorithm_number(DnssecAlgorithm::EcdsaP384Sha384) == 14,
        algorithm_number(DnssecAlgorithm::Ed25519) == 15,
{
}

// ---------------------------------------------------------------------------
// Base32
// ---------------------------------------------------------------------------
/// Eight digits spell five octets: read as one number, they are the same.
#[verifier::spinoff_prover]
#[verifier::rlimit(40)]
pub proof fn law_eight_digits_spell_five_octets(b: Seq<u8>)
    requires
        b.len() == 5,
    ensures
        base32_text(b).len() == 8,
        five_bits(b, 0) * 8 + five_bits(b, 1) / 4 == b[0],
        five_bits(b, 1) % 4 * 64 + five_bits(b, 2) * 2 + five_bits(b, 3) / 16 == b[1],
        five_bits(b, 3) % 16 * 16 + five_bits(b, 4) / 2 == b[2],
        five_bits(b, 4) % 2 * 128 + five_bits(b, 5) * 4 + five_bits(b, 6) / 8 == b[3],
        five_bits(b, 6) % 8 * 32 + five_bits(b, 7) == b[4],
        forall|i: int|
            0 <= i < 8 ==> 0 <= five_bits(b, i) < 32 && #[trigger] base32_text(b)[i]
                == base32_digit(five_bits(b, i)),
{
    assert forall|i: int| 0 <= i < 8 implies 0 <= five_bits(b, i) < 32 && #[trigger] base32_text(
        b,
    )[i] == base32_digit(five_bits(b, i)) by {
        assert(i == 0 || i == 1 || i == 2 || i == 3 || i == 4 || i == 5 || i == 6 || i == 7);
    }
}

/// Groups of five octets are spelled one after the other.
#[verifier::spinoff_prover]
#[verifier::rlimit(40)]
pub proof fn law_groups_are_spelled_in_order(a: Seq<u8>, b: Seq<u8>)
    requires
        a.len() % 5 == 0,
    ensures
        base32_text(a + b) == base32_text(a) + base32_text(b),
{
    let n = a.len() as int / 5;
    let (x, y, all) = (base32_text(a), base32_text(b), base32_text(a + b));
    assert(a.len() == 5 * n);
    assert(x.len() == 8 * n);
    assert(all.len() == 8 * n + y.len());
    assert forall|i: int| 0 <= i < all.len() implies #[trigger] all[i] == (x + y)[i] by {
        if i < 8 * n {
            assert(i / 8 * 5 + 4 < a.len());
            assert(five_bits(a + b, i) == five_bits(a, i));
        } else {
            let j = i - 8 * n;
            assert(i / 8 == n + j / 8 && i % 8 == j % 8);
            assert(five_bits(a + b, i) == five_bits(b, j));
        }
    }
    assert(all =~= x + y);
}

/// The digits are `0` to `9` and then the letters from `A` on.
pub proof fn law_base32_digits(v: int)
    requires
        0 <= v < 32,
    ensures
        v < 10 ==> base32_digit(v) as int == '0' as int + v,
        v >= 10 ==> base32_digit(v) as int == 'A' as int + v - 10,
{
}

} // verus!
