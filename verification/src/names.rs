//! Domain names: normal form, labels, canonical wire form and canonical order.
//!
//! A name is held as text. Its labels are byte strings, because label lengths and
//! the canonical order are defined over the octets of a label.
use core::cmp::Ordering;
use vstd::prelude::*;
use vstd::utf8::*;

use crate::text::{
    byte_strings, chars_of, eq_bytes, lemma_join_split, lemma_split_nonempty, lemma_utf8_injective,
    lower_byte, lower_bytes, lower_char, lower_chars, lowercase, split, split_bytes, string_of,
    strip_end, strip_end_bytes, strip_end_chars, to_lower_chars, to_lowercase, trim_str, trimmed,
};

verus! {

/// The octet of a label separator.
pub const DOT: u8 = 0x2e;

/// The octet of a wildcard label.
pub const STAR: u8 = 0x2a;

// ---------------------------------------------------------------------------
// Normal form
// ---------------------------------------------------------------------------
/// The normal form of a name: ASCII-lowercased, with exactly one trailing dot.
pub open spec fn normalized(name: Seq<char>) -> Seq<char> {
    lower_chars(strip_end(name, '.')).push('.')
}

/// Puts a name in normal form.
pub fn normalize_name(name: &str) -> (r: String)
    ensures
        r@ == normalized(name@),
{
    let chars = chars_of(name);
    let mut out = to_lower_chars(strip_end_chars(chars.as_slice(), '.'));
    out.push('.');
    string_of(out.as_slice())
}

pub open spec fn ends_with<T>(s: Seq<T>, suffix: Seq<T>) -> bool {
    suffix.len() <= s.len() && s.subrange(s.len() - suffix.len(), s.len() as int) == suffix
}

/// Whether a normalized name is the zone's apex or lies below it.
pub open spec fn in_zone(name: Seq<char>, zone: Seq<char>) -> bool {
    zone == seq!['.'] || name == zone || ends_with(name, seq!['.'] + zone)
}

/// Whether `s` ends with `suffix`.
pub fn ends_with_chars(s: &[char], suffix: &[char]) -> (r: bool)
    ensures
        r == ends_with(s@, suffix@),
{
    if suffix.len() > s.len() {
        return false;
    }
    let start: usize = s.len() - suffix.len();
    let ghost tail = s@.subrange(start as int, s@.len() as int);
    let mut i: usize = 0;
    while i < suffix.len()
        invariant
            i <= suffix.len(),
            start == s.len() - suffix.len(),
            tail == s@.subrange(start as int, s@.len() as int),
            forall|k: int| 0 <= k < i ==> tail[k] == suffix@[k],
        decreases suffix.len() - i,
    {
        if s[start + i] != suffix[i] {
            assert(tail[i as int] != suffix@[i as int]);
            return false;
        }
        i = i + 1;
    }
    assert(tail =~= suffix@);
    true
}

/// Whether a normalized name is the zone's apex or lies below it.
pub fn name_in_zone(name: &str, zone: &str) -> (r: bool)
    ensures
        r == in_zone(name@, zone@),
{
    let n = chars_of(name);
    let z = chars_of(zone);
    let mut below: Vec<char> = Vec::new();
    below.push('.');
    if z.len() == 1 && z[0] == '.' {
        assert(z@ =~= seq!['.']);
        return true;
    }
    assert(z@ != seq!['.']) by {
        if z@ == seq!['.'] {
            assert(z@.len() == 1 && z@[0] == '.');
        }
    }
    if n.len() == z.len() && ends_with_chars(n.as_slice(), z.as_slice()) {
        assert(n@.subrange(0, n@.len() as int) =~= n@);
        return true;
    }
    assert(n@ != z@) by {
        if n@ == z@ {
            assert(n@.subrange(0, n@.len() as int) =~= n@);
        }
    }
    let mut i: usize = 0;
    while i < z.len()
        invariant
            i <= z.len(),
            below@ == seq!['.'] + z@.subrange(0, i as int),
        decreases z.len() - i,
    {
        below.push(z[i]);
        i = i + 1;
        assert(below@ =~= seq!['.'] + z@.subrange(0, i as int));
    }
    assert(z@.subrange(0, i as int) =~= z@);
    ends_with_chars(n.as_slice(), below.as_slice())
}

// ---------------------------------------------------------------------------
// Wire form
// ---------------------------------------------------------------------------
/// Labels in wire form, each behind its length octet.
pub open spec fn wire_labels(labels: Seq<Seq<u8>>) -> Seq<u8>
    decreases labels.len(),
{
    if labels.len() == 0 {
        Seq::empty()
    } else {
        wire_labels(labels.drop_last()).push((labels.last().len() % 256) as u8) + labels.last()
    }
}

pub open spec fn labels_fit(labels: Seq<Seq<u8>>) -> bool {
    forall|i: int| 0 <= i < labels.len() ==> 1 <= (#[trigger] labels[i]).len() <= 63
}

/// The octets of a name as written, lowercased and without its trailing dots.
pub open spec fn lowered_octets(name: Seq<char>) -> Seq<u8> {
    strip_end(encode_utf8(lowercase(trimmed(name))), DOT)
}

/// A name in DNSSEC canonical form (RFC 4034 section 6.1): lowercased, fully qualified and
/// uncompressed; none where a label is empty or longer than 63 octets.
pub open spec fn canonical_form(name: Seq<char>) -> Option<Seq<u8>> {
    let octets = lowered_octets(name);
    if octets.len() == 0 {
        Some(seq![0u8])
    } else if labels_fit(split(octets, DOT)) {
        Some(wire_labels(split(octets, DOT)).push(0u8))
    } else {
        None
    }
}

/// The lowercased octets of a name without its trailing dots.
fn lowered(name: &str) -> (r: Vec<u8>)
    ensures
        r@ == lowered_octets(name@),
{
    let trimmed_name = trim_str(name);
    let lower = to_lowercase(trimmed_name.as_str());
    vstd::slice::slice_to_vec(strip_end_bytes(lower.as_str().as_bytes(), DOT))
}

/// Encodes a domain name in DNSSEC canonical form.
pub fn canonical_name(name: &str) -> (r: Option<Vec<u8>>)
    ensures
        match r {
            Some(v) => canonical_form(name@) == Some(v@),
            None => canonical_form(name@) is None,
        },
{
    let octets = lowered(name);
    let mut out: Vec<u8> = Vec::new();
    if octets.len() > 0 {
        let labels = split_bytes(octets.as_slice(), DOT);
        let ghost ls = byte_strings(labels@);
        let mut i: usize = 0;
        proof {
            assert(ls.subrange(0, 0) =~= Seq::empty());
        }
        while i < labels.len()
            invariant
                i <= labels.len(),
                ls == byte_strings(labels@),
                ls == split(octets@, DOT),
                octets@ == lowered_octets(name@),
                octets@.len() > 0,
                out@ == wire_labels(ls.subrange(0, i as int)),
                forall|k: int| 0 <= k < i ==> 1 <= (#[trigger] ls[k]).len() <= 63,
            decreases labels.len() - i,
        {
            let n: usize = labels[i].len();
            if n == 0 || n > 63 {
                assert(!(1 <= ls[i as int].len() <= 63));
                return None;
            }
            out.push(n as u8);
            out.extend_from_slice(labels[i].as_slice());
            proof {
                let p = ls.subrange(0, i + 1);
                assert(p.drop_last() =~= ls.subrange(0, i as int));
                assert(p.last() == ls[i as int]);
                assert(out@ =~= wire_labels(p));
            }
            i = i + 1;
        }
        assert(ls.subrange(0, i as int) =~= ls);
    }
    out.push(0);
    proof {
        assert(octets@.len() == 0 ==> out@ =~= seq![0u8]);
    }
    Some(out)
}

/// The label count of an RRSIG over `name` (RFC 4034 section 3.1.3): neither the root
/// label nor a leading wildcard label counts, and the field holds at most 255.
pub open spec fn rrsig_label_count(name: Seq<char>) -> nat {
    let octets = lowered_octets(name);
    if octets.len() == 0 {
        0
    } else {
        let labels = split(octets, DOT);
        let n = if labels[0] == seq![STAR] {
            (labels.len() - 1) as nat
        } else {
            labels.len()
        };
        if n < 255 {
            n
        } else {
            255
        }
    }
}

/// The label count of an RRSIG over `name`.
pub fn label_count(name: &str) -> (r: u8)
    ensures
        r == rrsig_label_count(name@),
{
    let octets = lowered(name);
    if octets.len() == 0 {
        return 0;
    }
    let labels = split_bytes(octets.as_slice(), DOT);
    proof {
        lemma_split_nonempty(octets@, DOT);
        assert(byte_strings(labels@).len() == labels@.len());
        assert(byte_strings(labels@)[0] == labels@[0]@);
    }
    let mut n: usize = labels.len();
    if labels[0].len() == 1 && labels[0][0] == STAR {
        assert(labels@[0]@ =~= seq![STAR]);
        n = n - 1;
    } else {
        assert(labels@[0]@ != seq![STAR]) by {
            if labels@[0]@ == seq![STAR] {
                assert(labels@[0]@.len() == 1);
                assert(labels@[0]@[0] == STAR);
            }
        }
    }
    if n < 255 {
        n as u8
    } else {
        255
    }
}

// ---------------------------------------------------------------------------
// Canonical order
// ---------------------------------------------------------------------------
/// Whether octet string `a` sorts before `b`: the first octet in which they differ
/// decides, and a proper prefix comes first.
pub open spec fn octets_lt(a: Seq<u8>, b: Seq<u8>) -> bool
    decreases a.len(),
{
    if b.len() == 0 {
        false
    } else if a.len() == 0 {
        true
    } else if a[0] != b[0] {
        a[0] < b[0]
    } else {
        octets_lt(a.drop_first(), b.drop_first())
    }
}

/// Whether label sequence `a` sorts before `b`, label by label.
pub open spec fn labels_lt(a: Seq<Seq<u8>>, b: Seq<Seq<u8>>) -> bool
    decreases a.len(),
{
    if b.len() == 0 {
        false
    } else if a.len() == 0 {
        true
    } else if a[0] != b[0] {
        octets_lt(a[0], b[0])
    } else {
        labels_lt(a.drop_first(), b.drop_first())
    }
}

/// The sort key of a name: its labels from right to left, ASCII case folded away.
pub open spec fn canonical_key(name: Seq<char>) -> Seq<Seq<u8>> {
    let labels = split(strip_end(encode_utf8(name), DOT), DOT);
    Seq::new(labels.len(), |i: int| lower_bytes(labels[labels.len() - 1 - i]))
}

/// Whether name `a` precedes name `b` in DNSSEC canonical order (RFC 4034 section 6.1).
pub open spec fn canonical_lt(a: Seq<char>, b: Seq<char>) -> bool {
    labels_lt(canonical_key(a), canonical_key(b))
}

/// Whether octet string `a` sorts before `b`.
pub fn octets_precede(a: &[u8], b: &[u8]) -> (r: bool)
    ensures
        r == octets_lt(a@, b@),
{
    let mut i: usize = 0;
    assert(a@.subrange(0, a@.len() as int) =~= a@);
    assert(b@.subrange(0, b@.len() as int) =~= b@);
    loop
        invariant
            i <= a.len(),
            i <= b.len(),
            octets_lt(a@, b@) == octets_lt(
                a@.subrange(i as int, a@.len() as int),
                b@.subrange(i as int, b@.len() as int),
            ),
        decreases a.len() - i,
    {
        let ghost ta = a@.subrange(i as int, a@.len() as int);
        let ghost tb = b@.subrange(i as int, b@.len() as int);
        if i == b.len() {
            return false;
        }
        if i == a.len() {
            return true;
        }
        if a[i] != b[i] {
            return a[i] < b[i];
        }
        proof {
            assert(ta.drop_first() =~= a@.subrange(i + 1, a@.len() as int));
            assert(tb.drop_first() =~= b@.subrange(i + 1, b@.len() as int));
        }
        i = i + 1;
    }
}

/// The sort key of a name.
fn sort_key(name: &str) -> (r: Vec<Vec<u8>>)
    ensures
        byte_strings(r@) == canonical_key(name@),
{
    let labels = split_bytes(strip_end_bytes(name.as_bytes(), DOT), DOT);
    let ghost ls = byte_strings(labels@);
    let mut out: Vec<Vec<u8>> = Vec::new();
    let mut i: usize = labels.len();
    while i > 0
        invariant
            i <= labels.len(),
            ls == byte_strings(labels@),
            out.len() == labels.len() - i,
            forall|k: int|
                0 <= k < out.len() ==> (#[trigger] out@[k])@ == lower_bytes(ls[ls.len() - 1 - k]),
        decreases i,
    {
        i = i - 1;
        let folded = crate::text::to_lower_bytes(labels[i].as_slice());
        out.push(folded);
    }
    assert(byte_strings(out@) =~= canonical_key(name@));
    out
}

/// Whether name `a` precedes name `b` in canonical order.
pub fn name_precedes(a: &str, b: &str) -> (r: bool)
    ensures
        r == canonical_lt(a@, b@),
{
    let ka = sort_key(a);
    let kb = sort_key(b);
    let ghost sa = byte_strings(ka@);
    let ghost sb = byte_strings(kb@);
    let mut i: usize = 0;
    assert(sa.subrange(0, sa.len() as int) =~= sa);
    assert(sb.subrange(0, sb.len() as int) =~= sb);
    loop
        invariant
            i <= ka.len(),
            i <= kb.len(),
            sa == byte_strings(ka@),
            sb == byte_strings(kb@),
            labels_lt(sa, sb) == canonical_lt(a@, b@),
            labels_lt(sa, sb) == labels_lt(
                sa.subrange(i as int, sa.len() as int),
                sb.subrange(i as int, sb.len() as int),
            ),
        decreases ka.len() - i,
    {
        let ghost ta = sa.subrange(i as int, sa.len() as int);
        let ghost tb = sb.subrange(i as int, sb.len() as int);
        if i == kb.len() {
            return false;
        }
        if i == ka.len() {
            return true;
        }
        proof {
            assert(ta[0] == ka@[i as int]@);
            assert(tb[0] == kb@[i as int]@);
        }
        if !eq_bytes(ka[i].as_slice(), kb[i].as_slice()) {
            return octets_precede(ka[i].as_slice(), kb[i].as_slice());
        }
        proof {
            assert(ta.drop_first() =~= sa.subrange(i + 1, sa.len() as int));
            assert(tb.drop_first() =~= sb.subrange(i + 1, sb.len() as int));
        }
        i = i + 1;
    }
}

/// Exactly one of `a < b`, `b < a` and `a == b` holds of octet strings.
pub proof fn lemma_octets_trichotomy(a: Seq<u8>, b: Seq<u8>)
    ensures
        !(octets_lt(a, b) && octets_lt(b, a)),
        (a == b) == (!octets_lt(a, b) && !octets_lt(b, a)),
    decreases a.len(),
{
    if a.len() == 0 || b.len() == 0 {
        if a.len() == 0 && b.len() == 0 {
            assert(a =~= b);
        }
    } else if a[0] == b[0] {
        lemma_octets_trichotomy(a.drop_first(), b.drop_first());
        if a.drop_first() == b.drop_first() {
            assert(a =~= seq![a[0]] + a.drop_first());
            assert(b =~= seq![b[0]] + b.drop_first());
        }
    }
}

/// The order of octet strings is transitive.
pub proof fn lemma_octets_transitive(a: Seq<u8>, b: Seq<u8>, c: Seq<u8>)
    requires
        octets_lt(a, b),
        octets_lt(b, c),
    ensures
        octets_lt(a, c),
    decreases a.len(),
{
    if a.len() > 0 && a[0] == b[0] && b[0] == c[0] {
        lemma_octets_transitive(a.drop_first(), b.drop_first(), c.drop_first());
    }
}

/// Exactly one of `a < b`, `b < a` and `a == b` holds of label sequences.
pub proof fn lemma_labels_trichotomy(a: Seq<Seq<u8>>, b: Seq<Seq<u8>>)
    ensures
        !(labels_lt(a, b) && labels_lt(b, a)),
        (a == b) == (!labels_lt(a, b) && !labels_lt(b, a)),
    decreases a.len(),
{
    if a.len() == 0 || b.len() == 0 {
        if a.len() == 0 && b.len() == 0 {
            assert(a =~= b);
        }
    } else if a[0] == b[0] {
        lemma_labels_trichotomy(a.drop_first(), b.drop_first());
        if a.drop_first() == b.drop_first() {
            assert(a =~= seq![a[0]] + a.drop_first());
            assert(b =~= seq![b[0]] + b.drop_first());
        }
    } else {
        lemma_octets_trichotomy(a[0], b[0]);
    }
}

/// The order of label sequences is transitive.
pub proof fn lemma_labels_transitive(a: Seq<Seq<u8>>, b: Seq<Seq<u8>>, c: Seq<Seq<u8>>)
    requires
        labels_lt(a, b),
        labels_lt(b, c),
    ensures
        labels_lt(a, c),
    decreases a.len(),
{
    if a.len() > 0 {
        if a[0] == b[0] {
            if b[0] == c[0] {
                lemma_labels_transitive(a.drop_first(), b.drop_first(), c.drop_first());
            }
        } else if b[0] == c[0] {
        } else {
            lemma_octets_transitive(a[0], b[0], c[0]);
            lemma_octets_trichotomy(a[0], c[0]);
        }
    }
}

/// Canonical order is a strict total order on names up to case and trailing dots:
/// of two names exactly one precedes the other, or their keys are the same.
pub proof fn law_canonical_order_is_total(a: Seq<char>, b: Seq<char>)
    ensures
        !(canonical_lt(a, b) && canonical_lt(b, a)),
        (canonical_key(a) == canonical_key(b)) == (!canonical_lt(a, b) && !canonical_lt(b, a)),
        !canonical_lt(a, a),
{
    lemma_labels_trichotomy(canonical_key(a), canonical_key(b));
    lemma_labels_trichotomy(canonical_key(a), canonical_key(a));
}

/// Canonical order is transitive.
pub proof fn law_canonical_order_is_transitive(a: Seq<char>, b: Seq<char>, c: Seq<char>)
    requires
        canonical_lt(a, b),
        canonical_lt(b, c),
    ensures
        canonical_lt(a, c),
{
    lemma_labels_transitive(canonical_key(a), canonical_key(b), canonical_key(c));
}

/// Compares two owner names in DNSSEC canonical order.
pub fn canonical_name_cmp(a: &str, b: &str) -> (r: Ordering)
    ensures
        (r == Ordering::Less) == canonical_lt(a@, b@),
        (r == Ordering::Greater) == canonical_lt(b@, a@),
        (r == Ordering::Equal) == (canonical_key(a@) == canonical_key(b@)),
{
    proof {
        law_canonical_order_is_total(a@, b@);
    }
    if name_precedes(a, b) {
        Ordering::Less
    } else if name_precedes(b, a) {
        Ordering::Greater
    } else {
        Ordering::Equal
    }
}

// ---------------------------------------------------------------------------
// Keys and normal forms
// ---------------------------------------------------------------------------
pub(crate) proof fn lemma_encode_scalar(u: u32)
    ensures
        encode_scalar(u).len() >= 1,
        u < 0x80 ==> encode_scalar(u) == seq![u as u8],
        u >= 0x80 ==> forall|i: int|
            0 <= i < encode_scalar(u).len() ==> #[trigger] encode_scalar(u)[i] >= 0x80,
{
    if has_width_1_encoding(u) {
        assert(leading_byte_width_1(u) == u as u8) by (bit_vector)
            requires
                u <= 0x7f,
        ;
    } else {
        assert(leading_byte_width_2(u) >= 0x80 && leading_byte_width_3(u) >= 0x80
            && leading_byte_width_4(u) >= 0x80 && last_continuation_byte(u) >= 0x80
            && second_last_continuation_byte(u) >= 0x80 && third_last_continuation_byte(u)
            >= 0x80) by (bit_vector);
    }
}

/// UTF-8 encodes a concatenation piece by piece.
pub proof fn lemma_encode_concat(a: Seq<char>, b: Seq<char>)
    ensures
        encode_utf8(a + b) == encode_utf8(a) + encode_utf8(b),
    decreases a.len(),
{
    if a.len() == 0 {
        assert(a + b =~= b);
        assert(encode_utf8(a) + encode_utf8(b) =~= encode_utf8(b));
    } else {
        assert((a + b).drop_first() =~= a.drop_first() + b);
        lemma_encode_concat(a.drop_first(), b);
        assert(encode_utf8(a + b) =~= encode_utf8(a) + encode_utf8(b));
    }
}

proof fn lemma_encode_push(s: Seq<char>, c: char)
    ensures
        encode_utf8(s.push(c)) == encode_utf8(s) + encode_scalar(c as u32),
{
    assert(s.push(c) =~= s + seq![c]);
    lemma_encode_concat(s, seq![c]);
    assert(seq![c].drop_first() =~= Seq::<char>::empty());
    assert(encode_utf8(Seq::<char>::empty()) =~= Seq::<u8>::empty());
    assert(encode_utf8(seq![c]) =~= encode_scalar(c as u32));
}

proof fn lemma_only_dot_ends_in_dot(c: char)
    ensures
        (encode_scalar(c as u32).last() == DOT) == (c == '.'),
{
    lemma_encode_scalar(c as u32);
    let e = encode_scalar(c as u32);
    assert(e.last() == e[e.len() - 1]);
    if (c as u32) < 0x80 {
        assert(e[0] == (c as u32) as u8);
    }
}

proof fn lemma_encode_strip_dots(s: Seq<char>)
    ensures
        encode_utf8(strip_end(s, '.')) == strip_end(encode_utf8(s), DOT),
    decreases s.len(),
{
    if s.len() > 0 {
        let d = s.drop_last();
        assert(s =~= d.push(s.last()));
        lemma_encode_push(d, s.last());
        lemma_encode_scalar(s.last() as u32);
        let e = encode_utf8(s);
        let tail = encode_scalar(s.last() as u32);
        assert(e.last() == tail.last());
        if s.last() == '.' {
            assert(tail =~= seq![DOT]);
            assert(e.drop_last() =~= encode_utf8(d));
            lemma_encode_strip_dots(d);
        } else {
            lemma_only_dot_ends_in_dot(s.last());
        }
    } else {
        assert(encode_utf8(s) =~= Seq::<u8>::empty());
    }
}

proof fn lemma_encode_lower(s: Seq<char>)
    ensures
        encode_utf8(lower_chars(s)) == lower_bytes(encode_utf8(s)),
    decreases s.len(),
{
    if s.len() == 0 {
        assert(lower_chars(s) =~= s);
        assert(lower_bytes(encode_utf8(s)) =~= encode_utf8(s));
    } else {
        let c = s[0];
        lemma_encode_lower(s.drop_first());
        assert(lower_chars(s).drop_first() =~= lower_chars(s.drop_first()));
        assert(lower_chars(s)[0] == lower_char(c));
        lemma_encode_scalar(c as u32);
        lemma_encode_scalar(lower_char(c) as u32);
        assert(encode_scalar(lower_char(c) as u32) =~= lower_bytes(encode_scalar(c as u32)));
        assert(lower_bytes(encode_utf8(s)) =~= lower_bytes(encode_scalar(c as u32)) + lower_bytes(
            encode_utf8(s.drop_first()),
        ));
    }
}

proof fn lemma_lower_bytes_idempotent(s: Seq<u8>)
    ensures
        lower_bytes(lower_bytes(s)) == lower_bytes(s),
{
    assert(lower_bytes(lower_bytes(s)) =~= lower_bytes(s));
}

/// Splitting at dots and folding case commute.
proof fn lemma_split_lower(s: Seq<u8>)
    ensures
        split(lower_bytes(s), DOT).len() == split(s, DOT).len(),
        forall|i: int|
            0 <= i < split(s, DOT).len() ==> #[trigger] split(lower_bytes(s), DOT)[i]
                == lower_bytes(split(s, DOT)[i]),
    decreases s.len(),
{
    lemma_split_nonempty(s, DOT);
    if s.len() == 0 {
        assert(lower_bytes(s) =~= s);
        assert(lower_bytes(split(s, DOT)[0]) =~= Seq::<u8>::empty());
    } else {
        let d = s.drop_last();
        lemma_split_lower(d);
        lemma_split_nonempty(d, DOT);
        let l = lower_bytes(s);
        assert(l.drop_last() =~= lower_bytes(d));
        assert(l.last() == lower_byte(s.last()));
        let before = split(d, DOT);
        let lbefore = split(lower_bytes(d), DOT);
        lemma_split_nonempty(lower_bytes(d), DOT);
        assert forall|i: int| 0 <= i < split(s, DOT).len() implies #[trigger] split(l, DOT)[i]
            == lower_bytes(split(s, DOT)[i]) by {
            if s.last() == DOT {
                if i < before.len() {
                    assert(split(s, DOT)[i] == before[i]);
                    assert(split(l, DOT)[i] == lbefore[i]);
                } else {
                    assert(lower_bytes(split(s, DOT)[i]) =~= Seq::<u8>::empty());
                }
            } else {
                if i < before.len() - 1 {
                    assert(split(s, DOT)[i] == before[i]);
                    assert(split(l, DOT)[i] == lbefore[i]);
                } else {
                    assert(lbefore.last() == lower_bytes(before.last()));
                    assert(split(l, DOT)[i] =~= lower_bytes(split(s, DOT)[i]));
                }
            }
        }
    }
}

/// The octets that a key is split from, restored from the key.
proof fn lemma_key_determines_octets(a: Seq<char>, b: Seq<char>)
    requires
        canonical_key(a) == canonical_key(b),
    ensures
        lower_bytes(strip_end(encode_utf8(a), DOT)) == lower_bytes(strip_end(encode_utf8(b), DOT)),
{
    let oa = strip_end(encode_utf8(a), DOT);
    let ob = strip_end(encode_utf8(b), DOT);
    lemma_split_lower(oa);
    lemma_split_lower(ob);
    let la = split(lower_bytes(oa), DOT);
    let lb = split(lower_bytes(ob), DOT);
    let ka = canonical_key(a);
    let kb = canonical_key(b);
    assert(la.len() == ka.len() && lb.len() == kb.len());
    assert forall|i: int| 0 <= i < la.len() implies la[i] == lb[i] by {
        assert(la[i] == ka[la.len() - 1 - i]);
        assert(lb[i] == kb[la.len() - 1 - i]);
    }
    assert(la =~= lb);
    lemma_join_split(lower_bytes(oa), DOT);
    lemma_join_split(lower_bytes(ob), DOT);
}

/// The octets of a normalized name.
proof fn lemma_normalized_octets(name: Seq<char>)
    ensures
        encode_utf8(normalized(name)) == lower_bytes(strip_end(encode_utf8(name), DOT)).push(DOT),
{
    let t = strip_end(name, '.');
    lemma_encode_strip_dots(name);
    lemma_encode_lower(t);
    lemma_encode_push(lower_chars(t), '.');
    lemma_encode_scalar('.' as u32);
    assert(encode_utf8(normalized(name)) =~= lower_bytes(strip_end(encode_utf8(name), DOT)).push(
        DOT,
    ));
}

proof fn lemma_strip_end_fixed<T>(s: Seq<T>, x: T)
    ensures
        strip_end(s, x).len() == 0 || strip_end(s, x).last() != x,
        strip_end(strip_end(s, x), x) == strip_end(s, x),
    decreases s.len(),
{
    if s.len() > 0 && s.last() == x {
        lemma_strip_end_fixed(s.drop_last(), x);
    }
}

/// Normalizing keeps a name's place in the canonical order.
pub proof fn law_normalizing_keeps_the_key(name: Seq<char>)
    ensures
        canonical_key(normalized(name)) == canonical_key(name),
{
    let o = strip_end(encode_utf8(name), DOT);
    lemma_normalized_octets(name);
    let n = encode_utf8(normalized(name));
    assert(n.drop_last() =~= lower_bytes(o));
    lemma_strip_end_fixed(encode_utf8(name), DOT);
    let lo = lower_bytes(o);
    assert(strip_end(n, DOT) == strip_end(lo, DOT));
    assert(strip_end(lo, DOT) == lo) by {
        if lo.len() > 0 {
            assert(lo.last() == lower_byte(o.last()));
        }
    }
    lemma_split_lower(o);
    let labels = split(o, DOT);
    let nlabels = split(lo, DOT);
    assert forall|i: int| 0 <= i < labels.len() implies #[trigger] canonical_key(normalized(name))[i]
        == canonical_key(name)[i] by {
        assert(nlabels[labels.len() - 1 - i] == lower_bytes(labels[labels.len() - 1 - i]));
        lemma_lower_bytes_idempotent(labels[labels.len() - 1 - i]);
    }
    assert(canonical_key(normalized(name)) =~= canonical_key(name));
}

/// Two names have the same place in the canonical order exactly when they have the
/// same normal form.
pub proof fn law_same_key_same_normal_form(a: Seq<char>, b: Seq<char>)
    ensures
        (canonical_key(a) == canonical_key(b)) == (normalized(a) == normalized(b)),
{
    if canonical_key(a) == canonical_key(b) {
        lemma_key_determines_octets(a, b);
        lemma_normalized_octets(a);
        lemma_normalized_octets(b);
        lemma_utf8_injective(normalized(a), normalized(b));
    }
    law_normalizing_keeps_the_key(a);
    law_normalizing_keeps_the_key(b);
}

/// Normalizing twice is normalizing once.
pub proof fn law_normalizing_is_idempotent(name: Seq<char>)
    ensures
        normalized(normalized(name)) == normalized(name),
{
    law_normalizing_keeps_the_key(name);
    law_same_key_same_normal_form(normalized(name), name);
}

pub(crate) proof fn lemma_split_concat(a: Seq<u8>, b: Seq<u8>)
    ensures
        split(a + seq![DOT] + b, DOT) == split(a, DOT) + split(b, DOT),
    decreases b.len(),
{
    let s = a + seq![DOT] + b;
    lemma_split_nonempty(a, DOT);
    if b.len() == 0 {
        assert(s.drop_last() =~= a);
        assert(split(s, DOT) =~= split(a, DOT) + split(b, DOT));
    } else {
        let d = b.drop_last();
        lemma_split_concat(a, d);
        lemma_split_nonempty(d, DOT);
        assert(s.drop_last() =~= a + seq![DOT] + d);
        assert(s.last() == b.last());
        assert(split(s, DOT) =~= split(a, DOT) + split(b, DOT));
    }
}

proof fn lemma_labels_prefix_not_after(a: Seq<Seq<u8>>, b: Seq<Seq<u8>>)
    requires
        a.len() <= b.len(),
        b.subrange(0, a.len() as int) == a,
    ensures
        !labels_lt(b, a),
    decreases a.len(),
{
    if a.len() > 0 {
        assert(a[0] == b[0]);
        assert(b.drop_first().subrange(0, a.len() - 1) =~= a.drop_first());
        lemma_labels_prefix_not_after(a.drop_first(), b.drop_first());
    }
}

/// No name in a zone sorts before the zone's apex.
pub proof fn law_apex_sorts_first(name: Seq<char>, zone: Seq<char>)
    requires
        in_zone(normalized(name), normalized(zone)),
    ensures
        !canonical_lt(name, zone),
{
    let n = normalized(name);
    let z = normalized(zone);
    law_normalizing_keeps_the_key(name);
    law_normalizing_keeps_the_key(zone);
    lemma_normalized_octets(name);
    lemma_normalized_octets(zone);
    let on = lower_bytes(strip_end(encode_utf8(name), DOT));
    let oz = lower_bytes(strip_end(encode_utf8(zone), DOT));
    lemma_strip_end_fixed(encode_utf8(name), DOT);
    lemma_strip_end_fixed(encode_utf8(zone), DOT);
    let ln = split(strip_end(encode_utf8(name), DOT), DOT);
    let lz = split(strip_end(encode_utf8(zone), DOT), DOT);
    lemma_split_nonempty(strip_end(encode_utf8(name), DOT), DOT);
    if n == z {
        law_canonical_order_is_total(n, z);
    } else if z == seq!['.'] {
        assert(z.len() == strip_end(zone, '.').len() + 1);
        assert(strip_end(zone, '.') =~= Seq::<char>::empty());
        lemma_encode_strip_dots(zone);
        assert(encode_utf8(Seq::<char>::empty()) =~= Seq::<u8>::empty());
        assert(lz =~= seq![Seq::<u8>::empty()]);
        let kz = canonical_key(zone);
        let kn = canonical_key(name);
        assert(kz.len() == 1);
        assert(kz[0] =~= Seq::<u8>::empty());
        assert(kn.len() >= 1);
        if kn[0] == kz[0] {
            assert(!labels_lt(kn.drop_first(), kz.drop_first()));
        } else {
            assert(!octets_lt(kn[0], kz[0]));
        }
    } else {
        let suffix = seq!['.'] + z;
        let head = n.subrange(0, n.len() - suffix.len());
        assert(n =~= head + suffix);
        lemma_encode_concat(head, suffix);
        lemma_encode_concat(seq!['.'], z);
        lemma_encode_scalar('.' as u32);
        assert(seq!['.'].drop_first() =~= Seq::<char>::empty());
        assert(encode_utf8(Seq::<char>::empty()) =~= Seq::<u8>::empty());
        assert(encode_utf8(seq!['.']) =~= seq![DOT]);
        let h = encode_utf8(head);
        // n and z both end in a dot; without it n is h, a dot, and z.
        assert(encode_utf8(n) =~= h + seq![DOT] + oz.push(DOT));
        assert(encode_utf8(n) == on.push(DOT));
        assert(on =~= encode_utf8(n).drop_last());
        assert(on =~= h + seq![DOT] + oz);
        lemma_split_concat(h, oz);
        lemma_split_lower(strip_end(encode_utf8(name), DOT));
        lemma_split_lower(strip_end(encode_utf8(zone), DOT));
        let sn = split(on, DOT);
        let sz = split(oz, DOT);
        let kn = canonical_key(name);
        let kz = canonical_key(zone);
        assert(sn == split(h, DOT) + sz);
        assert forall|i: int| 0 <= i < kz.len() implies kn.subrange(0, kz.len() as int)[i]
            == kz[i] by {
            assert(kz[i] == sz[sz.len() - 1 - i]);
            assert(kn[i] == sn[sn.len() - 1 - i]);
        }
        assert(kn.subrange(0, kz.len() as int) =~= kz);
        lemma_labels_prefix_not_after(kz, kn);
    }
}

} // verus!
