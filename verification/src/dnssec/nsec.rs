//! Authenticated denial of existence with NSEC: type bit maps, the stored form of an
//! NSEC record, and the chain that tiles a zone.
use vstd::prelude::*;
use vstd::string::*;

use crate::names::{canonical_form, canonical_name};
use crate::record::{
    kind_of, law_mnemonic_round_trip, lemma_mnemonic_chars, mnemonic, type_code, RecordKind,
};
use crate::text::{
    chars_of, is_word, lemma_words_append, lemma_words_single, split_words, string_of, strip_end,
    strip_end_bytes, texts, white_space, words,
};

verus! {

broadcast use vstd::string::group_string_axioms;

// ---------------------------------------------------------------------------
// Type bit maps
// ---------------------------------------------------------------------------
/// The first `n` bits of octet `j` in window `w`: a bit is set where the type with
/// that code is present, the lowest code first.
pub open spec fn bitmap_bits(types: Seq<u16>, w: int, j: int, n: nat) -> int
    decreases n,
{
    if n == 0 {
        0
    } else {
        bitmap_bits(types, w, j, (n - 1) as nat) * 2 + if types.contains(
            (w * 256 + j * 8 + n - 1) as u16,
        ) {
            1int
        } else {
            0int
        }
    }
}

/// The 32 octets of window `w`, cut behind the last one that has a bit set.
pub open spec fn bitmap_block(types: Seq<u16>, w: int) -> Seq<u8> {
    strip_end(Seq::new(32, |j: int| bitmap_bits(types, w, j, 8) as u8), 0u8)
}

/// The first `n` windows of a type bit map; a window without types is left out.
pub open spec fn bitmap_windows(types: Seq<u16>, n: nat) -> Seq<u8>
    decreases n,
{
    if n == 0 {
        Seq::empty()
    } else {
        let w = n - 1;
        let block = bitmap_block(types, w);
        let done = bitmap_windows(types, w as nat);
        if block.len() == 0 {
            done
        } else {
            done + seq![w as u8, block.len() as u8] + block
        }
    }
}

/// A set of type codes as a type bit map (RFC 4034 section 4.1.2).
pub open spec fn type_bitmap(types: Seq<u16>) -> Seq<u8> {
    bitmap_windows(types, 256)
}

/// Whether two lists of type codes hold the same codes.
pub open spec fn same_types(a: Seq<u16>, b: Seq<u16>) -> bool {
    forall|t: u16| a.contains(t) == b.contains(t)
}

proof fn lemma_bitmap_bits_range(types: Seq<u16>, w: int, j: int, n: nat)
    requires
        n <= 8,
    ensures
        0 <= bitmap_bits(types, w, j, n),
        n == 0 ==> bitmap_bits(types, w, j, n) == 0,
        n == 1 ==> bitmap_bits(types, w, j, n) <= 1,
        n == 2 ==> bitmap_bits(types, w, j, n) <= 3,
        n == 3 ==> bitmap_bits(types, w, j, n) <= 7,
        n == 4 ==> bitmap_bits(types, w, j, n) <= 15,
        n == 5 ==> bitmap_bits(types, w, j, n) <= 31,
        n == 6 ==> bitmap_bits(types, w, j, n) <= 63,
        n == 7 ==> bitmap_bits(types, w, j, n) <= 127,
        n == 8 ==> bitmap_bits(types, w, j, n) <= 255,
    decreases n,
{
    if n > 0 {
        lemma_bitmap_bits_range(types, w, j, (n - 1) as nat);
    }
}

proof fn lemma_bitmap_bits_same(a: Seq<u16>, b: Seq<u16>, w: int, j: int, n: nat)
    requires
        same_types(a, b),
    ensures
        bitmap_bits(a, w, j, n) == bitmap_bits(b, w, j, n),
    decreases n,
{
    if n > 0 {
        lemma_bitmap_bits_same(a, b, w, j, (n - 1) as nat);
    }
}

proof fn lemma_bitmap_windows_same(a: Seq<u16>, b: Seq<u16>, n: nat)
    requires
        same_types(a, b),
    ensures
        bitmap_windows(a, n) == bitmap_windows(b, n),
    decreases n,
{
    if n > 0 {
        let w = n - 1;
        lemma_bitmap_windows_same(a, b, w as nat);
        let oa = Seq::new(32, |j: int| bitmap_bits(a, w, j, 8) as u8);
        let ob = Seq::new(32, |j: int| bitmap_bits(b, w, j, 8) as u8);
        assert forall|j: int| 0 <= j < 32 implies oa[j] == ob[j] by {
            lemma_bitmap_bits_same(a, b, w, j, 8);
        }
        assert(oa =~= ob);
    }
}

/// A type bit map depends on which types are present, not on their order or on how
/// often one is named.
pub proof fn law_bitmap_depends_on_the_set(a: Seq<u16>, b: Seq<u16>)
    requires
        same_types(a, b),
    ensures
        type_bitmap(a) == type_bitmap(b),
{
    lemma_bitmap_windows_same(a, b, 256);
}

proof fn lemma_bits_empty(types: Seq<u16>, w: int, j: int, n: nat)
    requires
        0 <= w < 256,
        0 <= j < 32,
        n <= 8,
        forall|i: int| 0 <= i < types.len() ==> (#[trigger] types[i]) / 256 != w,
    ensures
        bitmap_bits(types, w, j, n) == 0,
    decreases n,
{
    if n > 0 {
        lemma_bits_empty(types, w, j, (n - 1) as nat);
        let c = (w * 256 + j * 8 + n - 1) as u16;
        assert(c / 256 == w);
        if types.contains(c) {
            let i = choose|i: int| 0 <= i < types.len() && types[i] == c;
            assert(types[i] / 256 != w);
        }
    }
}

proof fn lemma_strip_zeros(s: Seq<u8>)
    requires
        forall|i: int| 0 <= i < s.len() ==> s[i] == 0,
    ensures
        strip_end(s, 0u8).len() == 0,
    decreases s.len(),
{
    if s.len() > 0 {
        lemma_strip_zeros(s.drop_last());
    }
}

proof fn lemma_strip_len<T>(s: Seq<T>, x: T)
    ensures
        strip_end(s, x).len() <= s.len(),
    decreases s.len(),
{
    if s.len() > 0 && s.last() == x {
        lemma_strip_len(s.drop_last(), x);
    }
}

fn has_code(types: &[u16], code: u16) -> (r: bool)
    ensures
        r == types@.contains(code),
{
    let mut i: usize = 0;
    while i < types.len()
        invariant
            i <= types.len(),
            forall|k: int| 0 <= k < i ==> types@[k] != code,
        decreases types.len() - i,
    {
        if types[i] == code {
            assert(types@[i as int] == code);
            return true;
        }
        i = i + 1;
    }
    false
}

fn has_window(types: &[u16], w: u16) -> (r: bool)
    ensures
        r == exists|i: int| 0 <= i < types@.len() && (#[trigger] types@[i]) / 256 == w,
{
    let mut i: usize = 0;
    while i < types.len()
        invariant
            i <= types.len(),
            forall|k: int| 0 <= k < i ==> (#[trigger] types@[k]) / 256 != w,
        decreases types.len() - i,
    {
        if types[i] / 256 == w {
            return true;
        }
        i = i + 1;
    }
    false
}

/// The 32 octets of one window.
fn window_octets(types: &[u16], w: u16) -> (r: Vec<u8>)
    requires
        w < 256,
    ensures
        r@ == Seq::new(32, |j: int| bitmap_bits(types@, w as int, j, 8) as u8),
{
    let mut block: Vec<u8> = Vec::new();
    let mut j: u16 = 0;
    while j < 32
        invariant
            j <= 32,
            w < 256,
            block.len() == j,
            forall|k: int|
                0 <= k < j ==> #[trigger] block@[k] == bitmap_bits(types@, w as int, k, 8) as u8,
        decreases 32 - j,
    {
        let mut octet: u16 = 0;
        let mut bit: u16 = 0;
        while bit < 8
            invariant
                bit <= 8,
                j < 32,
                w < 256,
                octet == bitmap_bits(types@, w as int, j as int, bit as nat),
            decreases 8 - bit,
        {
            proof {
                lemma_bitmap_bits_range(types@, w as int, j as int, bit as nat);
            }
            let set: u16 = if has_code(types, w * 256 + j * 8 + bit) {
                1
            } else {
                0
            };
            octet = octet * 2 + set;
            bit = bit + 1;
        }
        proof {
            lemma_bitmap_bits_range(types@, w as int, j as int, 8);
        }
        block.push(octet as u8);
        j = j + 1;
    }
    assert(block@ =~= Seq::new(32, |j: int| bitmap_bits(types@, w as int, j, 8) as u8));
    block
}

/// Encodes a set of RR type codes as an RFC 4034 section 4.1.2 type bit map.
pub fn encode_type_bitmap(types: &[u16]) -> (r: Vec<u8>)
    ensures
        r@ == type_bitmap(types@),
{
    let mut out: Vec<u8> = Vec::new();
    let mut w: u16 = 0;
    while w < 256
        invariant
            w <= 256,
            out@ == bitmap_windows(types@, w as nat),
        decreases 256 - w,
    {
        let ghost octets = Seq::new(32, |j: int| bitmap_bits(types@, w as int, j, 8) as u8);
        if has_window(types, w) {
            let block = window_octets(types, w);
            let cut = strip_end_bytes(block.as_slice(), 0);
            proof {
                lemma_strip_len(octets, 0u8);
            }
            if cut.len() > 0 {
                let ghost before = out@;
                out.push(w as u8);
                out.push(cut.len() as u8);
                out.extend_from_slice(cut);
                assert(out@ =~= before + seq![w as u8, cut@.len() as u8] + cut@);
            }
        } else {
            proof {
                assert forall|j: int| 0 <= j < 32 implies octets[j] == 0 by {
                    lemma_bits_empty(types@, w as int, j, 8);
                }
                lemma_strip_zeros(octets);
            }
        }
        w = w + 1;
    }
    out
}

// ---------------------------------------------------------------------------
// The stored form of an NSEC record
// ---------------------------------------------------------------------------
/// An NSEC record: the next owner in the chain, and the types present at this one.
///
/// It is stored as `"<next_owner> <TYPE> <TYPE> ..."`.
#[derive(Debug)]
pub struct Nsec {
    pub next_owner: String,
    pub types: Vec<RecordKind>,
}

/// Why a stored NSEC value does not parse.
#[derive(Debug)]
pub enum NsecError {
    /// The value holds no word.
    Empty,
    /// A word after the first names no record type.
    UnknownType(String),
}

/// Every record type, in ascending order of wire code.
pub open spec fn all_kinds() -> Seq<RecordKind> {
    seq![
        RecordKind::A,
        RecordKind::NS,
        RecordKind::CNAME,
        RecordKind::SOA,
        RecordKind::PTR,
        RecordKind::MX,
        RecordKind::TXT,
        RecordKind::AAAA,
        RecordKind::SRV,
        RecordKind::CERT,
        RecordKind::DNAME,
        RecordKind::DS,
        RecordKind::SSHFP,
        RecordKind::RRSIG,
        RecordKind::NSEC,
        RecordKind::DNSKEY,
        RecordKind::NSEC3,
        RecordKind::NSEC3PARAM,
        RecordKind::TLSA,
        RecordKind::ZONEMD,
        RecordKind::SVCB,
        RecordKind::HTTPS,
        RecordKind::URI,
        RecordKind::ANAME,
    ]
}

/// Those of the first `n` record types that `types` names, in ascending order of wire
/// code, each once.
pub open spec fn ascending(types: Seq<RecordKind>, n: nat) -> Seq<RecordKind>
    decreases n,
{
    if n == 0 {
        Seq::empty()
    } else {
        let before = ascending(types, (n - 1) as nat);
        if types.contains(all_kinds()[n - 1]) {
            before.push(all_kinds()[n - 1])
        } else {
            before
        }
    }
}

/// The types named, in ascending order of wire code, each once.
pub open spec fn in_code_order(types: Seq<RecordKind>) -> Seq<RecordKind> {
    ascending(types, 24)
}

/// A name followed by mnemonics, a blank before each.
pub open spec fn nsec_text(next_owner: Seq<char>, types: Seq<RecordKind>) -> Seq<char>
    decreases types.len(),
{
    if types.len() == 0 {
        next_owner
    } else {
        nsec_text(next_owner, types.drop_last()).push(' ') + mnemonic(types.last())
    }
}

/// The wire codes of record types.
pub open spec fn type_codes(types: Seq<RecordKind>) -> Seq<u16> {
    Seq::new(types.len(), |i: int| type_code(types[i]))
}

/// The RDATA of an NSEC record in canonical form.
pub open spec fn nsec_rdata(next_owner: Seq<char>, types: Seq<RecordKind>) -> Option<Seq<u8>> {
    match canonical_form(next_owner) {
        Some(name) => Some(name + type_bitmap(type_codes(types))),
        None => None,
    }
}

/// The types that a list of mnemonics names, if each names one.
pub open spec fn kinds_of(fields: Seq<Seq<char>>) -> Option<Seq<RecordKind>>
    decreases fields.len(),
{
    if fields.len() == 0 {
        Some(Seq::empty())
    } else {
        match (kinds_of(fields.drop_last()), kind_of(fields.last())) {
            (Some(before), Some(kind)) => Some(before.push(kind)),
            _ => None,
        }
    }
}

/// The next owner and the types that a stored value gives, if it is well formed.
pub open spec fn nsec_parsed(value: Seq<char>) -> Option<(Seq<char>, Seq<RecordKind>)> {
    let fields = words(value);
    if fields.len() == 0 {
        None
    } else {
        match kinds_of(fields.drop_first()) {
            Some(types) => Some((fields[0], types)),
            None => None,
        }
    }
}

fn kind_at(i: usize) -> (r: RecordKind)
    requires
        i < 24,
    ensures
        r == all_kinds()[i as int],
{
    match i {
        0 => RecordKind::A,
        1 => RecordKind::NS,
        2 => RecordKind::CNAME,
        3 => RecordKind::SOA,
        4 => RecordKind::PTR,
        5 => RecordKind::MX,
        6 => RecordKind::TXT,
        7 => RecordKind::AAAA,
        8 => RecordKind::SRV,
        9 => RecordKind::CERT,
        10 => RecordKind::DNAME,
        11 => RecordKind::DS,
        12 => RecordKind::SSHFP,
        13 => RecordKind::RRSIG,
        14 => RecordKind::NSEC,
        15 => RecordKind::DNSKEY,
        16 => RecordKind::NSEC3,
        17 => RecordKind::NSEC3PARAM,
        18 => RecordKind::TLSA,
        19 => RecordKind::ZONEMD,
        20 => RecordKind::SVCB,
        21 => RecordKind::HTTPS,
        22 => RecordKind::URI,
        _ => RecordKind::ANAME,
    }
}

fn has_kind(types: &[RecordKind], kind: RecordKind) -> (r: bool)
    ensures
        r == types@.contains(kind),
{
    let mut i: usize = 0;
    while i < types.len()
        invariant
            i <= types.len(),
            forall|k: int| 0 <= k < i ==> types@[k] != kind,
        decreases types.len() - i,
    {
        if types[i] == kind {
            assert(types@[i as int] == kind);
            return true;
        }
        i = i + 1;
    }
    false
}

impl Nsec {
    /// Renders the stored form, the types in ascending order of wire code.
    pub fn to_value(&self) -> (r: String)
        ensures
            r@ == nsec_text(self.next_owner@, in_code_order(self.types@)),
    {
        let mut out = self.next_owner.clone();
        let mut i: usize = 0;
        while i < 24
            invariant
                i <= 24,
                out@ == nsec_text(self.next_owner@, ascending(self.types@, i as nat)),
            decreases 24 - i,
        {
            let kind = kind_at(i);
            if has_kind(self.types.as_slice(), kind) {
                out.push(' ');
                out.append(kind.as_str());
                proof {
                    let next = ascending(self.types@, (i + 1) as nat);
                    assert(next.drop_last() =~= ascending(self.types@, i as nat));
                }
            }
            i = i + 1;
        }
        out
    }

    /// Parses the stored form. A word that names no record type is an error.
    pub fn parse(value: &str) -> (r: Result<Nsec, NsecError>)
        ensures
            match r {
                Ok(n) => nsec_parsed(value@) == Some((n.next_owner@, n.types@)),
                Err(NsecError::Empty) => words(value@).len() == 0,
                Err(NsecError::UnknownType(name)) => {
                    let fields = words(value@);
                    exists|i: int|
                        {
                            &&& 1 <= i < fields.len()
                            &&& name@ == fields[i]
                            &&& kind_of(fields[i]) is None
                            &&& forall|k: int| 1 <= k < i ==> kind_of(#[trigger] fields[k]) is Some
                        }
                },
            },
            r is Ok <==> nsec_parsed(value@) is Some,
    {
        let chars = chars_of(value);
        let fields = split_words(chars.as_slice());
        let ghost ws = words(value@);
        assert(texts(fields@) == ws);
        if fields.len() == 0 {
            return Err(NsecError::Empty);
        }
        assert(ws[0] == fields@[0]@);
        let next_owner = string_of(fields[0].as_slice());
        let mut types: Vec<RecordKind> = Vec::new();
        let ghost tail = ws.drop_first();
        assert(tail.subrange(0, 0) =~= Seq::empty());
        let mut i: usize = 1;
        while i < fields.len()
            invariant
                1 <= i <= fields.len(),
                texts(fields@) == ws,
                ws == words(value@),
                tail == ws.drop_first(),
                kinds_of(tail.subrange(0, i - 1)) == Some(types@),
                forall|k: int| 1 <= k < i ==> kind_of(#[trigger] ws[k]) is Some,
            decreases fields.len() - i,
        {
            let field = string_of(fields[i].as_slice());
            assert(ws[i as int] == fields@[i as int]@);
            proof {
                let p = tail.subrange(0, i as int);
                assert(p.drop_last() =~= tail.subrange(0, i - 1));
                assert(p.last() == ws[i as int]);
            }
            match RecordKind::parse(field.as_str()) {
                Some(kind) => {
                    types.push(kind);
                },
                None => {
                    proof {
                        lemma_kinds_of_prefix(tail, i as int);
                        assert(kind_of(ws[i as int]) is None);
                    }
                    return Err(NsecError::UnknownType(field));
                },
            }
            i = i + 1;
        }
        assert(tail.subrange(0, i - 1) =~= tail);
        Ok(Nsec { next_owner, types })
    }

    /// Canonical RDATA: the uncompressed next owner name followed by the bit map.
    pub fn rdata(&self) -> (r: Option<Vec<u8>>)
        ensures
            match r {
                Some(v) => nsec_rdata(self.next_owner@, self.types@) == Some(v@),
                None => nsec_rdata(self.next_owner@, self.types@) is None,
            },
    {
        let mut codes: Vec<u16> = Vec::new();
        let mut i: usize = 0;
        while i < self.types.len()
            invariant
                i <= self.types.len(),
                codes.len() == i,
                forall|k: int| 0 <= k < i ==> #[trigger] codes@[k] == type_code(self.types@[k]),
            decreases self.types.len() - i,
        {
            codes.push(self.types[i].wire_type());
            i = i + 1;
        }
        assert(codes@ =~= type_codes(self.types@));
        match canonical_name(self.next_owner.as_str()) {
            Some(name) => {
                let mut out = name;
                let bitmap = encode_type_bitmap(codes.as_slice());
                out.extend_from_slice(bitmap.as_slice());
                Some(out)
            },
            None => None,
        }
    }
}

/// A list with an unknown mnemonic in a prefix does not parse.
proof fn lemma_kinds_of_prefix(fields: Seq<Seq<char>>, n: int)
    requires
        0 <= n <= fields.len(),
        kinds_of(fields.subrange(0, n)) is None,
    ensures
        kinds_of(fields) is None,
    decreases fields.len() - n,
{
    if n == fields.len() {
        assert(fields.subrange(0, n) =~= fields);
    } else {
        let p = fields.subrange(0, n + 1);
        assert(p.drop_last() =~= fields.subrange(0, n));
        lemma_kinds_of_prefix(fields, n + 1);
    }
}

proof fn lemma_mnemonic_is_word(kind: RecordKind)
    ensures
        is_word(mnemonic(kind)),
{
    lemma_mnemonic_chars(kind);
    let m = mnemonic(kind);
    assert forall|i: int| 0 <= i < m.len() implies !white_space(#[trigger] m[i]) by {
        assert('A' <= m[i] <= 'Z' || m[i] == '3');
    }
}

proof fn lemma_nsec_text_words(next_owner: Seq<char>, types: Seq<RecordKind>)
    requires
        is_word(next_owner),
    ensures
        words(nsec_text(next_owner, types)).len() == types.len() + 1,
        words(nsec_text(next_owner, types))[0] == next_owner,
        kinds_of(words(nsec_text(next_owner, types)).drop_first()) == Some(types),
    decreases types.len(),
{
    if types.len() == 0 {
        lemma_words_single(next_owner);
        assert(words(next_owner).drop_first() =~= Seq::empty());
        assert(types =~= Seq::empty());
    } else {
        let d = types.drop_last();
        lemma_nsec_text_words(next_owner, d);
        let t = nsec_text(next_owner, d);
        let m = mnemonic(types.last());
        lemma_mnemonic_is_word(types.last());
        law_mnemonic_round_trip(types.last());
        lemma_words_append(t, m);
        let ws = words(nsec_text(next_owner, types));
        assert(ws == words(t).push(m));
        assert(ws.drop_first().drop_last() =~= words(t).drop_first());
        assert(ws.drop_first().last() == m);
        assert(d.push(types.last()) =~= types);
    }
}

/// The stored form parses back to the next owner and to the types in ascending order
/// of wire code, each once. The next owner has to be a single word, as every domain
/// name without blanks is.
pub proof fn law_nsec_value_round_trip(next_owner: Seq<char>, types: Seq<RecordKind>)
    requires
        is_word(next_owner),
    ensures
        nsec_parsed(nsec_text(next_owner, in_code_order(types))) == Some(
            (next_owner, in_code_order(types)),
        ),
{
    lemma_nsec_text_words(next_owner, in_code_order(types));
}

proof fn lemma_ascending_members(types: Seq<RecordKind>, n: nat, kind: RecordKind)
    requires
        n <= 24,
    ensures
        ascending(types, n).contains(kind) == (types.contains(kind) && exists|i: int|
            0 <= i < n && all_kinds()[i] == kind),
    decreases n,
{
    if n > 0 {
        let before = ascending(types, (n - 1) as nat);
        let last = all_kinds()[n - 1];
        lemma_ascending_members(types, (n - 1) as nat, kind);
        if types.contains(last) {
            let all = before.push(last);
            assert(all[all.len() - 1] == last);
            assert(all.contains(kind) == (before.contains(kind) || kind == last)) by {
                if before.contains(kind) {
                    let k = choose|k: int| 0 <= k < before.len() && before[k] == kind;
                    assert(all[k] == kind);
                }
                if all.contains(kind) {
                    let k = choose|k: int| 0 <= k < all.len() && all[k] == kind;
                    if k < before.len() {
                        assert(before[k] == kind);
                    }
                }
            }
        }
        if exists|i: int| 0 <= i < n && all_kinds()[i] == kind {
            let i = choose|i: int| 0 <= i < n && all_kinds()[i] == kind;
            if i < n - 1 {
                assert(0 <= i < n - 1 && all_kinds()[i] == kind);
            }
        }
    }
}

spec fn rank(kind: RecordKind) -> int {
    match kind {
        RecordKind::A => 0,
        RecordKind::NS => 1,
        RecordKind::CNAME => 2,
        RecordKind::SOA => 3,
        RecordKind::PTR => 4,
        RecordKind::MX => 5,
        RecordKind::TXT => 6,
        RecordKind::AAAA => 7,
        RecordKind::SRV => 8,
        RecordKind::CERT => 9,
        RecordKind::DNAME => 10,
        RecordKind::DS => 11,
        RecordKind::SSHFP => 12,
        RecordKind::RRSIG => 13,
        RecordKind::NSEC => 14,
        RecordKind::DNSKEY => 15,
        RecordKind::NSEC3 => 16,
        RecordKind::NSEC3PARAM => 17,
        RecordKind::TLSA => 18,
        RecordKind::ZONEMD => 19,
        RecordKind::SVCB => 20,
        RecordKind::HTTPS => 21,
        RecordKind::URI => 22,
        RecordKind::ANAME => 23,
    }
}

/// Putting types in code order neither adds nor drops one.
pub proof fn law_code_order_keeps_the_set(types: Seq<RecordKind>, kind: RecordKind)
    ensures
        in_code_order(types).contains(kind) == types.contains(kind),
{
    lemma_ascending_members(types, 24, kind);
    assert(all_kinds()[rank(kind)] == kind);
}

/// An NSEC record that went through its stored form has the same RDATA as before.
pub proof fn law_nsec_rdata_survives_storage(next_owner: Seq<char>, types: Seq<RecordKind>)
    ensures
        nsec_rdata(next_owner, in_code_order(types)) == nsec_rdata(next_owner, types),
{
    let a = type_codes(in_code_order(types));
    let b = type_codes(types);
    assert forall|t: u16| a.contains(t) == b.contains(t) by {
        if a.contains(t) {
            let i = choose|i: int| 0 <= i < a.len() && a[i] == t;
            let kind = in_code_order(types)[i];
            law_code_order_keeps_the_set(types, kind);
            let j = choose|j: int| 0 <= j < types.len() && types[j] == kind;
            assert(b[j] == t);
        }
        if b.contains(t) {
            let i = choose|i: int| 0 <= i < b.len() && b[i] == t;
            let kind = types[i];
            law_code_order_keeps_the_set(types, kind);
            let j = choose|j: int|
                0 <= j < in_code_order(types).len() && in_code_order(types)[j] == kind;
            assert(a[j] == t);
        }
    }
    law_bitmap_depends_on_the_set(a, b);
}

} // verus!
