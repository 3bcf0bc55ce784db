//! Encodings of plain values: network byte order, hexadecimal, base64, and the text
//! forms of addresses.
use vstd::prelude::*;
use vstd::string::*;

use crate::text::texts;

verus! {

broadcast use vstd::string::group_string_axioms;

// ---------------------------------------------------------------------------
// Network byte order
// ---------------------------------------------------------------------------
/// A 16-bit number, most significant octet first.
pub open spec fn be16(x: u16) -> Seq<u8> {
    seq![(x / 256) as u8, (x % 256) as u8]
}

/// A 32-bit number, most significant octet first.
pub open spec fn be32(x: u32) -> Seq<u8> {
    seq![
        (x / 0x100_0000) as u8,
        (x / 0x1_0000 % 256) as u8,
        (x / 256 % 256) as u8,
        (x % 256) as u8,
    ]
}

/// The 16 octets of a 128-bit number, most significant first.
pub open spec fn be128(x: u128) -> Seq<u8> {
    Seq::new(16, |i: int| (x as int / vstd::arithmetic::power::pow(256, (15 - i) as nat) % 256) as u8)
}

/// Appends a 16-bit number in network byte order.
pub fn push_be16(out: &mut Vec<u8>, x: u16)
    ensures
        final(out)@ == old(out)@ + be16(x),
{
    out.push((x / 256) as u8);
    out.push((x % 256) as u8);
    assert(out@ =~= old(out)@ + be16(x));
}

/// Appends a 32-bit number in network byte order.
pub fn push_be32(out: &mut Vec<u8>, x: u32)
    ensures
        final(out)@ == old(out)@ + be32(x),
{
    out.push((x / 0x100_0000) as u8);
    out.push((x / 0x1_0000 % 256) as u8);
    out.push((x / 256 % 256) as u8);
    out.push((x % 256) as u8);
    assert(out@ =~= old(out)@ + be32(x));
}

/// Appends the 16 octets of a 128-bit number.
pub fn push_be128(out: &mut Vec<u8>, x: u128)
    ensures
        final(out)@ == old(out)@ + be128(x),
{
    let mut rest: u128 = x;
    let mut low: Vec<u8> = Vec::new();
    let mut i: usize = 0;
    proof {
        reveal_with_fuel(vstd::arithmetic::power::pow, 2);
    }
    while i < 16
        invariant
            i <= 16,
            low.len() == i,
            rest == x as int / vstd::arithmetic::power::pow(256, i as nat),
            forall|k: int|
                0 <= k < i ==> #[trigger] low@[k] == (x as int / vstd::arithmetic::power::pow(
                    256,
                    k as nat,
                ) % 256) as u8,
        decreases 16 - i,
    {
        low.push((rest % 256) as u8);
        proof {
            vstd::arithmetic::power::lemma_pow_positive(256, i as nat);
            vstd::arithmetic::div_mod::lemma_div_denominator(
                x as int,
                vstd::arithmetic::power::pow(256, i as nat),
                256,
            );
            vstd::arithmetic::power::lemma_pow_adds(256, i as nat, 1);
            vstd::arithmetic::power::lemma_pow1(256);
        }
        rest = rest / 256;
        i = i + 1;
    }
    let ghost start = out@;
    while i > 0
        invariant
            i <= 16,
            low.len() == 16,
            out@ == start + be128(x).subrange(0, 16 - i),
            forall|k: int|
                0 <= k < 16 ==> #[trigger] low@[k] == (x as int / vstd::arithmetic::power::pow(
                    256,
                    k as nat,
                ) % 256) as u8,
        decreases i,
    {
        i = i - 1;
        out.push(low[i]);
        proof {
            assert(be128(x)[15 - i] == low@[i as int]);
            assert(out@ =~= start + be128(x).subrange(0, 16 - i));
        }
    }
    assert(be128(x).subrange(0, 16) =~= be128(x));
}

/// The 16-bit number in the first two octets of `b`.
pub open spec fn read16(b: Seq<u8>, at: int) -> u16 {
    (b[at] * 256 + b[at + 1]) as u16
}

/// Reads the 16-bit number at `at`.
pub fn read_be16(b: &[u8], at: usize) -> (r: u16)
    requires
        at + 2 <= b@.len(),
    ensures
        r == read16(b@, at as int),
{
    (b[at] as u16) * 256 + (b[at + 1] as u16)
}

// ---------------------------------------------------------------------------
// Hexadecimal
// ---------------------------------------------------------------------------
/// The value of a hexadecimal digit of either case.
pub open spec fn hex_digit(c: char) -> Option<int> {
    if '0' <= c <= '9' {
        Some(c as int - '0' as int)
    } else if 'a' <= c <= 'f' {
        Some(c as int - 'a' as int + 10)
    } else if 'A' <= c <= 'F' {
        Some(c as int - 'A' as int + 10)
    } else {
        None
    }
}

/// The octets that pairs of hexadecimal digits denote.
pub open spec fn hex_decoded(s: Seq<char>) -> Option<Seq<u8>> {
    if s.len() % 2 == 0 && forall|i: int| 0 <= i < s.len() ==> hex_digit(#[trigger] s[i]) is Some {
        Some(
            Seq::new(
                s.len() / 2,
                |i: int| (hex_digit(s[2 * i])->0 * 16 + hex_digit(s[2 * i + 1])->0) as u8,
            ),
        )
    } else {
        None
    }
}

/// One lowercase hexadecimal digit.
pub open spec fn hex_char(v: int) -> char {
    if v < 10 {
        ((0x30 + v) as u8) as char
    } else {
        ((0x61 + v - 10) as u8) as char
    }
}

/// Octets as pairs of lowercase hexadecimal digits.
pub open spec fn hex_encoded(b: Seq<u8>) -> Seq<char> {
    Seq::new(
        2 * b.len(),
        |i: int|
            if i % 2 == 0 {
                hex_char(b[i / 2] as int / 16)
            } else {
                hex_char(b[i / 2] as int % 16)
            },
    )
}

/// `hex::decode`: an even number of hexadecimal digits of either case, and nothing
/// else, decodes to one octet for each pair.
#[verifier::external_body]
pub(crate) fn hex_decode(s: &str) -> (r: Option<Vec<u8>>)
    ensures
        match r {
            Some(v) => hex_decoded(s@) == Some(v@),
            None => hex_decoded(s@) is None,
        },
{
    hex::decode(s).ok()
}

/// `hex::encode`: two lowercase hexadecimal digits for each octet.
#[verifier::external_body]
pub(crate) fn hex_encode(b: &[u8]) -> (r: String)
    ensures
        r@ == hex_encoded(b@),
{
    hex::encode(b)
}

// ---------------------------------------------------------------------------
// Base64
// ---------------------------------------------------------------------------
/// The alphabet of RFC 4648: section 4, or section 5 where `url` is set.
pub open spec fn base64_digit(v: int, url: bool) -> char {
    if v < 26 {
        ((0x41 + v) as u8) as char
    } else if v < 52 {
        ((0x61 + v - 26) as u8) as char
    } else if v < 62 {
        ((0x30 + v - 52) as u8) as char
    } else if v == 62 {
        if url { '-' } else { '+' }
    } else {
        if url { '_' } else { '/' }
    }
}

pub open spec fn octet_or_zero(b: Seq<u8>, i: int) -> int {
    if 0 <= i < b.len() {
        b[i] as int
    } else {
        0
    }
}

/// The `i`-th group of six bits of `b`, counted from the most significant bit.
pub open spec fn six_bits(b: Seq<u8>, i: int) -> int {
    let at = i / 4 * 3;
    if i % 4 == 0 {
        octet_or_zero(b, at) / 4
    } else if i % 4 == 1 {
        octet_or_zero(b, at) % 4 * 16 + octet_or_zero(b, at + 1) / 16
    } else if i % 4 == 2 {
        octet_or_zero(b, at + 1) % 16 * 4 + octet_or_zero(b, at + 2) / 64
    } else {
        octet_or_zero(b, at + 2) % 64
    }
}

/// How many digits it takes to write `n` octets six bits at a time.
pub open spec fn base64_digits(n: nat) -> nat {
    (n * 8 + 5) / 6
}

/// Octets in base64 with the URL-safe alphabet and no padding.
pub open spec fn base64url_text(b: Seq<u8>) -> Seq<char> {
    Seq::new(base64_digits(b.len()), |i: int| base64_digit(six_bits(b, i), true))
}

/// Octets in base64 with the standard alphabet, padded to a multiple of four.
pub open spec fn base64_text(b: Seq<u8>) -> Seq<char> {
    Seq::new(
        (b.len() + 2) / 3 * 4,
        |i: int|
            if i < base64_digits(b.len()) {
                base64_digit(six_bits(b, i), false)
            } else {
                '='
            },
    )
}

/// The octets whose base64 form is `s`.
pub open spec fn base64_decoded(s: Seq<char>) -> Option<Seq<u8>> {
    if exists|b: Seq<u8>| base64_text(b) == s {
        Some(choose|b: Seq<u8>| base64_text(b) == s)
    } else {
        None
    }
}

/// The octets whose URL-safe base64 form is `s`.
pub open spec fn base64url_decoded(s: Seq<char>) -> Option<Seq<u8>> {
    if exists|b: Seq<u8>| base64url_text(b) == s {
        Some(choose|b: Seq<u8>| base64url_text(b) == s)
    } else {
        None
    }
}

/// `base64::Engine::encode` of the engine `STANDARD`: the standard alphabet, with
/// padding.
#[verifier::external_body]
pub(crate) fn base64_encode(b: &[u8]) -> (r: String)
    ensures
        r@ == base64_text(b@),
{
    base64::Engine::encode(&base64::engine::general_purpose::STANDARD, b)
}

/// What `base64` says of a text that is not padded standard base64.
pub uninterp spec fn base64_fault(s: Seq<char>) -> Seq<char>;

/// `base64::Engine::decode` of the engine `STANDARD`. It accepts canonical padding
/// and no stray trailing bits, so it accepts exactly the texts that the engine
/// encodes something to. Of any other it says what is wrong with it.
#[verifier::external_body]
fn standard_decode(s: &str) -> (r: Result<Vec<u8>, String>)
    ensures
        match r {
            Ok(v) => base64_text(v@) == s@,
            Err(e) => base64_decoded(s@) is None && e@ == base64_fault(s@),
        },
{
    base64::Engine::decode(&base64::engine::general_purpose::STANDARD, s)
        .map_err(|e| e.to_string())
}

/// `base64::Engine::decode` of the engine `URL_SAFE_NO_PAD`. It accepts no padding
/// and no stray trailing bits, so it accepts exactly the texts that the engine
/// encodes something to.
#[verifier::external_body]
fn url_safe_decode(s: &str) -> (r: Option<Vec<u8>>)
    ensures
        match r {
            Some(v) => base64url_text(v@) == s@,
            None => base64url_decoded(s@) is None,
        },
{
    base64::Engine::decode(&base64::engine::general_purpose::URL_SAFE_NO_PAD, s).ok()
}

proof fn lemma_digit_injective(v: int, w: int, url: bool)
    requires
        0 <= v < 64,
        0 <= w < 64,
        base64_digit(v, url) == base64_digit(w, url),
    ensures
        v == w,
{
    let dv = base64_digit(v, url);
    assert(dv as int == if v < 26 {
        0x41 + v
    } else if v < 52 {
        0x61 + v - 26
    } else if v < 62 {
        0x30 + v - 52
    } else if v == 62 {
        if url { 0x2dint } else { 0x2bint }
    } else {
        if url { 0x5fint } else { 0x2fint }
    });
    let dw = base64_digit(w, url);
    assert(dw as int == if w < 26 {
        0x41 + w
    } else if w < 52 {
        0x61 + w - 26
    } else if w < 62 {
        0x30 + w - 52
    } else if w == 62 {
        if url { 0x2dint } else { 0x2bint }
    } else {
        if url { 0x5fint } else { 0x2fint }
    });
}

proof fn lemma_six_bits_range(b: Seq<u8>, i: int)
    requires
        0 <= i,
    ensures
        0 <= six_bits(b, i) < 64,
{
}

/// A digit is never the padding.
pub proof fn lemma_digit_is_no_padding(b: Seq<u8>, i: int)
    requires
        0 <= i,
    ensures
        base64_digit(six_bits(b, i), true) != '=',
{
    lemma_six_bits_range(b, i);
    let v = six_bits(b, i);
    let d = base64_digit(v, true);
    assert(d as int == if v < 26 {
        0x41 + v
    } else if v < 52 {
        0x61 + v - 26
    } else if v < 62 {
        0x30 + v - 52
    } else if v == 62 {
        0x2d
    } else {
        0x5f
    });
}

proof fn lemma_digits_bounds(n: nat)
    ensures
        6 * base64_digits(n) <= 8 * n + 5 < 6 * base64_digits(n) + 6,
        base64_digits(n) <= (n + 2) / 3 * 4,
{
    let q = (n + 2) / 3;
    assert(3 * q <= n + 2 < 3 * q + 3);
    let d = (n * 8 + 5) / 6;
    assert(6 * d <= n * 8 + 5 < 6 * d + 6);
    assert(base64_digits(n) == d);
}

/// Equal groups of six bits come from equal octets.
proof fn lemma_six_bits_determine(a: Seq<u8>, b: Seq<u8>)
    requires
        a.len() == b.len(),
        forall|i: int|
            0 <= i < base64_digits(a.len()) ==> #[trigger] six_bits(a, i) == six_bits(b, i),
    ensures
        a == b,
{
    assert forall|k: int| 0 <= k < a.len() implies a[k] == b[k] by {
        let g = k / 3 * 4;
        let m = k % 3;
        let n = a.len() as int;
        // The two digits that octet k is spread over.
        let i = g + m;
        assert(i + 1 < base64_digits(a.len())) by {
            assert((n * 8 + 5) / 6 > i + 1) by {
                assert(k == k / 3 * 3 + m);
                assert(6 * (i + 2) <= n * 8 + 5);
            }
        }
        assert(six_bits(a, i) == six_bits(b, i));
        assert(six_bits(a, i + 1) == six_bits(b, i + 1));
        assert(i / 4 * 3 == k / 3 * 3);
        assert((i + 1) / 4 * 3 == k / 3 * 3);
        assert(i % 4 == m);
        assert((i + 1) % 4 == m + 1);
        let xa = octet_or_zero(a, k);
        let xb = octet_or_zero(b, k);
        if m == 0 {
            assert(xa / 4 == xb / 4);
            assert(xa % 4 == xb % 4);
        } else if m == 1 {
            assert(xa / 16 == xb / 16);
            assert(xa % 16 == xb % 16);
        } else {
            assert(xa / 64 == xb / 64);
            assert(xa % 64 == xb % 64);
        }
    }
    assert(a =~= b);
}

/// No two octet strings have the same base64 form.
pub proof fn law_base64_is_injective(a: Seq<u8>, b: Seq<u8>)
    requires
        base64_text(a) == base64_text(b),
    ensures
        a == b,
{
    let ta = base64_text(a);
    let tb = base64_text(b);
    let na = base64_digits(a.len()) as int;
    let nb = base64_digits(b.len()) as int;
    assert(ta.len() == (a.len() + 2) / 3 * 4);
    assert(tb.len() == (b.len() + 2) / 3 * 4);
    lemma_digits_bounds(a.len());
    lemma_digits_bounds(b.len());
    // A digit is never the padding character, so both have as many digits.
    assert forall|i: int| 0 <= i < na implies ta[i] != '=' by {
        lemma_six_bits_range(a, i);
    }
    assert forall|i: int| 0 <= i < nb implies tb[i] != '=' by {
        lemma_six_bits_range(b, i);
    }
    if na < nb {
        assert(ta[na] == '=');
        assert(tb[na] != '=');
    }
    if nb < na {
        assert(tb[nb] == '=');
        assert(ta[nb] != '=');
    }
    assert(a.len() == b.len());
    assert forall|i: int| 0 <= i < base64_digits(a.len()) implies #[trigger] six_bits(a, i)
        == six_bits(b, i) by {
        lemma_six_bits_range(a, i);
        lemma_six_bits_range(b, i);
        assert(ta[i] == base64_digit(six_bits(a, i), false));
        assert(tb[i] == base64_digit(six_bits(b, i), false));
        lemma_digit_injective(six_bits(a, i), six_bits(b, i), false);
    }
    lemma_six_bits_determine(a, b);
}

/// No two octet strings have the same URL-safe base64 form.
pub proof fn law_base64url_is_injective(a: Seq<u8>, b: Seq<u8>)
    requires
        base64url_text(a) == base64url_text(b),
    ensures
        a == b,
{
    let ta = base64url_text(a);
    let tb = base64url_text(b);
    lemma_digits_bounds(a.len());
    lemma_digits_bounds(b.len());
    assert(ta.len() == base64_digits(a.len()));
    assert(tb.len() == base64_digits(b.len()));
    assert(a.len() == b.len());
    assert forall|i: int| 0 <= i < base64_digits(a.len()) implies #[trigger] six_bits(a, i)
        == six_bits(b, i) by {
        lemma_six_bits_range(a, i);
        lemma_six_bits_range(b, i);
        assert(ta[i] == base64_digit(six_bits(a, i), true));
        assert(tb[i] == base64_digit(six_bits(b, i), true));
        lemma_digit_injective(six_bits(a, i), six_bits(b, i), true);
    }
    lemma_six_bits_determine(a, b);
}

/// Decoding gives back what was encoded.
pub proof fn law_base64_round_trip(b: Seq<u8>)
    ensures
        base64_decoded(base64_text(b)) == Some(b),
{
    let d = choose|d: Seq<u8>| base64_text(d) == base64_text(b);
    law_base64_is_injective(d, b);
}

/// Decoding gives back what was encoded with the URL-safe alphabet.
pub proof fn law_base64url_round_trip(b: Seq<u8>)
    ensures
        base64url_decoded(base64url_text(b)) == Some(b),
{
    let d = choose|d: Seq<u8>| base64url_text(d) == base64url_text(b);
    law_base64url_is_injective(d, b);
}

/// Decodes padded standard base64.
pub fn base64_decode(s: &str) -> (r: Option<Vec<u8>>)
    ensures
        match r {
            Some(v) => base64_decoded(s@) == Some(v@),
            None => base64_decoded(s@) is None,
        },
{
    match standard_decode(s) {
        Ok(v) => {
            proof {
                law_base64_round_trip(v@);
            }
            Some(v)
        },
        Err(_) => None,
    }
}

/// Says what is wrong with a text that is not padded standard base64.
pub fn base64_complaint(s: &str) -> (r: String)
    requires
        base64_decoded(s@) is None,
    ensures
        r@ == base64_fault(s@),
{
    match standard_decode(s) {
        Ok(v) => {
            proof {
                law_base64_round_trip(v@);
            }
            String::new()
        },
        Err(e) => e,
    }
}

/// Decodes unpadded URL-safe base64.
pub fn base64url_decode(s: &str) -> (r: Option<Vec<u8>>)
    ensures
        match r {
            Some(v) => base64url_decoded(s@) == Some(v@),
            None => base64url_decoded(s@) is None,
        },
{
    let r = url_safe_decode(s);
    proof {
        if r is Some {
            law_base64url_round_trip(r->0@);
        }
    }
    r
}

} // verus!
