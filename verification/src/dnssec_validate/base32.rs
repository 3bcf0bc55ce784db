//! Base32 with the extended hex alphabet (RFC 4648 section 7), unpadded, as the owner
//! labels of NSEC3 records are written.
use vstd::prelude::*;
use vstd::utf8::{encode_utf8, is_ascii_chars, is_ascii_chars_encode_utf8};

use crate::codec::octet_or_zero;
use crate::names::{lemma_octets_trichotomy, octets_lt};

verus! {

/// The digit for a number below 32.
pub open spec fn base32_digit(v: int) -> char {
    if v < 10 {
        ((0x30 + v) as u8) as char
    } else {
        ((0x41 + v - 10) as u8) as char
    }
}

/// The `i`-th group of five bits of `b`, counted from the most significant bit.
pub open spec fn five_bits(b: Seq<u8>, i: int) -> int {
    let at = i / 8 * 5;
    let m = i % 8;
    if m == 0 {
        octet_or_zero(b, at) / 8
    } else if m == 1 {
        octet_or_zero(b, at) % 8 * 4 + octet_or_zero(b, at + 1) / 64
    } else if m == 2 {
        octet_or_zero(b, at + 1) / 2 % 32
    } else if m == 3 {
        octet_or_zero(b, at + 1) % 2 * 16 + octet_or_zero(b, at + 2) / 16
    } else if m == 4 {
        octet_or_zero(b, at + 2) % 16 * 2 + octet_or_zero(b, at + 3) / 128
    } else if m == 5 {
        octet_or_zero(b, at + 3) / 4 % 32
    } else if m == 6 {
        octet_or_zero(b, at + 3) % 4 * 8 + octet_or_zero(b, at + 4) / 32
    } else {
        octet_or_zero(b, at + 4) % 32
    }
}

/// How many digits it takes to write `n` octets five bits at a time.
pub open spec fn base32_digits(n: nat) -> nat {
    (n * 8 + 4) / 5
}

/// Octets in base32 with the extended hex alphabet.
pub open spec fn base32_text(b: Seq<u8>) -> Seq<char> {
    Seq::new(base32_digits(b.len()), |i: int| base32_digit(five_bits(b, i)))
}

proof fn lemma_digits_bounds(n: nat)
    ensures
        5 * base32_digits(n) <= 8 * n + 4 < 5 * base32_digits(n) + 5,
{
    let d = (n * 8 + 4) / 5;
    assert(5 * d <= n * 8 + 4 < 5 * d + 5);
}

proof fn lemma_five_bits_range(b: Seq<u8>, i: int)
    requires
        0 <= i,
    ensures
        0 <= five_bits(b, i) < 32,
{
}

/// The octet `k` places behind `at`, or zero past the end.
fn octet_at(b: &[u8], at: usize, k: usize) -> (r: u8)
    requires
        at <= b@.len(),
    ensures
        r as int == octet_or_zero(b@, at + k),
{
    if k < b.len() - at {
        b[at + k]
    } else {
        0
    }
}

fn digit(v: u8) -> (r: char)
    requires
        v < 32,
    ensures
        r == base32_digit(v as int),
{
    if v < 10 {
        (0x30u8 + v) as char
    } else {
        (0x41u8 + (v - 10)) as char
    }
}

/// The digits of five octets, the first at `at`; octets past the end count as zero.
fn push_group(out: &mut Vec<char>, b: &[u8], at: usize)
    requires
        at % 5 == 0,
        at <= b@.len(),
    ensures
        final(out)@ == old(out)@ + Seq::new(
            8,
            |k: int| base32_digit(five_bits(b@, at as int / 5 * 8 + k)),
        ),
{
    let b0: u8 = octet_at(b, at, 0);
    let b1: u8 = octet_at(b, at, 1);
    let b2: u8 = octet_at(b, at, 2);
    let b3: u8 = octet_at(b, at, 3);
    let b4: u8 = octet_at(b, at, 4);
    out.push(digit(b0 / 8));
    out.push(digit(b0 % 8 * 4 + b1 / 64));
    out.push(digit(b1 / 2 % 32));
    out.push(digit(b1 % 2 * 16 + b2 / 16));
    out.push(digit(b2 % 16 * 2 + b3 / 128));
    out.push(digit(b3 / 4 % 32));
    out.push(digit(b3 % 4 * 8 + b4 / 32));
    out.push(digit(b4 % 32));
    proof {
        let g = at as int / 5;
        assert(at == g * 5);
        let want = Seq::new(8, |k: int| base32_digit(five_bits(b@, g * 8 + k)));
        assert forall|k: int| 0 <= k < 8 implies out@[old(out)@.len() + k] == want[k] by {
            assert((g * 8 + k) / 8 == g);
            assert((g * 8 + k) % 8 == k);
        }
        assert(out@ =~= old(out)@ + want);
    }
}

/// One group more.
proof fn lemma_next_group(before: Seq<char>, after: Seq<char>, b: Seq<u8>, at: int)
    requires
        0 <= at,
        at % 5 == 0,
        before == Seq::new((at / 5 * 8) as nat, |k: int| base32_digit(five_bits(b, k))),
        after == before + Seq::new(8, |k: int| base32_digit(five_bits(b, at / 5 * 8 + k))),
    ensures
        after == Seq::new(((at + 5) / 5 * 8) as nat, |k: int| base32_digit(five_bits(b, k))),
{
    let g = at / 5;
    assert((at + 5) / 5 == g + 1);
    let all = Seq::new(((g + 1) * 8) as nat, |k: int| base32_digit(five_bits(b, k)));
    assert forall|k: int| 0 <= k < all.len() implies after[k] == all[k] by {
        if k >= g * 8 {
            assert(after[k] == base32_digit(five_bits(b, g * 8 + (k - g * 8))));
        }
    }
    assert(after =~= all);
}

/// Base32hex, unpadded.
pub fn base32hex(bytes: &[u8]) -> (r: String)
    ensures
        r@ == base32_text(bytes@),
{
    let mut out: Vec<char> = Vec::new();
    let mut at: usize = 0;
    if bytes.len() == 0 {
        assert(out@ =~= base32_text(bytes@));
        return crate::text::string_of(out.as_slice());
    }
    while bytes.len() - at > 5
        invariant
            at % 5 == 0,
            at < bytes@.len(),
            out@ == Seq::new((at as int / 5 * 8) as nat, |k: int| base32_digit(five_bits(bytes@, k))),
        decreases bytes@.len() - at,
    {
        let ghost before = out@;
        push_group(&mut out, bytes, at);
        proof {
            lemma_next_group(before, out@, bytes@, at as int);
        }
        at = at + 5;
    }
    let ghost before = out@;
    push_group(&mut out, bytes, at);
    proof {
        lemma_next_group(before, out@, bytes@, at as int);
        lemma_digits_bounds(bytes@.len());
        let g = at as int / 5;
        assert(at == g * 5);
        assert((at + 5) as int / 5 == g + 1);
        assert((bytes@.len() + 4) / 5 == g + 1);
    }
    // A short last group has digits that stand for no octet.
    while out.len() > 0 && (out.len() - 1) / 8 * 5 + ((out.len() - 1) % 8 * 5) / 8 >= bytes.len()
        invariant
            out@.len() >= base32_digits(bytes@.len()),
            out@ == Seq::new(out@.len(), |k: int| base32_digit(five_bits(bytes@, k))),
            out@.len() <= (bytes@.len() + 4) / 5 * 8,
        decreases out.len(),
    {
        proof {
            lemma_digits_bounds(bytes@.len());
        }
        let ghost n = out@.len();
        out.pop();
        assert(out@ =~= Seq::new((n - 1) as nat, |k: int| base32_digit(five_bits(bytes@, k))));
    }
    proof {
        lemma_digits_bounds(bytes@.len());
        assert(out@ =~= base32_text(bytes@));
    }
    crate::text::string_of(out.as_slice())
}

/// The text is ASCII, so its UTF-8 octets are the digits themselves.
proof fn lemma_base32_octets(b: Seq<u8>)
    ensures
        encode_utf8(base32_text(b)).len() == base32_digits(b.len()),
        forall|i: int|
            0 <= i < base32_digits(b.len()) ==> #[trigger] encode_utf8(base32_text(b))[i]
                == base32_digit(five_bits(b, i)) as u8,
{
    let t = base32_text(b);
    assert forall|i: int| 0 <= i < t.len() implies '\0' <= #[trigger] t[i] <= '\u{7f}' by {
        lemma_five_bits_range(b, i);
    }
    assert(is_ascii_chars(t));
    is_ascii_chars_encode_utf8(t);
    assert forall|i: int| 0 <= i < base32_digits(b.len()) implies #[trigger] encode_utf8(t)[i]
        == base32_digit(five_bits(b, i)) as u8 by {
        assert(t[i] == base32_digit(five_bits(b, i)));
    }
}

/// Two octet strings that agree before `k` are ordered by what stands at `k`.
proof fn lemma_first_difference(a: Seq<u8>, b: Seq<u8>, k: int)
    requires
        0 <= k < a.len(),
        k < b.len(),
        forall|i: int| 0 <= i < k ==> a[i] == b[i],
        a[k] != b[k],
    ensures
        octets_lt(a, b) == (a[k] < b[k]),
    decreases k,
{
    if k > 0 {
        let da = a.drop_first();
        let db = b.drop_first();
        assert(a[0] == b[0]);
        assert forall|i: int| 0 <= i < k - 1 implies da[i] == db[i] by {
            assert(da[i] == a[i + 1] && db[i] == b[i + 1]);
        }
        lemma_first_difference(da, db, k - 1);
    }
}

/// The first octet in which two different strings of one length differ.
proof fn lemma_find_difference(a: Seq<u8>, b: Seq<u8>, n: int) -> (k: int)
    requires
        a.len() == b.len(),
        0 <= n <= a.len(),
        forall|i: int| 0 <= i < n ==> a[i] == b[i],
        a != b,
    ensures
        n <= k < a.len(),
        a[k] != b[k],
        forall|i: int| 0 <= i < k ==> a[i] == b[i],
    decreases a.len() - n,
{
    if n == a.len() {
        assert(a =~= b);
        0
    } else if a[n] != b[n] {
        n
    } else {
        lemma_find_difference(a, b, n + 1)
    }
}

/// The digits that octet `k` is spread over decide as the octet does.
proof fn lemma_digits_decide(a: Seq<u8>, b: Seq<u8>, k: int) -> (d: int)
    requires
        a.len() == b.len(),
        0 <= k < a.len(),
        forall|i: int| 0 <= i < k ==> a[i] == b[i],
        a[k] < b[k],
    ensures
        0 <= d < base32_digits(a.len()),
        five_bits(a, d) < five_bits(b, d),
        forall|i: int| 0 <= i < d ==> five_bits(a, i) == five_bits(b, i),
{
    let n = a.len() as int;
    lemma_digits_bounds(a.len());
    let g = k / 5;
    let m = k % 5;
    assert(k == g * 5 + m);
    let x = a[k] as int;
    let y = b[k] as int;
    // Digits wholly before octet k.
    assert forall|i: int| 0 <= i && (i * 5 + 4) / 8 < k implies five_bits(a, i) == five_bits(b, i) by {
        let at = i / 8 * 5;
        let r = i % 8;
        assert(i == i / 8 * 8 + r);
        assert((i * 5 + 4) / 8 == at + (r * 5 + 4) / 8);
        assert forall|j: int| 0 <= j < k implies octet_or_zero(a, j) == octet_or_zero(b, j) by {}
        assert(0 <= at);
    }
    let d = if m == 0 {
        if x / 8 != y / 8 { g * 8 } else { g * 8 + 1 }
    } else if m == 1 {
        if x / 64 != y / 64 {
            g * 8 + 1
        } else if x / 2 % 32 != y / 2 % 32 {
            g * 8 + 2
        } else {
            g * 8 + 3
        }
    } else if m == 2 {
        if x / 16 != y / 16 { g * 8 + 3 } else { g * 8 + 4 }
    } else if m == 3 {
        if x / 128 != y / 128 {
            g * 8 + 4
        } else if x / 4 % 32 != y / 4 % 32 {
            g * 8 + 5
        } else {
            g * 8 + 6
        }
    } else {
        if x / 32 != y / 32 { g * 8 + 6 } else { g * 8 + 7 }
    };
    assert(octet_or_zero(a, k) == x && octet_or_zero(b, k) == y);
    assert forall|j: int| 0 <= j < k implies octet_or_zero(a, j) == octet_or_zero(b, j) by {}
    assert(d < base32_digits(a.len())) by {
        let r = d - g * 8;
        assert(d / 8 == g && d % 8 == r);
        assert(5 * d < 8 * k + 8);
    }
    lemma_digit_step(a, b, k, d);
    assert forall|i: int| 0 <= i < d implies five_bits(a, i) == five_bits(b, i) by {
        if (i * 5 + 4) / 8 >= k {
            // One of the digits that octet k begins in or passes through.
            let r = i - g * 8;
            assert(i >= g * 8);
            assert(i / 8 == g && i % 8 == r);
        }
    }
    d
}

/// The arithmetic of one digit.
proof fn lemma_digit_step(a: Seq<u8>, b: Seq<u8>, k: int, d: int)
    requires
        a.len() == b.len(),
        0 <= k < a.len(),
        forall|i: int| 0 <= i < k ==> a[i] == b[i],
        a[k] < b[k],
        ({
            let g = k / 5;
            let m = k % 5;
            let x = a[k] as int;
            let y = b[k] as int;
            d == if m == 0 {
                if x / 8 != y / 8 { g * 8 } else { g * 8 + 1 }
            } else if m == 1 {
                if x / 64 != y / 64 {
                    g * 8 + 1
                } else if x / 2 % 32 != y / 2 % 32 {
                    g * 8 + 2
                } else {
                    g * 8 + 3
                }
            } else if m == 2 {
                if x / 16 != y / 16 { g * 8 + 3 } else { g * 8 + 4 }
            } else if m == 3 {
                if x / 128 != y / 128 {
                    g * 8 + 4
                } else if x / 4 % 32 != y / 4 % 32 {
                    g * 8 + 5
                } else {
                    g * 8 + 6
                }
            } else {
                if x / 32 != y / 32 { g * 8 + 6 } else { g * 8 + 7 }
            }
        }),
    ensures
        five_bits(a, d) < five_bits(b, d),
{
    let g = k / 5;
    let m = k % 5;
    assert(k == g * 5 + m);
    let r = d - g * 8;
    assert(d / 8 == g && d % 8 == r);
    let x = a[k] as int;
    let y = b[k] as int;
    assert(octet_or_zero(a, k) == x && octet_or_zero(b, k) == y);
    assert forall|j: int| 0 <= j < k implies octet_or_zero(a, j) == octet_or_zero(b, j) by {}
    let xn = octet_or_zero(a, k + 1);
    let yn = octet_or_zero(b, k + 1);
    let p = octet_or_zero(a, k - 1);
    assert(m > 0 ==> octet_or_zero(b, k - 1) == p);
    if m == 0 {
        lemma_step_0(x, y, xn, yn);
    } else if m == 1 {
        lemma_step_1(p, x, y, xn, yn);
    } else if m == 2 {
        lemma_step_2(p, x, y, xn, yn);
    } else if m == 3 {
        lemma_step_3(p, x, y, xn, yn);
    } else {
        lemma_step_4(p, x, y);
    }
}

proof fn lemma_step_0(x: int, y: int, xn: int, yn: int)
    requires
        0 <= x < y < 256,
        0 <= xn < 256,
        0 <= yn < 256,
    ensures
        x / 8 != y / 8 ==> x / 8 < y / 8,
        x / 8 == y / 8 ==> x % 8 * 4 + xn / 64 < y % 8 * 4 + yn / 64,
{
}

proof fn lemma_step_1(p: int, x: int, y: int, xn: int, yn: int)
    requires
        0 <= x < y < 256,
        0 <= xn < 256,
        0 <= yn < 256,
    ensures
        x / 64 != y / 64 ==> p % 8 * 4 + x / 64 < p % 8 * 4 + y / 64,
        x / 64 == y / 64 && x / 2 % 32 != y / 2 % 32 ==> x / 2 % 32 < y / 2 % 32,
        x / 64 == y / 64 && x / 2 % 32 == y / 2 % 32 ==> x % 2 * 16 + xn / 16 < y % 2 * 16 + yn
            / 16,
{
    assert(x / 2 == x / 64 * 32 + x / 2 % 32);
    assert(y / 2 == y / 64 * 32 + y / 2 % 32);
}

proof fn lemma_step_2(p: int, x: int, y: int, xn: int, yn: int)
    requires
        0 <= x < y < 256,
        0 <= xn < 256,
        0 <= yn < 256,
    ensures
        x / 16 != y / 16 ==> p % 2 * 16 + x / 16 < p % 2 * 16 + y / 16,
        x / 16 == y / 16 ==> x % 16 * 2 + xn / 128 < y % 16 * 2 + yn / 128,
{
}

proof fn lemma_step_3(p: int, x: int, y: int, xn: int, yn: int)
    requires
        0 <= x < y < 256,
        0 <= xn < 256,
        0 <= yn < 256,
    ensures
        x / 128 != y / 128 ==> p % 16 * 2 + x / 128 < p % 16 * 2 + y / 128,
        x / 128 == y / 128 && x / 4 % 32 != y / 4 % 32 ==> x / 4 % 32 < y / 4 % 32,
        x / 128 == y / 128 && x / 4 % 32 == y / 4 % 32 ==> x % 4 * 8 + xn / 32 < y % 4 * 8 + yn
            / 32,
{
    assert(x / 4 == x / 128 * 32 + x / 4 % 32);
    assert(y / 4 == y / 128 * 32 + y / 4 % 32);
}

proof fn lemma_step_4(p: int, x: int, y: int)
    requires
        0 <= x < y < 256,
    ensures
        x / 32 != y / 32 ==> p % 4 * 8 + x / 32 < p % 4 * 8 + y / 32,
        x / 32 == y / 32 ==> x % 32 < y % 32,
{
}

/// Base32hex keeps the order of octet strings of one length, so comparing the text
/// compares what it stands for.
pub proof fn law_base32hex_preserves_order(a: Seq<u8>, b: Seq<u8>)
    requires
        a.len() == b.len(),
    ensures
        octets_lt(encode_utf8(base32_text(a)), encode_utf8(base32_text(b))) == octets_lt(a, b),
        base32_text(a) == base32_text(b) <==> a == b,
{
    let ta = encode_utf8(base32_text(a));
    let tb = encode_utf8(base32_text(b));
    lemma_base32_octets(a);
    lemma_base32_octets(b);
    lemma_octets_trichotomy(ta, tb);
    lemma_octets_trichotomy(a, b);
    if a != b {
        let k = lemma_find_difference(a, b, 0);
        lemma_first_difference(a, b, k);
        let (lo, hi) = if a[k] < b[k] {
            (a, b)
        } else {
            (b, a)
        };
        let d = lemma_digits_decide(lo, hi, k);
        assert forall|i: int| 0 <= i < d implies ta[i] == tb[i] by {
            assert(five_bits(lo, i) == five_bits(hi, i));
        }
        lemma_five_bits_range(a, d);
        lemma_five_bits_range(b, d);
        assert(ta[d] == base32_digit(five_bits(a, d)) as u8);
        assert(tb[d] == base32_digit(five_bits(b, d)) as u8);
        lemma_first_difference(ta, tb, d);
    }
}

} // verus!
