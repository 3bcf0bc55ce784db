//! Internet addresses, socket addresses and address prefixes as plain numbers.
use vstd::arithmetic::power2::pow2;
use vstd::prelude::*;
use vstd::slice::slice_subrange;
use vstd::string::*;

use crate::text::{
    chars_of, decimal, is_digit, lemma_decimal, lemma_split_nonempty, parse_digits,
    parse_digits_max, push_decimal, split, split_chars, string_of, texts,
};

verus! {

broadcast use vstd::string::group_string_axioms;

/// An IPv4 or IPv6 address, as the number its octets spell in network byte order.
#[derive(Clone, Copy, Debug, PartialEq, Eq, Structural)]
pub enum IpAddress {
    V4(u32),
    V6(u128),
}

// ---------------------------------------------------------------------------
// Text forms
// ---------------------------------------------------------------------------
/// One octet of a dotted quad: one to three decimal digits, no superfluous leading
/// zero, at most 255.
pub open spec fn octet_of(s: Seq<char>) -> Option<nat> {
    if 1 <= s.len() <= 3 && (s.len() > 1 ==> s[0] != '0') {
        parse_digits(s, 255)
    } else {
        None
    }
}

/// The IPv4 address that a dotted quad denotes.
pub open spec fn ipv4_of(s: Seq<char>) -> Option<u32> {
    let parts = split(s, '.');
    if parts.len() == 4 && octet_of(parts[0]) is Some && octet_of(parts[1]) is Some && octet_of(
        parts[2],
    ) is Some && octet_of(parts[3]) is Some {
        Some(
            (octet_of(parts[0])->0 * 0x100_0000 + octet_of(parts[1])->0 * 0x1_0000 + octet_of(
                parts[2],
            )->0 * 256 + octet_of(parts[3])->0) as u32,
        )
    } else {
        None
    }
}

/// The dotted quad of an IPv4 address.
pub open spec fn ipv4_text(a: u32) -> Seq<char> {
    decimal(a as nat / 0x100_0000).push('.') + decimal(a as nat / 0x1_0000 % 256).push('.')
        + decimal(a as nat / 256 % 256).push('.') + decimal(a as nat % 256)
}

/// What the standard library's IPv6 parser makes of a text.
pub uninterp spec fn ipv6_of(s: Seq<char>) -> Option<u128>;

/// What the standard library renders an IPv6 address as.
pub uninterp spec fn ipv6_text(a: u128) -> Seq<char>;

/// A character of an IPv6 address in text form.
pub open spec fn ipv6_char(c: char) -> bool {
    is_digit(c) || 'a' <= c <= 'f' || c == ':' || c == '.'
}

/// `hickory_proto::rr::rdata::AAAA`'s `from_str`, which hands the text to the parser
/// of `Ipv6Addr`. What it accepts depends on the text alone.
#[verifier::external_body]
fn parse_ipv6(s: &str) -> (r: Option<u128>)
    ensures
        r == ipv6_of(s@),
{
    let parsed: Result<hickory_proto::rr::rdata::AAAA, _> = s.parse();
    parsed.ok().map(|a| u128::from_be_bytes(a.0.octets()))
}

/// `hickory_proto::rr::rdata::AAAA`'s `to_string`, which renders `Ipv6Addr` in the
/// form of RFC 5952: lowercase hexadecimal digits, colons, and dots in a trailing
/// dotted quad. The text begins with a digit or a colon, and it parses back to the
/// address it was made from.
#[verifier::external_body]
fn render_ipv6(a: u128) -> (r: String)
    ensures
        r@ == ipv6_text(a),
        r@.len() > 0,
        forall|i: int| 0 <= i < r@.len() ==> ipv6_char(#[trigger] r@[i]),
        r@.contains(':'),
        ipv6_of(r@) == Some(a),
{
    let address = hickory_proto::rr::rdata::AAAA(a.into());
    address.to_string()
}

/// Parses an octet of a dotted quad.
fn parse_octet(s: &[char]) -> (r: Option<u32>)
    ensures
        match r {
            Some(v) => octet_of(s@) == Some(v as nat) && v <= 255,
            None => octet_of(s@) is None,
        },
{
    if s.len() == 0 || s.len() > 3 || (s.len() > 1 && s[0] == '0') {
        return None;
    }
    match parse_digits_max(s, 255) {
        Some(v) => Some(v as u32),
        None => None,
    }
}

/// Parses a dotted quad.
pub fn parse_ipv4(s: &[char]) -> (r: Option<u32>)
    ensures
        r == ipv4_of(s@),
{
    let parts = split_chars(s, '.');
    let ghost p = texts(parts@);
    if parts.len() != 4 {
        return None;
    }
    assert(p[0] == parts@[0]@ && p[1] == parts@[1]@ && p[2] == parts@[2]@ && p[3] == parts@[3]@);
    match (
        parse_octet(parts[0].as_slice()),
        parse_octet(parts[1].as_slice()),
        parse_octet(parts[2].as_slice()),
        parse_octet(parts[3].as_slice()),
    ) {
        (Some(a), Some(b), Some(c), Some(d)) => Some(a * 0x100_0000 + b * 0x1_0000 + c * 256 + d),
        _ => None,
    }
}

/// The address that a text denotes: a dotted quad, or else an IPv6 address.
pub open spec fn ip_of(s: Seq<char>) -> Option<IpAddress> {
    if ipv4_of(s) is Some {
        Some(IpAddress::V4(ipv4_of(s)->0))
    } else if ipv6_of(s) is Some {
        Some(IpAddress::V6(ipv6_of(s)->0))
    } else {
        None
    }
}

/// The text form of an address.
pub open spec fn ip_text(ip: IpAddress) -> Seq<char> {
    match ip {
        IpAddress::V4(a) => ipv4_text(a),
        IpAddress::V6(a) => ipv6_text(a),
    }
}

/// Parses an IPv4 address from text.
pub fn ipv4_from_str(s: &str) -> (r: Option<u32>)
    ensures
        r == ipv4_of(s@),
{
    let chars = chars_of(s);
    parse_ipv4(chars.as_slice())
}

/// Parses an IPv6 address from text.
pub fn ipv6_from_str(s: &str) -> (r: Option<u128>)
    ensures
        r == ipv6_of(s@),
{
    parse_ipv6(s)
}

/// Parses an address of either family from text.
pub fn ip_from_str(s: &str) -> (r: Option<IpAddress>)
    ensures
        r == ip_of(s@),
{
    let chars = chars_of(s);
    match parse_ipv4(chars.as_slice()) {
        Some(a) => Some(IpAddress::V4(a)),
        None => match parse_ipv6(s) {
            Some(a) => Some(IpAddress::V6(a)),
            None => None,
        },
    }
}

/// The dotted quad of an IPv4 address.
pub fn ipv4_to_string(a: u32) -> (r: String)
    ensures
        r@ == ipv4_text(a),
{
    let mut out = String::new();
    push_decimal(&mut out, (a / 0x100_0000) as u64);
    out.push('.');
    push_decimal(&mut out, (a / 0x1_0000 % 256) as u64);
    out.push('.');
    push_decimal(&mut out, (a / 256 % 256) as u64);
    out.push('.');
    push_decimal(&mut out, (a % 256) as u64);
    assert(out@ =~= ipv4_text(a));
    out
}

proof fn lemma_decimal_octet(n: nat)
    requires
        n <= 255,
    ensures
        octet_of(decimal(n)) == Some(n),
        !decimal(n).contains('.'),
        decimal(n).len() <= 3,
        forall|i: int| 0 <= i < decimal(n).len() ==> is_digit(#[trigger] decimal(n)[i]),
{
    reveal_with_fuel(decimal, 3);
    lemma_decimal(n);
    let s = decimal(n);
    if s.contains('.') {
        let k = choose|k: int| 0 <= k < s.len() && s[k] == '.';
        assert(is_digit(s[k]));
    }
    if n >= 100 {
        assert(s.len() == 3);
        assert(s[0] == ((0x30 + n / 10 / 10) as u8) as char);
    } else if n >= 10 {
        assert(s.len() == 2);
        assert(s[0] == ((0x30 + n / 10) as u8) as char);
    } else {
        assert(s.len() == 1);
    }
}

/// Splitting off a first piece that does not hold the separator.
proof fn lemma_split_first(a: Seq<char>, b: Seq<char>, sep: char)
    requires
        !a.contains(sep),
    ensures
        split(a.push(sep) + b, sep) == seq![a] + split(b, sep),
    decreases b.len(),
{
    let s = a.push(sep) + b;
    if b.len() == 0 {
        assert(s =~= a.push(sep));
        assert(s.drop_last() =~= a);
        lemma_split_none(a, sep);
        assert(split(s, sep) =~= seq![a] + split(b, sep));
    } else {
        let d = b.drop_last();
        assert(s.drop_last() =~= a.push(sep) + d);
        lemma_split_first(a, d, sep);
        lemma_split_nonempty(d, sep);
        assert(s.last() == b.last());
        assert(split(s, sep) =~= seq![a] + split(b, sep));
    }
}

proof fn lemma_split_none(a: Seq<char>, sep: char)
    requires
        !a.contains(sep),
    ensures
        split(a, sep) == seq![a],
    decreases a.len(),
{
    if a.len() == 0 {
        assert(a =~= Seq::<char>::empty());
        assert(split(a, sep) =~= seq![a]);
    } else {
        let d = a.drop_last();
        assert(!d.contains(sep)) by {
            if d.contains(sep) {
                let k = choose|k: int| 0 <= k < d.len() && d[k] == sep;
                assert(a[k] == sep);
            }
        }
        lemma_split_none(d, sep);
        assert(a.last() == a[a.len() - 1]);
        assert(d.push(a.last()) =~= a);
        assert(split(a, sep) =~= seq![a]);
    }
}

proof fn lemma_quad_value(n: nat)
    requires
        n <= 0xffff_ffff,
    ensures
        n / 0x100_0000 <= 255,
        n / 0x100_0000 * 0x100_0000 + n / 0x1_0000 % 256 * 0x1_0000 + n / 256 % 256 * 256 + n % 256
            == n,
{
}

proof fn lemma_quad_parts(d0: Seq<char>, d1: Seq<char>, d2: Seq<char>, d3: Seq<char>)
    requires
        !d0.contains('.'),
        !d1.contains('.'),
        !d2.contains('.'),
        !d3.contains('.'),
    ensures
        split(d0.push('.') + d1.push('.') + d2.push('.') + d3, '.') == seq![d0, d1, d2, d3],
{
    let r2 = d2.push('.') + d3;
    let r1 = d1.push('.') + r2;
    assert(d0.push('.') + d1.push('.') + d2.push('.') + d3 =~= d0.push('.') + r1);
    lemma_split_first(d0, r1, '.');
    lemma_split_first(d1, r2, '.');
    lemma_split_first(d2, d3, '.');
    lemma_split_none(d3, '.');
    assert(seq![d0] + (seq![d1] + (seq![d2] + seq![d3])) =~= seq![d0, d1, d2, d3]);
}

/// The dotted quad of an address denotes that address.
pub proof fn law_ipv4_text_round_trip(a: u32)
    ensures
        ipv4_of(ipv4_text(a)) == Some(a),
{
    let n = a as nat;
    let n0 = n / 0x100_0000;
    let n1 = n / 0x1_0000 % 256;
    let n2 = n / 256 % 256;
    let n3 = n % 256;
    lemma_quad_value(n);
    lemma_decimal_octet(n0);
    lemma_decimal_octet(n1);
    lemma_decimal_octet(n2);
    lemma_decimal_octet(n3);
    lemma_quad_parts(decimal(n0), decimal(n1), decimal(n2), decimal(n3));
    let parts = split(ipv4_text(a), '.');
    assert(parts == seq![decimal(n0), decimal(n1), decimal(n2), decimal(n3)]);
    assert(parts[0] == decimal(n0) && parts[1] == decimal(n1) && parts[2] == decimal(n2)
        && parts[3] == decimal(n3));
}

/// The text form of an address.
pub fn ip_to_string(ip: IpAddress) -> (r: String)
    ensures
        r@ == ip_text(ip),
        ip_of(r@) == Some(ip),
        r@.len() > 0,
        forall|i: int| 0 <= i < r@.len() ==> ipv6_char(#[trigger] r@[i]),
        ip is V6 ==> ipv6_of(r@) == Some(ip->V6_0),
{
    match ip {
        IpAddress::V4(a) => {
            proof {
                law_ipv4_text_round_trip(a);
                lemma_ipv4_text_chars(a);
            }
            ipv4_to_string(a)
        },
        IpAddress::V6(a) => {
            let r = render_ipv6(a);
            proof {
                if ipv4_of(r@) is Some {
                    lemma_ipv4_has_no_colon(r@);
                }
            }
            r
        },
    }
}

/// A dotted quad is made of digits and dots, a digit first and last.
pub proof fn lemma_quad_chars(a: u32)
    ensures
        ipv4_text(a).len() > 0,
        is_digit(ipv4_text(a)[0]),
        is_digit(ipv4_text(a).last()),
        forall|i: int|
            0 <= i < ipv4_text(a).len() ==> is_digit(#[trigger] ipv4_text(a)[i]) || ipv4_text(a)[i]
                == '.',
{
    let d0 = decimal(a as nat / 0x100_0000);
    let d1 = decimal(a as nat / 0x1_0000 % 256);
    let d2 = decimal(a as nat / 256 % 256);
    let d3 = decimal(a as nat % 256);
    lemma_decimal(a as nat / 0x100_0000);
    lemma_decimal(a as nat / 0x1_0000 % 256);
    lemma_decimal(a as nat / 256 % 256);
    lemma_decimal(a as nat % 256);
    let t = ipv4_text(a);
    let n0 = d0.len() as int;
    let n1 = d1.len() as int;
    let n2 = d2.len() as int;
    assert(t[0] == d0[0]);
    assert(t.last() == d3.last());
    assert forall|i: int| 0 <= i < t.len() implies is_digit(#[trigger] t[i]) || t[i] == '.' by {
        if i < n0 {
            assert(t[i] == d0[i]);
        } else if i == n0 {
            assert(t[i] == '.');
        } else if i < n0 + 1 + n1 {
            assert(t[i] == d1[i - n0 - 1]);
        } else if i == n0 + 1 + n1 {
            assert(t[i] == '.');
        } else if i < n0 + n1 + 2 + n2 {
            assert(t[i] == d2[i - n0 - n1 - 2]);
        } else if i == n0 + n1 + 2 + n2 {
            assert(t[i] == '.');
        } else {
            assert(t[i] == d3[i - n0 - n1 - n2 - 3]);
        }
    }
}

proof fn lemma_ipv4_text_chars(a: u32)
    ensures
        ipv4_text(a).len() > 0,
        forall|i: int|
            0 <= i < ipv4_text(a).len() ==> ipv6_char(#[trigger] ipv4_text(a)[i]) && ipv4_text(a)[i]
                != ':',
{
    lemma_quad_chars(a);
}

/// Every element that is not the separator lies in some piece.
proof fn lemma_split_keeps<T>(s: Seq<T>, sep: T, c: T)
    requires
        s.contains(c),
        c != sep,
    ensures
        exists|i: int| 0 <= i < split(s, sep).len() && (#[trigger] split(s, sep)[i]).contains(c),
    decreases s.len(),
{
    let d = s.drop_last();
    let all = split(s, sep);
    let before = split(d, sep);
    lemma_split_nonempty(d, sep);
    if s.last() == c {
        let l = before.last().push(c);
        assert(all[all.len() - 1] == l);
        assert(l[l.len() - 1] == c);
    } else {
        let k = choose|k: int| 0 <= k < s.len() && s[k] == c;
        assert(d[k] == c);
        lemma_split_keeps(d, sep, c);
        let i = choose|i: int| 0 <= i < before.len() && (#[trigger] before[i]).contains(c);
        if s.last() == sep {
            assert(all[i] == before[i]);
        } else if i < before.len() - 1 {
            assert(all[i] == before[i]);
        } else {
            let m = choose|m: int| 0 <= m < before[i].len() && before[i][m] == c;
            assert(all[i] == before[i].push(s.last()));
            assert(all[i][m] == c);
        }
    }
}

proof fn lemma_ipv4_has_no_colon(s: Seq<char>)
    requires
        ipv4_of(s) is Some,
    ensures
        !s.contains(':'),
{
    if s.contains(':') {
        lemma_split_keeps(s, '.', ':');
        let parts = split(s, '.');
        let i = choose|i: int| 0 <= i < parts.len() && (#[trigger] parts[i]).contains(':');
        let k = choose|k: int| 0 <= k < parts[i].len() && parts[i][k] == ':';
        assert(octet_of(parts[i]) is Some) by {
            if i == 0 {
            } else if i == 1 {
            } else if i == 2 {
            } else {
                assert(i == 3);
            }
        }
        assert(is_digit(parts[i][k]));
    }
}

// ---------------------------------------------------------------------------
// Prefixes
// ---------------------------------------------------------------------------
/// An address prefix: the addresses of one family that agree with `base` in their
/// first `prefix` bits.
#[derive(Clone, Copy, Debug, PartialEq, Eq, Structural)]
pub struct IpCidr {
    pub base: IpAddress,
    pub prefix: u8,
}

/// Whether two addresses are of one family and agree in their first `prefix` bits.
pub open spec fn same_prefix(a: IpAddress, b: IpAddress, prefix: u8) -> bool {
    match (a, b) {
        (IpAddress::V4(x), IpAddress::V4(y)) => prefix <= 32 && x as int / pow2(
            (32 - prefix) as nat,
        ) as int == y as int / pow2((32 - prefix) as nat) as int,
        (IpAddress::V6(x), IpAddress::V6(y)) => prefix <= 128 && x as int / pow2(
            (128 - prefix) as nat,
        ) as int == y as int / pow2((128 - prefix) as nat) as int,
        _ => false,
    }
}

impl IpCidr {
    /// Whether `ip` lies in this prefix.
    pub fn contains(&self, ip: IpAddress) -> (r: bool)
        ensures
            r == same_prefix(self.base, ip, self.prefix),
    {
        match (self.base, ip) {
            (IpAddress::V4(x), IpAddress::V4(y)) => {
                if self.prefix > 32 {
                    return false;
                }
                let shift: u32 = 32 - self.prefix as u32;
                if shift == 32 {
                    proof {
                        vstd::arithmetic::power2::lemma2_to64();
                        assert(x as int / pow2(32) as int == 0);
                        assert(y as int / pow2(32) as int == 0);
                    }
                    return true;
                }
                proof {
                    vstd::bits::lemma_u32_shr_is_div(x, shift);
                    vstd::bits::lemma_u32_shr_is_div(y, shift);
                }
                (x >> shift) == (y >> shift)
            },
            (IpAddress::V6(x), IpAddress::V6(y)) => {
                if self.prefix > 128 {
                    return false;
                }
                let shift: u128 = 128 - self.prefix as u128;
                if shift == 128 {
                    proof {
                        lemma_pow2_128();
                        assert(x as int / pow2(128) as int == 0);
                        assert(y as int / pow2(128) as int == 0);
                    }
                    return true;
                }
                proof {
                    lemma_u128_shr_is_div(x, shift);
                    lemma_u128_shr_is_div(y, shift);
                }
                (x >> shift) == (y >> shift)
            },
            _ => false,
        }
    }
}

proof fn lemma_pow2_128()
    ensures
        pow2(128) == 0x1_0000_0000_0000_0000_0000_0000_0000_0000,
{
    vstd::arithmetic::power2::lemma2_to64();
    vstd::arithmetic::power2::lemma_pow2_adds(64, 64);
    assert(0x1_0000_0000_0000_0000 * 0x1_0000_0000_0000_0000
        == 0x1_0000_0000_0000_0000_0000_0000_0000_0000);
}

proof fn lemma_u128_shr_is_div(x: u128, shift: u128)
    requires
        shift < 128,
    ensures
        (x >> shift) as int == x as int / pow2(shift as nat) as int,
    decreases shift,
{
    vstd::arithmetic::power2::lemma2_to64();
    if shift == 0 {
        assert(x >> 0u128 == x) by (bit_vector);
        assert(pow2(0) == 1);
    } else {
        let s1 = (shift - 1) as u128;
        lemma_u128_shr_is_div(x, s1);
        assert(x >> shift == (x >> s1) / 2) by (bit_vector)
            requires
                0 < shift < 128,
                s1 == shift - 1,
        ;
        vstd::arithmetic::power2::lemma_pow2_adds(s1 as nat, 1);
        vstd::arithmetic::power2::lemma_pow2_pos(s1 as nat);
        vstd::arithmetic::div_mod::lemma_div_denominator(x as int, pow2(s1 as nat) as int, 2);
        assert(pow2(1) == 2);
    }
}

// ---------------------------------------------------------------------------
// Socket addresses
// ---------------------------------------------------------------------------
/// An address and a port; `scope` is the zone index of an IPv6 address, else 0.
#[derive(Clone, Copy, Debug, PartialEq, Eq, Structural)]
pub struct SocketAddress {
    pub ip: IpAddress,
    pub port: u16,
    pub scope: u32,
}

impl SocketAddress {
    /// An address and a port, with no zone index.
    pub fn new(ip: IpAddress, port: u16) -> (r: SocketAddress)
        ensures
            r == (SocketAddress { ip, port, scope: 0 }),
    {
        SocketAddress { ip, port, scope: 0 }
    }

    /// The port.
    pub fn port(&self) -> (r: u16)
        ensures
            r == self.port,
    {
        self.port
    }
}

/// The first position of `c` in `s`, or the length of `s` where there is none.
pub open spec fn index_of(s: Seq<char>, c: char) -> int
    decreases s.len(),
{
    if s.len() == 0 || s[0] == c {
        0
    } else {
        1 + index_of(s.drop_first(), c)
    }
}

/// The first position of `c` in `s`.
pub fn find_char(s: &[char], c: char) -> (r: usize)
    ensures
        r == index_of(s@, c),
        r <= s@.len(),
        r < s@.len() ==> s@[r as int] == c,
        forall|i: int| 0 <= i < r ==> s@[i] != c,
{
    let mut i: usize = 0;
    assert(s@.subrange(0, s@.len() as int) =~= s@);
    while i < s.len() && s[i] != c
        invariant
            i <= s.len(),
            index_of(s@, c) == i + index_of(s@.subrange(i as int, s@.len() as int), c),
            forall|k: int| 0 <= k < i ==> s@[k] != c,
        decreases s.len() - i,
    {
        assert(s@.subrange(i as int, s@.len() as int).drop_first() =~= s@.subrange(
            i + 1,
            s@.len() as int,
        ));
        i = i + 1;
    }
    i
}

pub proof fn lemma_index_of(s: Seq<char>, c: char)
    ensures
        0 <= index_of(s, c) <= s.len(),
        index_of(s, c) < s.len() ==> s[index_of(s, c)] == c,
        forall|i: int| 0 <= i < index_of(s, c) ==> s[i] != c,
    decreases s.len(),
{
    if s.len() > 0 && s[0] != c {
        let t = s.drop_first();
        lemma_index_of(t, c);
        assert forall|i: int| 0 <= i < index_of(s, c) implies s[i] != c by {
            if i > 0 {
                assert(s[i] == t[i - 1]);
            }
        }
    }
}

/// The first position of `c` is the one position of `c` with none before it.
pub proof fn lemma_index_of_unique(s: Seq<char>, c: char, k: int)
    requires
        0 <= k <= s.len(),
        k < s.len() ==> s[k] == c,
        forall|i: int| 0 <= i < k ==> s[i] != c,
    ensures
        index_of(s, c) == k,
{
    lemma_index_of(s, c);
    let j = index_of(s, c);
    if j < k {
        assert(s[j] != c);
    }
    if k < j {
        assert(s[k] != c);
    }
}

pub open spec fn before(s: Seq<char>, c: char) -> Seq<char> {
    s.subrange(0, index_of(s, c))
}

/// What follows the first `c`; meaningful where `s` holds one.
pub open spec fn after(s: Seq<char>, c: char) -> Seq<char> {
    s.subrange(index_of(s, c) + 1, s.len() as int)
}

pub open spec fn holds(s: Seq<char>, c: char) -> bool {
    index_of(s, c) < s.len()
}

/// The IPv6 address and zone index between the brackets of a socket address.
pub open spec fn scoped_ipv6_of(s: Seq<char>) -> Option<(u128, u32)> {
    let (text, scope) = if holds(s, '%') {
        (before(s, '%'), parse_digits(after(s, '%'), 0xffff_ffff))
    } else {
        (s, Some(0nat))
    };
    if ipv6_of(text) is Some && scope is Some {
        Some((ipv6_of(text)->0, scope->0 as u32))
    } else {
        None
    }
}

/// The socket address that a text denotes: a dotted quad or a bracketed IPv6
/// address, a colon, and a decimal port.
pub open spec fn socket_of(s: Seq<char>) -> Option<SocketAddress> {
    if s.len() > 0 && s[0] == '[' {
        let inside = before(s.drop_first(), ']');
        let rest = after(s.drop_first(), ']');
        if holds(s.drop_first(), ']') && rest.len() > 0 && rest[0] == ':' && scoped_ipv6_of(inside)
            is Some && parse_digits(rest.drop_first(), 0xffff) is Some {
            let (ip, scope) = scoped_ipv6_of(inside)->0;
            Some(
                SocketAddress {
                    ip: IpAddress::V6(ip),
                    port: parse_digits(rest.drop_first(), 0xffff)->0 as u16,
                    scope,
                },
            )
        } else {
            None
        }
    } else if holds(s, ':') && ipv4_of(before(s, ':')) is Some && parse_digits(after(s, ':'), 0xffff)
        is Some {
        Some(
            SocketAddress {
                ip: IpAddress::V4(ipv4_of(before(s, ':'))->0),
                port: parse_digits(after(s, ':'), 0xffff)->0 as u16,
                scope: 0,
            },
        )
    } else {
        None
    }
}

/// The text form of a socket address.
pub open spec fn socket_text(a: SocketAddress) -> Seq<char> {
    match a.ip {
        IpAddress::V4(ip) => ipv4_text(ip).push(':') + decimal(a.port as nat),
        IpAddress::V6(ip) => {
            let scope = if a.scope == 0 {
                Seq::empty()
            } else {
                seq!['%'] + decimal(a.scope as nat)
            };
            seq!['['] + ipv6_text(ip) + scope + seq![']', ':'] + decimal(a.port as nat)
        },
    }
}

fn parse_scoped_ipv6(s: &[char]) -> (r: Option<(u128, u32)>)
    ensures
        r == scoped_ipv6_of(s@),
{
    let at: usize = find_char(s, '%');
    let mut scope: u32 = 0;
    if at < s.len() {
        match parse_digits_max(slice_subrange(s, at + 1, s.len()), 0xffff_ffff) {
            Some(v) => {
                scope = v as u32;
            },
            None => {
                return None;
            },
        }
    }
    assert(s@.subrange(0, s@.len() as int) =~= s@);
    let text = string_of(slice_subrange(s, 0, at));
    match parse_ipv6(text.as_str()) {
        Some(ip) => Some((ip, scope)),
        None => None,
    }
}

/// Parses a socket address from text.
pub fn socket_from_chars(s: &[char]) -> (r: Option<SocketAddress>)
    ensures
        r == socket_of(s@),
{
    if s.len() > 0 && s[0] == '[' {
        let inner = slice_subrange(s, 1, s.len());
        assert(inner@ =~= s@.drop_first());
        let close: usize = find_char(inner, ']');
        if close == inner.len() {
            return None;
        }
        let rest = slice_subrange(inner, close + 1, inner.len());
        if rest.len() == 0 || rest[0] != ':' {
            return None;
        }
        let digits = slice_subrange(rest, 1, rest.len());
        assert(digits@ =~= rest@.drop_first());
        match (
            parse_scoped_ipv6(slice_subrange(inner, 0, close)),
            parse_digits_max(digits, 0xffff),
        ) {
            (Some((ip, scope)), Some(port)) => Some(
                SocketAddress { ip: IpAddress::V6(ip), port: port as u16, scope },
            ),
            _ => None,
        }
    } else {
        let colon: usize = find_char(s, ':');
        if colon == s.len() {
            return None;
        }
        match (
            parse_ipv4(slice_subrange(s, 0, colon)),
            parse_digits_max(slice_subrange(s, colon + 1, s.len()), 0xffff),
        ) {
            (Some(ip), Some(port)) => Some(
                SocketAddress { ip: IpAddress::V4(ip), port: port as u16, scope: 0 },
            ),
            _ => None,
        }
    }
}

/// A character of a socket address in text form.
pub open spec fn socket_char(c: char) -> bool {
    ipv6_char(c) || c == '[' || c == ']' || c == '%'
}

proof fn lemma_decimal_chars(n: nat)
    ensures
        forall|i: int| 0 <= i < decimal(n).len() ==> ipv6_char(#[trigger] decimal(n)[i]) && decimal(
            n,
        )[i] != ':' && decimal(n)[i] != '.',
        decimal(n).len() > 0,
{
    lemma_decimal(n);
    let s = decimal(n);
    assert forall|i: int| 0 <= i < s.len() implies ipv6_char(#[trigger] s[i]) && s[i] != ':' && s[i]
        != '.' by {
        assert(is_digit(s[i]));
    }
}

proof fn lemma_socket_v4_text(a: SocketAddress)
    requires
        a.ip is V4,
        a.scope == 0,
    ensures
        socket_of(socket_text(a)) == Some(a),
        socket_text(a).len() > 0,
        forall|i: int| 0 <= i < socket_text(a).len() ==> socket_char(#[trigger] socket_text(a)[i]),
{
    let ip = a.ip->V4_0;
    law_ipv4_text_round_trip(ip);
    lemma_ipv4_text_chars(ip);
    lemma_decimal(a.port as nat);
    lemma_decimal_chars(a.port as nat);
    let t = socket_text(a);
    let q = ipv4_text(ip);
    assert forall|i: int| 0 <= i < q.len() implies t[i] != ':' by {
        assert(t[i] == q[i]);
    }
    lemma_index_of_unique(t, ':', q.len() as int);
    assert(before(t, ':') =~= q);
    assert(after(t, ':') =~= decimal(a.port as nat));
    assert(t[0] == q[0]);
    assert forall|i: int| 0 <= i < t.len() implies socket_char(#[trigger] t[i]) by {
        if i < q.len() {
            assert(t[i] == q[i]);
        } else if i > q.len() {
            assert(t[i] == decimal(a.port as nat)[i - q.len() - 1]);
        }
    }
}

/// The part of a socket address between its brackets.
spec fn bracketed(ip: u128, scope: u32) -> Seq<char> {
    if scope == 0 {
        ipv6_text(ip)
    } else {
        ipv6_text(ip).push('%') + decimal(scope as nat)
    }
}

proof fn lemma_bracketed(ip: u128, scope: u32)
    requires
        ipv6_of(ipv6_text(ip)) == Some(ip),
        forall|i: int| 0 <= i < ipv6_text(ip).len() ==> ipv6_char(#[trigger] ipv6_text(ip)[i]),
    ensures
        scoped_ipv6_of(bracketed(ip, scope)) == Some((ip, scope)),
        forall|i: int|
            0 <= i < bracketed(ip, scope).len() ==> #[trigger] bracketed(ip, scope)[i] != ']'
                && socket_char(bracketed(ip, scope)[i]),
{
    let x = ipv6_text(ip);
    let inner = bracketed(ip, scope);
    lemma_decimal(scope as nat);
    lemma_decimal_chars(scope as nat);
    if scope == 0 {
        lemma_index_of_unique(inner, '%', inner.len() as int);
    } else {
        assert forall|i: int| 0 <= i < x.len() implies inner[i] != '%' by {
            assert(inner[i] == x[i]);
        }
        lemma_index_of_unique(inner, '%', x.len() as int);
        assert(before(inner, '%') =~= x);
        assert(after(inner, '%') =~= decimal(scope as nat));
        assert forall|i: int| 0 <= i < inner.len() implies #[trigger] inner[i] != ']'
            && socket_char(inner[i]) by {
            if i < x.len() {
                assert(inner[i] == x[i]);
            } else if i > x.len() {
                assert(inner[i] == decimal(scope as nat)[i - x.len() - 1]);
            }
        }
    }
}

proof fn lemma_socket_v6_text(a: SocketAddress)
    requires
        a.ip is V6,
        ipv6_of(ipv6_text(a.ip->V6_0)) == Some(a.ip->V6_0),
        forall|i: int|
            0 <= i < ipv6_text(a.ip->V6_0).len() ==> ipv6_char(#[trigger] ipv6_text(a.ip->V6_0)[i]),
    ensures
        socket_of(socket_text(a)) == Some(a),
        socket_text(a).len() > 0,
        forall|i: int| 0 <= i < socket_text(a).len() ==> socket_char(#[trigger] socket_text(a)[i]),
{
    let t = socket_text(a);
    let inner = bracketed(a.ip->V6_0, a.scope);
    let port = decimal(a.port as nat);
    lemma_decimal(a.port as nat);
    lemma_decimal_chars(a.port as nat);
    lemma_bracketed(a.ip->V6_0, a.scope);
    let d = t.drop_first();
    assert(t =~= seq!['['] + inner + seq![']', ':'] + port);
    assert(d =~= inner + seq![']', ':'] + port);
    assert forall|i: int| 0 <= i < inner.len() implies d[i] != ']' by {
        assert(d[i] == inner[i]);
    }
    lemma_index_of_unique(d, ']', inner.len() as int);
    assert(before(d, ']') =~= inner);
    let rest = after(d, ']');
    assert(rest =~= seq![':'] + port);
    assert(rest.drop_first() =~= port);
    assert forall|i: int| 0 <= i < t.len() implies socket_char(#[trigger] t[i]) by {
        if 0 < i <= inner.len() {
            assert(t[i] == inner[i - 1]);
        } else if i > inner.len() + 2 {
            assert(t[i] == port[i - inner.len() - 3]);
        }
    }
}

/// Renders a socket address. The text denotes the address it was made from.
pub fn socket_to_string(a: SocketAddress) -> (r: String)
    requires
        a.ip is V4 ==> a.scope == 0,
    ensures
        r@ == socket_text(a),
        socket_of(r@) == Some(a),
        r@.len() > 0,
        forall|i: int| 0 <= i < r@.len() ==> socket_char(#[trigger] r@[i]),
{
    let mut out = String::new();
    let text = ip_to_string(a.ip);
    match a.ip {
        IpAddress::V4(_) => {
            out.append(text.as_str());
            out.push(':');
            push_decimal(&mut out, a.port as u64);
            proof {
                lemma_socket_v4_text(a);
                assert(out@ =~= socket_text(a));
            }
        },
        IpAddress::V6(_) => {
            out.push('[');
            out.append(text.as_str());
            if a.scope != 0 {
                out.push('%');
                push_decimal(&mut out, a.scope as u64);
            }
            out.push(']');
            out.push(':');
            push_decimal(&mut out, a.port as u64);
            proof {
                lemma_socket_v6_text(a);
                assert(out@ =~= socket_text(a));
            }
        },
    }
    out
}

} // verus!
