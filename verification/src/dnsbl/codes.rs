//! The codes that a blocklist zone answers with, and what they say.
use vstd::arithmetic::power2::pow2;
use vstd::prelude::*;
use vstd::slice::slice_subrange;
use vstd::string::*;

use crate::addr::{
    after, before, find_char, holds, ipv4_from_str, ipv4_of, ipv4_text, ipv4_to_string,
    law_ipv4_text_round_trip, lemma_index_of_unique, lemma_quad_chars,
};
use crate::text::{
    chars_of, decimal, decimal_string, eq_text, is_digit, join3, join5, lemma_decimal,
    lemma_decimal_round_trip, lower_chars, parse_unsigned, parse_unsigned_max, string_of,
    strip_end, strip_end_chars, to_lower_chars, trim, trimmed, white_space,
};

verus! {

broadcast use vstd::string::group_string_axioms;

/// The spelling that means "this provider has no refusal codes".
pub const REFUSAL_CODES_NONE: &'static str = "none";

/// One refusal-code pattern: an IPv4 address with a prefix length.
#[derive(Debug, Clone, Copy, PartialEq, Eq, Structural)]
pub struct RefusalCode {
    /// The base address, masked to `prefix`.
    pub base: u32,
    /// The prefix length in bits; 32 for a bare address.
    pub prefix: u8,
}

/// `ip` with every bit below the top `prefix` bits zeroed.
pub open spec fn masked(ip: u32, prefix: u8) -> u32 {
    let unit = pow2((32 - prefix) as nat) as int;
    (ip as int / unit * unit) as u32
}

/// Whether a code falls in a pattern.
pub open spec fn code_matches(code: RefusalCode, ip: u32) -> bool {
    masked(ip, code.prefix) == code.base
}

/// Zeroes all bits of `ip` below the top `prefix` bits.
pub fn mask_v4(ip: u32, prefix: u8) -> (r: u32)
    requires
        prefix <= 32,
    ensures
        r == masked(ip, prefix),
{
    let mut unit: u64 = 1;
    let mut bits: u8 = 32;
    proof {
        vstd::arithmetic::power2::lemma2_to64();
    }
    while bits > prefix
        invariant
            prefix <= bits <= 32,
            unit == pow2((32 - bits) as nat),
            unit <= 0x1_0000_0000,
        decreases bits,
    {
        proof {
            vstd::arithmetic::power2::lemma_pow2_adds((32 - bits) as nat, 1);
            vstd::arithmetic::power2::lemma2_to64();
            if bits > 1 {
                vstd::arithmetic::power2::lemma_pow2_strictly_increases((33 - bits) as nat, 32);
            }
        }
        unit = unit * 2;
        bits = bits - 1;
    }
    proof {
        vstd::arithmetic::power2::lemma_pow2_pos((32 - prefix) as nat);
        vstd::arithmetic::div_mod::lemma_fundamental_div_mod(ip as int, unit as int);
        vstd::arithmetic::mul::lemma_mul_is_commutative(unit as int, ip as int / unit as int);
        assert(0 <= ip as int / unit as int * unit as int <= ip);
        assert(ip as int / unit as int <= ip) by {
            vstd::arithmetic::div_mod::lemma_div_is_ordered_by_denominator(
                ip as int,
                1,
                unit as int,
            );
        }
    }
    let whole: u64 = ip as u64 / unit;
    (whole * unit) as u32
}

// ---------------------------------------------------------------------------
// Patterns in text
// ---------------------------------------------------------------------------
/// The prefix of a pattern's text.
pub open spec fn prefix_of(s: Seq<char>) -> Result<u8, Seq<char>> {
    let digits = parse_unsigned(trimmed(after(s, '/')), 0xff);
    if !holds(s, '/') {
        Ok(32)
    } else if digits is None {
        Err("invalid prefix in refusal code '"@ + s + "'"@)
    } else if digits->0 > 32 {
        Err("prefix /"@ + decimal(digits->0) + " too long in refusal code '"@ + s + "'"@)
    } else {
        Ok(digits->0 as u8)
    }
}

/// The pattern that a text denotes: an address, with or without a prefix length.
pub open spec fn code_of(text: Seq<char>) -> Result<RefusalCode, Seq<char>> {
    let s = trimmed(text);
    match prefix_of(s) {
        Err(e) => Err(e),
        Ok(prefix) => match ipv4_of(
            trimmed(
                if holds(s, '/') {
                    before(s, '/')
                } else {
                    s
                },
            ),
        ) {
            None => Err("invalid IPv4 address in refusal code '"@ + s + "'"@),
            Some(ip) => Ok(RefusalCode { base: masked(ip, prefix), prefix }),
        },
    }
}

/// The text of a pattern.
pub open spec fn code_text(code: RefusalCode) -> Seq<char> {
    if code.prefix == 32 {
        ipv4_text(code.base)
    } else {
        ipv4_text(code.base) + "/"@ + decimal(code.prefix as nat)
    }
}

impl RefusalCode {
    /// A pattern that a text denotes.
    pub open spec fn well_formed(&self) -> bool {
        self.prefix <= 32
    }

    /// Parses `127.0.0.1` or `127.255.255.0/24`. The base is masked to the prefix.
    pub fn parse(s: &str) -> (r: Result<RefusalCode, String>)
        ensures
            match r {
                Ok(c) => code_of(s@) == Ok::<RefusalCode, Seq<char>>(c) && settled(c),
                Err(e) => code_of(s@) == Err::<RefusalCode, Seq<char>>(e@),
            },
    {
        proof {
            law_parsed_codes_are_masked(s@);
        }
        let chars = chars_of(s);
        let t = trim(chars.as_slice());
        let text = string_of(t);
        let slash: usize = find_char(t, '/');
        let mut prefix: u8 = 32;
        if slash < t.len() {
            match parse_unsigned_max(trim(slice_subrange(t, slash + 1, t.len())), 0xff) {
                None => {
                    return Err(
                        join3("invalid prefix in refusal code '", text.as_str(), "'"),
                    );
                },
                Some(p) => {
                    if p > 32 {
                        let n = decimal_string(p);
                        return Err(
                            join5(
                                "prefix /",
                                n.as_str(),
                                " too long in refusal code '",
                                text.as_str(),
                                "'",
                            ),
                        );
                    }
                    prefix = p as u8;
                },
            }
        }
        assert(t@.subrange(0, t@.len() as int) =~= t@);
        let addr = string_of(trim(slice_subrange(t, 0, slash)));
        match ipv4_from_str(addr.as_str()) {
            None => Err(join3("invalid IPv4 address in refusal code '", text.as_str(), "'")),
            Some(ip) => Ok(RefusalCode { base: mask_v4(ip, prefix), prefix }),
        }
    }

    /// Whether `ip`, a code a provider returned, falls in this pattern.
    pub fn matches(&self, ip: u32) -> (r: bool)
        requires
            self.well_formed(),
        ensures
            r == code_matches(*self, ip),
    {
        mask_v4(ip, self.prefix) == self.base
    }

    /// The text of this pattern.
    pub fn to_string(&self) -> (r: String)
        ensures
            r@ == code_text(*self),
    {
        let base = ipv4_to_string(self.base);
        if self.prefix == 32 {
            base
        } else {
            let n = decimal_string(self.prefix as u64);
            join3(base.as_str(), "/", n.as_str())
        }
    }
}

/// Masking is done once: a masked address is masked already, so a pattern covers its own
/// base.
pub proof fn law_masking_is_idempotent(ip: u32, prefix: u8)
    requires
        prefix <= 32,
    ensures
        masked(masked(ip, prefix), prefix) == masked(ip, prefix),
        code_matches(RefusalCode { base: masked(ip, prefix), prefix }, ip),
        code_matches(RefusalCode { base: masked(ip, prefix), prefix }, masked(ip, prefix)),
{
    let unit = pow2((32 - prefix) as nat) as int;
    vstd::arithmetic::power2::lemma_pow2_pos((32 - prefix) as nat);
    let q = ip as int / unit;
    vstd::arithmetic::div_mod::lemma_fundamental_div_mod(ip as int, unit);
    vstd::arithmetic::mul::lemma_mul_is_commutative(unit, q);
    assert(0 <= q * unit <= ip) by (nonlinear_arith)
        requires
            ip as int == unit * q + ip as int % unit,
            0 <= ip as int % unit,
            0 <= q,
            0 < unit,
    ;
    vstd::arithmetic::div_mod::lemma_div_multiples_vanish(q, unit);
}

/// Whether a pattern is one that a text denotes: its base has no bits below its prefix.
pub open spec fn settled(code: RefusalCode) -> bool {
    code.well_formed() && masked(code.base, code.prefix) == code.base
}

/// What is parsed is settled: the base is masked to the prefix.
pub proof fn law_parsed_codes_are_masked(text: Seq<char>)
    ensures
        code_of(text) matches Ok(code) ==> settled(code),
{
    if code_of(text) is Ok {
        let s = trimmed(text);
        let prefix = prefix_of(s)->Ok_0;
        let quad = trimmed(
            if holds(s, '/') {
                before(s, '/')
            } else {
                s
            },
        );
        law_masking_is_idempotent(ipv4_of(quad)->0, prefix);
    }
}

proof fn lemma_trimmed_already(s: Seq<char>)
    requires
        s.len() > 0,
        !white_space(s[0]),
        !white_space(s.last()),
    ensures
        trimmed(s) == s,
{
}

/// A pattern's text denotes that pattern, and is never the spelling for none.
pub proof fn law_code_text_round_trip(code: RefusalCode)
    requires
        settled(code),
    ensures
        code_of(code_text(code)) == Ok::<RefusalCode, Seq<char>>(code),
        !means_none(code_text(code)),
{
    let q = ipv4_text(code.base);
    let d = decimal(code.prefix as nat);
    let s = code_text(code);
    lemma_quad_chars(code.base);
    lemma_decimal(code.prefix as nat);
    lemma_decimal_round_trip(code.prefix as nat, 0xff);
    law_ipv4_text_round_trip(code.base);
    reveal_strlit("/");
    reveal_strlit("none");
    assert(s[0] == q[0]);
    assert(is_digit(s.last())) by {
        if code.prefix != 32 {
            assert(s.last() == d.last());
        }
    }
    lemma_trimmed_already(s);
    lemma_trimmed_already(q);
    lemma_trimmed_already(d);
    if code.prefix == 32 {
        lemma_index_of_unique(s, '/', s.len() as int);
    } else {
        assert(s[q.len() as int] == '/');
        assert forall|i: int| 0 <= i < q.len() implies s[i] != '/' by {
            assert(s[i] == q[i]);
        }
        lemma_index_of_unique(s, '/', q.len() as int);
        assert(before(s, '/') =~= q);
        assert(after(s, '/') =~= d);
    }
    assert(lower_chars(s)[0] == s[0]);
    assert("none"@[0] == 'n');
}

// ---------------------------------------------------------------------------
// Configured lists
// ---------------------------------------------------------------------------
/// The codes that mean "your query was refused" at the blocklists in common use.
pub open spec fn default_codes() -> Seq<RefusalCode> {
    seq![
        RefusalCode { base: 0x7fff_ff00, prefix: 24 },
        RefusalCode { base: 0x7f00_01ff, prefix: 32 },
        RefusalCode { base: 0x7f00_02ff, prefix: 32 },
        RefusalCode { base: 0x7f00_0001, prefix: 32 },
        RefusalCode { base: 0x7f00_00ff, prefix: 32 },
    ]
}

/// The spelling of the default refusal codes.
pub const DEFAULT_REFUSAL_CODES: [&'static str; 5] = [
    "127.255.255.0/24",
    "127.0.1.255",
    "127.0.2.255",
    "127.0.0.1",
    "127.0.0.255",
];

/// The default refusal codes: 127.255.255.0/24, 127.0.1.255, 127.0.2.255, 127.0.0.1 and
/// 127.0.0.255.
pub fn default_refusal_codes() -> (r: Vec<RefusalCode>)
    ensures
        r@ == default_codes(),
{
    let mut out: Vec<RefusalCode> = Vec::new();
    out.push(RefusalCode { base: 0x7fff_ff00, prefix: 24 });
    out.push(RefusalCode { base: 0x7f00_01ff, prefix: 32 });
    out.push(RefusalCode { base: 0x7f00_02ff, prefix: 32 });
    out.push(RefusalCode { base: 0x7f00_0001, prefix: 32 });
    out.push(RefusalCode { base: 0x7f00_00ff, prefix: 32 });
    assert(out@ =~= default_codes());
    out
}

/// Whether a text is the spelling for no refusal codes.
pub open spec fn means_none(s: Seq<char>) -> bool {
    lower_chars(trimmed(s)) == "none"@
}

/// The patterns of the first `n` texts, or the first problem among them.
pub open spec fn codes_of(specs: Seq<Seq<char>>, n: nat) -> Result<Seq<RefusalCode>, Seq<char>>
    decreases n,
{
    if n == 0 {
        Ok(Seq::empty())
    } else {
        match codes_of(specs, (n - 1) as nat) {
            Err(e) => Err(e),
            Ok(codes) => match code_of(specs[n - 1]) {
                Err(e) => Err(e),
                Ok(code) => Ok(codes.push(code)),
            },
        }
    }
}

/// The first text at or after `i` that spells "none".
pub open spec fn none_index(specs: Seq<Seq<char>>, i: int) -> int
    decreases specs.len() - i,
{
    if i >= specs.len() {
        specs.len() as int
    } else if means_none(specs[i]) {
        i
    } else {
        none_index(specs, i + 1)
    }
}

/// The patterns that a configured list denotes: the defaults where it is empty, none where
/// it is just "none", else those it spells.
pub open spec fn resolved_codes(specs: Seq<Seq<char>>) -> Result<Seq<RefusalCode>, Seq<char>> {
    if specs.len() == 0 {
        Ok(default_codes())
    } else if specs.len() == 1 && means_none(specs[0]) {
        Ok(Seq::empty())
    } else if none_index(specs, 0) < specs.len() {
        Err(
            "refusal code '"@ + specs[none_index(specs, 0)]
                + "' disables refusal detection and must be the only entry"@,
        )
    } else {
        codes_of(specs, specs.len())
    }
}

fn is_none(s: &str) -> (r: bool)
    ensures
        r == means_none(s@),
{
    let chars = chars_of(s);
    let lower = to_lower_chars(trim(chars.as_slice()));
    let text = string_of(lower.as_slice());
    eq_text(text.as_str(), "none")
}

/// Whether each pattern is well formed.
pub open spec fn all_well_formed(codes: Seq<RefusalCode>) -> bool {
    forall|i: int| 0 <= i < codes.len() ==> (#[trigger] codes[i]).well_formed()
}

proof fn lemma_codes_prefix(specs: Seq<Seq<char>>, n: nat)
    requires
        n <= specs.len(),
        codes_of(specs, n) is Err,
    ensures
        codes_of(specs, specs.len()) == codes_of(specs, n),
    decreases specs.len() - n,
{
    if n < specs.len() {
        lemma_codes_prefix(specs, n + 1);
    }
}

/// Resolves a configured list into the patterns to match with.
pub fn resolve_refusal_codes(specs: &[String]) -> (r: Result<Vec<RefusalCode>, String>)
    ensures
        match r {
            Ok(v) => resolved_codes(crate::text::strings(specs@)) == Ok::<
                Seq<RefusalCode>,
                Seq<char>,
            >(v@) && all_well_formed(v@),
            Err(e) => resolved_codes(crate::text::strings(specs@)) == Err::<
                Seq<RefusalCode>,
                Seq<char>,
            >(e@),
        },
{
    let ghost all = crate::text::strings(specs@);
    if specs.len() == 0 {
        return Ok(default_refusal_codes());
    }
    assert(all[0] == specs@[0]@);
    if specs.len() == 1 && is_none(specs[0].as_str()) {
        let out: Vec<RefusalCode> = Vec::new();
        assert(out@ =~= Seq::empty());
        return Ok(out);
    }
    let mut i: usize = 0;
    while i < specs.len()
        invariant
            i <= specs.len(),
            all == crate::text::strings(specs@),
            all.len() > 0,
            !(all.len() == 1 && means_none(all[0])),
            none_index(all, 0) == none_index(all, i as int),
        decreases specs.len() - i,
    {
        assert(all[i as int] == specs@[i as int]@);
        if is_none(specs[i].as_str()) {
            return Err(
                join3(
                    "refusal code '",
                    specs[i].as_str(),
                    "' disables refusal detection and must be the only entry",
                ),
            );
        }
        i = i + 1;
    }
    let mut out: Vec<RefusalCode> = Vec::new();
    let mut i: usize = 0;
    assert(out@ =~= Seq::empty());
    while i < specs.len()
        invariant
            i <= specs.len(),
            all == crate::text::strings(specs@),
            all.len() > 0,
            !(all.len() == 1 && means_none(all[0])),
            none_index(all, 0) == all.len(),
            codes_of(all, i as nat) == Ok::<Seq<RefusalCode>, Seq<char>>(out@),
            all_well_formed(out@),
        decreases specs.len() - i,
    {
        assert(all[i as int] == specs@[i as int]@);
        match RefusalCode::parse(specs[i].as_str()) {
            Ok(code) => {
                out.push(code);
            },
            Err(e) => {
                proof {
                    lemma_codes_prefix(all, (i + 1) as nat);
                }
                return Err(e);
            },
        }
        i = i + 1;
    }
    Ok(out)
}

// ---------------------------------------------------------------------------
// Answers
// ---------------------------------------------------------------------------
/// What a blocklist zone returned for one query.
#[derive(Debug, PartialEq, Eq)]
pub struct DnsblAnswer {
    /// The returned addresses, in the order the provider sent them.
    pub codes: Vec<u32>,
    /// The TTL of the first address.
    pub ttl: u32,
}

impl DnsblAnswer {
    /// An answer carrying one code.
    pub fn single(code: u32, ttl: u32) -> (r: DnsblAnswer)
        ensures
            r.codes@ == seq![code],
            r.ttl == ttl,
    {
        let mut codes: Vec<u32> = Vec::new();
        codes.push(code);
        assert(codes@ =~= seq![code]);
        DnsblAnswer { codes, ttl }
    }

    /// The conventional listing answer, `127.0.0.2` (RFC 5782 section 2.1).
    pub fn listed(ttl: u32) -> (r: DnsblAnswer)
        ensures
            r.codes@ == seq![0x7f00_0002u32],
            r.ttl == ttl,
    {
        DnsblAnswer::single(0x7f00_0002, ttl)
    }
}

/// How one provider answered one lookup.
#[derive(Debug, Clone, Copy, PartialEq, Eq, Structural)]
pub enum DnsblVerdict {
    /// The provider listed the queried name.
    Listed,
    /// The provider answered, and did not list it.
    NotListed,
    /// The provider refused the query, with this code: neither a listing nor its absence.
    Refused(u32),
}

/// Whether some pattern covers a code.
pub open spec fn is_refusal(patterns: Seq<RefusalCode>, code: u32) -> bool {
    exists|i: int| 0 <= i < patterns.len() && code_matches(#[trigger] patterns[i], code)
}

/// The first code at or after `i` that is a refusal.
pub open spec fn refusal_index(codes: Seq<u32>, patterns: Seq<RefusalCode>, i: int) -> int
    decreases codes.len() - i,
{
    if i >= codes.len() {
        codes.len() as int
    } else if is_refusal(patterns, codes[i]) {
        i
    } else {
        refusal_index(codes, patterns, i + 1)
    }
}

/// What an answer says: a refusal anywhere in it, else a listing where there is any code.
pub open spec fn verdict_of(codes: Option<Seq<u32>>, patterns: Seq<RefusalCode>) -> DnsblVerdict {
    match codes {
        None => DnsblVerdict::NotListed,
        Some(c) => if refusal_index(c, patterns, 0) < c.len() {
            DnsblVerdict::Refused(c[refusal_index(c, patterns, 0)])
        } else if c.len() == 0 {
            DnsblVerdict::NotListed
        } else {
            DnsblVerdict::Listed
        },
    }
}

fn refuses(patterns: &[RefusalCode], code: u32) -> (r: bool)
    requires
        all_well_formed(patterns@),
    ensures
        r == is_refusal(patterns@, code),
{
    let mut i: usize = 0;
    while i < patterns.len()
        invariant
            i <= patterns.len(),
            all_well_formed(patterns@),
            forall|k: int| 0 <= k < i ==> !code_matches(#[trigger] patterns@[k], code),
        decreases patterns.len() - i,
    {
        assert(patterns@[i as int].well_formed());
        if patterns[i].matches(code) {
            return true;
        }
        i = i + 1;
    }
    false
}

/// The codes of an answer, if there is one.
pub open spec fn codes_in(answer: Option<&DnsblAnswer>) -> Option<Seq<u32>> {
    match answer {
        Some(a) => Some(a.codes@),
        None => None,
    }
}

/// Reads a provider's answer against its refusal codes. A refusal anywhere in the answer
/// wins over a listing in the same answer.
pub fn classify(answer: Option<&DnsblAnswer>, refusal_codes: &[RefusalCode]) -> (r: DnsblVerdict)
    requires
        all_well_formed(refusal_codes@),
    ensures
        r == verdict_of(codes_in(answer), refusal_codes@),
{
    match answer {
        None => DnsblVerdict::NotListed,
        Some(a) => {
            let mut i: usize = 0;
            while i < a.codes.len()
                invariant
                    i <= a.codes.len(),
                    all_well_formed(refusal_codes@),
                    codes_in(answer) == Some(a.codes@),
                    refusal_index(a.codes@, refusal_codes@, 0) == refusal_index(
                        a.codes@,
                        refusal_codes@,
                        i as int,
                    ),
                decreases a.codes.len() - i,
            {
                if refuses(refusal_codes, a.codes[i]) {
                    return DnsblVerdict::Refused(a.codes[i]);
                }
                i = i + 1;
            }
            if a.codes.len() == 0 {
                DnsblVerdict::NotListed
            } else {
                DnsblVerdict::Listed
            }
        },
    }
}

proof fn lemma_refusal_index(codes: Seq<u32>, patterns: Seq<RefusalCode>, i: int, k: int)
    requires
        0 <= i <= k < codes.len(),
        is_refusal(patterns, codes[k]),
    ensures
        refusal_index(codes, patterns, i) <= k,
    decreases k - i,
{
    if !is_refusal(patterns, codes[i]) {
        lemma_refusal_index(codes, patterns, i + 1, k);
    }
}

/// An answer that holds a refusal code is read as a refusal, whatever else it holds: a
/// complaint is never reputation.
pub proof fn law_refusal_beats_listing(codes: Seq<u32>, patterns: Seq<RefusalCode>, k: int)
    requires
        0 <= k < codes.len(),
        is_refusal(patterns, codes[k]),
    ensures
        verdict_of(Some(codes), patterns) is Refused,
{
    lemma_refusal_index(codes, patterns, 0, k);
}

/// A name in the form that blocklists are asked with: no trailing dots, ASCII lowercase.
pub open spec fn blocklist_name(name: Seq<char>) -> Seq<char> {
    lower_chars(strip_end(name, '.'))
}

/// Normalizes a domain name for blocklist lookups.
pub fn normalize_blocklist_name(name: &str) -> (r: String)
    ensures
        r@ == blocklist_name(name@),
{
    let chars = chars_of(name);
    let lower = to_lower_chars(strip_end_chars(chars.as_slice(), '.'));
    string_of(lower.as_slice())
}

/// Whether every pattern is settled.
pub open spec fn all_settled(codes: Seq<RefusalCode>) -> bool {
    forall|i: int| 0 <= i < codes.len() ==> settled(#[trigger] codes[i])
}

proof fn lemma_spelled_codes(codes: Seq<RefusalCode>, n: nat)
    requires
        all_settled(codes),
        n <= codes.len(),
    ensures
        codes_of(Seq::new(codes.len(), |i: int| code_text(codes[i])), n) == Ok::<
            Seq<RefusalCode>,
            Seq<char>,
        >(codes.subrange(0, n as int)),
    decreases n,
{
    if n > 0 {
        lemma_spelled_codes(codes, (n - 1) as nat);
        law_code_text_round_trip(codes[n - 1]);
        assert(codes.subrange(0, n as int) =~= codes.subrange(0, n - 1).push(codes[n - 1]));
    } else {
        assert(codes.subrange(0, 0) =~= Seq::empty());
    }
}

proof fn lemma_no_none(codes: Seq<RefusalCode>, i: int)
    requires
        all_settled(codes),
        0 <= i <= codes.len(),
    ensures
        none_index(Seq::new(codes.len(), |i: int| code_text(codes[i])), i) == codes.len(),
    decreases codes.len() - i,
{
    if i < codes.len() {
        law_code_text_round_trip(codes[i]);
        lemma_no_none(codes, i + 1);
    }
}

/// The spelling of a list of refusal codes.
pub open spec fn spelled_codes(codes: Seq<RefusalCode>) -> Seq<Seq<char>> {
    if codes.len() == 0 {
        seq!["none"@]
    } else {
        Seq::new(codes.len(), |i: int| code_text(codes[i]))
    }
}

/// Codes that were parsed, spelled out, resolve back to themselves: none of them stays
/// none, and never becomes the defaults that an empty list stands for.
pub proof fn law_spelled_codes_resolve_to_themselves(codes: Seq<RefusalCode>)
    requires
        all_settled(codes),
    ensures
        resolved_codes(spelled_codes(codes)) == Ok::<Seq<RefusalCode>, Seq<char>>(codes),
{
    if codes.len() == 0 {
        reveal_strlit("none");
        lemma_trimmed_already("none"@);
        assert(lower_chars("none"@) =~= "none"@);
        assert(codes =~= Seq::empty());
    } else {
        law_code_text_round_trip(codes[0]);
        lemma_no_none(codes, 0);
        lemma_spelled_codes(codes, codes.len());
        assert(codes.subrange(0, codes.len() as int) =~= codes);
    }
}

} // verus!
