//! Text and byte-string primitives shared by every parser and renderer: case
//! folding, trimming, splitting, and decimal numbers.
//!
//! Text is modelled as `Seq<char>`, wire data as `Seq<u8>`.
use vstd::prelude::*;
use vstd::slice::slice_subrange;
use vstd::string::*;
use vstd::utf8::*;

verus! {

broadcast use vstd::string::group_string_axioms;

// ---------------------------------------------------------------------------
// Building and taking apart strings
// ---------------------------------------------------------------------------
/// `String::push` appends the character to the end of the string.
pub assume_specification[ String::push ](s: &mut String, c: char)
    ensures
        final(s)@ == old(s)@.push(c),
;

/// The characters of `s`.
pub fn chars_of(s: &str) -> (r: Vec<char>)
    ensures
        r@ == s@,
{
    let mut out: Vec<char> = Vec::new();
    for c in it: s.chars()
        invariant
            it.seq() == s@,
            out@ == s@.subrange(0, it.index()),
    {
        proof {
            assert(s@.subrange(0, it.index() + 1) =~= s@.subrange(0, it.index()).push(c));
        }
        out.push(c);
    }
    proof {
        assert(s@.subrange(0, s@.len() as int) =~= s@);
    }
    out
}

/// The string made of `chars`.
pub fn string_of(chars: &[char]) -> (r: String)
    ensures
        r@ == chars@,
{
    let mut out = String::new();
    let mut i: usize = 0;
    while i < chars.len()
        invariant
            i <= chars.len(),
            out@ == chars@.subrange(0, i as int),
        decreases chars.len() - i,
    {
        out.push(chars[i]);
        proof {
            assert(chars@.subrange(0, i + 1) =~= chars@.subrange(0, i as int).push(chars@[i as int]));
        }
        i = i + 1;
    }
    proof {
        assert(chars@.subrange(0, i as int) =~= chars@);
    }
    out
}

/// Two texts, one after the other.
pub fn join2(a: &str, b: &str) -> (r: String)
    ensures
        r@ == a@ + b@,
{
    let mut out = a.to_owned();
    out.append(b);
    out
}

/// Three texts, one after another.
pub fn join3(a: &str, b: &str, c: &str) -> (r: String)
    ensures
        r@ == a@ + b@ + c@,
{
    let mut out = join2(a, b);
    out.append(c);
    out
}

/// Four texts, one after another.
pub fn join4(a: &str, b: &str, c: &str, d: &str) -> (r: String)
    ensures
        r@ == a@ + b@ + c@ + d@,
{
    let mut out = join3(a, b, c);
    out.append(d);
    out
}

/// Five texts, one after another.
pub fn join5(a: &str, b: &str, c: &str, d: &str, e: &str) -> (r: String)
    ensures
        r@ == a@ + b@ + c@ + d@ + e@,
{
    let mut out = join3(a, b, c);
    out.append(d);
    out.append(e);
    out
}

/// Seven texts, one after another.
pub fn join7(a: &str, b: &str, c: &str, d: &str, e: &str, f: &str, g: &str) -> (r: String)
    ensures
        r@ == a@ + b@ + c@ + d@ + e@ + f@ + g@,
{
    let mut out = join5(a, b, c, d, e);
    out.append(f);
    out.append(g);
    out
}

/// What `str`'s `Debug` makes of a text.
pub uninterp spec fn quoted(s: Seq<char>) -> Seq<char>;

/// `std::fmt::Debug` of `str`: the text between quotation marks, with those inside it, and
/// characters that cannot be printed, escaped.
#[verifier::external_body]
pub(crate) fn quote(s: &str) -> (r: String)
    ensures
        r@ == quoted(s@),
{
    format!("{:?}", s)
}

/// What `u8`'s parser says of a text that is no number of 8 bits.
pub uninterp spec fn u8_fault(s: Seq<char>) -> Seq<char>;

/// `str::parse` to a `u8`: the text of its error, which depends on the text alone; empty
/// where there is none.
#[verifier::external_body]
pub(crate) fn u8_complaint(s: &str) -> (r: String)
    ensures
        r@ == u8_fault(s@),
{
    s.parse::<u8>().err().map(|e| e.to_string()).unwrap_or_default()
}

/// What `u16`'s parser says of a text that is no number of 16 bits.
pub uninterp spec fn u16_fault(s: Seq<char>) -> Seq<char>;

/// `str::parse` to a `u16`: the text of its error, which depends on the text alone; empty
/// where there is none.
#[verifier::external_body]
pub(crate) fn u16_complaint(s: &str) -> (r: String)
    ensures
        r@ == u16_fault(s@),
{
    s.parse::<u16>().err().map(|e| e.to_string()).unwrap_or_default()
}

/// What `u32`'s parser says of a text that is no number of 32 bits.
pub uninterp spec fn u32_fault(s: Seq<char>) -> Seq<char>;

/// `str::parse` to a `u32`: the text of its error, which depends on the text alone; empty
/// where there is none.
#[verifier::external_body]
pub(crate) fn u32_complaint(s: &str) -> (r: String)
    ensures
        r@ == u32_fault(s@),
{
    s.parse::<u32>().err().map(|e| e.to_string()).unwrap_or_default()
}

/// The decimal digits of `n`, as a string.
pub fn decimal_string(n: u64) -> (r: String)
    ensures
        r@ == decimal(n as nat),
{
    let digits = decimal_chars(n);
    string_of(digits.as_slice())
}

/// Whether two byte strings are the same.
pub fn eq_bytes(a: &[u8], b: &[u8]) -> (r: bool)
    ensures
        r == (a@ == b@),
{
    if a.len() != b.len() {
        return false;
    }
    let mut i: usize = 0;
    while i < a.len()
        invariant
            i <= a.len(),
            a.len() == b.len(),
            a@.subrange(0, i as int) == b@.subrange(0, i as int),
        decreases a.len() - i,
    {
        if a[i] != b[i] {
            return false;
        }
        proof {
            assert(a@.subrange(0, i + 1) =~= a@.subrange(0, i as int).push(a@[i as int]));
            assert(b@.subrange(0, i + 1) =~= b@.subrange(0, i as int).push(b@[i as int]));
        }
        i = i + 1;
    }
    proof {
        assert(a@.subrange(0, i as int) =~= a@);
        assert(b@.subrange(0, i as int) =~= b@);
    }
    true
}

/// Two texts are the same exactly when their UTF-8 encodings are.
pub proof fn lemma_utf8_injective(a: Seq<char>, b: Seq<char>)
    ensures
        (encode_utf8(a) == encode_utf8(b)) == (a == b),
{
    if encode_utf8(a) == encode_utf8(b) {
        encode_utf8_decode_utf8(a);
        encode_utf8_decode_utf8(b);
    }
}

/// Whether two texts are the same.
pub fn eq_text(a: &str, b: &str) -> (r: bool)
    ensures
        r == (a@ == b@),
{
    proof {
        lemma_utf8_injective(a@, b@);
    }
    eq_bytes(a.as_bytes(), b.as_bytes())
}

// ---------------------------------------------------------------------------
// Case
// ---------------------------------------------------------------------------
pub open spec fn lower_byte(b: u8) -> u8 {
    if 0x41 <= b <= 0x5a {
        (b + 0x20) as u8
    } else {
        b
    }
}

pub open spec fn lower_bytes(s: Seq<u8>) -> Seq<u8> {
    Seq::new(s.len(), |i: int| lower_byte(s[i]))
}

pub open spec fn lower_char(c: char) -> char {
    if 'A' <= c <= 'Z' {
        ((c as u8 + 0x20) as u8) as char
    } else {
        c
    }
}

pub open spec fn upper_char(c: char) -> char {
    if 'a' <= c <= 'z' {
        ((c as u8 - 0x20) as u8) as char
    } else {
        c
    }
}

pub open spec fn lower_chars(s: Seq<char>) -> Seq<char> {
    Seq::new(s.len(), |i: int| lower_char(s[i]))
}

pub open spec fn upper_chars(s: Seq<char>) -> Seq<char> {
    Seq::new(s.len(), |i: int| upper_char(s[i]))
}

/// ASCII lowercase of one byte.
pub fn to_lower_byte(b: u8) -> (r: u8)
    ensures
        r == lower_byte(b),
{
    if 0x41 <= b && b <= 0x5a {
        b + 0x20
    } else {
        b
    }
}

/// ASCII lowercase of one character.
pub fn to_lower_char(c: char) -> (r: char)
    ensures
        r == lower_char(c),
{
    if 'A' <= c && c <= 'Z' {
        ((c as u8) + 0x20) as char
    } else {
        c
    }
}

/// ASCII lowercase of a text.
pub fn to_lower_chars(s: &[char]) -> (r: Vec<char>)
    ensures
        r@ == lower_chars(s@),
{
    let mut out: Vec<char> = Vec::new();
    let mut i: usize = 0;
    while i < s.len()
        invariant
            i <= s.len(),
            out@ == lower_chars(s@.subrange(0, i as int)),
        decreases s.len() - i,
    {
        out.push(to_lower_char(s[i]));
        i = i + 1;
        proof {
            assert(out@ =~= lower_chars(s@.subrange(0, i as int)));
        }
    }
    proof {
        assert(s@.subrange(0, i as int) =~= s@);
    }
    out
}

/// ASCII lowercase of a byte string.
pub fn to_lower_bytes(s: &[u8]) -> (r: Vec<u8>)
    ensures
        r@ == lower_bytes(s@),
{
    let mut out: Vec<u8> = Vec::new();
    let mut i: usize = 0;
    while i < s.len()
        invariant
            i <= s.len(),
            out@ == lower_bytes(s@.subrange(0, i as int)),
        decreases s.len() - i,
    {
        out.push(to_lower_byte(s[i]));
        i = i + 1;
        proof {
            assert(out@ =~= lower_bytes(s@.subrange(0, i as int)));
        }
    }
    proof {
        assert(s@.subrange(0, i as int) =~= s@);
    }
    out
}

/// What `str::to_lowercase` makes of a text that is not all ASCII.
pub uninterp spec fn unicode_lowercase(s: Seq<char>) -> Seq<char>;

/// What `str::to_uppercase` makes of a text that is not all ASCII.
pub uninterp spec fn unicode_uppercase(s: Seq<char>) -> Seq<char>;

/// The lowercase form of a text.
pub open spec fn lowercase(s: Seq<char>) -> Seq<char> {
    if is_ascii_chars(s) {
        lower_chars(s)
    } else {
        unicode_lowercase(s)
    }
}

/// The uppercase form of a text.
pub open spec fn uppercase(s: Seq<char>) -> Seq<char> {
    if is_ascii_chars(s) {
        upper_chars(s)
    } else {
        unicode_uppercase(s)
    }
}

/// `str::to_lowercase`. On ASCII text it maps `A`-`Z` to `a`-`z` and keeps every
/// other character; on any other text its result depends on the text alone.
#[verifier::external_body]
pub(crate) fn to_lowercase(s: &str) -> (r: String)
    ensures
        r@ == lowercase(s@),
        !is_ascii_chars(s@) ==> r@ == unicode_lowercase(s@),
{
    s.to_lowercase()
}

/// `str::to_uppercase`. On ASCII text it maps `a`-`z` to `A`-`Z` and keeps every
/// other character; on any other text its result depends on the text alone.
#[verifier::external_body]
pub(crate) fn to_uppercase(s: &str) -> (r: String)
    ensures
        r@ == uppercase(s@),
        !is_ascii_chars(s@) ==> r@ == unicode_uppercase(s@),
{
    s.to_uppercase()
}

/// What `String::from_utf8_lossy` makes of octets that are not UTF-8.
pub uninterp spec fn utf8_lossy(b: Seq<u8>) -> Seq<char>;

/// The text that octets spell, what is not UTF-8 in them replaced.
pub open spec fn lossy_text(b: Seq<u8>) -> Seq<char> {
    if valid_utf8(b) {
        decode_utf8(b)
    } else {
        utf8_lossy(b)
    }
}

/// `String::from_utf8_lossy`. Valid UTF-8 is decoded; on anything else the result
/// depends on the octets alone.
#[verifier::external_body]
pub(crate) fn from_utf8_lossy(b: &[u8]) -> (r: String)
    ensures
        r@ == lossy_text(b@),
        !valid_utf8(b@) ==> r@ == utf8_lossy(b@),
{
    String::from_utf8_lossy(b).into_owned()
}

// ---------------------------------------------------------------------------
// Blanks and trimming
// ---------------------------------------------------------------------------
/// The characters with the Unicode property `White_Space`.
pub open spec fn white_space(c: char) -> bool {
    let u = c as u32;
    ||| 0x9 <= u <= 0xd
    ||| u == 0x20
    ||| u == 0x85
    ||| u == 0xa0
    ||| u == 0x1680
    ||| 0x2000 <= u <= 0x200a
    ||| u == 0x2028
    ||| u == 0x2029
    ||| u == 0x202f
    ||| u == 0x205f
    ||| u == 0x3000
}

/// Whether `c` is white space.
pub fn is_white_space(c: char) -> (r: bool)
    ensures
        r == white_space(c),
{
    let u: u32 = c as u32;
    (0x9 <= u && u <= 0xd) || u == 0x20 || u == 0x85 || u == 0xa0 || u == 0x1680 || (0x2000 <= u
        && u <= 0x200a) || u == 0x2028 || u == 0x2029 || u == 0x202f || u == 0x205f || u == 0x3000
}

/// `s` without its longest prefix of white space.
pub open spec fn trim_start(s: Seq<char>) -> Seq<char>
    decreases s.len(),
{
    if s.len() > 0 && white_space(s[0]) {
        trim_start(s.drop_first())
    } else {
        s
    }
}

/// `s` without its longest suffix of white space.
pub open spec fn trim_end(s: Seq<char>) -> Seq<char>
    decreases s.len(),
{
    if s.len() > 0 && white_space(s.last()) {
        trim_end(s.drop_last())
    } else {
        s
    }
}

/// `s` without white space at either end.
pub open spec fn trimmed(s: Seq<char>) -> Seq<char> {
    trim_end(trim_start(s))
}

/// `s` without its longest suffix of `x`.
pub open spec fn strip_end<T>(s: Seq<T>, x: T) -> Seq<T>
    decreases s.len(),
{
    if s.len() > 0 && s.last() == x {
        strip_end(s.drop_last(), x)
    } else {
        s
    }
}

/// `s` without its longest prefix of `x`.
pub open spec fn strip_start<T>(s: Seq<T>, x: T) -> Seq<T>
    decreases s.len(),
{
    if s.len() > 0 && s[0] == x {
        strip_start(s.drop_first(), x)
    } else {
        s
    }
}

/// `s` without white space at either end.
pub fn trim(s: &[char]) -> (r: &[char])
    ensures
        r@ == trimmed(s@),
{
    let mut i: usize = 0;
    proof {
        assert(s@.subrange(0, s@.len() as int) =~= s@);
    }
    while i < s.len() && is_white_space(s[i])
        invariant
            i <= s.len(),
            trim_start(s@.subrange(i as int, s@.len() as int)) == trim_start(s@),
        decreases s.len() - i,
    {
        proof {
            assert(s@.subrange(i as int, s@.len() as int).drop_first() =~= s@.subrange(
                i + 1,
                s@.len() as int,
            ));
        }
        i = i + 1;
    }
    let ghost t = s@.subrange(i as int, s@.len() as int);
    let mut j: usize = s.len();
    while i < j && is_white_space(s[j - 1])
        invariant
            i <= j <= s.len(),
            trim_end(s@.subrange(i as int, j as int)) == trim_end(t),
        decreases j,
    {
        proof {
            assert(s@.subrange(i as int, j as int).drop_last() =~= s@.subrange(i as int, j - 1));
        }
        j = j - 1;
    }
    slice_subrange(s, i, j)
}

/// `str::trim`, to an owned string.
pub fn trim_str(s: &str) -> (r: String)
    ensures
        r@ == trimmed(s@),
{
    let chars = chars_of(s);
    string_of(trim(chars.as_slice()))
}

/// `s` without its trailing `x` bytes.
pub fn strip_end_bytes(s: &[u8], x: u8) -> (r: &[u8])
    ensures
        r@ == strip_end(s@, x),
{
    let mut j: usize = s.len();
    proof {
        assert(s@.subrange(0, s@.len() as int) =~= s@);
    }
    while 0 < j && s[j - 1] == x
        invariant
            j <= s.len(),
            strip_end(s@.subrange(0, j as int), x) == strip_end(s@, x),
        decreases j,
    {
        proof {
            assert(s@.subrange(0, j as int).drop_last() =~= s@.subrange(0, j - 1));
        }
        j = j - 1;
    }
    slice_subrange(s, 0, j)
}

/// `s` without its trailing `x` characters.
pub fn strip_end_chars(s: &[char], x: char) -> (r: &[char])
    ensures
        r@ == strip_end(s@, x),
{
    let mut j: usize = s.len();
    proof {
        assert(s@.subrange(0, s@.len() as int) =~= s@);
    }
    while 0 < j && s[j - 1] == x
        invariant
            j <= s.len(),
            strip_end(s@.subrange(0, j as int), x) == strip_end(s@, x),
        decreases j,
    {
        proof {
            assert(s@.subrange(0, j as int).drop_last() =~= s@.subrange(0, j - 1));
        }
        j = j - 1;
    }
    slice_subrange(s, 0, j)
}

// ---------------------------------------------------------------------------
// Splitting
// ---------------------------------------------------------------------------
/// The pieces of `s` between occurrences of `sep`; there is always at least one.
pub open spec fn split<T>(s: Seq<T>, sep: T) -> Seq<Seq<T>>
    decreases s.len(),
{
    if s.len() == 0 {
        seq![Seq::<T>::empty()]
    } else {
        let before = split(s.drop_last(), sep);
        if s.last() == sep {
            before.push(Seq::<T>::empty())
        } else {
            before.drop_last().push(before.last().push(s.last()))
        }
    }
}

/// The pieces put together again, `sep` between each two.
pub open spec fn join<T>(parts: Seq<Seq<T>>, sep: T) -> Seq<T>
    decreases parts.len(),
{
    if parts.len() == 0 {
        Seq::empty()
    } else if parts.len() == 1 {
        parts[0]
    } else {
        join(parts.drop_last(), sep).push(sep) + parts.last()
    }
}

/// The maximal runs of characters that are not white space.
pub open spec fn words(s: Seq<char>) -> Seq<Seq<char>>
    decreases s.len(),
{
    if s.len() == 0 {
        Seq::empty()
    } else {
        let before = words(s.drop_last());
        if white_space(s.last()) {
            before
        } else if s.len() == 1 || white_space(s[s.len() - 2]) {
            before.push(seq![s.last()])
        } else {
            before.drop_last().push(before.last().push(s.last()))
        }
    }
}

/// The first position at or after `i` with a character that is not white space.
pub open spec fn skip_blanks(s: Seq<char>, i: int) -> int
    decreases s.len() - i,
{
    if i < 0 || i >= s.len() || !white_space(s[i]) {
        i
    } else {
        skip_blanks(s, i + 1)
    }
}

/// The first position at or after `i` with white space.
pub open spec fn skip_word(s: Seq<char>, i: int) -> int
    decreases s.len() - i,
{
    if i < 0 || i >= s.len() || white_space(s[i]) {
        i
    } else {
        skip_word(s, i + 1)
    }
}

/// Where the word at position `n` begins.
pub open spec fn word_at(s: Seq<char>, n: nat) -> int
    decreases n,
{
    if n == 0 {
        skip_blanks(s, 0)
    } else {
        skip_blanks(s, skip_word(s, word_at(s, (n - 1) as nat)))
    }
}

/// Finds where the word at position `n` begins; the length of `s` where there is none.
pub fn find_word(s: &[char], n: usize) -> (r: usize)
    ensures
        r == word_at(s@, n as nat),
        r <= s@.len(),
{
    let mut at: usize = past_blanks(s, 0);
    let mut k: usize = 0;
    while k < n
        invariant
            k <= n,
            at == word_at(s@, k as nat),
            at <= s@.len(),
        decreases n - k,
    {
        at = past_blanks(s, past_word(s, at));
        k = k + 1;
    }
    at
}

fn past_blanks(s: &[char], from: usize) -> (r: usize)
    requires
        from <= s@.len(),
    ensures
        r == skip_blanks(s@, from as int),
        r <= s@.len(),
{
    let mut i: usize = from;
    while i < s.len() && is_white_space(s[i])
        invariant
            i <= s.len(),
            skip_blanks(s@, from as int) == skip_blanks(s@, i as int),
        decreases s.len() - i,
    {
        i = i + 1;
    }
    i
}

fn past_word(s: &[char], from: usize) -> (r: usize)
    requires
        from <= s@.len(),
    ensures
        r == skip_word(s@, from as int),
        r <= s@.len(),
{
    let mut i: usize = from;
    while i < s.len() && !is_white_space(s[i])
        invariant
            i <= s.len(),
            skip_word(s@, from as int) == skip_word(s@, i as int),
        decreases s.len() - i,
    {
        i = i + 1;
    }
    i
}

/// The contents of a vector of character vectors.
pub open spec fn texts(v: Seq<Vec<char>>) -> Seq<Seq<char>> {
    Seq::new(v.len(), |i: int| v[i]@)
}

/// The contents of a vector of byte vectors.
pub open spec fn byte_strings(v: Seq<Vec<u8>>) -> Seq<Seq<u8>> {
    Seq::new(v.len(), |i: int| v[i]@)
}

/// The contents of a vector of strings.
pub open spec fn strings(v: Seq<String>) -> Seq<Seq<char>> {
    Seq::new(v.len(), |i: int| v[i]@)
}

pub proof fn lemma_split_nonempty<T>(s: Seq<T>, sep: T)
    ensures
        split(s, sep).len() >= 1,
    decreases s.len(),
{
    if s.len() > 0 {
        lemma_split_nonempty(s.drop_last(), sep);
    }
}

/// Splitting keeps every element: joining the pieces restores the input.
pub proof fn lemma_join_split<T>(s: Seq<T>, sep: T)
    ensures
        join(split(s, sep), sep) == s,
    decreases s.len(),
{
    lemma_split_nonempty(s, sep);
    if s.len() == 0 {
    } else {
        let d = s.drop_last();
        let before = split(d, sep);
        lemma_join_split(d, sep);
        lemma_split_nonempty(d, sep);
        assert(s =~= d.push(s.last()));
        let all = split(s, sep);
        if s.last() == sep {
            assert(all.drop_last() =~= before);
            assert(join(all, sep) =~= d.push(sep));
        } else {
            assert(all.drop_last() =~= before.drop_last());
            assert(join(all, sep) =~= s);
        }
    }
}

/// No piece holds the separator.
pub proof fn lemma_split_pieces<T>(s: Seq<T>, sep: T)
    ensures
        forall|i: int| #![trigger split(s, sep)[i]]
            0 <= i < split(s, sep).len() ==> !split(s, sep)[i].contains(sep),
    decreases s.len(),
{
    lemma_split_nonempty(s, sep);
    if s.len() > 0 {
        let d = s.drop_last();
        lemma_split_pieces(d, sep);
        lemma_split_nonempty(d, sep);
        let before = split(d, sep);
        let all = split(s, sep);
        assert forall|i: int| 0 <= i < all.len() implies !(#[trigger] all[i]).contains(sep) by {
            if s.last() == sep {
                if i < before.len() {
                    assert(all[i] == before[i]);
                }
            } else if i < before.len() - 1 {
                assert(all[i] == before[i]);
            } else {
                assert(all[i] == before.last().push(s.last()));
                assert(before.last() == before[before.len() - 1]);
                if all[i].contains(sep) {
                    let k = choose|k: int| 0 <= k < all[i].len() && all[i][k] == sep;
                    assert(before.last()[k] == sep);
                }
            }
        }
    }
}

/// The pieces of a byte string between occurrences of `sep`.
pub fn split_bytes(s: &[u8], sep: u8) -> (r: Vec<Vec<u8>>)
    ensures
        byte_strings(r@) == split(s@, sep),
{
    let mut out: Vec<Vec<u8>> = Vec::new();
    let mut piece: Vec<u8> = Vec::new();
    let mut i: usize = 0;
    proof {
        assert(byte_strings(out@).push(piece@) =~= split(s@.subrange(0, 0), sep));
    }
    while i < s.len()
        invariant
            i <= s.len(),
            byte_strings(out@).push(piece@) == split(s@.subrange(0, i as int), sep),
        decreases s.len() - i,
    {
        let ghost done = byte_strings(out@);
        let ghost last = piece@;
        proof {
            assert(s@.subrange(0, i + 1).drop_last() =~= s@.subrange(0, i as int));
            assert(done.push(last).drop_last() =~= done);
        }
        if s[i] == sep {
            out.push(piece);
            piece = Vec::new();
            proof {
                assert(byte_strings(out@) =~= done.push(last));
            }
        } else {
            piece.push(s[i]);
        }
        i = i + 1;
        proof {
            assert(byte_strings(out@).push(piece@) =~= split(s@.subrange(0, i as int), sep));
        }
    }
    let ghost done = byte_strings(out@);
    let ghost last = piece@;
    out.push(piece);
    proof {
        assert(s@.subrange(0, i as int) =~= s@);
        assert(byte_strings(out@) =~= done.push(last));
    }
    out
}

/// The pieces of a text between occurrences of `sep`.
pub fn split_chars(s: &[char], sep: char) -> (r: Vec<Vec<char>>)
    ensures
        texts(r@) == split(s@, sep),
{
    let mut out: Vec<Vec<char>> = Vec::new();
    let mut piece: Vec<char> = Vec::new();
    let mut i: usize = 0;
    proof {
        assert(texts(out@).push(piece@) =~= split(s@.subrange(0, 0), sep));
    }
    while i < s.len()
        invariant
            i <= s.len(),
            texts(out@).push(piece@) == split(s@.subrange(0, i as int), sep),
        decreases s.len() - i,
    {
        let ghost done = texts(out@);
        let ghost last = piece@;
        proof {
            assert(s@.subrange(0, i + 1).drop_last() =~= s@.subrange(0, i as int));
            assert(done.push(last).drop_last() =~= done);
        }
        if s[i] == sep {
            out.push(piece);
            piece = Vec::new();
            proof {
                assert(texts(out@) =~= done.push(last));
            }
        } else {
            piece.push(s[i]);
        }
        i = i + 1;
        proof {
            assert(texts(out@).push(piece@) =~= split(s@.subrange(0, i as int), sep));
        }
    }
    let ghost done = texts(out@);
    let ghost last = piece@;
    out.push(piece);
    proof {
        assert(s@.subrange(0, i as int) =~= s@);
        assert(texts(out@) =~= done.push(last));
    }
    out
}

/// `str::split_whitespace`: the words of a text.
pub fn split_words(s: &[char]) -> (r: Vec<Vec<char>>)
    ensures
        texts(r@) == words(s@),
{
    let mut out: Vec<Vec<char>> = Vec::new();
    let mut word: Vec<char> = Vec::new();
    let mut i: usize = 0;
    proof {
        assert(texts(out@) =~= words(s@.subrange(0, 0)));
    }
    while i < s.len()
        invariant
            i <= s.len(),
            (word@.len() > 0) == (i > 0 && !white_space(s@[i - 1])),
            words(s@.subrange(0, i as int)) == if word@.len() > 0 {
                texts(out@).push(word@)
            } else {
                texts(out@)
            },
        decreases s.len() - i,
    {
        let ghost done = texts(out@);
        let ghost last = word@;
        let ghost prefix = s@.subrange(0, i + 1);
        proof {
            assert(prefix.drop_last() =~= s@.subrange(0, i as int));
            assert(done.push(last).drop_last() =~= done);
        }
        if is_white_space(s[i]) {
            if word.len() > 0 {
                out.push(word);
                word = Vec::new();
                proof {
                    assert(texts(out@) =~= done.push(last));
                }
            }
        } else {
            word.push(s[i]);
            proof {
                if i == 0 {
                    assert(prefix.len() == 1);
                } else {
                    assert(prefix[prefix.len() - 2] == s@[i - 1]);
                }
                assert(last.len() == 0 ==> word@ =~= seq![s@[i as int]]);
            }
        }
        i = i + 1;
    }
    proof {
        assert(s@.subrange(0, i as int) =~= s@);
    }
    if word.len() > 0 {
        let ghost done = texts(out@);
        let ghost last = word@;
        out.push(word);
        proof {
            assert(texts(out@) =~= done.push(last));
        }
    }
    out
}

/// A word: at least one character, none of them white space.
pub open spec fn is_word(w: Seq<char>) -> bool {
    w.len() > 0 && forall|i: int| 0 <= i < w.len() ==> !white_space(#[trigger] w[i])
}

proof fn lemma_words_run(s: Seq<char>, w: Seq<char>)
    requires
        is_word(w),
        s.len() == 0 || white_space(s.last()),
    ensures
        words(s + w) == words(s).push(w),
    decreases w.len(),
{
    let t = s + w;
    let d = w.drop_last();
    assert(t.drop_last() =~= s + d);
    assert(t.last() == w.last());
    assert(!white_space(w[w.len() - 1]));
    if w.len() == 1 {
        assert(s + d =~= s);
        assert(t.len() == 1 || t[t.len() - 2] == s.last());
        assert(w =~= seq![t.last()]);
    } else {
        assert forall|i: int| 0 <= i < d.len() implies !white_space(#[trigger] d[i]) by {
            assert(d[i] == w[i]);
        }
        lemma_words_run(s, d);
        assert(t[t.len() - 2] == w[w.len() - 2]);
        let before = words(s + d);
        assert(before.drop_last() =~= words(s));
        assert(before.last() == d);
        assert(d.push(w.last()) =~= w);
    }
}

/// A text that is one word.
pub proof fn lemma_words_single(w: Seq<char>)
    requires
        is_word(w),
    ensures
        words(w) == seq![w],
{
    let e = Seq::<char>::empty();
    lemma_words_run(e, w);
    assert(e + w =~= w);
    assert(words(e).push(w) =~= seq![w]);
}

/// A word behind a blank is one more word.
pub proof fn lemma_words_append(s: Seq<char>, w: Seq<char>)
    requires
        is_word(w),
    ensures
        words(s.push(' ') + w) == words(s).push(w),
{
    let p = s.push(' ');
    assert(p.drop_last() =~= s);
    assert(words(p) == words(s));
    lemma_words_run(p, w);
}

/// The text of an optional string.
pub open spec fn optional_text(s: Option<String>) -> Option<Seq<char>> {
    match s {
        Some(t) => Some(t@),
        None => None,
    }
}

/// The text of an optional slice.
pub open spec fn optional_str(s: Option<&str>) -> Option<Seq<char>> {
    match s {
        Some(t) => Some(t@),
        None => None,
    }
}

/// The first position at or after `i` at which `part` occurs in `s`; the length of `s`
/// where there is none.
pub open spec fn occurrence(s: Seq<char>, part: Seq<char>, i: int) -> int
    decreases s.len() - i,
{
    if i < 0 || i >= s.len() || i + part.len() > s.len() {
        s.len() as int
    } else if s.subrange(i, i + part.len()) == part {
        i
    } else {
        occurrence(s, part, i + 1)
    }
}

/// The first position at which `part` occurs in `s`.
pub fn find_part(s: &[char], part: &[char]) -> (r: usize)
    ensures
        r == occurrence(s@, part@, 0),
        r <= s@.len(),
{
    let mut i: usize = 0;
    while i < s.len() && part.len() <= s.len() && i <= s.len() - part.len()
        invariant
            i <= s.len(),
            occurrence(s@, part@, 0) == occurrence(s@, part@, i as int),
        decreases s.len() - i,
    {
        let window = slice_subrange(s, i, i + part.len());
        let mut k: usize = 0;
        while k < part.len() && window[k] == part[k]
            invariant
                k <= part.len(),
                window.len() == part.len(),
                window@.subrange(0, k as int) == part@.subrange(0, k as int),
            decreases part.len() - k,
        {
            assert(window@.subrange(0, k + 1) =~= window@.subrange(0, k as int).push(
                window@[k as int],
            ));
            assert(part@.subrange(0, k + 1) =~= part@.subrange(0, k as int).push(part@[k as int]));
            k = k + 1;
        }
        if k == part.len() {
            assert(window@.subrange(0, k as int) =~= window@);
            assert(part@.subrange(0, k as int) =~= part@);
            return i;
        }
        assert(window@ != part@) by {
            if window@ == part@ {
                assert(window@[k as int] == part@[k as int]);
            }
        }
        i = i + 1;
    }
    s.len()
}

// ---------------------------------------------------------------------------
// Decimal numbers
// ---------------------------------------------------------------------------
pub open spec fn is_digit(c: char) -> bool {
    '0' <= c <= '9'
}

/// The number that a string of decimal digits denotes.
pub open spec fn digits_value(s: Seq<char>) -> nat
    decreases s.len(),
{
    if s.len() == 0 {
        0
    } else {
        (digits_value(s.drop_last()) * 10 + (s.last() as u32 - '0' as u32)) as nat
    }
}

pub open spec fn all_digits(s: Seq<char>) -> bool {
    forall|i: int| 0 <= i < s.len() ==> is_digit(#[trigger] s[i])
}

/// The value of one or more decimal digits, provided it is at most `max`.
pub open spec fn parse_digits(s: Seq<char>, max: nat) -> Option<nat> {
    if s.len() > 0 && all_digits(s) && digits_value(s) <= max {
        Some(digits_value(s))
    } else {
        None
    }
}

/// What an unsigned integer type with maximum `max` parses from a text: an
/// optional `+`, then one or more decimal digits.
pub open spec fn parse_unsigned(s: Seq<char>, max: nat) -> Option<nat> {
    if s.len() > 0 && s[0] == '+' {
        parse_digits(s.drop_first(), max)
    } else {
        parse_digits(s, max)
    }
}

/// The decimal digits of `n`.
pub open spec fn decimal(n: nat) -> Seq<char>
    decreases n,
{
    if n < 10 {
        seq![((0x30 + n) as u8) as char]
    } else {
        decimal(n / 10).push(((0x30 + n % 10) as u8) as char)
    }
}

pub proof fn lemma_digits_value_prefix(s: Seq<char>, i: int)
    requires
        all_digits(s),
        0 <= i <= s.len(),
    ensures
        digits_value(s.subrange(0, i)) <= digits_value(s),
    decreases s.len() - i,
{
    if i < s.len() {
        let p = s.subrange(0, i + 1);
        assert(p.drop_last() =~= s.subrange(0, i));
        assert(is_digit(s[i]));
        lemma_digits_value_prefix(s, i + 1);
    } else {
        assert(s.subrange(0, i) =~= s);
    }
}

/// Parses one or more decimal digits whose value is at most `max`.
pub fn parse_digits_max(s: &[char], max: u64) -> (r: Option<u64>)
    ensures
        match r {
            Some(v) => parse_digits(s@, max as nat) == Some(v as nat),
            None => parse_digits(s@, max as nat) is None,
        },
{
    if s.len() == 0 {
        return None;
    }
    let mut value: u64 = 0;
    let mut i: usize = 0;
    while i < s.len()
        invariant
            i <= s.len(),
            s.len() > 0,
            all_digits(s@.subrange(0, i as int)),
            value == digits_value(s@.subrange(0, i as int)),
            value <= max,
        decreases s.len() - i,
    {
        let c = s[i];
        if !('0' <= c && c <= '9') {
            proof {
                assert(!is_digit(s@[i as int]));
            }
            return None;
        }
        let d: u64 = (c as u32 - '0' as u32) as u64;
        proof {
            let p = s@.subrange(0, i + 1);
            assert(p.drop_last() =~= s@.subrange(0, i as int));
            assert(digits_value(p) == value * 10 + d);
            if all_digits(s@) {
                lemma_digits_value_prefix(s@, i + 1);
            }
        }
        if d > max || value > max / 10 || value * 10 > max - d {
            return None;
        }
        value = value * 10 + d;
        i = i + 1;
        proof {
            let p = s@.subrange(0, i as int);
            assert forall|k: int| 0 <= k < p.len() implies is_digit(#[trigger] p[k]) by {
                if k < i - 1 {
                    assert(s@.subrange(0, i - 1)[k] == p[k]);
                }
            }
        }
    }
    proof {
        assert(s@.subrange(0, i as int) =~= s@);
    }
    Some(value)
}

/// Parses an unsigned integer at most `max`, as the integer types' own parsers do.
pub fn parse_unsigned_max(s: &[char], max: u64) -> (r: Option<u64>)
    ensures
        match r {
            Some(v) => parse_unsigned(s@, max as nat) == Some(v as nat),
            None => parse_unsigned(s@, max as nat) is None,
        },
{
    if s.len() > 0 && s[0] == '+' {
        proof {
            assert(s@.subrange(1, s@.len() as int) =~= s@.drop_first());
        }
        parse_digits_max(slice_subrange(s, 1, s.len()), max)
    } else {
        parse_digits_max(s, max)
    }
}

/// The decimal digits of `n`.
pub fn decimal_chars(n: u64) -> (r: Vec<char>)
    ensures
        r@ == decimal(n as nat),
    decreases n,
{
    if n < 10 {
        let mut out: Vec<char> = Vec::new();
        out.push((0x30u8 + n as u8) as char);
        proof {
            assert(out@ =~= decimal(n as nat));
        }
        out
    } else {
        let mut out = decimal_chars(n / 10);
        out.push((0x30u8 + (n % 10) as u8) as char);
        out
    }
}

/// Appends the decimal digits of `n`.
pub fn push_decimal(out: &mut String, n: u64)
    ensures
        final(out)@ == old(out)@ + decimal(n as nat),
{
    let digits = decimal_chars(n);
    let text = string_of(digits.as_slice());
    out.append(text.as_str());
}

/// Decimal text is digits only and denotes the number it was made from.
pub proof fn lemma_decimal(n: nat)
    ensures
        decimal(n).len() > 0,
        all_digits(decimal(n)),
        digits_value(decimal(n)) == n,
    decreases n,
{
    if n < 10 {
        let s = decimal(n);
        assert(s.drop_last() =~= Seq::<char>::empty());
        assert(digits_value(s.drop_last()) == 0);
    } else {
        lemma_decimal(n / 10);
        let s = decimal(n);
        assert(s.drop_last() =~= decimal(n / 10));
        assert forall|i: int| 0 <= i < s.len() implies is_digit(#[trigger] s[i]) by {
            if i < s.len() - 1 {
                assert(s[i] == decimal(n / 10)[i]);
            }
        }
    }
}

/// Rendering a number and parsing it gives the number back.
pub proof fn lemma_decimal_round_trip(n: nat, max: nat)
    requires
        n <= max,
    ensures
        parse_unsigned(decimal(n), max) == Some(n),
{
    lemma_decimal(n);
    assert(is_digit(decimal(n)[0]));
}

} // verus!
