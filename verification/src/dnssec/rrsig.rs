//! The stored and wire forms of an RRSIG record.
use vstd::prelude::*;
use vstd::string::*;
use vstd::utf8::*;

use crate::codec::{
    base64_decode, base64_decoded, base64_digit, base64_encode, base64_text, be16, be32,
    law_base64_round_trip, push_be16, push_be32, six_bits,
};
use crate::dnssec::algorithm::{
    algorithm_number, algorithm_of, law_algorithm_number_round_trip, DnssecAlgorithm,
};
use crate::names::{canonical_form, canonical_name};
use crate::record::{
    kind_of, law_mnemonic_round_trip, lemma_mnemonic_chars, mnemonic, type_code, RecordKind,
};
use crate::text::{
    chars_of, decimal, is_digit, is_word, lemma_decimal, lemma_decimal_round_trip,
    lemma_words_append, lemma_words_single, parse_unsigned, parse_unsigned_max, push_decimal,
    split_words, string_of, texts, white_space, words,
};

verus! {

broadcast use vstd::string::group_string_axioms;

/// An RRSIG record.
///
/// It is stored as `"<type_covered> <algorithm> <labels> <original_ttl> <expiration>
/// <inception> <key_tag> <signer_name> <base64_signature>"`, times being seconds since
/// the Unix epoch.
#[derive(Debug, Clone, PartialEq, Eq)]
pub struct Rrsig {
    pub type_covered: RecordKind,
    pub algorithm: DnssecAlgorithm,
    pub labels: u8,
    pub original_ttl: u32,
    pub expiration: u32,
    pub inception: u32,
    pub key_tag: u16,
    pub signer_name: String,
    pub signature: Vec<u8>,
}

/// The contents of an RRSIG record.
pub ghost struct RrsigView {
    pub type_covered: RecordKind,
    pub algorithm: DnssecAlgorithm,
    pub labels: u8,
    pub original_ttl: u32,
    pub expiration: u32,
    pub inception: u32,
    pub key_tag: u16,
    pub signer_name: Seq<char>,
    pub signature: Seq<u8>,
}

impl View for Rrsig {
    type V = RrsigView;

    open spec fn view(&self) -> RrsigView {
        RrsigView {
            type_covered: self.type_covered,
            algorithm: self.algorithm,
            labels: self.labels,
            original_ttl: self.original_ttl,
            expiration: self.expiration,
            inception: self.inception,
            key_tag: self.key_tag,
            signer_name: self.signer_name@,
            signature: self.signature@,
        }
    }
}

/// Why a stored RRSIG value does not parse. Fields are read from left to right, and
/// the first that is wrong is reported.
#[derive(Debug, Clone, Copy, PartialEq, Eq, Structural)]
pub enum RrsigError {
    /// Fewer than nine fields.
    TooFewFields(usize),
    /// The first field names no record type.
    UnknownType,
    /// The second field names no algorithm.
    UnknownAlgorithm,
    /// One of the third to seventh fields is no number in range.
    BadNumber,
    /// The ninth field is not base64.
    BadSignature,
}

/// What a stored value parses to.
pub open spec fn rrsig_parsed(value: Seq<char>) -> Result<RrsigView, RrsigError> {
    let f = words(value);
    if f.len() < 9 {
        Err(RrsigError::TooFewFields(f.len() as usize))
    } else if kind_of(f[0]) is None {
        Err(RrsigError::UnknownType)
    } else if algorithm_of(f[1]) is None {
        Err(RrsigError::UnknownAlgorithm)
    } else if parse_unsigned(f[2], 0xff) is None || parse_unsigned(f[3], 0xffff_ffff) is None
        || parse_unsigned(f[4], 0xffff_ffff) is None || parse_unsigned(f[5], 0xffff_ffff) is None
        || parse_unsigned(f[6], 0xffff) is None {
        Err(RrsigError::BadNumber)
    } else if base64_decoded(f[8]) is None {
        Err(RrsigError::BadSignature)
    } else {
        Ok(
            RrsigView {
                type_covered: kind_of(f[0])->0,
                algorithm: algorithm_of(f[1])->0,
                labels: parse_unsigned(f[2], 0xff)->0 as u8,
                original_ttl: parse_unsigned(f[3], 0xffff_ffff)->0 as u32,
                expiration: parse_unsigned(f[4], 0xffff_ffff)->0 as u32,
                inception: parse_unsigned(f[5], 0xffff_ffff)->0 as u32,
                key_tag: parse_unsigned(f[6], 0xffff)->0 as u16,
                signer_name: f[7],
                signature: base64_decoded(f[8])->0,
            },
        )
    }
}

/// Words with a blank between each two.
pub open spec fn blank_separated(fields: Seq<Seq<char>>) -> Seq<char>
    decreases fields.len(),
{
    if fields.len() == 0 {
        Seq::empty()
    } else if fields.len() == 1 {
        fields[0]
    } else {
        blank_separated(fields.drop_last()).push(' ') + fields.last()
    }
}

/// The nine fields of the stored form.
pub open spec fn rrsig_fields(r: RrsigView) -> Seq<Seq<char>> {
    seq![
        mnemonic(r.type_covered),
        decimal(algorithm_number(r.algorithm) as nat),
        decimal(r.labels as nat),
        decimal(r.original_ttl as nat),
        decimal(r.expiration as nat),
        decimal(r.inception as nat),
        decimal(r.key_tag as nat),
        r.signer_name,
        base64_text(r.signature),
    ]
}

/// The stored form.
pub open spec fn rrsig_text(r: RrsigView) -> Seq<char> {
    blank_separated(rrsig_fields(r))
}

/// The RDATA before the signature, which is itself signed (RFC 4034 section 3.1.8.1).
pub open spec fn rrsig_prefix(r: RrsigView) -> Option<Seq<u8>> {
    match canonical_form(r.signer_name) {
        Some(signer) => Some(
            be16(type_code(r.type_covered)) + seq![algorithm_number(r.algorithm), r.labels] + be32(
                r.original_ttl,
            ) + be32(r.expiration) + be32(r.inception) + be16(r.key_tag) + signer,
        ),
        None => None,
    }
}

/// The RDATA of an RRSIG record.
pub open spec fn rrsig_rdata(r: RrsigView) -> Option<Seq<u8>> {
    match rrsig_prefix(r) {
        Some(prefix) => Some(prefix + r.signature),
        None => None,
    }
}

fn push_number(out: &mut String, n: u64)
    ensures
        final(out)@ == old(out)@.push(' ') + decimal(n as nat),
{
    out.push(' ');
    push_decimal(out, n);
}

impl Rrsig {
    /// Renders the stored form.
    pub fn to_value(&self) -> (r: String)
        ensures
            r@ == rrsig_text(self@),
    {
        let mut out = self.type_covered.as_str().to_owned();
        push_number(&mut out, self.algorithm.number() as u64);
        push_number(&mut out, self.labels as u64);
        push_number(&mut out, self.original_ttl as u64);
        push_number(&mut out, self.expiration as u64);
        push_number(&mut out, self.inception as u64);
        push_number(&mut out, self.key_tag as u64);
        out.push(' ');
        out.append(self.signer_name.as_str());
        out.push(' ');
        let signature = base64_encode(self.signature.as_slice());
        out.append(signature.as_str());
        proof {
            lemma_nine_fields(rrsig_fields(self@));
        }
        out
    }

    /// Parses the stored form.
    pub fn parse(value: &str) -> (r: Result<Rrsig, RrsigError>)
        ensures
            match r {
                Ok(x) => rrsig_parsed(value@) == Ok::<RrsigView, RrsigError>(x@),
                Err(e) => rrsig_parsed(value@) == Err::<RrsigView, RrsigError>(e),
            },
    {
        let chars = chars_of(value);
        let fields = split_words(chars.as_slice());
        let ghost f = texts(fields@);
        if fields.len() < 9 {
            return Err(RrsigError::TooFewFields(fields.len()));
        }
        assert(forall|i: int| 0 <= i < 9 ==> #[trigger] f[i] == fields@[i]@);
        let kind_name = string_of(fields[0].as_slice());
        let type_covered = match RecordKind::parse(kind_name.as_str()) {
            Some(k) => k,
            None => {
                return Err(RrsigError::UnknownType);
            },
        };
        let algorithm_name = string_of(fields[1].as_slice());
        let algorithm = match DnssecAlgorithm::parse(algorithm_name.as_str()) {
            Some(a) => a,
            None => {
                return Err(RrsigError::UnknownAlgorithm);
            },
        };
        match (
            parse_unsigned_max(fields[2].as_slice(), 0xff),
            parse_unsigned_max(fields[3].as_slice(), 0xffff_ffff),
            parse_unsigned_max(fields[4].as_slice(), 0xffff_ffff),
            parse_unsigned_max(fields[5].as_slice(), 0xffff_ffff),
            parse_unsigned_max(fields[6].as_slice(), 0xffff),
        ) {
            (Some(labels), Some(ttl), Some(expiration), Some(inception), Some(tag)) => {
                let text = string_of(fields[8].as_slice());
                match base64_decode(text.as_str()) {
                    Some(signature) => Ok(
                        Rrsig {
                            type_covered,
                            algorithm,
                            labels: labels as u8,
                            original_ttl: ttl as u32,
                            expiration: expiration as u32,
                            inception: inception as u32,
                            key_tag: tag as u16,
                            signer_name: string_of(fields[7].as_slice()),
                            signature,
                        },
                    ),
                    None => Err(RrsigError::BadSignature),
                }
            },
            _ => Err(RrsigError::BadNumber),
        }
    }

    /// The RDATA fields that precede the signature.
    pub fn signed_prefix(&self) -> (r: Option<Vec<u8>>)
        ensures
            match r {
                Some(v) => rrsig_prefix(self@) == Some(v@),
                None => rrsig_prefix(self@) is None,
            },
    {
        let signer = match canonical_name(self.signer_name.as_str()) {
            Some(s) => s,
            None => {
                return None;
            },
        };
        let mut out: Vec<u8> = Vec::new();
        push_be16(&mut out, self.type_covered.wire_type());
        out.push(self.algorithm.number());
        out.push(self.labels);
        push_be32(&mut out, self.original_ttl);
        push_be32(&mut out, self.expiration);
        push_be32(&mut out, self.inception);
        push_be16(&mut out, self.key_tag);
        out.extend_from_slice(signer.as_slice());
        assert(out@ =~= rrsig_prefix(self@)->0);
        Some(out)
    }

    /// The full wire RDATA: the signed prefix followed by the signature.
    pub fn rdata(&self) -> (r: Option<Vec<u8>>)
        ensures
            match r {
                Some(v) => rrsig_rdata(self@) == Some(v@),
                None => rrsig_rdata(self@) is None,
            },
    {
        match self.signed_prefix() {
            Some(prefix) => {
                let mut out = prefix;
                out.extend_from_slice(self.signature.as_slice());
                assert(out@ =~= rrsig_rdata(self@)->0);
                Some(out)
            },
            None => None,
        }
    }
}

proof fn lemma_nine_fields(f: Seq<Seq<char>>)
    requires
        f.len() == 9,
    ensures
        blank_separated(f) == f[0].push(' ') + f[1].push(' ') + f[2].push(' ') + f[3].push(' ')
            + f[4].push(' ') + f[5].push(' ') + f[6].push(' ') + f[7].push(' ') + f[8],
        blank_separated(f) == (((((((f[0].push(' ') + f[1]).push(' ') + f[2]).push(' ') + f[3]).push(
            ' ',
        ) + f[4]).push(' ') + f[5]).push(' ') + f[6]).push(' ') + f[7]).push(' ') + f[8],
{
    reveal_with_fuel(blank_separated, 9);
    let f8 = f.drop_last();
    let f7 = f8.drop_last();
    let f6 = f7.drop_last();
    let f5 = f6.drop_last();
    let f4 = f5.drop_last();
    let f3 = f4.drop_last();
    let f2 = f3.drop_last();
    let f1 = f2.drop_last();
    assert(f1.len() == 1 && f1[0] == f[0]);
    assert(f2.last() == f[1] && f3.last() == f[2] && f4.last() == f[3] && f5.last() == f[4]
        && f6.last() == f[5] && f7.last() == f[6] && f8.last() == f[7] && f.last() == f[8]);
    assert(blank_separated(f) =~= f[0].push(' ') + f[1].push(' ') + f[2].push(' ') + f[3].push(' ')
        + f[4].push(' ') + f[5].push(' ') + f[6].push(' ') + f[7].push(' ') + f[8]);
}

/// Words with blanks between them split into themselves.
pub proof fn lemma_words_of_blank_separated(fields: Seq<Seq<char>>)
    requires
        forall|i: int| 0 <= i < fields.len() ==> is_word(#[trigger] fields[i]),
    ensures
        words(blank_separated(fields)) == fields,
    decreases fields.len(),
{
    if fields.len() == 0 {
        assert(words(Seq::<char>::empty()) =~= fields);
    } else if fields.len() == 1 {
        assert(is_word(fields[0]));
        lemma_words_single(fields[0]);
        assert(fields =~= seq![fields[0]]);
    } else {
        let d = fields.drop_last();
        assert forall|i: int| 0 <= i < d.len() implies is_word(#[trigger] d[i]) by {
            assert(d[i] == fields[i]);
        }
        lemma_words_of_blank_separated(d);
        assert(is_word(fields[fields.len() - 1]));
        lemma_words_append(blank_separated(d), fields.last());
        assert(d.push(fields.last()) =~= fields);
    }
}

pub proof fn lemma_decimal_is_word(n: nat)
    ensures
        is_word(decimal(n)),
{
    lemma_decimal(n);
    let d = decimal(n);
    assert forall|i: int| 0 <= i < d.len() implies !white_space(#[trigger] d[i]) by {
        assert(is_digit(d[i]));
    }
}

proof fn lemma_base64_is_word(b: Seq<u8>)
    requires
        b.len() > 0,
    ensures
        is_word(base64_text(b)),
{
    let t = base64_text(b);
    assert(t.len() == (b.len() + 2) / 3 * 4);
    assert((b.len() + 2) / 3 >= 1);
    assert forall|i: int| 0 <= i < t.len() implies !white_space(#[trigger] t[i]) by {
        let v = six_bits(b, i);
        assert(0 <= v < 64);
        let c = base64_digit(v, false);
        assert(0x2b <= c as u32 <= 0x7a);
    }
}

/// The stored form of an RRSIG parses back to the same RRSIG. The signer has to be a
/// single word and the signature must not be empty, or the stored form has not nine
/// fields.
pub proof fn law_rrsig_value_round_trip(r: RrsigView)
    requires
        is_word(r.signer_name),
        r.signature.len() > 0,
    ensures
        rrsig_parsed(rrsig_text(r)) == Ok::<RrsigView, RrsigError>(r),
{
    let f = rrsig_fields(r);
    lemma_mnemonic_chars(r.type_covered);
    assert(is_word(f[0])) by {
        let m = mnemonic(r.type_covered);
        assert forall|i: int| 0 <= i < m.len() implies !white_space(#[trigger] m[i]) by {
            assert('A' <= m[i] <= 'Z' || m[i] == '3');
        }
    }
    lemma_decimal_is_word(algorithm_number(r.algorithm) as nat);
    lemma_decimal_is_word(r.labels as nat);
    lemma_decimal_is_word(r.original_ttl as nat);
    lemma_decimal_is_word(r.expiration as nat);
    lemma_decimal_is_word(r.inception as nat);
    lemma_decimal_is_word(r.key_tag as nat);
    lemma_base64_is_word(r.signature);
    assert forall|i: int| 0 <= i < f.len() implies is_word(#[trigger] f[i]) by {
        assert(i == 0 || i == 1 || i == 2 || i == 3 || i == 4 || i == 5 || i == 6 || i == 7 || i
            == 8);
    }
    lemma_words_of_blank_separated(f);
    law_mnemonic_round_trip(r.type_covered);
    law_algorithm_number_round_trip(r.algorithm);
    lemma_decimal_round_trip(r.labels as nat, 0xff);
    lemma_decimal_round_trip(r.original_ttl as nat, 0xffff_ffff);
    lemma_decimal_round_trip(r.expiration as nat, 0xffff_ffff);
    lemma_decimal_round_trip(r.inception as nat, 0xffff_ffff);
    lemma_decimal_round_trip(r.key_tag as nat, 0xffff);
    law_base64_round_trip(r.signature);
}

} // verus!
