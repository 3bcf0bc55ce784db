//! How the errors of this module read.
use vstd::prelude::*;

use crate::codec::{base64_complaint, base64_fault};
use crate::dnssec::algorithm::{algorithm_name, key_len, DnssecAlgorithm};
use crate::dnssec::clock::ClockError;
use crate::dnssec::keys::KeyError;
use crate::dnssec::nsec::NsecError;
use crate::dnssec::rdata::{canonical_rdata, rdata_of};
use crate::dnssec::rrsig::{rrsig_parsed, Rrsig, RrsigError, RrsigView};
use crate::dnssec::sign::{rdatas_of, SigningError, VerifyError};
use crate::record::{mnemonic, DnsRecord};
use crate::text::{
    chars_of, decimal, decimal_string, join2, join3, join4, parse_unsigned, parse_unsigned_max,
    quote, quoted, split_words, string_of, texts, u16_complaint, u16_fault, u32_complaint,
    u32_fault, u8_complaint, u8_fault, words,
};

verus! {

broadcast use vstd::string::group_string_axioms;

// ---------------------------------------------------------------------------
// Stored values
// ---------------------------------------------------------------------------
/// What is wrong with the first number of an RRSIG value that is not one.
pub open spec fn number_fault(f: Seq<Seq<char>>) -> Seq<char> {
    if parse_unsigned(f[2], 0xff) is None {
        u8_fault(f[2])
    } else if parse_unsigned(f[3], 0xffff_ffff) is None {
        u32_fault(f[3])
    } else if parse_unsigned(f[4], 0xffff_ffff) is None {
        u32_fault(f[4])
    } else if parse_unsigned(f[5], 0xffff_ffff) is None {
        u32_fault(f[5])
    } else {
        u16_fault(f[6])
    }
}

/// How it reads that a stored RRSIG value does not parse.
pub open spec fn rrsig_error_text(value: Seq<char>, e: RrsigError) -> Seq<char> {
    let f = words(value);
    match e {
        RrsigError::TooFewFields(n) => "RRSIG value has "@ + decimal(n as nat)
            + " fields, expected 9"@,
        RrsigError::UnknownType => "unknown covered type "@ + f[0],
        RrsigError::UnknownAlgorithm => "unknown algorithm "@ + f[1],
        RrsigError::BadNumber => number_fault(f),
        RrsigError::BadSignature => base64_fault(f[8]),
    }
}

fn number_complaint(fields: &Vec<Vec<char>>) -> (r: String)
    requires
        fields@.len() >= 9,
    ensures
        r@ == number_fault(texts(fields@)),
{
    let ghost f = texts(fields@);
    assert(forall|i: int| 0 <= i < 9 ==> #[trigger] f[i] == fields@[i]@);
    if parse_unsigned_max(fields[2].as_slice(), 0xff).is_none() {
        return u8_complaint(string_of(fields[2].as_slice()).as_str());
    }
    let mut i: usize = 3;
    while i < 6
        invariant
            3 <= i <= 6,
            fields@.len() >= 9,
            f == texts(fields@),
            forall|k: int| 0 <= k < 9 ==> #[trigger] f[k] == fields@[k]@,
            parse_unsigned(f[2], 0xff) is Some,
            forall|k: int| 3 <= k < i ==> parse_unsigned(#[trigger] f[k], 0xffff_ffff) is Some,
        decreases 6 - i,
    {
        if parse_unsigned_max(fields[i].as_slice(), 0xffff_ffff).is_none() {
            return u32_complaint(string_of(fields[i].as_slice()).as_str());
        }
        i = i + 1;
    }
    u16_complaint(string_of(fields[6].as_slice()).as_str())
}

impl RrsigError {
    /// How the error reads, for the value that does not parse.
    pub fn message(&self, value: &str) -> (r: String)
        requires
            rrsig_parsed(value@) == Err::<RrsigView, RrsigError>(*self),
        ensures
            r@ == rrsig_error_text(value@, *self),
    {
        let chars = chars_of(value);
        let fields = split_words(chars.as_slice());
        let ghost f = texts(fields@);
        assert(f == words(value@));
        match self {
            RrsigError::TooFewFields(n) => {
                let count = decimal_string(*n as u64);
                join3("RRSIG value has ", count.as_str(), " fields, expected 9")
            },
            RrsigError::UnknownType => {
                assert(f[0] == fields@[0]@);
                let field = string_of(fields[0].as_slice());
                join2("unknown covered type ", field.as_str())
            },
            RrsigError::UnknownAlgorithm => {
                assert(f[1] == fields@[1]@);
                let field = string_of(fields[1].as_slice());
                join2("unknown algorithm ", field.as_str())
            },
            RrsigError::BadNumber => number_complaint(&fields),
            RrsigError::BadSignature => {
                assert(f[8] == fields@[8]@);
                let field = string_of(fields[8].as_slice());
                base64_complaint(field.as_str())
            },
        }
    }
}

/// How it reads that a stored NSEC value does not parse.
pub open spec fn nsec_error_text(e: NsecError) -> Seq<char> {
    match e {
        NsecError::Empty => "NSEC value is empty"@,
        NsecError::UnknownType(field) => "unknown type "@ + field@ + " in NSEC bitmap"@,
    }
}

impl NsecError {
    /// How the error reads.
    pub fn message(&self) -> (r: String)
        ensures
            r@ == nsec_error_text(*self),
    {
        match self {
            NsecError::Empty => "NSEC value is empty".to_owned(),
            NsecError::UnknownType(field) => join3(
                "unknown type ",
                field.as_str(),
                " in NSEC bitmap",
            ),
        }
    }
}

// ---------------------------------------------------------------------------
// Keys
// ---------------------------------------------------------------------------
/// The family that a key of the algorithm belongs to.
pub open spec fn key_family(algorithm: DnssecAlgorithm) -> Seq<char> {
    if algorithm == DnssecAlgorithm::Ed25519 {
        "Ed25519"@
    } else {
        "ECDSA"@
    }
}

/// How a size that there may be reads.
pub open spec fn optional_size(n: Option<usize>) -> Seq<char> {
    match n {
        Some(n) => "Some("@ + decimal(n as nat) + ")"@,
        None => "None"@,
    }
}

/// How it reads that a key of the algorithm cannot be generated, loaded or used.
pub open spec fn key_error_text(algorithm: DnssecAlgorithm, e: KeyError) -> Seq<char> {
    let name = algorithm_name(algorithm);
    match e {
        KeyError::Unsupported => "cannot sign with algorithm "@ + name,
        KeyError::NotGenerated => "algorithm "@ + name + " is not supported for key generation"@,
        KeyError::GenerationFailed(text) => "failed to generate "@ + key_family(algorithm)
            + " key: "@ + text@,
        KeyError::BadMaterial(text) => "key material is not a valid "@ + name + " PKCS#8 key: "@
            + text@,
        KeyError::NotUncompressed => "ECDSA public key is not in uncompressed SEC1 form"@,
        KeyError::WrongLength(n) => name + " public key is "@ + decimal(n as nat)
            + " bytes, expected "@ + optional_size(key_len(algorithm)),
        KeyError::SigningFailed(text) => "ECDSA signing failed: "@ + text@,
    }
}

impl KeyError {
    /// How the error reads, for a key of the algorithm.
    pub fn message(&self, algorithm: DnssecAlgorithm) -> (r: String)
        ensures
            r@ == key_error_text(algorithm, *self),
    {
        let name = algorithm.as_str();
        match self {
            KeyError::Unsupported => join2("cannot sign with algorithm ", name),
            KeyError::NotGenerated => join3(
                "algorithm ",
                name,
                " is not supported for key generation",
            ),
            KeyError::GenerationFailed(text) => {
                let family = match algorithm {
                    DnssecAlgorithm::Ed25519 => "Ed25519",
                    _ => "ECDSA",
                };
                join4("failed to generate ", family, " key: ", text.as_str())
            },
            KeyError::BadMaterial(text) => join4(
                "key material is not a valid ",
                name,
                " PKCS#8 key: ",
                text.as_str(),
            ),
            KeyError::NotUncompressed => {
                "ECDSA public key is not in uncompressed SEC1 form".to_owned()
            },
            KeyError::WrongLength(n) => {
                let expected = match algorithm.public_key_len() {
                    Some(size) => {
                        let digits = decimal_string(size as u64);
                        join3("Some(", digits.as_str(), ")")
                    },
                    None => "None".to_owned(),
                };
                let size = decimal_string(*n as u64);
                let mut out = join4(name, " public key is ", size.as_str(), " bytes, expected ");
                out.append(expected.as_str());
                out
            },
            KeyError::SigningFailed(text) => join2("ECDSA signing failed: ", text.as_str()),
        }
    }
}

// ---------------------------------------------------------------------------
// Signatures
// ---------------------------------------------------------------------------
/// Whether a record has a canonical form.
#[verifier::opaque]
pub open spec fn encodable(record: DnsRecord) -> bool {
    rdata_of(record.record_type, record.value@, record.priority) is Some
}

fn is_encodable(record: &DnsRecord) -> (r: bool)
    ensures
        r == encodable(*record),
{
    reveal(encodable);
    canonical_rdata(record).is_some()
}

/// The first record at or after `i` without a canonical form.
pub open spec fn first_unencodable(rrset: Seq<DnsRecord>, i: int) -> int
    decreases rrset.len() - i,
{
    if i >= rrset.len() {
        rrset.len() as int
    } else if !encodable(rrset[i]) {
        i
    } else {
        first_unencodable(rrset, i + 1)
    }
}

proof fn lemma_first_unencodable(rrset: Seq<DnsRecord>, i: int)
    requires
        0 <= i <= rrset.len(),
    ensures
        i <= first_unencodable(rrset, i) <= rrset.len(),
        forall|k: int| i <= k < first_unencodable(rrset, i) ==> encodable(#[trigger] rrset[k]),
    decreases rrset.len() - i,
{
    if i < rrset.len() && encodable(rrset[i]) {
        lemma_first_unencodable(rrset, i + 1);
    }
}

proof fn lemma_all_encodable(rrset: Seq<DnsRecord>)
    requires
        forall|k: int| 0 <= k < rrset.len() ==> encodable(#[trigger] rrset[k]),
    ensures
        rdatas_of(rrset) is Some,
    decreases rrset.len(),
{
    reveal(encodable);
    if rrset.len() > 0 {
        assert(rrset.last() == rrset[rrset.len() - 1]);
        lemma_all_encodable(rrset.drop_last());
    }
}

/// How it reads that an RRset cannot be signed.
pub open spec fn signing_error_text(
    signer: Seq<char>,
    owner: Seq<char>,
    rrset: Seq<DnsRecord>,
    e: SigningError,
) -> Seq<char> {
    match e {
        SigningError::EmptyRrset => "cannot sign an empty RRset"@,
        SigningError::SignsSignatures => "RRSIG RRsets are not signed"@,
        SigningError::CannotEncode => {
            let bad = rrset[first_unencodable(rrset, 0)];
            "cannot canonically encode "@ + mnemonic(bad.record_type) + " record "@ + quoted(
                bad.value@,
            )
        },
        SigningError::BadOwner => "invalid owner name "@ + quoted(owner),
        SigningError::BadSigner => "invalid signer name "@ + quoted(signer),
        SigningError::RdataTooLong => "RDATA exceeds 65535 bytes"@,
        SigningError::KeyFailed(algorithm, e) => key_error_text(algorithm, e),
    }
}

impl SigningError {
    /// How the error reads, for the RRset and the zone that signs it.
    pub fn message(&self, signer: &str, owner: &str, rrset: &[DnsRecord]) -> (r: String)
        requires
            *self == SigningError::CannotEncode ==> rdatas_of(rrset@) is None,
        ensures
            r@ == signing_error_text(signer@, owner@, rrset@, *self),
    {
        match self {
            SigningError::EmptyRrset => "cannot sign an empty RRset".to_owned(),
            SigningError::SignsSignatures => "RRSIG RRsets are not signed".to_owned(),
            SigningError::CannotEncode => {
                proof {
                    lemma_first_unencodable(rrset@, 0);
                    if first_unencodable(rrset@, 0) == rrset@.len() {
                        lemma_all_encodable(rrset@);
                    }
                }
                let mut i: usize = 0;
                while is_encodable(&rrset[i])
                    invariant
                        i < rrset@.len(),
                        first_unencodable(rrset@, 0) < rrset@.len(),
                        first_unencodable(rrset@, 0) == first_unencodable(rrset@, i as int),
                    decreases rrset@.len() - i,
                {
                    assert(first_unencodable(rrset@, i as int) == first_unencodable(
                        rrset@,
                        i + 1,
                    ));
                    i = i + 1;
                    assert(i == rrset@.len() ==> first_unencodable(rrset@, i as int)
                        == rrset@.len());
                }
                let value = quote(rrset[i].value.as_str());
                join4(
                    "cannot canonically encode ",
                    rrset[i].record_type.as_str(),
                    " record ",
                    value.as_str(),
                )
            },
            SigningError::BadOwner => {
                let name = quote(owner);
                join2("invalid owner name ", name.as_str())
            },
            SigningError::BadSigner => {
                let name = quote(signer);
                join2("invalid signer name ", name.as_str())
            },
            SigningError::RdataTooLong => "RDATA exceeds 65535 bytes".to_owned(),
            SigningError::KeyFailed(algorithm, e) => e.message(*algorithm),
        }
    }
}

/// How it reads that a stored RRSIG does not verify over an RRset.
pub open spec fn verify_error_text(
    value: Seq<char>,
    owner: Seq<char>,
    rrset: Seq<DnsRecord>,
    e: VerifyError,
) -> Seq<char> {
    match (e, rrsig_parsed(value)) {
        (VerifyError::Malformed(e), _) => rrsig_error_text(value, e),
        (VerifyError::Unsignable(e), Ok(rrsig)) => signing_error_text(
            rrsig.signer_name,
            owner,
            rrset,
            e,
        ),
        (VerifyError::Rejected, Ok(rrsig)) => key_family(rrsig.algorithm)
            + " signature verification failed"@,
        _ => "RSA-SHA256 verification is not supported"@,
    }
}

impl VerifyError {
    /// How the error reads, for the stored RRSIG and the RRset that it is over.
    pub fn message(&self, value: &str, owner: &str, rrset: &[DnsRecord]) -> (r: String)
        requires
            match *self {
                VerifyError::Malformed(e) => rrsig_parsed(value@) == Err::<RrsigView, RrsigError>(e),
                VerifyError::Unsignable(e) => rrsig_parsed(value@) is Ok && (e
                    == SigningError::CannotEncode ==> rdatas_of(rrset@) is None),
                _ => rrsig_parsed(value@) is Ok,
            },
        ensures
            r@ == verify_error_text(value@, owner@, rrset@, *self),
    {
        match (self, Rrsig::parse(value)) {
            (VerifyError::Malformed(e), _) => e.message(value),
            (VerifyError::Unsignable(e), Ok(rrsig)) => {
                e.message(rrsig.signer_name.as_str(), owner, rrset)
            },
            (VerifyError::Rejected, Ok(rrsig)) => {
                let family = match rrsig.algorithm {
                    DnssecAlgorithm::Ed25519 => "Ed25519",
                    _ => "ECDSA",
                };
                join2(family, " signature verification failed")
            },
            _ => "RSA-SHA256 verification is not supported".to_owned(),
        }
    }
}

// ---------------------------------------------------------------------------
// The clock
// ---------------------------------------------------------------------------
/// How it reads that the clock gives no time for a signature.
pub open spec fn clock_error_text(e: ClockError) -> Seq<char> {
    match e {
        ClockError::BeforeEpoch(text) => "system clock is before the Unix epoch: "@ + text@,
        ClockError::PastLimit => "system clock is past the u32 epoch limit"@,
    }
}

impl ClockError {
    /// How the error reads.
    pub fn message(&self) -> (r: String)
        ensures
            r@ == clock_error_text(*self),
    {
        match self {
            ClockError::BeforeEpoch(text) => join2(
                "system clock is before the Unix epoch: ",
                text.as_str(),
            ),
            ClockError::PastLimit => "system clock is past the u32 epoch limit".to_owned(),
        }
    }
}

} // verus!
