//! Trust anchors: the keys that the chain of trust starts from.
use vstd::prelude::*;
use vstd::string::*;

use crate::codec::{base64_complaint, base64_decode, base64_decoded, base64_fault};
use crate::text::{
    chars_of, decimal, decimal_string, join2, join3, join5, parse_unsigned,
    parse_unsigned_max, quote, quoted, split_words, string_of, texts, trim_str, trimmed, words,
};

verus! {

broadcast use vstd::string::group_string_axioms;

/// `hickory`'s set of trust anchors.
#[verifier::external_type_specification]
#[verifier::external_body]
pub struct ExTrustAnchors(hickory_proto::dnssec::TrustAnchors);

/// The keys in a set of trust anchors, each with its algorithm number, in the order in
/// which they were put in.
pub uninterp spec fn anchor_keys(
    anchors: hickory_proto::dnssec::TrustAnchors,
) -> Seq<(Seq<u8>, u8)>;

/// `hickory_proto::dnssec::TrustAnchors::empty`: a set without keys.
#[verifier::external_body]
fn no_anchors() -> (r: hickory_proto::dnssec::TrustAnchors)
    ensures
        anchor_keys(r) == Seq::<(Seq<u8>, u8)>::empty(),
{
    hickory_proto::dnssec::TrustAnchors::empty()
}

/// The root key with the tag 20326, in base64.
pub const ROOT_KEY_20326: &'static str = "AwEAAaz/tAm8yTn4Mfeh5eyI96WSVexTBAvkMgJzkKTOiW1vkIbzxeF3+/4RgWOq7HrxRixHlFlExOLAJr5emLvN7SWXgnLh4+B5xQlNVz8Og8kvArMtNROxVQuCaSnIDdD5LKyWbRd2n9WGe2R8PzgCmr3EgVLrjyBxWezF0jLHwVN8efS3rCj/EWgvIWgb9tarpVUDK/b58Da+sqqls3eNbuv7pr+eoZG+SrDK6nWeL3c6H5Apxz7LjVc1uTIdsIXxuOLYA4/ilBmSVIzuDWfdRUfhHdY6+cn8HFRm+2hM8AnXGXws9555KrUB5qihylGa8subX2Nn6UwNR1AkUTV74bU=";

/// The root key with the tag 38696, in base64.
pub const ROOT_KEY_38696: &'static str = "AwEAAa96jeuknZlaeSrvyAJj6ZHv28hhOKkx3rLGXVaC6rXTsDc449/cidltpkyGwCJNnOAlFNKF2jBosZBU5eeHspaQWOmOElZsjICMQMC3aeHbGiShvZsx4wMYSjH8e7Vrhbu6irwCzVBApESjbUdpWWmEnhathWu1jo+siFUiRAAxm9qyJNg/wOZqqzL/dL/q8PkcRU5oUKEpUge71M3ej2/7CPqpdVwuMoTvoB+ZOT4YeGyxMvHmbrxlFzGOHOijtzN+u1TQNatX2XBuzZNQ1K+s2CXkPIZo7s6JgZyvaBevYtxPvYLw4z9mR7K2vaF18UYH9Z9GNUUeayffKC73PYc=";

/// The root keys, both RSA with SHA-256.
pub open spec fn root_keys() -> Seq<(Seq<u8>, u8)> {
    seq![
        (base64_decoded(ROOT_KEY_20326@)->0, 8u8),
        (base64_decoded(ROOT_KEY_38696@)->0, 8u8),
    ]
}

/// `hickory_proto::dnssec::TrustAnchors::default`: the two root keys that the crate was
/// built with, the older one first.
#[verifier::external_body]
fn root_anchors() -> (r: hickory_proto::dnssec::TrustAnchors)
    ensures
        anchor_keys(r) == root_keys(),
{
    hickory_proto::dnssec::TrustAnchors::default()
}

/// `hickory_proto::dnssec::TrustAnchors::insert`: adds a key at the end, unless the same
/// octets are there under the same algorithm.
#[verifier::external_body]
fn insert_anchor(anchors: &mut hickory_proto::dnssec::TrustAnchors, key: Vec<u8>, algorithm: u8)
    ensures
        anchor_keys(*final(anchors)) == with_anchor(anchor_keys(*old(anchors)), (key@, algorithm)),
{
    let algorithm = hickory_proto::dnssec::Algorithm::from_u8(algorithm);
    anchors.insert(&hickory_proto::dnssec::PublicKeyBuf::new(key, algorithm));
}

/// `hickory_proto::dnssec::TrustAnchors::contains`: whether the octets are there under
/// the algorithm.
#[verifier::external_body]
pub(crate) fn is_anchor(
    anchors: &hickory_proto::dnssec::TrustAnchors,
    key: &[u8],
    algorithm: u8,
) -> (r: bool)
    ensures
        r == anchor_keys(*anchors).contains((key@, algorithm)),
{
    let algorithm = hickory_proto::dnssec::Algorithm::from_u8(algorithm);
    anchors.contains(&hickory_proto::dnssec::PublicKeyBuf::new(key.to_vec(), algorithm))
}

/// `hickory_proto::dnssec::TrustAnchors::len`: the number of keys.
#[verifier::external_body]
fn count_anchors(anchors: &hickory_proto::dnssec::TrustAnchors) -> (r: usize)
    ensures
        r == anchor_keys(*anchors).len(),
{
    anchors.len()
}

/// Keys with one key more, unless it is there.
pub open spec fn with_anchor(keys: Seq<(Seq<u8>, u8)>, key: (Seq<u8>, u8)) -> Seq<(Seq<u8>, u8)> {
    if keys.contains(key) {
        keys
    } else {
        keys.push(key)
    }
}

/// What is wrong with an anchor.
#[derive(Debug, Clone, Copy, PartialEq, Eq, Structural)]
pub enum AnchorProblem {
    /// Fewer than four fields.
    TooFewFields(usize),
    /// The flags are no 16-bit number.
    BadFlags,
    /// The zone-key flag is not set (RFC 4034 section 2.1.1).
    NotZoneKey,
    /// The protocol is no 8-bit number.
    BadProtocol,
    /// The protocol is not 3 (RFC 4034 section 2.1.2).
    WrongProtocol(u8),
    /// The algorithm is no 8-bit number.
    BadAlgorithm,
    /// Signatures of the algorithm cannot be verified.
    UnsupportedAlgorithm(u8),
    /// The key is not base64.
    UndecodableKey,
    /// The key has no octets.
    EmptyKey,
    /// The key has not the algorithm's size.
    WrongKeyLength(usize, usize),
}

/// Why a set of anchors cannot be built: the first entry that is wrong and what is wrong
/// with it, or that there is none.
#[derive(Debug, Clone, Copy, PartialEq, Eq, Structural)]
pub enum AnchorError {
    Entry(usize, AnchorProblem),
    NoAnchors,
}

/// Whether signatures of an algorithm can be verified.
pub open spec fn verifiable(algorithm: u8) -> bool {
    algorithm == 5 || algorithm == 7 || algorithm == 8 || algorithm == 10 || algorithm == 13
        || algorithm == 14 || algorithm == 15
}

/// Whether signatures of an algorithm can be verified.
pub fn is_verifiable(algorithm: u8) -> (r: bool)
    ensures
        r == verifiable(algorithm),
{
    algorithm == 5 || algorithm == 7 || algorithm == 8 || algorithm == 10 || algorithm == 13
        || algorithm == 14 || algorithm == 15
}

/// The size of an algorithm's public key, where it has only one.
pub open spec fn fixed_key_len(algorithm: u8) -> Option<usize> {
    if algorithm == 15 {
        Some(32)
    } else if algorithm == 13 {
        Some(64)
    } else if algorithm == 14 {
        Some(96)
    } else {
        None
    }
}

/// The DNSKEY public-key size an algorithm always uses, where it has one.
pub fn fixed_public_key_len(algorithm: u8) -> (r: Option<usize>)
    ensures
        r == fixed_key_len(algorithm),
{
    if algorithm == 15 {
        Some(32)
    } else if algorithm == 13 {
        Some(64)
    } else if algorithm == 14 {
        Some(96)
    } else {
        None
    }
}

/// Texts run together.
pub open spec fn run_together(fields: Seq<Seq<char>>) -> Seq<char>
    decreases fields.len(),
{
    if fields.len() == 0 {
        Seq::empty()
    } else {
        run_together(fields.drop_last()) + fields.last()
    }
}

/// The key and algorithm of an anchor in the form `"<flags> <protocol> <algorithm>
/// <base64 key>"`, where blanks may stand in the key.
pub open spec fn anchor_of(entry: Seq<char>) -> Result<(Seq<u8>, u8), AnchorProblem> {
    let f = words(trimmed(entry));
    if f.len() < 4 {
        Err(AnchorProblem::TooFewFields(f.len() as usize))
    } else if parse_unsigned(f[0], 0xffff) is None {
        Err(AnchorProblem::BadFlags)
    } else if parse_unsigned(f[0], 0xffff)->0 / 256 % 2 == 0 {
        Err(AnchorProblem::NotZoneKey)
    } else if parse_unsigned(f[1], 0xff) is None {
        Err(AnchorProblem::BadProtocol)
    } else if parse_unsigned(f[1], 0xff)->0 != 3 {
        Err(AnchorProblem::WrongProtocol(parse_unsigned(f[1], 0xff)->0 as u8))
    } else if parse_unsigned(f[2], 0xff) is None {
        Err(AnchorProblem::BadAlgorithm)
    } else {
        let algorithm = parse_unsigned(f[2], 0xff)->0 as u8;
        let key = base64_decoded(run_together(f.subrange(3, f.len() as int)));
        if !verifiable(algorithm) {
            Err(AnchorProblem::UnsupportedAlgorithm(algorithm))
        } else if key is None {
            Err(AnchorProblem::UndecodableKey)
        } else if key->0.len() == 0 {
            Err(AnchorProblem::EmptyKey)
        } else if fixed_key_len(algorithm) is Some && key->0.len() != fixed_key_len(algorithm)->0 {
            Err(
                AnchorProblem::WrongKeyLength(
                    key->0.len() as usize,
                    fixed_key_len(algorithm)->0,
                ),
            )
        } else {
            Ok((key->0, algorithm))
        }
    }
}

/// The keys of the first `n` entries, or the first problem among them.
pub open spec fn anchors_of(entries: Seq<Seq<char>>, n: nat) -> Result<
    Seq<(Seq<u8>, u8)>,
    AnchorError,
>
    decreases n,
{
    if n == 0 {
        Ok(Seq::empty())
    } else {
        match anchors_of(entries, (n - 1) as nat) {
            Err(e) => Err(e),
            Ok(keys) => match anchor_of(entries[n - 1]) {
                Err(p) => Err(AnchorError::Entry((n - 1) as usize, p)),
                Ok(key) => Ok(with_anchor(keys, key)),
            },
        }
    }
}

/// The keys of a list of entries, which must not be empty.
pub open spec fn anchor_set(entries: Seq<Seq<char>>) -> Result<Seq<(Seq<u8>, u8)>, AnchorError> {
    match anchors_of(entries, entries.len()) {
        Err(e) => Err(e),
        Ok(keys) => if keys.len() == 0 {
            Err(AnchorError::NoAnchors)
        } else {
            Ok(keys)
        },
    }
}

fn concatenate(fields: &Vec<Vec<char>>, from: usize) -> (r: String)
    requires
        from <= fields@.len(),
    ensures
        r@ == run_together(texts(fields@).subrange(from as int, fields@.len() as int)),
{
    let ghost tail = texts(fields@).subrange(from as int, fields@.len() as int);
    let mut out = String::new();
    let mut i: usize = from;
    assert(tail.subrange(0, 0) =~= Seq::empty());
    while i < fields.len()
        invariant
            from <= i <= fields.len(),
            tail == texts(fields@).subrange(from as int, fields@.len() as int),
            out@ == run_together(tail.subrange(0, i - from)),
        decreases fields.len() - i,
    {
        let part = string_of(fields[i].as_slice());
        out.append(part.as_str());
        proof {
            let p = tail.subrange(0, i - from + 1);
            assert(p.drop_last() =~= tail.subrange(0, i - from));
            assert(p.last() == fields@[i as int]@);
        }
        i = i + 1;
    }
    assert(tail.subrange(0, i - from) =~= tail);
    out
}

/// Reads one anchor.
pub fn parse_anchor(entry: &str) -> (r: Result<(Vec<u8>, u8), AnchorProblem>)
    ensures
        match r {
            Ok((key, algorithm)) => anchor_of(entry@) == Ok::<(Seq<u8>, u8), AnchorProblem>(
                (key@, algorithm),
            ),
            Err(p) => anchor_of(entry@) == Err::<(Seq<u8>, u8), AnchorProblem>(p),
        },
{
    let text = trim_str(entry);
    let chars = chars_of(text.as_str());
    let fields = split_words(chars.as_slice());
    let ghost f = texts(fields@);
    if fields.len() < 4 {
        return Err(AnchorProblem::TooFewFields(fields.len()));
    }
    assert(f[0] == fields@[0]@ && f[1] == fields@[1]@ && f[2] == fields@[2]@);
    match parse_unsigned_max(fields[0].as_slice(), 0xffff) {
        None => {
            return Err(AnchorProblem::BadFlags);
        },
        Some(flags) => {
            if flags / 256 % 2 == 0 {
                return Err(AnchorProblem::NotZoneKey);
            }
        },
    }
    match parse_unsigned_max(fields[1].as_slice(), 0xff) {
        None => {
            return Err(AnchorProblem::BadProtocol);
        },
        Some(protocol) => {
            if protocol != 3 {
                return Err(AnchorProblem::WrongProtocol(protocol as u8));
            }
        },
    }
    let algorithm: u8 = match parse_unsigned_max(fields[2].as_slice(), 0xff) {
        None => {
            return Err(AnchorProblem::BadAlgorithm);
        },
        Some(a) => a as u8,
    };
    if !is_verifiable(algorithm) {
        return Err(AnchorProblem::UnsupportedAlgorithm(algorithm));
    }
    let key_text = concatenate(&fields, 3);
    let key = match base64_decode(key_text.as_str()) {
        None => {
            return Err(AnchorProblem::UndecodableKey);
        },
        Some(k) => k,
    };
    if key.len() == 0 {
        return Err(AnchorProblem::EmptyKey);
    }
    if let Some(expected) = fixed_public_key_len(algorithm) {
        if key.len() != expected {
            return Err(AnchorProblem::WrongKeyLength(key.len(), expected));
        }
    }
    Ok((key, algorithm))
}

/// What an algorithm with keys of one size is called, by that size.
pub open spec fn sized_algorithm(size: usize) -> Seq<char> {
    if size == 32 {
        "ED25519 (15)"@
    } else if size == 64 {
        "ECDSAP256SHA256 (13)"@
    } else {
        "ECDSAP384SHA384 (14)"@
    }
}

/// How it reads behind an anchor what is wrong with it.
pub open spec fn problem_text(entry: Seq<char>, p: AnchorProblem) -> Seq<char> {
    match p {
        AnchorProblem::TooFewFields(n) => " has "@ + decimal(n as nat)
            + " fields, expected \"<flags> <protocol> <algorithm> <base64 key>\""@,
        AnchorProblem::BadFlags => " has non-numeric flags"@,
        AnchorProblem::NotZoneKey => " does not have the zone-key flag set"@,
        AnchorProblem::BadProtocol => " has a non-numeric protocol"@,
        AnchorProblem::WrongProtocol(n) => " has protocol "@ + decimal(n as nat)
            + ", which must be 3"@,
        AnchorProblem::BadAlgorithm => " has a non-numeric algorithm"@,
        AnchorProblem::UnsupportedAlgorithm(n) => " uses algorithm "@ + decimal(n as nat)
            + ", which this build cannot verify — anchoring to it would make every signed zone fail"@,
        AnchorProblem::UndecodableKey => {
            let f = words(trimmed(entry));
            " has an undecodable key: "@ + base64_fault(
                run_together(f.subrange(3, f.len() as int)),
            )
        },
        AnchorProblem::EmptyKey => " has an empty key"@,
        AnchorProblem::WrongKeyLength(n, size) => " carries a "@ + decimal(n as nat)
            + "-byte key, but algorithm "@ + sized_algorithm(size) + " needs "@ + decimal(
            size as nat,
        ),
    }
}

/// How it reads that a set of anchors cannot be built.
pub open spec fn anchor_error_text(entries: Seq<Seq<char>>, e: AnchorError) -> Seq<char> {
    match e {
        AnchorError::Entry(i, p) => "trust anchor "@ + quoted(trimmed(entries[i as int]))
            + problem_text(entries[i as int], p),
        AnchorError::NoAnchors => "no trust anchors were parsed"@,
    }
}

impl AnchorProblem {
    /// How the problem reads behind the entry that has it.
    pub fn message(&self, entry: &str) -> (r: String)
        requires
            anchor_of(entry@) == Err::<(Seq<u8>, u8), AnchorProblem>(*self),
        ensures
            r@ == problem_text(entry@, *self),
    {
        match self {
            AnchorProblem::TooFewFields(n) => {
                let count = decimal_string(*n as u64);
                join3(
                    " has ",
                    count.as_str(),
                    " fields, expected \"<flags> <protocol> <algorithm> <base64 key>\"",
                )
            },
            AnchorProblem::BadFlags => " has non-numeric flags".to_owned(),
            AnchorProblem::NotZoneKey => " does not have the zone-key flag set".to_owned(),
            AnchorProblem::BadProtocol => " has a non-numeric protocol".to_owned(),
            AnchorProblem::WrongProtocol(n) => {
                let protocol = decimal_string(*n as u64);
                join3(" has protocol ", protocol.as_str(), ", which must be 3")
            },
            AnchorProblem::BadAlgorithm => " has a non-numeric algorithm".to_owned(),
            AnchorProblem::UnsupportedAlgorithm(n) => {
                let number = decimal_string(*n as u64);
                join3(
                    " uses algorithm ",
                    number.as_str(),
                    ", which this build cannot verify — anchoring to it would make every signed zone fail",
                )
            },
            AnchorProblem::UndecodableKey => {
                let text = trim_str(entry);
                let chars = chars_of(text.as_str());
                let fields = split_words(chars.as_slice());
                let key = concatenate(&fields, 3);
                let fault = base64_complaint(key.as_str());
                join2(" has an undecodable key: ", fault.as_str())
            },
            AnchorProblem::EmptyKey => " has an empty key".to_owned(),
            AnchorProblem::WrongKeyLength(n, size) => {
                let found = decimal_string(*n as u64);
                let needed = decimal_string(*size as u64);
                let algorithm = if *size == 32 {
                    "ED25519 (15)"
                } else if *size == 64 {
                    "ECDSAP256SHA256 (13)"
                } else {
                    "ECDSAP384SHA384 (14)"
                };
                let mut out = join5(
                    " carries a ",
                    found.as_str(),
                    "-byte key, but algorithm ",
                    algorithm,
                    " needs ",
                );
                out.append(needed.as_str());
                out
            },
        }
    }
}

/// The configured trust anchors.
pub struct Anchors {
    pub anchors: hickory_proto::dnssec::TrustAnchors,
}

proof fn lemma_anchors_prefix(entries: Seq<Seq<char>>, n: nat)
    requires
        n <= entries.len(),
        anchors_of(entries, n) is Err,
    ensures
        anchors_of(entries, entries.len()) == anchors_of(entries, n),
    decreases entries.len() - n,
{
    if n < entries.len() {
        lemma_anchors_prefix(entries, n + 1);
    }
}

impl Anchors {
    /// Wraps a set of anchors.
    pub fn new(anchors: hickory_proto::dnssec::TrustAnchors) -> (r: Anchors)
        ensures
            r.anchors == anchors,
    {
        Anchors { anchors }
    }

    /// The root keys compiled into `hickory`.
    pub fn iana_defaults() -> (r: Anchors)
        ensures
            anchor_keys(r.anchors) == root_keys(),
    {
        Anchors { anchors: root_anchors() }
    }

    /// Builds an anchor set from DNSKEY presentation strings, `"<flags> <protocol>
    /// <algorithm> <base64 key>"`. The error names the entry and says what is wrong with it.
    pub fn from_dnskey_strings(entries: &[String]) -> (r: Result<Anchors, String>)
        ensures
            match (r, anchor_set(crate::text::strings(entries@))) {
                (Ok(a), Ok(keys)) => anchor_keys(a.anchors) == keys,
                (Err(text), Err(e)) => text@ == anchor_error_text(
                    crate::text::strings(entries@),
                    e,
                ),
                _ => false,
            },
    {
        let mut anchors = no_anchors();
        let ghost all = crate::text::strings(entries@);
        let mut i: usize = 0;
        while i < entries.len()
            invariant
                i <= entries.len(),
                all == crate::text::strings(entries@),
                anchors_of(all, i as nat) == Ok::<Seq<(Seq<u8>, u8)>, AnchorError>(
                    anchor_keys(anchors),
                ),
            decreases entries.len() - i,
        {
            assert(all[i as int] == entries@[i as int]@);
            match parse_anchor(entries[i].as_str()) {
                Ok((key, algorithm)) => {
                    insert_anchor(&mut anchors, key, algorithm);
                },
                Err(p) => {
                    proof {
                        lemma_anchors_prefix(all, (i + 1) as nat);
                    }
                    let entry = trim_str(entries[i].as_str());
                    let name = quote(entry.as_str());
                    let problem = p.message(entries[i].as_str());
                    return Err(join3("trust anchor ", name.as_str(), problem.as_str()));
                },
            }
            i = i + 1;
        }
        if count_anchors(&anchors) == 0 {
            return Err("no trust anchors were parsed".to_owned());
        }
        Ok(Anchors { anchors })
    }

    /// The set itself.
    pub fn get(&self) -> (r: &hickory_proto::dnssec::TrustAnchors)
        ensures
            *r == self.anchors,
    {
        &self.anchors
    }

    /// The number of anchors.
    pub fn len(&self) -> (r: usize)
        ensures
            r == anchor_keys(self.anchors).len(),
    {
        count_anchors(&self.anchors)
    }

    /// Whether there is no anchor.
    pub fn is_empty(&self) -> (r: bool)
        ensures
            r == (anchor_keys(self.anchors).len() == 0),
    {
        count_anchors(&self.anchors) == 0
    }
}

} // verus!
