//! Private keys: generating, loading and signing.
//!
//! The cryptography is `ring`'s. What a key loads to and what a verifier accepts are
//! named here, and everything around them is stated over those names.
use vstd::prelude::*;
use vstd::slice::{slice_subrange, slice_to_vec};
use vstd::string::*;

use crate::dnssec::algorithm::{
    algorithm_number, compute_key_tag, dnskey_rdata, key_len, key_tag_of,
    DnssecAlgorithm, KeyType,
};

verus! {

/// The curves of the ECDSA algorithms.
#[derive(Debug, Clone, Copy, PartialEq, Eq, Structural)]
pub enum Curve {
    P256,
    P384,
}

/// The curve of an ECDSA algorithm.
pub open spec fn curve_of(algorithm: DnssecAlgorithm) -> Option<Curve> {
    match algorithm {
        DnssecAlgorithm::EcdsaP256Sha256 => Some(Curve::P256),
        DnssecAlgorithm::EcdsaP384Sha384 => Some(Curve::P384),
        _ => None,
    }
}

/// The DNSSEC algorithm number of a curve.
pub open spec fn curve_number(curve: Curve) -> u8 {
    match curve {
        Curve::P256 => 13,
        Curve::P384 => 14,
    }
}

// ---------------------------------------------------------------------------
// ring
// ---------------------------------------------------------------------------
/// What an Ed25519 PKCS#8 document loads to: its public key, or what is wrong with it.
pub uninterp spec fn ed25519_read(pkcs8: Seq<u8>) -> Result<Seq<u8>, Seq<char>>;

/// The public key of an Ed25519 PKCS#8 document, if it is one.
pub open spec fn ed25519_public(pkcs8: Seq<u8>) -> Option<Seq<u8>> {
    match ed25519_read(pkcs8) {
        Ok(key) => Some(key),
        Err(_) => None,
    }
}

/// The Ed25519 signature of a message by the key in a PKCS#8 document.
pub uninterp spec fn ed25519_signature(pkcs8: Seq<u8>, message: Seq<u8>) -> Seq<u8>;

/// Whether an Ed25519 public key accepts a signature of a message.
pub uninterp spec fn ed25519_accepts(
    public_key: Seq<u8>,
    message: Seq<u8>,
    signature: Seq<u8>,
) -> bool;

/// What an ECDSA PKCS#8 document holds for an algorithm: a public point, or what is wrong
/// with it.
pub uninterp spec fn ecdsa_read(number: u8, pkcs8: Seq<u8>) -> Result<Seq<u8>, Seq<char>>;

/// The public point in an ECDSA PKCS#8 document, if it holds a key of the algorithm.
pub open spec fn ecdsa_point(number: u8, pkcs8: Seq<u8>) -> Option<Seq<u8>> {
    match ecdsa_read(number, pkcs8) {
        Ok(point) => Some(point),
        Err(_) => None,
    }
}

/// Octets or a text, by their contents.
pub open spec fn contents(r: Result<Vec<u8>, String>) -> Result<Seq<u8>, Seq<char>> {
    match r {
        Ok(octets) => Ok(octets@),
        Err(text) => Err(text@),
    }
}

/// How `ring` prints an error that has no details.
pub open spec fn unspecified() -> Seq<char> {
    "ring::error::Unspecified"@
}

/// How `ring` prints that a key cannot be loaded for want of random numbers.
pub open spec fn rng_failed() -> Seq<char> {
    "RNG failed"@
}

/// Whether an ECDSA public point accepts a signature of a message.
pub uninterp spec fn ecdsa_accepts(
    number: u8,
    point: Seq<u8>,
    message: Seq<u8>,
    signature: Seq<u8>,
) -> bool;

/// Whether octets are a point of a curve in uncompressed SEC1 form.
pub open spec fn is_point(curve: Curve, point: Seq<u8>) -> bool {
    &&& point.len() == match curve {
        Curve::P256 => 65int,
        Curve::P384 => 97int,
    }
    &&& point[0] == 4
}

/// The other of the two curves.
pub open spec fn other_curve(curve: Curve) -> Curve {
    match curve {
        Curve::P256 => Curve::P384,
        Curve::P384 => Curve::P256,
    }
}

/// `ring::signature::Ed25519KeyPair::generate_pkcs8`: a random key pair as a PKCS#8
/// document. The document names Ed25519 as its algorithm, so it holds an Ed25519 key, and
/// none on a curve. Drawing it can fail, which is an error without details.
#[verifier::external_body]
fn generate_ed25519_pkcs8() -> (r: Result<Vec<u8>, String>)
    ensures
        r is Ok ==> ed25519_public(r->Ok_0@) is Some,
        r is Ok ==> ecdsa_point(13, r->Ok_0@) is None,
        r is Ok ==> ecdsa_point(14, r->Ok_0@) is None,
        r is Err ==> r->Err_0@ == unspecified(),
{
    let rng = ring::rand::SystemRandom::new();
    let document = ring::signature::Ed25519KeyPair::generate_pkcs8(&rng);
    document.map(|d| d.as_ref().to_vec()).map_err(|e| e.to_string())
}

/// `ring::signature::EcdsaKeyPair::generate_pkcs8`: a random key pair on the curve as a
/// PKCS#8 document. The document names the curve, so it holds a key on that curve, and
/// neither one on the other curve nor an Ed25519 key. Drawing it can fail, which is an
/// error without details.
#[verifier::external_body]
fn generate_ecdsa_pkcs8(curve: Curve) -> (r: Result<Vec<u8>, String>)
    ensures
        r is Ok ==> ecdsa_point(curve_number(curve), r->Ok_0@) is Some,
        r is Ok ==> ecdsa_point(curve_number(other_curve(curve)), r->Ok_0@) is None,
        r is Ok ==> ed25519_public(r->Ok_0@) is None,
        r is Err ==> r->Err_0@ == unspecified(),
{
    let algorithm = match curve {
        Curve::P256 => &ring::signature::ECDSA_P256_SHA256_FIXED_SIGNING,
        Curve::P384 => &ring::signature::ECDSA_P384_SHA384_FIXED_SIGNING,
    };
    let rng = ring::rand::SystemRandom::new();
    let document = ring::signature::EcdsaKeyPair::generate_pkcs8(algorithm, &rng);
    document.map(|d| d.as_ref().to_vec()).map_err(|e| e.to_string())
}

/// `ring::signature::Ed25519KeyPair::from_pkcs8` and its `public_key`. Whether the
/// document loads, its public key of 32 octets, and the text of the error depend on the
/// document alone.
#[verifier::external_body]
fn load_ed25519(pkcs8: &[u8]) -> (r: Result<Vec<u8>, String>)
    ensures
        contents(r) == ed25519_read(pkcs8@),
        r is Ok ==> r->Ok_0@.len() == 32,
{
    let pair = ring::signature::Ed25519KeyPair::from_pkcs8(pkcs8).map_err(|e| e.to_string())?;
    let public = ring::signature::KeyPair::public_key(&pair);
    Ok(public.as_ref().to_vec())
}

/// `ring::signature::EcdsaKeyPair::from_pkcs8` and its `public_key`. What a document holds
/// for a curve, a point in uncompressed form or a text that says what is wrong with it,
/// depends on the two alone. Of a document that holds a key loading draws random numbers,
/// and an error says so where they cannot be had.
#[verifier::external_body]
fn load_ecdsa(curve: Curve, pkcs8: &[u8]) -> (r: Result<Vec<u8>, String>)
    ensures
        contents(r) == ecdsa_read(curve_number(curve), pkcs8@) || (r is Err && r->Err_0@
            == rng_failed() && ecdsa_point(curve_number(curve), pkcs8@) is Some),
        r is Ok ==> is_point(curve, r->Ok_0@),
{
    let algorithm = match curve {
        Curve::P256 => &ring::signature::ECDSA_P256_SHA256_FIXED_SIGNING,
        Curve::P384 => &ring::signature::ECDSA_P384_SHA384_FIXED_SIGNING,
    };
    let rng = ring::rand::SystemRandom::new();
    let pair = ring::signature::EcdsaKeyPair::from_pkcs8(algorithm, pkcs8, &rng);
    let pair = pair.map_err(|e| e.to_string())?;
    Ok(ring::signature::KeyPair::public_key(&pair).as_ref().to_vec())
}

/// `ring::signature::Ed25519KeyPair::sign` with the key of a PKCS#8 document that
/// loads. The signature is 64 octets, depends on the key and the message alone, and
/// the document's own public key accepts it. Of a document that does not load the error
/// says what is wrong with it.
#[verifier::external_body]
fn sign_ed25519(pkcs8: &[u8], message: &[u8]) -> (r: Result<Vec<u8>, String>)
    ensures
        r is Ok == ed25519_public(pkcs8@) is Some,
        r is Ok ==> {
            &&& r->Ok_0@ == ed25519_signature(pkcs8@, message@)
            &&& r->Ok_0@.len() == 64
            &&& ed25519_accepts(ed25519_public(pkcs8@)->0, message@, r->Ok_0@)
        },
        r is Err ==> contents(r) == ed25519_read(pkcs8@),
{
    let pair = ring::signature::Ed25519KeyPair::from_pkcs8(pkcs8).map_err(|e| e.to_string())?;
    Ok(pair.sign(message).as_ref().to_vec())
}

/// `ring::signature::EcdsaKeyPair::sign` with the key of a PKCS#8 document. A signature
/// is two numbers of the curve's size, and the document's own public point accepts it.
/// It is drawn at random, and drawing it can fail, which is an error without details; the
/// document may also not load, as `from_pkcs8` says.
#[verifier::external_body]
fn sign_ecdsa(curve: Curve, pkcs8: &[u8], message: &[u8]) -> (r: Result<Vec<u8>, String>)
    ensures
        r is Ok ==> {
            let number = curve_number(curve);
            &&& r->Ok_0@.len() > 0
            &&& ecdsa_point(number, pkcs8@) is Some
            &&& ecdsa_accepts(number, ecdsa_point(number, pkcs8@)->0, message@, r->Ok_0@)
        },
        r is Err ==> contents(r) == ecdsa_read(curve_number(curve), pkcs8@) || r->Err_0@
            == rng_failed() || r->Err_0@ == unspecified(),
{
    let algorithm = match curve {
        Curve::P256 => &ring::signature::ECDSA_P256_SHA256_FIXED_SIGNING,
        Curve::P384 => &ring::signature::ECDSA_P384_SHA384_FIXED_SIGNING,
    };
    let rng = ring::rand::SystemRandom::new();
    let pair = ring::signature::EcdsaKeyPair::from_pkcs8(algorithm, pkcs8, &rng);
    let signature = pair.map_err(|e| e.to_string())?.sign(&rng, message);
    signature.map(|s| s.as_ref().to_vec()).map_err(|e| e.to_string())
}

/// `ring::signature::UnparsedPublicKey::verify` for Ed25519. Its answer depends on the
/// key, the message and the signature alone.
#[verifier::external_body]
pub(crate) fn verify_ed25519(public_key: &[u8], message: &[u8], signature: &[u8]) -> (r: bool)
    ensures
        r == ed25519_accepts(public_key@, message@, signature@),
{
    let key = ring::signature::UnparsedPublicKey::new(&ring::signature::ED25519, public_key);
    key.verify(message, signature).is_ok()
}

/// `ring::signature::UnparsedPublicKey::verify` for ECDSA with signatures of fixed
/// size. Its answer depends on the curve, the point, the message and the signature
/// alone.
#[verifier::external_body]
pub(crate) fn verify_ecdsa(curve: Curve, point: &[u8], message: &[u8], signature: &[u8]) -> (r: bool)
    ensures
        r == ecdsa_accepts(curve_number(curve), point@, message@, signature@),
{
    let algorithm = match curve {
        Curve::P256 => &ring::signature::ECDSA_P256_SHA256_FIXED,
        Curve::P384 => &ring::signature::ECDSA_P384_SHA384_FIXED,
    };
    ring::signature::UnparsedPublicKey::new(algorithm, point).verify(message, signature).is_ok()
}

// ---------------------------------------------------------------------------
// Keys
// ---------------------------------------------------------------------------
/// Why a key cannot be generated, loaded or used. A text is `ring`'s own.
#[derive(Debug, Clone, PartialEq, Eq)]
pub enum KeyError {
    /// The algorithm is not one that signatures are made with.
    Unsupported,
    /// The algorithm is not one that keys are generated for.
    NotGenerated,
    /// No key could be drawn.
    GenerationFailed(String),
    /// The key material does not load as a key of the algorithm.
    BadMaterial(String),
    /// The public point is not in uncompressed SEC1 form.
    NotUncompressed,
    /// The public key has not the algorithm's size.
    WrongLength(usize),
    /// No signature could be made.
    SigningFailed(String),
}

/// A DNSSEC key pair.
pub struct DnssecKeyPair {
    pub zone: String,
    pub algorithm: DnssecAlgorithm,
    pub key_type: KeyType,
    pub private_key: Vec<u8>,
    pub public_key: Vec<u8>,
    pub key_tag: u16,
}

/// A private key loaded from storage and ready to sign.
pub struct SigningKey {
    pub algorithm: DnssecAlgorithm,
    pub key_type: KeyType,
    pub key_tag: u16,
    /// The public key as a DNSKEY record holds it.
    pub public_key: Vec<u8>,
    /// The PKCS#8 document that the key was loaded from.
    pub pkcs8: Vec<u8>,
}

/// Whether a public key has the algorithm's size.
pub open spec fn has_key_len(algorithm: DnssecAlgorithm, key: Seq<u8>) -> bool {
    match key_len(algorithm) {
        Some(n) => key.len() == n,
        None => false,
    }
}

/// What a key of the algorithm makes of the raw public key that `ring` reports: an
/// Ed25519 key as it is, an ECDSA point without its SEC1 tag (RFC 6605 section 4).
pub open spec fn dnskey_form(algorithm: DnssecAlgorithm, raw: Seq<u8>) -> Result<
    Seq<u8>,
    KeyError,
> {
    let key = if algorithm == DnssecAlgorithm::Ed25519 {
        Ok(raw)
    } else if algorithm == DnssecAlgorithm::RsaSha256 {
        Err(KeyError::Unsupported)
    } else if raw.len() > 0 && raw[0] == 4 {
        Ok(raw.drop_first())
    } else {
        Err(KeyError::NotUncompressed)
    };
    match key {
        Ok(k) => if has_key_len(algorithm, k) {
            Ok(k)
        } else {
            Err(KeyError::WrongLength(k.len() as usize))
        },
        Err(e) => Err(e),
    }
}

/// Brings a raw public key into the form of a DNSKEY record.
pub fn to_dnskey_form(algorithm: DnssecAlgorithm, raw: &[u8]) -> (r: Result<Vec<u8>, KeyError>)
    ensures
        match r {
            Ok(v) => dnskey_form(algorithm, raw@) == Ok::<Seq<u8>, KeyError>(v@),
            Err(e) => dnskey_form(algorithm, raw@) == Err::<Seq<u8>, KeyError>(e),
        },
{
    let key = match algorithm {
        DnssecAlgorithm::RsaSha256 => {
            return Err(KeyError::Unsupported);
        },
        DnssecAlgorithm::Ed25519 => slice_to_vec(raw),
        _ => {
            if raw.len() == 0 || raw[0] != 4 {
                return Err(KeyError::NotUncompressed);
            }
            assert(raw@.subrange(1, raw@.len() as int) =~= raw@.drop_first());
            slice_to_vec(slice_subrange(raw, 1, raw.len()))
        },
    };
    match algorithm.public_key_len() {
        Some(n) => if n == key.len() {
            Ok(key)
        } else {
            Err(KeyError::WrongLength(key.len()))
        },
        None => Err(KeyError::WrongLength(key.len())),
    }
}

/// Whether a PKCS#8 document holds a key of the algorithm.
pub open spec fn holds_key(algorithm: DnssecAlgorithm, pkcs8: Seq<u8>) -> bool {
    match algorithm {
        DnssecAlgorithm::Ed25519 => ed25519_public(pkcs8) is Some,
        DnssecAlgorithm::RsaSha256 => false,
        _ => ecdsa_point(algorithm_number(algorithm), pkcs8) is Some,
    }
}

/// What is wrong with a PKCS#8 document as a key of the algorithm, if anything.
pub open spec fn material_fault(algorithm: DnssecAlgorithm, pkcs8: Seq<u8>) -> Option<Seq<char>> {
    let read = match algorithm {
        DnssecAlgorithm::Ed25519 => ed25519_read(pkcs8),
        _ => ecdsa_read(algorithm_number(algorithm), pkcs8),
    };
    match read {
        Ok(_) => None,
        Err(text) => Some(text),
    }
}

/// Whether a text says why a PKCS#8 document does not load as a key of the algorithm: what
/// is wrong with the document, or that there were no random numbers, which only an ECDSA key
/// needs.
pub open spec fn says_why(algorithm: DnssecAlgorithm, pkcs8: Seq<u8>, text: Seq<char>) -> bool {
    ||| material_fault(algorithm, pkcs8) == Some(text)
    ||| curve_of(algorithm) is Some && holds_key(algorithm, pkcs8) && text == rng_failed()
}

/// Whether a PKCS#8 document holds a key of the algorithm, and of no other.
pub open spec fn made_for(algorithm: DnssecAlgorithm, pkcs8: Seq<u8>) -> bool {
    forall|b: DnssecAlgorithm| #[trigger] holds_key(b, pkcs8) == (b == algorithm)
}

/// Whether `public_key` is the DNSKEY form of the public key in a PKCS#8 document.
pub open spec fn is_key_of(
    algorithm: DnssecAlgorithm,
    pkcs8: Seq<u8>,
    public_key: Seq<u8>,
) -> bool {
    if algorithm == DnssecAlgorithm::Ed25519 {
        ed25519_public(pkcs8) == Some(public_key) && public_key.len() == 32
    } else {
        match ecdsa_point(algorithm_number(algorithm), pkcs8) {
            Some(point) => dnskey_form(algorithm, point) == Ok::<Seq<u8>, KeyError>(public_key),
            None => false,
        }
    }
}

/// Whether a DNSKEY-form public key accepts a signature of a message.
pub open spec fn key_accepts(
    algorithm: DnssecAlgorithm,
    public_key: Seq<u8>,
    message: Seq<u8>,
    signature: Seq<u8>,
) -> bool {
    match curve_of(algorithm) {
        Some(curve) => ecdsa_accepts(
            curve_number(curve),
            seq![4u8] + public_key,
            message,
            signature,
        ),
        None => algorithm == DnssecAlgorithm::Ed25519 && ed25519_accepts(
            public_key,
            message,
            signature,
        ),
    }
}

impl SigningKey {
    /// The public half belongs to the private one, and the tag to the public half.
    pub open spec fn well_formed(&self) -> bool {
        &&& is_key_of(self.algorithm, self.pkcs8@, self.public_key@)
        &&& self.key_tag == key_tag_of(
            dnskey_rdata(self.algorithm, self.key_type, self.public_key@),
        )
    }

    /// Loads a PKCS#8 private key, verifying it really is the algorithm claimed.
    pub fn from_pkcs8(algorithm: DnssecAlgorithm, key_type: KeyType, pkcs8: &[u8]) -> (r: Result<
        SigningKey,
        KeyError,
    >)
        ensures
            match r {
                Ok(key) => {
                    &&& holds_key(algorithm, pkcs8@)
                    &&& key.well_formed()
                    &&& key.algorithm == algorithm
                    &&& key.key_type == key_type
                    &&& key.pkcs8@ == pkcs8@
                },
                Err(KeyError::Unsupported) => algorithm == DnssecAlgorithm::RsaSha256,
                Err(KeyError::BadMaterial(text)) => algorithm != DnssecAlgorithm::RsaSha256
                    && says_why(algorithm, pkcs8@, text@),
                Err(_) => false,
            },
    {
        let raw = match algorithm {
            DnssecAlgorithm::RsaSha256 => {
                return Err(KeyError::Unsupported);
            },
            DnssecAlgorithm::Ed25519 => load_ed25519(pkcs8),
            DnssecAlgorithm::EcdsaP256Sha256 => load_ecdsa(Curve::P256, pkcs8),
            DnssecAlgorithm::EcdsaP384Sha384 => load_ecdsa(Curve::P384, pkcs8),
        };
        let raw = match raw {
            Ok(v) => v,
            Err(text) => {
                return Err(KeyError::BadMaterial(text));
            },
        };
        match to_dnskey_form(algorithm, raw.as_slice()) {
            Ok(public_key) => {
                let key_tag = compute_key_tag(algorithm, key_type, public_key.as_slice());
                Ok(
                    SigningKey {
                        algorithm,
                        key_type,
                        key_tag,
                        public_key,
                        pkcs8: slice_to_vec(pkcs8),
                    },
                )
            },
            Err(e) => Err(e),
        }
    }

    /// The DNSKEY form of the public key.
    pub fn public_key(&self) -> (r: &[u8])
        ensures
            r@ == self.public_key@,
    {
        self.public_key.as_slice()
    }

    /// Signs a message. The key's own public half accepts the signature.
    pub fn sign(&self, message: &[u8]) -> (r: Result<Vec<u8>, KeyError>)
        ensures
            match r {
                Ok(signature) => {
                    &&& self.algorithm != DnssecAlgorithm::RsaSha256
                    &&& holds_key(self.algorithm, self.pkcs8@)
                    &&& signature@.len() > 0
                    &&& self.algorithm == DnssecAlgorithm::Ed25519 ==> signature@
                        == ed25519_signature(self.pkcs8@, message@)
                    &&& self.well_formed() ==> key_accepts(
                        self.algorithm,
                        self.public_key@,
                        message@,
                        signature@,
                    )
                },
                Err(KeyError::Unsupported) => self.algorithm == DnssecAlgorithm::RsaSha256,
                Err(KeyError::BadMaterial(text)) => self.algorithm == DnssecAlgorithm::Ed25519
                    && material_fault(self.algorithm, self.pkcs8@) == Some(text@),
                Err(KeyError::SigningFailed(text)) => curve_of(self.algorithm) is Some && (
                material_fault(self.algorithm, self.pkcs8@) == Some(text@) || text@ == rng_failed()
                    || text@ == unspecified()),
                Err(_) => false,
            },
    {
        let curve = match self.algorithm {
            DnssecAlgorithm::RsaSha256 => {
                return Err(KeyError::Unsupported);
            },
            DnssecAlgorithm::Ed25519 => {
                return match sign_ed25519(self.pkcs8.as_slice(), message) {
                    Ok(signature) => Ok(signature),
                    Err(text) => Err(KeyError::BadMaterial(text)),
                };
            },
            DnssecAlgorithm::EcdsaP256Sha256 => Curve::P256,
            DnssecAlgorithm::EcdsaP384Sha384 => Curve::P384,
        };
        proof {
            let point = ecdsa_point(algorithm_number(self.algorithm), self.pkcs8@)->0;
            if point.len() > 0 && point[0] == 4 {
                assert(seq![4u8] + point.drop_first() =~= point);
            }
        }
        match sign_ecdsa(curve, self.pkcs8.as_slice(), message) {
            Ok(signature) => Ok(signature),
            Err(text) => Err(KeyError::SigningFailed(text)),
        }
    }
}

/// Makes a key pair of a PKCS#8 document, by loading it: what is stored is then what
/// later loads and signs.
pub fn key_pair_from_pkcs8(
    zone: &str,
    algorithm: DnssecAlgorithm,
    key_type: KeyType,
    private_key: Vec<u8>,
) -> (r: Result<DnssecKeyPair, KeyError>)
    ensures
        match r {
            Ok(pair) => {
                &&& holds_key(algorithm, private_key@)
                &&& pair.zone@ == zone@
                &&& pair.algorithm == algorithm
                &&& pair.key_type == key_type
                &&& pair.private_key == private_key
                &&& is_key_of(algorithm, private_key@, pair.public_key@)
                &&& pair.key_tag == key_tag_of(dnskey_rdata(algorithm, key_type, pair.public_key@))
            },
            Err(KeyError::Unsupported) => algorithm == DnssecAlgorithm::RsaSha256,
            Err(KeyError::BadMaterial(text)) => algorithm != DnssecAlgorithm::RsaSha256 && says_why(
                algorithm,
                private_key@,
                text@,
            ),
            Err(_) => false,
        },
{
    match SigningKey::from_pkcs8(algorithm, key_type, private_key.as_slice()) {
        Ok(key) => Ok(
            DnssecKeyPair {
                zone: zone.to_owned(),
                algorithm,
                key_type,
                private_key,
                public_key: slice_to_vec(key.public_key()),
                key_tag: key.key_tag,
            },
        ),
        Err(e) => Err(e),
    }
}

/// Draws a private key for `algorithm`, as a PKCS#8 document that holds a key of that
/// algorithm and of no other.
pub fn generate_pkcs8(algorithm: DnssecAlgorithm) -> (r: Result<Vec<u8>, KeyError>)
    ensures
        match r {
            Ok(document) => algorithm != DnssecAlgorithm::RsaSha256 && made_for(
                algorithm,
                document@,
            ),
            Err(KeyError::NotGenerated) => algorithm == DnssecAlgorithm::RsaSha256,
            Err(KeyError::GenerationFailed(text)) => algorithm != DnssecAlgorithm::RsaSha256
                && text@ == unspecified(),
            Err(_) => false,
        },
{
    let drawn = match algorithm {
        DnssecAlgorithm::RsaSha256 => {
            return Err(KeyError::NotGenerated);
        },
        DnssecAlgorithm::Ed25519 => generate_ed25519_pkcs8(),
        DnssecAlgorithm::EcdsaP256Sha256 => generate_ecdsa_pkcs8(Curve::P256),
        DnssecAlgorithm::EcdsaP384Sha384 => generate_ecdsa_pkcs8(Curve::P384),
    };
    match drawn {
        Ok(document) => Ok(document),
        Err(text) => Err(KeyError::GenerationFailed(text)),
    }
}

/// Generates a key pair for `algorithm`. An unsupported algorithm is an error, never a
/// key of another algorithm.
pub fn generate_key(zone: &str, algorithm: DnssecAlgorithm, key_type: KeyType) -> (r: Result<
    DnssecKeyPair,
    KeyError,
>)
    ensures
        match r {
            Ok(pair) => {
                &&& algorithm != DnssecAlgorithm::RsaSha256
                &&& made_for(algorithm, pair.private_key@)
                &&& pair.zone@ == zone@
                &&& pair.algorithm == algorithm
                &&& pair.key_type == key_type
                &&& is_key_of(algorithm, pair.private_key@, pair.public_key@)
                &&& has_key_len(algorithm, pair.public_key@)
                &&& pair.key_tag == key_tag_of(dnskey_rdata(algorithm, key_type, pair.public_key@))
            },
            Err(KeyError::NotGenerated) => algorithm == DnssecAlgorithm::RsaSha256,
            Err(KeyError::GenerationFailed(text)) => algorithm != DnssecAlgorithm::RsaSha256
                && text@ == unspecified(),
            Err(KeyError::BadMaterial(text)) => curve_of(algorithm) is Some && text@
                == rng_failed(),
            Err(_) => false,
        },
{
    let private_key = match generate_pkcs8(algorithm) {
        Ok(document) => document,
        Err(e) => {
            return Err(e);
        },
    };
    assert(holds_key(algorithm, private_key@));
    key_pair_from_pkcs8(zone, algorithm, key_type, private_key)
}

/// Generates an Ed25519 key pair for DNSSEC.
pub fn generate_ed25519_key(zone: &str, key_type: KeyType) -> (r: Result<DnssecKeyPair, KeyError>)
    ensures
        match r {
            Ok(pair) => {
                &&& made_for(DnssecAlgorithm::Ed25519, pair.private_key@)
                &&& pair.zone@ == zone@
                &&& pair.algorithm == DnssecAlgorithm::Ed25519
                &&& pair.key_type == key_type
                &&& is_key_of(DnssecAlgorithm::Ed25519, pair.private_key@, pair.public_key@)
                &&& pair.public_key@.len() == 32
                &&& pair.key_tag == key_tag_of(
                    dnskey_rdata(DnssecAlgorithm::Ed25519, key_type, pair.public_key@),
                )
            },
            Err(KeyError::GenerationFailed(text)) => text@ == unspecified(),
            Err(_) => false,
        },
{
    generate_key(zone, DnssecAlgorithm::Ed25519, key_type)
}

// ---------------------------------------------------------------------------
// Laws
// ---------------------------------------------------------------------------
/// Material that was made for one algorithm loads under that label and no other, and what
/// loads is one public key with one tag for each key type: the one it was made with. Under
/// its own label only want of random numbers keeps it from loading, and an Ed25519 key
/// nothing at all.
pub proof fn law_material_loads_under_its_own_label_alone(
    made: DnssecAlgorithm,
    label: DnssecAlgorithm,
    key_type: KeyType,
    pkcs8: Seq<u8>,
    stored: Seq<u8>,
    loaded: SigningKey,
    refusal: Seq<char>,
)
    requires
        made_for(made, pkcs8),
        is_key_of(made, pkcs8, stored),
    ensures
        holds_key(label, pkcs8) <==> label == made,
        says_why(made, pkcs8, refusal) ==> curve_of(made) is Some && refusal == rng_failed(),
        loaded.well_formed() && loaded.algorithm == label && loaded.key_type == key_type
            && loaded.pkcs8@ == pkcs8 ==> label == made
            && loaded.public_key@ == stored && loaded.key_tag == key_tag_of(
            dnskey_rdata(made, key_type, stored),
        ),
{
    assert(holds_key(made, pkcs8));
    if loaded.well_formed() && loaded.algorithm == label && loaded.pkcs8@ == pkcs8 {
        assert(holds_key(label, pkcs8));
    }
}

} // verus!
