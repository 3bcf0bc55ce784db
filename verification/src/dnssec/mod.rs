//! DNSSEC: key management, canonical encoding, zone signing and denial chains.
pub mod algorithm;
pub mod chain;
pub mod clock;
pub mod distinct;
pub mod keys;
pub mod laws;
pub mod messages;
pub mod nsec;
pub mod rdata;
pub mod rrsig;
pub mod sign;

pub use crate::names::{canonical_name, canonical_name_cmp, label_count};
pub use algorithm::{compute_ds_sha256, compute_key_tag, DnssecAlgorithm, KeyType};
pub use nsec::{encode_type_bitmap, Nsec, NsecError};
pub use clock::{now_secs, ClockError};
pub use chain::{build_nsec_chain, nsec_covers};
pub use rrsig::{Rrsig, RrsigError};
pub use rdata::{canonical_rdata, character_strings};
pub use keys::{generate_ed25519_key, generate_key, DnssecKeyPair, KeyError, SigningKey};
pub use sign::{
    sign_rrset, signing_input, verify_rrsig, RrsetToSign, SigningError, VerifyError,
    RRSIG_INCEPTION_BACKDATE_SECS, RRSIG_VALIDITY_SECS,
};
