//! DNSSEC validation of answers resolved from upstream.
//!
//! Everything here is a function of records and the current time. Fetching a DNSKEY or
//! a DS is a resolver's job; deciding whether those records mean anything is this
//! module's.
pub mod anchors;
pub mod base32;
pub mod denial;
pub mod laws;
pub mod records;
pub mod verdict;
pub mod verify;
pub mod verify_laws;

pub use base32::base32hex;
pub use verdict::{serial_lt, Verdict};
pub use denial::{
    next_closer_name, nsec_covers_name, prove_no_ds, prove_nodata, prove_nxdomain,
    prove_wildcard_expansion, wildcard_of, Denial, Denied, Nsec3Data, NsecData,
    MAX_NSEC3_ITERATIONS,
};
pub use anchors::{AnchorError, AnchorProblem, Anchors};
pub use records::{
    dnskey_algorithms, ds_records, group_rrsets, has_any_rrsig, is_dnssec_type, min_ttl,
    records_at, signer_below, soa_below, zone_keys, Dnskey, Ds, RecordData, Rrset, Signature,
    WireRecord,
};
pub use verify::{
    ds_algorithms_supported, validate_dnskey_rrset, verify_rrset, KeySource, SignatureFacts,
};
