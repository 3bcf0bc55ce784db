//! Domain blocklists: reading what a blocklist zone answers, remembering it, and taking a
//! provider that refuses queries out of rotation.
pub mod checker;
pub mod codes;
pub mod laws;
pub mod lookup;
pub mod slots;

pub use checker::{
    Check, CachedVerdict, DnsblChecker, DnsblProvider, ProviderLookup, RotatedProvider,
    DEFAULT_REFUSAL_COOLDOWN_SECS,
};
pub use codes::{
    classify, default_refusal_codes, mask_v4, normalize_blocklist_name, resolve_refusal_codes,
    DnsblAnswer, DnsblVerdict, RefusalCode, DEFAULT_REFUSAL_CODES, REFUSAL_CODES_NONE,
};
