//! The blocklist checker: what is remembered, what is asked, and what is made of a reply.
//!
//! Times are milliseconds on a clock that never runs backwards. A check answers from what
//! is remembered and names the lookups to start; the reply to each is handed back when it
//! arrives.
use std::collections::hash_map::RandomState;
use vstd::prelude::*;
use vstd::string::*;

use crate::addr::{ipv4_text, ipv4_to_string};
use crate::dnsbl::codes::{
    all_well_formed, blocklist_name, classify, code_text, default_codes, default_refusal_codes, is_refusal,
    normalize_blocklist_name, spelled_codes, verdict_of, DnsblAnswer, DnsblVerdict, RefusalCode,
};
use crate::dnsbl::slots::{
    clear_slots, count_slots, drop_slot, list_slots, lists, no_slots, nothing, put_slot, slot,
    slots,
};
use crate::text::{join3, strings};

verus! {

broadcast use vstd::string::group_string_axioms;

/// How long, in seconds, a provider stays rotated out after a refusal when nothing else is
/// configured.
pub const DEFAULT_REFUSAL_COOLDOWN_SECS: u64 = 3600;

/// How long past its time a cached listing keeps blocking while it is refreshed, in
/// milliseconds.
pub const STALE_POSITIVE_GRACE_MS: u64 = 600_000;

/// How long a "not listed" is remembered, in milliseconds.
pub const NEGATIVE_TTL_MS: u64 = 300_000;

/// A domain-blocklist provider.
#[derive(Debug)]
pub struct DnsblProvider {
    /// The blocklist zone, such as "zen.spamhaus.org".
    pub zone: String,
    /// Whether this provider is asked.
    pub enabled: bool,
    /// The codes that mean "I refused your query"; none disables refusal detection.
    pub refusal_codes: Vec<RefusalCode>,
    /// How long, in milliseconds, a refusal rotates this provider out; none for the
    /// list-wide value.
    pub cooldown: Option<u64>,
}

/// The contents of a provider.
pub ghost struct ProviderView {
    pub zone: Seq<char>,
    pub enabled: bool,
    pub refusal_codes: Seq<RefusalCode>,
    pub cooldown: Option<u64>,
}

impl View for DnsblProvider {
    type V = ProviderView;

    open spec fn view(&self) -> ProviderView {
        ProviderView {
            zone: self.zone@,
            enabled: self.enabled,
            refusal_codes: self.refusal_codes@,
            cooldown: self.cooldown,
        }
    }
}

/// The contents of providers.
pub open spec fn provider_views(s: Seq<DnsblProvider>) -> Seq<ProviderView> {
    Seq::new(s.len(), |i: int| s[i]@)
}

fn copy_codes(codes: &Vec<RefusalCode>) -> (r: Vec<RefusalCode>)
    ensures
        r@ == codes@,
{
    vstd::slice::slice_to_vec(codes.as_slice())
}

impl Clone for DnsblProvider {
    fn clone(&self) -> (r: DnsblProvider)
        ensures
            r@ == self@,
    {
        DnsblProvider {
            zone: self.zone.clone(),
            enabled: self.enabled,
            refusal_codes: copy_codes(&self.refusal_codes),
            cooldown: self.cooldown,
        }
    }
}

impl Default for DnsblProvider {
    fn default() -> (r: DnsblProvider)
        ensures
            r.zone@ == Seq::<char>::empty(),
            r.enabled,
            r.refusal_codes@ == default_codes(),
            r.cooldown is None,
    {
        DnsblProvider {
            zone: String::new(),
            enabled: true,
            refusal_codes: default_refusal_codes(),
            cooldown: None,
        }
    }
}

impl DnsblProvider {
    /// A provider with the default refusal codes and the list-wide cooldown.
    pub fn new(zone: &str, enabled: bool) -> (r: DnsblProvider)
        ensures
            r@ == (ProviderView {
                zone: zone@,
                enabled,
                refusal_codes: default_codes(),
                cooldown: None,
            }),
    {
        DnsblProvider {
            zone: zone.to_owned(),
            enabled,
            refusal_codes: default_refusal_codes(),
            cooldown: None,
        }
    }

    /// The refusal codes in their configuration spelling.
    pub fn refusal_code_strings(&self) -> (r: Vec<String>)
        ensures
            strings(r@) == spelled_codes(self.refusal_codes@),
    {
        let mut out: Vec<String> = Vec::new();
        if self.refusal_codes.len() == 0 {
            out.push("none".to_owned());
            assert(strings(out@) =~= seq!["none"@]);
            return out;
        }
        let mut i: usize = 0;
        while i < self.refusal_codes.len()
            invariant
                i <= self.refusal_codes.len(),
                out.len() == i,
                forall|k: int|
                    0 <= k < i ==> (#[trigger] out@[k])@ == code_text(self.refusal_codes@[k]),
            decreases self.refusal_codes.len() - i,
        {
            out.push(self.refusal_codes[i].to_string());
            i = i + 1;
        }
        assert(strings(out@) =~= spelled_codes(self.refusal_codes@));
        out
    }
}

/// A provider currently out of rotation.
#[derive(Debug, Clone, PartialEq, Eq)]
pub struct RotatedProvider {
    /// The provider's zone.
    pub zone: String,
    /// The refusal code that took it out of rotation.
    pub code: String,
    /// Seconds until it is asked again.
    pub seconds_remaining: u64,
}

/// One provider's share of a check: the place to look, and what to ask on a miss.
#[derive(Debug)]
pub struct ProviderLookup {
    /// `<name>/<zone>`, the key that the result is remembered under.
    pub cache_key: String,
    /// The name to resolve, `<name>.<zone>`.
    pub query: String,
    /// The provider's zone.
    pub zone: String,
    /// The provider's refusal codes.
    pub refusal_codes: Vec<RefusalCode>,
    /// How long, in milliseconds, a refusal rotates this provider out.
    pub cooldown: u64,
}

/// The contents of a lookup.
pub ghost struct LookupView {
    pub cache_key: Seq<char>,
    pub query: Seq<char>,
    pub zone: Seq<char>,
    pub refusal_codes: Seq<RefusalCode>,
    pub cooldown: u64,
}

impl View for ProviderLookup {
    type V = LookupView;

    open spec fn view(&self) -> LookupView {
        LookupView {
            cache_key: self.cache_key@,
            query: self.query@,
            zone: self.zone@,
            refusal_codes: self.refusal_codes@,
            cooldown: self.cooldown,
        }
    }
}

impl Clone for ProviderLookup {
    fn clone(&self) -> (r: ProviderLookup)
        ensures
            r@ == self@,
    {
        ProviderLookup {
            cache_key: self.cache_key.clone(),
            query: self.query.clone(),
            zone: self.zone.clone(),
            refusal_codes: copy_codes(&self.refusal_codes),
            cooldown: self.cooldown,
        }
    }
}

/// The contents of lookups.
pub open spec fn lookup_views(s: Seq<ProviderLookup>) -> Seq<LookupView> {
    Seq::new(s.len(), |i: int| s[i]@)
}

/// The lookup of a normalized name at a provider.
pub open spec fn lookup_of(name: Seq<char>, p: ProviderView, default_cooldown: u64) -> LookupView {
    LookupView {
        cache_key: name + "/"@ + p.zone,
        query: name + "."@ + p.zone,
        zone: p.zone,
        refusal_codes: p.refusal_codes,
        cooldown: match p.cooldown {
            Some(c) => c,
            None => default_cooldown,
        },
    }
}

/// The lookups of a normalized name at the enabled providers, in their order.
pub open spec fn lookups_of(name: Seq<char>, providers: Seq<ProviderView>, cooldown: u64) -> Seq<
    LookupView,
>
    decreases providers.len(),
{
    if providers.len() == 0 {
        Seq::empty()
    } else {
        let before = lookups_of(name, providers.drop_last(), cooldown);
        if providers.last().enabled {
            before.push(lookup_of(name, providers.last(), cooldown))
        } else {
            before
        }
    }
}

fn name_lookup(normalized: &str, provider: &DnsblProvider, default_cooldown: u64) -> (r:
    ProviderLookup)
    ensures
        r@ == lookup_of(normalized@, provider@, default_cooldown),
{
    ProviderLookup {
        cache_key: join3(normalized, "/", provider.zone.as_str()),
        query: join3(normalized, ".", provider.zone.as_str()),
        zone: provider.zone.clone(),
        refusal_codes: copy_codes(&provider.refusal_codes),
        cooldown: match provider.cooldown {
            Some(c) => c,
            None => default_cooldown,
        },
    }
}

// ---------------------------------------------------------------------------
// What is remembered
// ---------------------------------------------------------------------------
/// What the cache says about one lookup.
#[derive(Debug, Clone, Copy, PartialEq, Eq, Structural)]
pub enum CachedVerdict {
    /// Within its time.
    Fresh(bool),
    /// A listing past its time but within the grace: keep blocking, and refresh it.
    StalePositive,
    /// Nothing usable.
    Miss,
}

/// A moment `span` milliseconds after `now`, or the end of time.
pub open spec fn later(now: u64, span: u64) -> u64 {
    if now + span <= u64::MAX {
        (now + span) as u64
    } else {
        u64::MAX
    }
}

fn add_time(now: u64, span: u64) -> (r: u64)
    ensures
        r == later(now, span),
{
    if span <= u64::MAX - now {
        now + span
    } else {
        u64::MAX
    }
}

/// What an entry, a flag for "listed" and the moment it expires, says at time `now`.
pub open spec fn entry_verdict(entry: Option<(u64, u64)>, now: u64) -> CachedVerdict {
    match entry {
        None => CachedVerdict::Miss,
        Some((listed, expires)) => if expires > now {
            CachedVerdict::Fresh(listed != 0)
        } else if listed != 0 && now < later(expires, STALE_POSITIVE_GRACE_MS) {
            CachedVerdict::StalePositive
        } else {
            CachedVerdict::Miss
        },
    }
}

/// Whether a listing is remembered under a key, in its time or past it by less than the
/// grace.
pub open spec fn blocks(cache: Map<Seq<char>, (u64, u64)>, key: Seq<char>, now: u64) -> bool {
    cache.dom().contains(key) && cache[key].0 != 0 && (now < cache[key].1 || now < later(
        cache[key].1,
        STALE_POSITIVE_GRACE_MS,
    ))
}

/// The entry under a key.
pub open spec fn entry_at(cache: Map<Seq<char>, (u64, u64)>, key: Seq<char>) -> Option<(u64, u64)> {
    if cache.dom().contains(key) {
        Some(cache[key])
    } else {
        None
    }
}

/// What looking up a key says, and the cache afterwards: a useless entry is dropped.
pub open spec fn looked_up(cache: Map<Seq<char>, (u64, u64)>, key: Seq<char>, now: u64) -> (
    CachedVerdict,
    Map<Seq<char>, (u64, u64)>,
) {
    let v = entry_verdict(entry_at(cache, key), now);
    (
        v,
        if v == CachedVerdict::Miss && cache.dom().contains(key) {
            cache.remove(key)
        } else {
            cache
        },
    )
}

/// What comes of looking through lookups.
pub ghost struct Scan {
    /// The cache afterwards.
    pub cache: Map<Seq<char>, (u64, u64)>,
    /// A listing within its time was found; nothing after it is looked at.
    pub warm: bool,
    /// A listing past its time was found.
    pub stale: bool,
    /// What has to be asked.
    pub misses: Seq<LookupView>,
}

/// What comes of looking through the first `n` lookups.
pub open spec fn scanned(
    cache: Map<Seq<char>, (u64, u64)>,
    lookups: Seq<LookupView>,
    now: u64,
    n: nat,
) -> Scan
    decreases n,
{
    if n == 0 {
        Scan { cache, warm: false, stale: false, misses: Seq::empty() }
    } else {
        let before = scanned(cache, lookups, now, (n - 1) as nat);
        if before.warm {
            before
        } else {
            let (v, after) = looked_up(before.cache, lookups[n - 1].cache_key, now);
            match v {
                CachedVerdict::Fresh(true) => Scan { cache: after, warm: true, ..before },
                CachedVerdict::Fresh(false) => Scan { cache: after, ..before },
                CachedVerdict::StalePositive => Scan {
                    cache: after,
                    stale: true,
                    misses: before.misses.push(lookups[n - 1]),
                    ..before
                },
                CachedVerdict::Miss => Scan {
                    cache: after,
                    misses: before.misses.push(lookups[n - 1]),
                    ..before
                },
            }
        }
    }
}

/// Whether a zone is out of rotation at time `now`.
pub open spec fn is_out(rotated: Map<Seq<char>, (u64, u64)>, zone: Seq<char>, now: u64) -> bool {
    rotated.dom().contains(zone) && rotated[zone].1 > now
}

/// The rotations after asking about a zone: one that has expired is dropped.
pub open spec fn returned(
    rotated: Map<Seq<char>, (u64, u64)>,
    zone: Seq<char>,
    now: u64,
) -> Map<Seq<char>, (u64, u64)> {
    if rotated.dom().contains(zone) && !is_out(rotated, zone, now) {
        rotated.remove(zone)
    } else {
        rotated
    }
}

/// What comes of starting lookups.
pub ghost struct Started {
    pub rotated: Map<Seq<char>, (u64, u64)>,
    pub inflight: Map<Seq<char>, (u64, u64)>,
    /// The lookups to make.
    pub fills: Seq<LookupView>,
}

/// What comes of starting the first `n` misses: a provider out of rotation is not asked,
/// and neither is one that is being asked already.
pub open spec fn started(
    rotated: Map<Seq<char>, (u64, u64)>,
    inflight: Map<Seq<char>, (u64, u64)>,
    misses: Seq<LookupView>,
    now: u64,
    n: nat,
) -> Started
    decreases n,
{
    if n == 0 {
        Started { rotated, inflight, fills: Seq::empty() }
    } else {
        let before = started(rotated, inflight, misses, now, (n - 1) as nat);
        let m = misses[n - 1];
        let rest = returned(before.rotated, m.zone, now);
        if is_out(before.rotated, m.zone, now) {
            before
        } else if before.inflight.dom().contains(m.cache_key) {
            Started { rotated: rest, ..before }
        } else {
            Started {
                rotated: rest,
                inflight: before.inflight.insert(m.cache_key, (0, 0)),
                fills: before.fills.push(m),
            }
        }
    }
}

// ---------------------------------------------------------------------------
// The checker
// ---------------------------------------------------------------------------
/// The blocklist checker.
pub struct DnsblChecker {
    /// Whether names are checked at all.
    pub enabled: bool,
    pub providers: Vec<DnsblProvider>,
    /// Results by `<name>/<zone>`: whether listed, and when the result expires.
    pub cache: dashmap::DashMap<String, (u64, u64), RandomState>,
    /// Whether outbound plaintext DNS, which lookups need, is usable.
    pub resolver_available: bool,
    /// The lookups that are running.
    pub inflight: dashmap::DashMap<String, (u64, u64), RandomState>,
    /// Zones out of rotation: the code they refused with, and when they return.
    pub rotated: dashmap::DashMap<String, (u64, u64), RandomState>,
    /// How long, in seconds, a refusing provider stays out when it configures nothing.
    pub refusal_cooldown_secs: u64,
}

/// What a check concluded: whether the name is blocked, and the lookups to start.
pub struct Check {
    pub listed: bool,
    pub fills: Vec<ProviderLookup>,
}

impl DnsblChecker {
    /// Every provider's refusal codes are well formed.
    pub open spec fn well_formed(&self) -> bool {
        forall|i: int|
            0 <= i < self.providers@.len() ==> all_well_formed(
                (#[trigger] self.providers@[i]).refusal_codes@,
            )
    }

    /// The list-wide cooldown in milliseconds.
    pub open spec fn cooldown_ms(&self) -> u64 {
        if self.refusal_cooldown_secs * 1000 <= u64::MAX {
            (self.refusal_cooldown_secs * 1000) as u64
        } else {
            u64::MAX
        }
    }

    /// A checker that is disabled and has no providers.
    pub fn new() -> (r: DnsblChecker)
        ensures
            r.well_formed(),
            !r.enabled,
            r.providers@.len() == 0,
            r.resolver_available,
            r.refusal_cooldown_secs == DEFAULT_REFUSAL_COOLDOWN_SECS,
            slots(r.cache) == nothing(),
            slots(r.inflight) == nothing(),
            slots(r.rotated) == nothing(),
    {
        DnsblChecker {
            enabled: false,
            providers: Vec::new(),
            cache: no_slots(),
            resolver_available: true,
            inflight: no_slots(),
            rotated: no_slots(),
            refusal_cooldown_secs: DEFAULT_REFUSAL_COOLDOWN_SECS,
        }
    }

    /// Sets the list-wide cooldown; zero restores the default.
    pub fn set_refusal_cooldown(&mut self, secs: u64)
        ensures
            *final(self) == (DnsblChecker {
                refusal_cooldown_secs: if secs == 0 {
                    DEFAULT_REFUSAL_COOLDOWN_SECS
                } else {
                    secs
                },
                ..*old(self)
            }),
    {
        self.refusal_cooldown_secs = if secs == 0 {
            DEFAULT_REFUSAL_COOLDOWN_SECS
        } else {
            secs
        };
    }

    /// The list-wide cooldown in seconds.
    pub fn refusal_cooldown(&self) -> (r: u64)
        ensures
            r == self.refusal_cooldown_secs,
    {
        self.refusal_cooldown_secs
    }

    fn default_cooldown_ms(&self) -> (r: u64)
        ensures
            r == self.cooldown_ms(),
    {
        if self.refusal_cooldown_secs <= u64::MAX / 1000 {
            self.refusal_cooldown_secs * 1000
        } else {
            u64::MAX
        }
    }

    /// Providers currently out of rotation. Those whose time has come are dropped.
    pub fn rotated_out(&mut self, now: u64) -> (r: Vec<RotatedProvider>)
        ensures
            slots(final(self).rotated) == still_out(slots(old(self).rotated), now),
            final(self).cache == old(self).cache,
            final(self).inflight == old(self).inflight,
            final(self).enabled == old(self).enabled,
            final(self).providers == old(self).providers,
            final(self).resolver_available == old(self).resolver_available,
            final(self).refusal_cooldown_secs == old(self).refusal_cooldown_secs,
            reports(r@, still_out(slots(old(self).rotated), now), now),
    {
        let all = list_slots(&self.rotated);
        let ghost before = slots(self.rotated);
        let ghost kept = still_out(before, now);
        let mut out: Vec<RotatedProvider> = Vec::new();
        let mut i: usize = 0;
        assert(before =~= before_rotation(before, all@, now, 0));
        while i < all.len()
            invariant
                i <= all.len(),
                lists(all@, before),
                slots(self.rotated) == before_rotation(before, all@, now, i as int),
                self.cache == old(self).cache,
                self.inflight == old(self).inflight,
                self.enabled == old(self).enabled,
                self.providers == old(self).providers,
                self.resolver_available == old(self).resolver_available,
                self.refusal_cooldown_secs == old(self).refusal_cooldown_secs,
                forall|k: int|
                    0 <= k < out@.len() ==> exists|j: int|
                        0 <= j < i && is_report(#[trigger] out@[k], #[trigger] all@[j], now),
                forall|j: int|
                    0 <= j < i && (#[trigger] all@[j]).1.1 > now ==> exists|k: int|
                        0 <= k < out@.len() && is_report(#[trigger] out@[k], all@[j], now),
                forall|k: int, m: int|
                    0 <= k < m < out@.len() ==> (#[trigger] out@[k]).zone@ != (
                    #[trigger] out@[m]).zone@,
            decreases all.len() - i,
        {
            let (code, until) = all[i].1;
            let ghost so_far = out@;
            let ghost held = slots(self.rotated);
            if until > now {
                let entry = RotatedProvider {
                    zone: all[i].0.clone(),
                    code: ipv4_to_string((code % 0x1_0000_0000) as u32),
                    seconds_remaining: (until - now) / 1000,
                };
                out.push(entry);
                proof {
                    assert(is_report(out@[so_far.len() as int], all@[i as int], now));
                    assert forall|k: int, m: int| 0 <= k < m < out@.len() implies (
                    #[trigger] out@[k]).zone@ != (#[trigger] out@[m]).zone@ by {
                        if m == so_far.len() {
                            assert(out@[k] == so_far[k]);
                            let j = choose|j: int|
                                0 <= j < i && is_report(so_far[k], #[trigger] all@[j], now);
                            assert(all@[j].0@ != all@[i as int].0@);
                        } else {
                            assert(out@[k] == so_far[k] && out@[m] == so_far[m]);
                        }
                    }
                    assert forall|k: int| 0 <= k < out@.len() implies exists|j: int|
                        0 <= j < i + 1 && is_report(#[trigger] out@[k], #[trigger] all@[j], now) by {
                        if k < so_far.len() {
                            assert(out@[k] == so_far[k]);
                            let j = choose|j: int|
                                0 <= j < i && is_report(so_far[k], #[trigger] all@[j], now);
                            assert(is_report(out@[k], all@[j], now));
                        }
                    }
                    assert forall|j: int| 0 <= j < i + 1 && (#[trigger] all@[j]).1.1
                        > now implies exists|k: int|
                        0 <= k < out@.len() && is_report(#[trigger] out@[k], all@[j], now) by {
                        if j < i {
                            let k = choose|k: int|
                                0 <= k < so_far.len() && is_report(
                                    #[trigger] so_far[k],
                                    all@[j],
                                    now,
                                );
                            assert(out@[k] == so_far[k]);
                        }
                    }
                    assert(before_rotation(before, all@, now, i + 1) =~= held);
                }
            } else {
                drop_slot(&mut self.rotated, all[i].0.as_str());
                proof {
                    assert(slots(self.rotated) =~= before_rotation(before, all@, now, i + 1));
                    assert forall|k: int| 0 <= k < out@.len() implies exists|j: int|
                        0 <= j < i + 1 && is_report(#[trigger] out@[k], #[trigger] all@[j], now) by {
                        let j = choose|j: int|
                            0 <= j < i && is_report(out@[k], #[trigger] all@[j], now);
                        assert(is_report(out@[k], all@[j], now));
                    }
                }
            }
            i = i + 1;
        }
        proof {
            assert(before_rotation(before, all@, now, i as int) =~= kept) by {
                assert forall|z: Seq<char>| #[trigger] before_rotation(
                    before,
                    all@,
                    now,
                    i as int,
                ).dom().contains(z) == kept.dom().contains(z) by {
                    if before.dom().contains(z) {
                        let j = choose|j: int| 0 <= j < all@.len() && (#[trigger] all@[j]).0@ == z;
                        assert(before[z] == all@[j].1);
                    }
                }
            }
            assert forall|z: Seq<char>| #[trigger] kept.dom().contains(z) implies exists|k: int|
                0 <= k < out@.len() && (#[trigger] out@[k]).zone@ == z by {
                let j = choose|j: int| 0 <= j < all@.len() && (#[trigger] all@[j]).0@ == z;
                assert(all@[j].1 == before[z]);
                let k = choose|k: int|
                    0 <= k < out@.len() && is_report(#[trigger] out@[k], all@[j], now);
                assert(out@[k].zone@ == z);
            }
            assert forall|k: int| 0 <= k < out@.len() implies kept.dom().contains(
                (#[trigger] out@[k]).zone@,
            ) && out@[k].code@ == ipv4_text(
                (kept[out@[k].zone@].0 % 0x1_0000_0000) as u32,
            ) && out@[k].seconds_remaining == (kept[out@[k].zone@].1 - now) / 1000 by {
                let j = choose|j: int|
                    0 <= j < all@.len() && is_report(out@[k], #[trigger] all@[j], now);
                assert(before[all@[j].0@] == all@[j].1);
            }
        }
        out
    }

    /// How many providers are currently out of rotation.
    pub fn rotated_out_count(&self, now: u64) -> (r: usize)
        ensures
            r == still_out(slots(self.rotated), now).dom().len(),
    {
        let all = list_slots(&self.rotated);
        let ghost held = slots(self.rotated);
        let ghost mut live: Set<Seq<char>> = Set::empty();
        let mut n: usize = 0;
        let mut i: usize = 0;
        while i < all.len()
            invariant
                i <= all.len(),
                n <= i,
                lists(all@, held),
                live.finite(),
                n == live.len(),
                forall|z: Seq<char>| #[trigger]
                    live.contains(z) == exists|j: int|
                        0 <= j < i && (#[trigger] all@[j]).0@ == z && all@[j].1.1 > now,
            decreases all.len() - i,
        {
            if all[i].1.1 > now {
                n = n + 1;
                proof {
                    let z = all@[i as int].0@;
                    assert(!live.contains(z)) by {
                        if live.contains(z) {
                            let j = choose|j: int|
                                0 <= j < i && (#[trigger] all@[j]).0@ == z && all@[j].1.1 > now;
                            assert(all@[j].0@ != all@[i as int].0@);
                        }
                    }
                    live = live.insert(z);
                }
            }
            i = i + 1;
        }
        proof {
            let kept = still_out(held, now);
            assert forall|z: Seq<char>| #[trigger] live.contains(z) == kept.dom().contains(z) by {
                if live.contains(z) {
                    let j = choose|j: int|
                        0 <= j < all@.len() && (#[trigger] all@[j]).0@ == z && all@[j].1.1 > now;
                    assert(held.dom().contains(all@[j].0@));
                }
                if kept.dom().contains(z) {
                    let j = choose|j: int| 0 <= j < all@.len() && (#[trigger] all@[j]).0@ == z;
                    assert(held[z] == all@[j].1);
                }
            }
            assert(live =~= kept.dom());
        }
        n
    }

    /// The milliseconds for which `zone` is still out of rotation. An entry whose time has
    /// come is dropped.
    pub fn rotated_out_for(&mut self, zone: &str, now: u64) -> (r: Option<u64>)
        ensures
            slots(final(self).rotated) == returned(slots(old(self).rotated), zone@, now),
            final(self).cache == old(self).cache,
            final(self).inflight == old(self).inflight,
            final(self).enabled == old(self).enabled,
            final(self).providers == old(self).providers,
            final(self).resolver_available == old(self).resolver_available,
            final(self).refusal_cooldown_secs == old(self).refusal_cooldown_secs,
            r == if is_out(slots(old(self).rotated), zone@, now) {
                Some((slots(old(self).rotated)[zone@].1 - now) as u64)
            } else {
                None
            },
    {
        match slot(&self.rotated, zone) {
            Some((_, until)) => {
                if until > now {
                    Some(until - now)
                } else {
                    drop_slot(&mut self.rotated, zone);
                    None
                }
            },
            None => None,
        }
    }

    /// Whether lookups are currently usable.
    pub fn resolver_available(&self) -> (r: bool)
        ensures
            r == self.resolver_available,
    {
        self.resolver_available
    }

    /// Says whether lookups are usable. The result tells whether that is news.
    pub fn set_resolver_available(&mut self, available: bool) -> (r: bool)
        ensures
            *final(self) == (DnsblChecker { resolver_available: available, ..*old(self) }),
            r == (old(self).resolver_available != available),
    {
        let changed = self.resolver_available != available;
        self.resolver_available = available;
        changed
    }

    /// What is remembered under a key at time `now`. A listing past its time still blocks
    /// while it is refreshed; anything past all usefulness is dropped.
    pub fn cached_verdict(&mut self, cache_key: &str, now: u64) -> (r: CachedVerdict)
        ensures
            (r, slots(final(self).cache)) == looked_up(slots(old(self).cache), cache_key@, now),
            final(self).rotated == old(self).rotated,
            final(self).inflight == old(self).inflight,
            final(self).enabled == old(self).enabled,
            final(self).providers == old(self).providers,
            final(self).resolver_available == old(self).resolver_available,
            final(self).refusal_cooldown_secs == old(self).refusal_cooldown_secs,
    {
        match slot(&self.cache, cache_key) {
            None => CachedVerdict::Miss,
            Some((listed, expires)) => {
                if expires > now {
                    return CachedVerdict::Fresh(listed != 0);
                }
                if listed != 0 && now < add_time(expires, STALE_POSITIVE_GRACE_MS) {
                    return CachedVerdict::StalePositive;
                }
                drop_slot(&mut self.cache, cache_key);
                CachedVerdict::Miss
            },
        }
    }

    /// Answers from what is remembered, and names what has to be asked. The first listing
    /// within its time blocks at once; a cold name is allowed now.
    pub fn check_cached_or_fill(&mut self, lookups: Vec<ProviderLookup>, now: u64) -> (r: Check)
        ensures
            ({
                let s = scanned(
                    slots(old(self).cache),
                    lookup_views(lookups@),
                    now,
                    lookups@.len(),
                );
                let f = started(
                    slots(old(self).rotated),
                    slots(old(self).inflight),
                    s.misses,
                    now,
                    s.misses.len(),
                );
                &&& slots(final(self).cache) == s.cache
                &&& if s.warm {
                    &&& r.listed
                    &&& r.fills@.len() == 0
                    &&& slots(final(self).rotated) == slots(old(self).rotated)
                    &&& slots(final(self).inflight) == slots(old(self).inflight)
                } else {
                    &&& r.listed == s.stale
                    &&& lookup_views(r.fills@) == f.fills
                    &&& slots(final(self).rotated) == f.rotated
                    &&& slots(final(self).inflight) == f.inflight
                }
            }),
            final(self).enabled == old(self).enabled,
            final(self).providers == old(self).providers,
            final(self).resolver_available == old(self).resolver_available,
            final(self).refusal_cooldown_secs == old(self).refusal_cooldown_secs,
    {
        let ghost views = lookup_views(lookups@);
        let ghost total = lookups@.len();
        let mut misses: Vec<ProviderLookup> = Vec::new();
        let mut stale_block = false;
        let mut i: usize = 0;
        assert(lookup_views(misses@) =~= Seq::empty());
        while i < lookups.len()
            invariant
                i <= lookups.len(),
                total == lookups@.len(),
                views == lookup_views(lookups@),
                self.rotated == old(self).rotated,
                self.inflight == old(self).inflight,
                self.enabled == old(self).enabled,
                self.providers == old(self).providers,
                self.resolver_available == old(self).resolver_available,
                self.refusal_cooldown_secs == old(self).refusal_cooldown_secs,
                scanned(slots(old(self).cache), views, now, i as nat) == (Scan {
                    cache: slots(self.cache),
                    warm: false,
                    stale: stale_block,
                    misses: lookup_views(misses@),
                }),
            decreases lookups.len() - i,
        {
            let ghost before = lookup_views(misses@);
            assert(views[i as int] == lookups@[i as int]@);
            match self.cached_verdict(lookups[i].cache_key.as_str(), now) {
                CachedVerdict::Fresh(listed) => {
                    if listed {
                        proof {
                            lemma_warm_stays(
                                slots(old(self).cache),
                                views,
                                now,
                                (i + 1) as nat,
                                total,
                            );
                        }
                        return Check { listed: true, fills: Vec::new() };
                    }
                },
                CachedVerdict::StalePositive => {
                    stale_block = true;
                    misses.push(lookups[i].clone());
                    assert(lookup_views(misses@) =~= before.push(lookups@[i as int]@));
                },
                CachedVerdict::Miss => {
                    misses.push(lookups[i].clone());
                    assert(lookup_views(misses@) =~= before.push(lookups@[i as int]@));
                },
            }
            i = i + 1;
        }
        let ghost all = lookup_views(misses@);
        let mut fills: Vec<ProviderLookup> = Vec::new();
        let mut j: usize = 0;
        assert(lookup_views(fills@) =~= Seq::empty());
        while j < misses.len()
            invariant
                j <= misses.len(),
                all == lookup_views(misses@),
                slots(self.cache) == scanned(slots(old(self).cache), views, now, total).cache,
                self.enabled == old(self).enabled,
                self.providers == old(self).providers,
                self.resolver_available == old(self).resolver_available,
                self.refusal_cooldown_secs == old(self).refusal_cooldown_secs,
                started(
                    slots(old(self).rotated),
                    slots(old(self).inflight),
                    all,
                    now,
                    j as nat,
                ) == (Started {
                    rotated: slots(self.rotated),
                    inflight: slots(self.inflight),
                    fills: lookup_views(fills@),
                }),
            decreases misses.len() - j,
        {
            let ghost before = lookup_views(fills@);
            assert(all[j as int] == misses@[j as int]@);
            let out = self.rotated_out_for(misses[j].zone.as_str(), now);
            if out.is_none() {
                let running = slot(&self.inflight, misses[j].cache_key.as_str());
                if running.is_none() {
                    put_slot(&mut self.inflight, misses[j].cache_key.clone(), (0, 0));
                    fills.push(misses[j].clone());
                    assert(lookup_views(fills@) =~= before.push(misses@[j as int]@));
                }
            }
            j = j + 1;
        }
        Check { listed: stale_block, fills }
    }

    /// Takes the reply to a lookup: a listing is remembered for its TTL and an absence for
    /// five minutes; a refusal is not remembered but rotates the provider out; a lookup that
    /// failed leaves nothing, so that the next query retries.
    pub fn finish_fill(&mut self, lookup: &ProviderLookup, reply: Option<Option<DnsblAnswer>>, now: u64)
        requires
            all_well_formed(lookup.refusal_codes@),
        ensures
            ({
                let v = lookup@;
                let verdict = match reply {
                    Some(answer) => Some(verdict_of(answered(answer), v.refusal_codes)),
                    None => None,
                };
                &&& slots(final(self).inflight) == slots(old(self).inflight).remove(v.cache_key)
                &&& slots(final(self).cache) == match verdict {
                    Some(DnsblVerdict::Listed) => slots(old(self).cache).insert(
                        v.cache_key,
                        (1, later(now, ttl_ms(reply))),
                    ),
                    Some(DnsblVerdict::NotListed) => slots(old(self).cache).insert(
                        v.cache_key,
                        (0, later(now, NEGATIVE_TTL_MS)),
                    ),
                    _ => slots(old(self).cache),
                }
                &&& slots(final(self).rotated) == match verdict {
                    Some(DnsblVerdict::Refused(code)) => slots(old(self).rotated).insert(
                        v.zone,
                        (code as u64, later(now, v.cooldown)),
                    ),
                    _ => slots(old(self).rotated),
                }
            }),
            reply is None ==> slots(final(self).cache) == slots(old(self).cache) && slots(
                final(self).rotated,
            ) == slots(old(self).rotated),
            reply matches Some(Some(a)) ==> a.codes@.len() > 0 ==> a.ttl > 0 ==> now < u64::MAX
                ==> (forall|i: int|
                0 <= i < a.codes@.len() ==> !is_refusal(
                    lookup.refusal_codes@,
                    #[trigger] a.codes@[i],
                )) ==> blocks(slots(final(self).cache), lookup.cache_key@, now),
            reply matches Some(Some(a)) ==> (exists|i: int|
                0 <= i < a.codes@.len() && is_refusal(
                    lookup.refusal_codes@,
                    #[trigger] a.codes@[i],
                )) ==> slots(final(self).cache) == slots(old(self).cache) && (lookup.cooldown > 0
                && now < u64::MAX ==> is_out(slots(final(self).rotated), lookup.zone@, now)),
            reply == Some(None::<DnsblAnswer>) ==> !blocks(
                slots(final(self).cache),
                lookup.cache_key@,
                now,
            ),
            final(self).enabled == old(self).enabled,
            final(self).providers == old(self).providers,
            final(self).resolver_available == old(self).resolver_available,
            final(self).refusal_cooldown_secs == old(self).refusal_cooldown_secs,
    {
        proof {
            if reply is Some && reply->0 is Some {
                crate::dnsbl::laws::law_verdicts(reply->0->0.codes@, lookup.refusal_codes@);
            }
        }
        if let Some(answer) = &reply {
            let verdict = match answer {
                Some(a) => classify(Some(a), lookup.refusal_codes.as_slice()),
                None => classify(None, lookup.refusal_codes.as_slice()),
            };
            match verdict {
                DnsblVerdict::Listed => {
                    let ttl: u64 = match answer {
                        Some(a) => a.ttl as u64 * 1000,
                        None => 0,
                    };
                    put_slot(&mut self.cache, lookup.cache_key.clone(), (1, add_time(now, ttl)));
                },
                DnsblVerdict::NotListed => {
                    put_slot(
                        &mut self.cache,
                        lookup.cache_key.clone(),
                        (0, add_time(now, NEGATIVE_TTL_MS)),
                    );
                },
                DnsblVerdict::Refused(code) => {
                    put_slot(
                        &mut self.rotated,
                        lookup.zone.clone(),
                        (code as u64, add_time(now, lookup.cooldown)),
                    );
                },
            }
        }
        drop_slot(&mut self.inflight, lookup.cache_key.as_str());
    }

    /// Checks a domain name against the enabled providers.
    pub fn is_name_listed(&mut self, name: &str, now: u64) -> (r: Check)
        ensures
            final(self).enabled == old(self).enabled,
            final(self).providers == old(self).providers,
            final(self).resolver_available == old(self).resolver_available,
            final(self).refusal_cooldown_secs == old(self).refusal_cooldown_secs,
            ({
                let n = blocklist_name(name@);
                let lookups = lookups_of(
                    n,
                    provider_views(old(self).providers@),
                    old(self).cooldown_ms(),
                );
                let s = scanned(slots(old(self).cache), lookups, now, lookups.len());
                let f = started(
                    slots(old(self).rotated),
                    slots(old(self).inflight),
                    s.misses,
                    now,
                    s.misses.len(),
                );
                if !old(self).enabled || !old(self).resolver_available || n.len() == 0 {
                    &&& !r.listed
                    &&& r.fills@.len() == 0
                    &&& *final(self) == *old(self)
                } else {
                    &&& slots(final(self).cache) == s.cache
                    &&& r.listed == (s.warm || s.stale)
                    &&& if s.warm {
                        &&& r.fills@.len() == 0
                        &&& slots(final(self).rotated) == slots(old(self).rotated)
                        &&& slots(final(self).inflight) == slots(old(self).inflight)
                    } else {
                        &&& lookup_views(r.fills@) == f.fills
                        &&& slots(final(self).rotated) == f.rotated
                        &&& slots(final(self).inflight) == f.inflight
                    }
                }
            }),
            r.listed <==> old(self).enabled && old(self).resolver_available && blocklist_name(
                name@,
            ).len() > 0 && exists|i: int|
                0 <= i < old(self).providers@.len() && (
                #[trigger] old(self).providers@[i]).enabled && blocks(
                    slots(old(self).cache),
                    blocklist_name(name@) + seq!['/'] + old(self).providers@[i].zone@,
                    now,
                ),
    {
        let normalized = normalize_blocklist_name(name);
        if !self.enabled || !self.resolver_available || normalized.as_str().is_empty() {
            return Check { listed: false, fills: Vec::new() };
        }
        let cooldown: u64 = self.default_cooldown_ms();
        let ghost views = provider_views(self.providers@);
        let mut lookups: Vec<ProviderLookup> = Vec::new();
        let mut i: usize = 0;
        assert(views.subrange(0, 0) =~= Seq::empty());
        assert(lookup_views(lookups@) =~= Seq::empty());
        while i < self.providers.len()
            invariant
                i <= self.providers.len(),
                *self == *old(self),
                views == provider_views(self.providers@),
                lookup_views(lookups@) == lookups_of(
                    normalized@,
                    views.subrange(0, i as int),
                    cooldown,
                ),
            decreases self.providers.len() - i,
        {
            let ghost before = lookup_views(lookups@);
            proof {
                let p = views.subrange(0, i + 1);
                assert(p.drop_last() =~= views.subrange(0, i as int));
                assert(p.last() == self.providers@[i as int]@);
            }
            if self.providers[i].enabled {
                let lookup = name_lookup(normalized.as_str(), &self.providers[i], cooldown);
                let ghost v = lookup@;
                lookups.push(lookup);
                assert(lookup_views(lookups@) =~= before.push(v));
            }
            i = i + 1;
        }
        assert(views.subrange(0, i as int) =~= views);
        proof {
            crate::dnsbl::laws::law_a_remembered_listing_blocks(
                slots(self.cache),
                normalized@,
                views,
                cooldown,
                now,
            );
            assert(forall|k: int|
                0 <= k < views.len() ==> #[trigger] views[k] == self.providers@[k]@);
            if exists|k: int|
                0 <= k < self.providers@.len() && (#[trigger] self.providers@[k]).enabled && blocks(
                    slots(self.cache),
                    normalized@ + seq!['/'] + self.providers@[k].zone@,
                    now,
                ) {
                let k = choose|k: int|
                    0 <= k < self.providers@.len() && (#[trigger] self.providers@[k]).enabled
                        && blocks(
                        slots(self.cache),
                        normalized@ + seq!['/'] + self.providers@[k].zone@,
                        now,
                    );
                assert(views[k] == self.providers@[k]@);
            }
        }
        self.check_cached_or_fill(lookups, now)
    }

    /// Replaces the configuration. What is remembered and rotated out goes with the old.
    pub fn set_config(&mut self, enabled: bool, providers: Vec<DnsblProvider>)
        ensures
            final(self).enabled == enabled,
            final(self).providers == providers,
            slots(final(self).cache) == nothing(),
            slots(final(self).rotated) == nothing(),
            final(self).inflight == old(self).inflight,
            final(self).resolver_available == old(self).resolver_available,
            final(self).refusal_cooldown_secs == old(self).refusal_cooldown_secs,
    {
        self.enabled = enabled;
        self.providers = providers;
        clear_slots(&mut self.cache);
        clear_slots(&mut self.rotated);
    }

    /// The current configuration.
    pub fn get_config(&self) -> (r: (bool, Vec<DnsblProvider>))
        ensures
            r.0 == self.enabled,
            provider_views(r.1@) == provider_views(self.providers@),
    {
        let mut out: Vec<DnsblProvider> = Vec::new();
        let mut i: usize = 0;
        while i < self.providers.len()
            invariant
                i <= self.providers.len(),
                out.len() == i,
                forall|k: int| 0 <= k < i ==> (#[trigger] out@[k])@ == self.providers@[k]@,
            decreases self.providers.len() - i,
        {
            out.push(self.providers[i].clone());
            i = i + 1;
        }
        assert(provider_views(out@) =~= provider_views(self.providers@));
        (self.enabled, out)
    }

    /// Whether names are checked.
    pub fn is_enabled(&self) -> (r: bool)
        ensures
            r == self.enabled,
    {
        self.enabled
    }

    /// Forgets every result and returns every provider to rotation.
    pub fn flush_cache(&mut self)
        ensures
            slots(final(self).cache) == nothing(),
            slots(final(self).rotated) == nothing(),
            final(self).inflight == old(self).inflight,
            final(self).enabled == old(self).enabled,
            final(self).providers == old(self).providers,
            final(self).resolver_available == old(self).resolver_available,
            final(self).refusal_cooldown_secs == old(self).refusal_cooldown_secs,
    {
        clear_slots(&mut self.cache);
        clear_slots(&mut self.rotated);
    }

    /// The number of remembered results.
    pub fn cache_entries(&self) -> (r: usize)
        ensures
            r == slots(self.cache).dom().len(),
    {
        count_slots(&self.cache)
    }
}

/// The codes of a reply.
pub open spec fn answered(answer: Option<DnsblAnswer>) -> Option<Seq<u32>> {
    match answer {
        Some(a) => Some(a.codes@),
        None => None,
    }
}

/// The TTL of a reply in milliseconds.
pub open spec fn ttl_ms(reply: Option<Option<DnsblAnswer>>) -> u64 {
    match reply {
        Some(Some(a)) => (a.ttl * 1000) as u64,
        _ => 0,
    }
}

/// The rotations that are still in force.
pub open spec fn still_out(rotated: Map<Seq<char>, (u64, u64)>, now: u64) -> Map<
    Seq<char>,
    (u64, u64),
> {
    rotated.restrict(Set::new(|z: Seq<char>| rotated.dom().contains(z) && rotated[z].1 > now))
}

/// Whether a list reports what is out of rotation, each zone once.
pub open spec fn reports(
    list: Seq<RotatedProvider>,
    out: Map<Seq<char>, (u64, u64)>,
    now: u64,
) -> bool {
    &&& forall|k: int|
        0 <= k < list.len() ==> out.dom().contains((#[trigger] list[k]).zone@) && list[k].code@
            == ipv4_text((out[list[k].zone@].0 % 0x1_0000_0000) as u32) && list[k].seconds_remaining
            == (out[list[k].zone@].1 - now) / 1000
    &&& forall|z: Seq<char>| #[trigger]
        out.dom().contains(z) ==> exists|k: int|
            0 <= k < list.len() && (#[trigger] list[k]).zone@ == z
    &&& forall|k: int, m: int|
        0 <= k < m < list.len() ==> (#[trigger] list[k]).zone@ != (#[trigger] list[m]).zone@
}

/// Whether a report is about an entry.
spec fn is_report(r: RotatedProvider, entry: (String, (u64, u64)), now: u64) -> bool {
    &&& r.zone@ == entry.0@
    &&& entry.1.1 > now
    &&& r.code@ == ipv4_text((entry.1.0 % 0x1_0000_0000) as u32)
    &&& r.seconds_remaining == (entry.1.1 - now) / 1000
}

/// The rotations after the first `n` listed entries have been looked at.
spec fn before_rotation(
    rotated: Map<Seq<char>, (u64, u64)>,
    list: Seq<(String, (u64, u64))>,
    now: u64,
    n: int,
) -> Map<Seq<char>, (u64, u64)> {
    rotated.restrict(
        Set::new(
            |z: Seq<char>|
                rotated.dom().contains(z) && !exists|j: int|
                    0 <= j < n && (#[trigger] list[j]).0@ == z && list[j].1.1 <= now,
        ),
    )
}

proof fn lemma_warm_stays(
    cache: Map<Seq<char>, (u64, u64)>,
    lookups: Seq<LookupView>,
    now: u64,
    n: nat,
    m: nat,
)
    requires
        n <= m,
        scanned(cache, lookups, now, n).warm,
    ensures
        scanned(cache, lookups, now, m) == scanned(cache, lookups, now, n),
    decreases m,
{
    if n < m {
        lemma_warm_stays(cache, lookups, now, n, (m - 1) as nat);
    }
}

// ---------------------------------------------------------------------------
// Laws
// ---------------------------------------------------------------------------
/// A listing past its time keeps blocking until the grace is over, and no longer.
pub proof fn law_expired_listing_blocks_through_the_grace(expires: u64, now: u64)
    requires
        expires + STALE_POSITIVE_GRACE_MS <= u64::MAX,
    ensures
        entry_verdict(Some((1, expires)), now) == if now < expires {
            CachedVerdict::Fresh(true)
        } else if now < expires + STALE_POSITIVE_GRACE_MS {
            CachedVerdict::StalePositive
        } else {
            CachedVerdict::Miss
        },
        entry_verdict(Some((0, expires)), now) == if now < expires {
            CachedVerdict::Fresh(false)
        } else {
            CachedVerdict::Miss
        },
{
}

proof fn lemma_out_stays(
    rotated: Map<Seq<char>, (u64, u64)>,
    inflight: Map<Seq<char>, (u64, u64)>,
    misses: Seq<LookupView>,
    now: u64,
    n: nat,
    zone: Seq<char>,
)
    requires
        n <= misses.len(),
    ensures
        is_out(started(rotated, inflight, misses, now, n).rotated, zone, now) == is_out(
            rotated,
            zone,
            now,
        ),
    decreases n,
{
    if n > 0 {
        lemma_out_stays(rotated, inflight, misses, now, (n - 1) as nat, zone);
    }
}

/// A provider out of rotation is not asked: no lookup that is started is at its zone.
pub proof fn law_rotated_provider_is_not_asked(
    rotated: Map<Seq<char>, (u64, u64)>,
    inflight: Map<Seq<char>, (u64, u64)>,
    misses: Seq<LookupView>,
    now: u64,
    n: nat,
)
    requires
        n <= misses.len(),
    ensures
        forall|i: int|
            0 <= i < started(rotated, inflight, misses, now, n).fills.len() ==> !is_out(
                rotated,
                (#[trigger] started(rotated, inflight, misses, now, n).fills[i]).zone,
                now,
            ),
    decreases n,
{
    if n > 0 {
        law_rotated_provider_is_not_asked(rotated, inflight, misses, now, (n - 1) as nat);
        lemma_out_stays(
            rotated,
            inflight,
            misses,
            now,
            (n - 1) as nat,
            misses[n - 1].zone,
        );
    }
}

/// No two lookups under one key run at a time: what is started was not running, and no two
/// that are started share a key.
pub proof fn law_lookups_are_not_doubled(
    rotated: Map<Seq<char>, (u64, u64)>,
    inflight: Map<Seq<char>, (u64, u64)>,
    misses: Seq<LookupView>,
    now: u64,
    n: nat,
)
    requires
        n <= misses.len(),
    ensures
        ({
            let s = started(rotated, inflight, misses, now, n);
            &&& forall|i: int|
                0 <= i < s.fills.len() ==> !inflight.dom().contains(
                    (#[trigger] s.fills[i]).cache_key,
                ) && s.inflight.dom().contains(s.fills[i].cache_key)
            &&& forall|i: int, j: int|
                0 <= i < j < s.fills.len() ==> (#[trigger] s.fills[i]).cache_key != (
                #[trigger] s.fills[j]).cache_key
            &&& forall|k: Seq<char>|
                inflight.dom().contains(k) ==> #[trigger] s.inflight.dom().contains(k)
        }),
    decreases n,
{
    if n > 0 {
        law_lookups_are_not_doubled(rotated, inflight, misses, now, (n - 1) as nat);
        let b = started(rotated, inflight, misses, now, (n - 1) as nat);
        let s = started(rotated, inflight, misses, now, n);
        assert forall|i: int| 0 <= i < s.fills.len() implies !inflight.dom().contains(
            (#[trigger] s.fills[i]).cache_key,
        ) && s.inflight.dom().contains(s.fills[i].cache_key) by {
            if i < b.fills.len() {
                assert(s.fills[i] == b.fills[i]);
            }
        }
        assert forall|i: int, j: int| 0 <= i < j < s.fills.len() implies (
        #[trigger] s.fills[i]).cache_key != (#[trigger] s.fills[j]).cache_key by {
            assert(s.fills[i] == b.fills[i]);
            if j < b.fills.len() {
                assert(s.fills[j] == b.fills[j]);
            }
        }
    }
}

} // verus!
