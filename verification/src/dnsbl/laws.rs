//! What a check against the blocklists comes to, said of the providers and of what is
//! remembered.
use vstd::arithmetic::power2::{lemma_pow2_pos, pow2};
use vstd::prelude::*;

use crate::dnsbl::checker::{
    entry_at, entry_verdict, is_out, later, looked_up, lookup_of, lookups_of, returned, scanned,
    started, still_out, ttl_ms, CachedVerdict, LookupView, ProviderView, NEGATIVE_TTL_MS,
};
use crate::dnsbl::codes::{
    blocklist_name, code_matches, code_of, codes_of, default_codes, is_refusal, masked, means_none, none_index,
    refusal_index, resolved_codes, settled, verdict_of, DnsblAnswer, DnsblVerdict, RefusalCode,
};
use crate::names::normalized;

verus! {

// ---------------------------------------------------------------------------
// The providers of a check
// ---------------------------------------------------------------------------
/// A lookup is remembered under the name and the zone with a slash between them, asks for the
/// name below the zone, and carries the provider's own cooldown where it has one.
pub proof fn law_lookup_names_the_provider(name: Seq<char>, p: ProviderView, cooldown: u64)
    ensures
        ({
            let l = lookup_of(name, p, cooldown);
            &&& l.cache_key == name + seq!['/'] + p.zone
            &&& l.query == name + seq!['.'] + p.zone
            &&& l.zone == p.zone && l.refusal_codes == p.refusal_codes
            &&& p.cooldown is None ==> l.cooldown == cooldown
            &&& p.cooldown matches Some(c) ==> l.cooldown == c
        }),
{
    reveal_strlit("/");
    reveal_strlit(".");
    assert("/"@ =~= seq!['/']);
    assert("."@ =~= seq!['.']);
}

/// Every enabled provider is looked at, and no other one: the lookups at two lists of
/// providers are those at the first and then those at the second, and one provider makes one
/// lookup exactly where it is enabled.
pub proof fn law_lookups_follow_the_providers(
    name: Seq<char>,
    a: Seq<ProviderView>,
    b: Seq<ProviderView>,
    cooldown: u64,
)
    ensures
        lookups_of(name, a + b, cooldown) == lookups_of(name, a, cooldown) + lookups_of(
            name,
            b,
            cooldown,
        ),
        a.len() == 0 ==> lookups_of(name, a, cooldown).len() == 0,
        a.len() == 1 && a[0].enabled ==> lookups_of(name, a, cooldown) == seq![
            lookup_of(name, a[0], cooldown),
        ],
        a.len() == 1 && !a[0].enabled ==> lookups_of(name, a, cooldown).len() == 0,
    decreases b.len(),
{
    if a.len() == 1 {
        assert(a.drop_last() =~= Seq::empty());
        assert(lookups_of(name, a.drop_last(), cooldown) =~= Seq::empty());
        if a[0].enabled {
            assert(lookups_of(name, a, cooldown) =~= seq![lookup_of(name, a[0], cooldown)]);
        }
    }
    if b.len() == 0 {
        assert(a + b =~= a);
        assert(lookups_of(name, a, cooldown) + lookups_of(name, b, cooldown) =~= lookups_of(
            name,
            a,
            cooldown,
        ));
    } else {
        law_lookups_follow_the_providers(name, a, b.drop_last(), cooldown);
        assert((a + b).drop_last() =~= a + b.drop_last());
        assert(lookups_of(name, a + b, cooldown) =~= lookups_of(name, a, cooldown) + lookups_of(
            name,
            b,
            cooldown,
        ));
    }
}

/// How many of the providers are enabled.
pub open spec fn enabled_count(providers: Seq<ProviderView>) -> nat
    decreases providers.len(),
{
    if providers.len() == 0 {
        0
    } else {
        enabled_count(providers.drop_first()) + if providers[0].enabled {
            1nat
        } else {
            0nat
        }
    }
}

/// Whether a lookup is that of a name at some enabled provider.
pub open spec fn is_at_a_provider(
    l: LookupView,
    name: Seq<char>,
    providers: Seq<ProviderView>,
    cooldown: u64,
) -> bool {
    exists|i: int|
        0 <= i < providers.len() && (#[trigger] providers[i]).enabled && l == lookup_of(
            name,
            providers[i],
            cooldown,
        )
}

/// There are as many lookups as enabled providers, and each enabled provider's is among
/// them.
pub proof fn law_every_enabled_provider_is_looked_at(
    name: Seq<char>,
    providers: Seq<ProviderView>,
    cooldown: u64,
)
    ensures
        lookups_of(name, providers, cooldown).len() == enabled_count(providers),
        forall|i: int|
            0 <= i < providers.len() && (#[trigger] providers[i]).enabled ==> lookups_of(
                name,
                providers,
                cooldown,
            ).contains(lookup_of(name, providers[i], cooldown)),
        forall|k: int|
            0 <= k < lookups_of(name, providers, cooldown).len() ==> is_at_a_provider(
                #[trigger] lookups_of(name, providers, cooldown)[k],
                name,
                providers,
                cooldown,
            ),
    decreases providers.len(),
{
    let all = lookups_of(name, providers, cooldown);
    if providers.len() > 0 {
        let one = seq![providers[0]];
        let rest = providers.drop_first();
        assert(providers =~= one + rest);
        law_lookups_follow_the_providers(name, one, rest, cooldown);
        law_every_enabled_provider_is_looked_at(name, rest, cooldown);
        let (x, y) = (lookups_of(name, one, cooldown), lookups_of(name, rest, cooldown));
        assert(all == x + y);
        assert forall|i: int|
            0 <= i < providers.len() && (#[trigger] providers[i]).enabled implies all.contains(
            lookup_of(name, providers[i], cooldown),
        ) by {
            if i == 0 {
                assert(all[0] == lookup_of(name, providers[0], cooldown));
            } else {
                assert(rest[i - 1] == providers[i]);
                assert(y.contains(lookup_of(name, rest[i - 1], cooldown)));
                let k = choose|k: int|
                    0 <= k < y.len() && y[k] == lookup_of(name, rest[i - 1], cooldown);
                assert(all[x.len() + k] == y[k]);
            }
        }
        assert forall|k: int| 0 <= k < all.len() implies is_at_a_provider(
            #[trigger] all[k],
            name,
            providers,
            cooldown,
        ) by {
            if k < x.len() {
                assert(all[k] == x[k]);
                assert(providers[0].enabled);
            } else {
                assert(all[k] == y[k - x.len()]);
                assert(is_at_a_provider(y[k - x.len()], name, rest, cooldown));
                let j = choose|j: int|
                    0 <= j < rest.len() && (#[trigger] rest[j]).enabled && y[k - x.len()]
                        == lookup_of(name, rest[j], cooldown);
                assert(providers[j + 1] == rest[j]);
            }
        }
    }
}

// ---------------------------------------------------------------------------
// What is remembered
// ---------------------------------------------------------------------------
/// Whether a listing is remembered under a key that is still in its time.
pub open spec fn holds_listing(cache: Map<Seq<char>, (u64, u64)>, key: Seq<char>, now: u64) -> bool {
    cache.dom().contains(key) && cache[key].0 != 0 && cache[key].1 > now
}

/// Whether a listing is remembered under a key that is past its time, by less than the grace.
pub open spec fn holds_stale_listing(
    cache: Map<Seq<char>, (u64, u64)>,
    key: Seq<char>,
    now: u64,
) -> bool {
    cache.dom().contains(key) && cache[key].0 != 0 && cache[key].1 <= now && now < later(
        cache[key].1,
        600_000,
    )
}

/// Whether what is remembered under a key has to be asked for again.
pub open spec fn has_to_be_asked(cache: Map<Seq<char>, (u64, u64)>, key: Seq<char>, now: u64) -> bool {
    !(cache.dom().contains(key) && cache[key].1 > now)
}

proof fn lemma_scan_keeps_verdicts(
    cache: Map<Seq<char>, (u64, u64)>,
    lookups: Seq<LookupView>,
    now: u64,
    n: nat,
    key: Seq<char>,
)
    ensures
        entry_verdict(entry_at(scanned(cache, lookups, now, n).cache, key), now) == entry_verdict(
            entry_at(cache, key),
            now,
        ),
    decreases n,
{
    if n > 0 {
        lemma_scan_keeps_verdicts(cache, lookups, now, (n - 1) as nat, key);
        let before = scanned(cache, lookups, now, (n - 1) as nat);
        let (v, after) = looked_up(before.cache, lookups[n - 1].cache_key, now);
        assert(entry_verdict(entry_at(after, key), now) == entry_verdict(
            entry_at(before.cache, key),
            now,
        ));
    }
}

/// A name is found listed exactly where a listing in its time is remembered under one of the
/// keys. Otherwise a listing within its grace blocks exactly where there is one, and what
/// has to be asked is asked, all of it, in the order of the lookups.
#[verifier::spinoff_prover]
#[verifier::rlimit(40)]
pub proof fn law_a_check_finds_what_is_remembered(
    cache: Map<Seq<char>, (u64, u64)>,
    lookups: Seq<LookupView>,
    now: u64,
    n: nat,
)
    requires
        n <= lookups.len(),
    ensures
        ({
            let s = scanned(cache, lookups, now, n);
            &&& s.warm <==> exists|i: int|
                0 <= i < n && holds_listing(cache, (#[trigger] lookups[i]).cache_key, now)
            &&& !s.warm ==> (s.stale <==> exists|i: int|
                0 <= i < n && holds_stale_listing(cache, (#[trigger] lookups[i]).cache_key, now))
            &&& !s.warm ==> s.misses == lookups.subrange(0, n as int).filter(
                |l: LookupView| has_to_be_asked(cache, l.cache_key, now),
            )
        }),
    decreases n,
{
    reveal(Seq::filter);
    let asked = |l: LookupView| has_to_be_asked(cache, l.cache_key, now);
    if n > 0 {
        let m = (n - 1) as nat;
        law_a_check_finds_what_is_remembered(cache, lookups, now, m);
        let before = scanned(cache, lookups, now, m);
        let s = scanned(cache, lookups, now, n);
        let key = lookups[n - 1].cache_key;
        lemma_scan_keeps_verdicts(cache, lookups, now, m, key);
        let part = lookups.subrange(0, n as int);
        assert(part.drop_last() =~= lookups.subrange(0, m as int));
        assert(part.last() == lookups[n - 1]);
        assert(entry_verdict(entry_at(cache, key), now) == CachedVerdict::Fresh(true)
            <==> holds_listing(cache, key, now));
        assert(entry_verdict(entry_at(cache, key), now) == CachedVerdict::StalePositive
            <==> holds_stale_listing(cache, key, now));
        assert(asked(lookups[n - 1]) <==> has_to_be_asked(cache, key, now));
        if before.warm {
            let i = choose|i: int|
                0 <= i < m && holds_listing(cache, (#[trigger] lookups[i]).cache_key, now);
            assert(holds_listing(cache, lookups[i].cache_key, now));
        } else if !s.warm {
            assert forall|i: int| 0 <= i < n implies !holds_listing(
                cache,
                (#[trigger] lookups[i]).cache_key,
                now,
            ) by {
                if i < m {
                    assert(!holds_listing(cache, lookups[i].cache_key, now));
                }
            }
            if before.stale {
                let i = choose|i: int|
                    0 <= i < m && holds_stale_listing(
                        cache,
                        (#[trigger] lookups[i]).cache_key,
                        now,
                    );
                assert(holds_stale_listing(cache, lookups[i].cache_key, now));
            }
        }
    }
}

/// A name is blocked wherever a listing is remembered, in its time or within its grace, under
/// the key of any enabled provider; and it is blocked nowhere else.
#[verifier::spinoff_prover]
#[verifier::rlimit(40)]
pub proof fn law_a_remembered_listing_blocks(
    cache: Map<Seq<char>, (u64, u64)>,
    name: Seq<char>,
    providers: Seq<ProviderView>,
    cooldown: u64,
    now: u64,
)
    ensures
        ({
            let lookups = lookups_of(name, providers, cooldown);
            let s = scanned(cache, lookups, now, lookups.len());
            &&& s.warm <==> exists|i: int|
                0 <= i < providers.len() && (#[trigger] providers[i]).enabled && holds_listing(
                    cache,
                    name + seq!['/'] + providers[i].zone,
                    now,
                )
            &&& s.warm || s.stale <==> exists|i: int|
                0 <= i < providers.len() && (#[trigger] providers[i]).enabled && (holds_listing(
                    cache,
                    name + seq!['/'] + providers[i].zone,
                    now,
                ) || holds_stale_listing(cache, name + seq!['/'] + providers[i].zone, now))
        }),
{
    let lookups = lookups_of(name, providers, cooldown);
    let s = scanned(cache, lookups, now, lookups.len());
    law_every_enabled_provider_is_looked_at(name, providers, cooldown);
    law_a_check_finds_what_is_remembered(cache, lookups, now, lookups.len());
    assert forall|i: int| 0 <= i < providers.len() && (#[trigger] providers[i]).enabled implies {
        exists|k: int|
            0 <= k < lookups.len() && (#[trigger] lookups[k]).cache_key == name + seq!['/']
                + providers[i].zone
    } by {
        law_lookup_names_the_provider(name, providers[i], cooldown);
        assert(lookups.contains(lookup_of(name, providers[i], cooldown)));
    }
    assert forall|k: int| 0 <= k < lookups.len() implies {
        exists|i: int|
            0 <= i < providers.len() && (#[trigger] providers[i]).enabled && (
            #[trigger] lookups[k]).cache_key == name + seq!['/'] + providers[i].zone
    } by {
        assert(is_at_a_provider(lookups[k], name, providers, cooldown));
        let i = choose|i: int|
            0 <= i < providers.len() && (#[trigger] providers[i]).enabled && lookups[k]
                == lookup_of(name, providers[i], cooldown);
        law_lookup_names_the_provider(name, providers[i], cooldown);
    }
    if s.warm {
        let k = choose|k: int|
            0 <= k < lookups.len() && holds_listing(cache, (#[trigger] lookups[k]).cache_key, now);
        assert(holds_listing(cache, lookups[k].cache_key, now));
    } else if s.stale {
        let k = choose|k: int|
            0 <= k < lookups.len() && holds_stale_listing(
                cache,
                (#[trigger] lookups[k]).cache_key,
                now,
            );
        assert(holds_stale_listing(cache, lookups[k].cache_key, now));
    }
}

/// Looking drops useless entries and changes no other.
pub proof fn law_looking_drops_useless_entries_alone(
    cache: Map<Seq<char>, (u64, u64)>,
    lookups: Seq<LookupView>,
    now: u64,
    n: nat,
    key: Seq<char>,
)
    ensures
        ({
            let after = scanned(cache, lookups, now, n).cache;
            &&& after.dom().contains(key) ==> cache.dom().contains(key) && after[key] == cache[key]
            &&& cache.dom().contains(key) && (cache[key].1 > now || (cache[key].0 != 0 && now < later(
                cache[key].1,
                600_000,
            ))) ==> after.dom().contains(key)
        }),
    decreases n,
{
    if n > 0 {
        law_looking_drops_useless_entries_alone(cache, lookups, now, (n - 1) as nat, key);
    }
}

/// A moment later is that much later, unless time ends first.
pub proof fn law_later_is_later(now: u64, span: u64)
    ensures
        now <= later(now, span),
        later(now, span) < u64::MAX ==> later(now, span) - now == span,
        later(now, span) == u64::MAX ==> now + span >= u64::MAX,
{
}

/// A listing that is put in the cache blocks for the TTL that it came with; what is put there
/// as not listed clears the name for five minutes.
pub proof fn law_a_reply_is_remembered_for_its_time(answer: DnsblAnswer, put: u64, now: u64)
    requires
        put <= now,
        put + answer.ttl * 1000 <= u64::MAX - 600_000,
        put + 300_000 <= u64::MAX - 600_000,
    ensures
        ({
            let listed = entry_verdict(Some((1, later(put, ttl_ms(Some(Some(answer)))))), now);
            let clear = entry_verdict(Some((0, later(put, NEGATIVE_TTL_MS))), now);
            &&& listed == CachedVerdict::Fresh(true) <==> now < put + answer.ttl * 1000
            &&& listed == CachedVerdict::Miss <==> now >= put + answer.ttl * 1000 + 600_000
            &&& clear == CachedVerdict::Fresh(false) <==> now < put + 300_000
            &&& clear == CachedVerdict::Miss <==> now >= put + 300_000
        }),
{
}

// ---------------------------------------------------------------------------
// What is asked
// ---------------------------------------------------------------------------
/// Every miss is asked about, unless its provider is out of rotation or a lookup under its
/// key runs already; nothing but misses is asked about.
#[verifier::spinoff_prover]
#[verifier::rlimit(40)]
pub proof fn law_misses_are_asked(
    rotated: Map<Seq<char>, (u64, u64)>,
    inflight: Map<Seq<char>, (u64, u64)>,
    misses: Seq<LookupView>,
    now: u64,
    n: nat,
)
    requires
        n <= misses.len(),
    ensures
        ({
            let s = started(rotated, inflight, misses, now, n);
            &&& forall|i: int|
                0 <= i < n ==> is_out(rotated, (#[trigger] misses[i]).zone, now)
                    || inflight.dom().contains(misses[i].cache_key) || exists|k: int|
                    0 <= k < s.fills.len() && (#[trigger] s.fills[k]).cache_key
                        == misses[i].cache_key
            &&& forall|k: int|
                0 <= k < s.fills.len() ==> exists|i: int|
                    0 <= i < n && #[trigger] s.fills[k] == #[trigger] misses[i]
            &&& forall|key: Seq<char>| #[trigger]
                s.inflight.dom().contains(key) ==> inflight.dom().contains(key) || exists|k: int|
                    0 <= k < s.fills.len() && (#[trigger] s.fills[k]).cache_key == key
        }),
    decreases n,
{
    if n > 0 {
        let m = (n - 1) as nat;
        law_misses_are_asked(rotated, inflight, misses, now, m);
        lemma_rotations_in_force(rotated, inflight, misses, now, m, misses[m as int].zone);
        let b = started(rotated, inflight, misses, now, m);
        let s = started(rotated, inflight, misses, now, n);
        let last = misses[m as int];
        assert forall|i: int| 0 <= i < n implies is_out(rotated, (#[trigger] misses[i]).zone, now)
            || inflight.dom().contains(misses[i].cache_key) || exists|k: int|
            0 <= k < s.fills.len() && (#[trigger] s.fills[k]).cache_key == misses[i].cache_key by {
            if i == m && !is_out(rotated, last.zone, now) && !inflight.dom().contains(
                last.cache_key,
            ) {
                if b.inflight.dom().contains(last.cache_key) {
                    let k = choose|k: int|
                        0 <= k < b.fills.len() && (#[trigger] b.fills[k]).cache_key
                            == last.cache_key;
                    assert(s.fills[k] == b.fills[k]);
                } else {
                    assert(s.fills[s.fills.len() - 1].cache_key == last.cache_key);
                }
            } else if i < m && !is_out(rotated, misses[i].zone, now) && !inflight.dom().contains(
                misses[i].cache_key,
            ) {
                let k = choose|k: int|
                    0 <= k < b.fills.len() && (#[trigger] b.fills[k]).cache_key
                        == misses[i].cache_key;
                assert(s.fills[k] == b.fills[k]);
            }
        }
        assert forall|k: int| 0 <= k < s.fills.len() implies exists|i: int|
            0 <= i < n && #[trigger] s.fills[k] == #[trigger] misses[i] by {
            if k < b.fills.len() {
                assert(s.fills[k] == b.fills[k]);
                let i = choose|i: int| 0 <= i < m && b.fills[k] == #[trigger] misses[i];
                assert(s.fills[k] == misses[i]);
            } else {
                assert(s.fills[k] == misses[m as int]);
            }
        }
        assert forall|key: Seq<char>| #[trigger]
            s.inflight.dom().contains(key) implies inflight.dom().contains(key) || exists|k: int|
            0 <= k < s.fills.len() && (#[trigger] s.fills[k]).cache_key == key by {
            if b.inflight.dom().contains(key) {
                if !inflight.dom().contains(key) {
                    let k = choose|k: int|
                        0 <= k < b.fills.len() && (#[trigger] b.fills[k]).cache_key == key;
                    assert(s.fills[k] == b.fills[k]);
                }
            } else {
                assert(s.fills[s.fills.len() - 1].cache_key == key);
            }
        }
    }
}

proof fn lemma_rotations_in_force(
    rotated: Map<Seq<char>, (u64, u64)>,
    inflight: Map<Seq<char>, (u64, u64)>,
    misses: Seq<LookupView>,
    now: u64,
    n: nat,
    zone: Seq<char>,
)
    requires
        n <= misses.len(),
    ensures
        is_out(started(rotated, inflight, misses, now, n).rotated, zone, now) == is_out(
            rotated,
            zone,
            now,
        ),
    decreases n,
{
    if n > 0 {
        lemma_rotations_in_force(rotated, inflight, misses, now, (n - 1) as nat, zone);
    }
}

/// A zone is out of rotation until the moment that it returns, and what is in force stays in
/// force while lookups are started.
pub proof fn law_rotations_last_their_time(
    rotated: Map<Seq<char>, (u64, u64)>,
    zone: Seq<char>,
    code: u64,
    until: u64,
    now: u64,
)
    ensures
        is_out(rotated.insert(zone, (code, until)), zone, now) <==> now < until,
        is_out(rotated, zone, now) ==> returned(rotated, zone, now) == rotated && still_out(
            rotated,
            now,
        ).dom().contains(zone) && still_out(rotated, now)[zone] == rotated[zone],
        !is_out(rotated, zone, now) ==> !returned(rotated, zone, now).dom().contains(zone)
            && !still_out(rotated, now).dom().contains(zone),
{
}

// ---------------------------------------------------------------------------
// What a reply says
// ---------------------------------------------------------------------------
proof fn lemma_first_refusal(codes: Seq<u32>, patterns: Seq<RefusalCode>, i: int)
    requires
        0 <= i <= codes.len(),
    ensures
        ({
            let k = refusal_index(codes, patterns, i);
            &&& i <= k <= codes.len()
            &&& forall|j: int| i <= j < k ==> !is_refusal(patterns, #[trigger] codes[j])
            &&& k < codes.len() ==> is_refusal(patterns, codes[k])
        }),
    decreases codes.len() - i,
{
    if i < codes.len() && !is_refusal(patterns, codes[i]) {
        lemma_first_refusal(codes, patterns, i + 1);
    }
}

/// A name is listed exactly where the answer holds codes and none of them is a refusal; a
/// refusal names the first code that is one; no answer, or one without codes, clears the
/// name.
pub proof fn law_verdicts(codes: Seq<u32>, patterns: Seq<RefusalCode>)
    ensures
        verdict_of(None, patterns) == DnsblVerdict::NotListed,
        verdict_of(Some(codes), patterns) == DnsblVerdict::NotListed <==> codes.len() == 0,
        verdict_of(Some(codes), patterns) == DnsblVerdict::Listed <==> codes.len() > 0 && forall|
            i: int,
        |
            0 <= i < codes.len() ==> !is_refusal(patterns, #[trigger] codes[i]),
        verdict_of(Some(codes), patterns) matches DnsblVerdict::Refused(code) ==> exists|k: int|
            {
                &&& 0 <= k < codes.len() && #[trigger] codes[k] == code && is_refusal(patterns, code)
                &&& forall|j: int| 0 <= j < k ==> !is_refusal(patterns, #[trigger] codes[j])
            },
{
    lemma_first_refusal(codes, patterns, 0);
    let k = refusal_index(codes, patterns, 0);
    if k < codes.len() {
        assert(codes[k] == codes[k]);
        assert(is_refusal(patterns, codes[k]));
    }
}

/// A pattern matches the addresses from its base on, as many as its prefix leaves open, and
/// no other.
#[verifier::spinoff_prover]
#[verifier::rlimit(40)]
pub proof fn law_patterns_are_ranges(code: RefusalCode, ip: u32)
    requires
        settled(code),
    ensures
        code_matches(code, ip) <==> code.base <= ip < code.base + pow2((32 - code.prefix) as nat),
{
    let unit = pow2((32 - code.prefix) as nat) as int;
    lemma_pow2_pos((32 - code.prefix) as nat);
    let (b, x) = (code.base as int, ip as int);
    assert(0 <= x / unit * unit <= x) by (nonlinear_arith)
        requires
            unit > 0,
            x >= 0,
    ;
    assert(0 <= b / unit * unit <= b) by (nonlinear_arith)
        requires
            unit > 0,
            b >= 0,
    ;
    assert(masked(ip, code.prefix) == x / unit * unit);
    assert(b / unit * unit == b);
    assert(x / unit * unit == b <==> b <= x < b + unit) by (nonlinear_arith)
        requires
            unit > 0,
            x >= 0,
            b >= 0,
            b / unit * unit == b,
    ;
}

proof fn lemma_exact(base: u32)
    ensures
        settled(RefusalCode { base, prefix: 32 }),
        pow2((32 - 32u8) as nat) == 1,
{
    vstd::arithmetic::power2::lemma2_to64();
    assert((32 - 32u8) as nat == 0);
}

/// The default refusal codes are 127.255.255.0 to 127.255.255.255, and four addresses.
#[verifier::spinoff_prover]
#[verifier::rlimit(40)]
pub proof fn law_default_refusals(ip: u32)
    ensures
        is_refusal(default_codes(), ip) <==> {
            ||| 0x7fff_ff00 <= ip <= 0x7fff_ffff
            ||| ip == 0x7f00_01ff || ip == 0x7f00_02ff || ip == 0x7f00_0001 || ip == 0x7f00_00ff
        },
{
    let d = default_codes();
    vstd::arithmetic::power2::lemma2_to64();
    assert((32 - 24u8) as nat == 8 && pow2(8) == 256);
    assert(0x7fff_ff00int / 256 * 256 == 0x7fff_ff00);
    assert(settled(d[0]));
    lemma_exact(0x7f00_01ff);
    lemma_exact(0x7f00_02ff);
    lemma_exact(0x7f00_0001);
    lemma_exact(0x7f00_00ff);
    law_patterns_are_ranges(d[0], ip);
    law_patterns_are_ranges(d[1], ip);
    law_patterns_are_ranges(d[2], ip);
    law_patterns_are_ranges(d[3], ip);
    law_patterns_are_ranges(d[4], ip);
    assert(d.len() == 5);
    if is_refusal(d, ip) {
        let i = choose|i: int| 0 <= i < d.len() && code_matches(#[trigger] d[i], ip);
        assert(i == 0 || i == 1 || i == 2 || i == 3 || i == 4);
    }
    assert(code_matches(d[0], ip) <==> 0x7fff_ff00 <= ip <= 0x7fff_ffff);
}

/// The patterns that texts spell are one for each text, in their order; one bad text spoils
/// them all.
pub proof fn law_codes_are_read_one_by_one(specs: Seq<Seq<char>>, n: nat)
    requires
        n <= specs.len(),
    ensures
        codes_of(specs, n) is Ok <==> forall|i: int|
            0 <= i < n ==> code_of(#[trigger] specs[i]) is Ok,
        codes_of(specs, n) matches Ok(codes) ==> codes.len() == n && forall|i: int|
            0 <= i < n ==> code_of(#[trigger] specs[i]) == Ok::<RefusalCode, Seq<char>>(codes[i]),
    decreases n,
{
    if n > 0 {
        law_codes_are_read_one_by_one(specs, (n - 1) as nat);
        if codes_of(specs, (n - 1) as nat) is Ok && code_of(specs[n - 1]) is Ok {
            assert forall|i: int| 0 <= i < n implies code_of(#[trigger] specs[i]) is Ok by {
                if i < n - 1 {
                }
            }
        }
    }
}

proof fn lemma_first_none(specs: Seq<Seq<char>>, i: int)
    requires
        0 <= i <= specs.len(),
    ensures
        i <= none_index(specs, i) <= specs.len(),
        none_index(specs, i) < specs.len() <==> exists|k: int|
            i <= k < specs.len() && means_none(#[trigger] specs[k]),
    decreases specs.len() - i,
{
    if i < specs.len() && !means_none(specs[i]) {
        lemma_first_none(specs, i + 1);
    }
}

/// `none` switches refusal detection off where it stands alone, and is an error beside any
/// other text; an empty list stands for the defaults.
pub proof fn law_none_stands_alone(specs: Seq<Seq<char>>)
    ensures
        specs.len() == 1 && means_none(specs[0]) ==> resolved_codes(specs) == Ok::<
            Seq<RefusalCode>,
            Seq<char>,
        >(Seq::empty()),
        specs.len() > 1 && (exists|k: int| 0 <= k < specs.len() && means_none(#[trigger] specs[k]))
            ==> resolved_codes(specs) is Err,
        specs.len() == 0 ==> resolved_codes(specs) == Ok::<Seq<RefusalCode>, Seq<char>>(
            default_codes(),
        ),
        specs.len() > 0 && (forall|k: int|
            0 <= k < specs.len() ==> !means_none(#[trigger] specs[k])) ==> resolved_codes(specs)
            == codes_of(specs, specs.len()),
{
    lemma_first_none(specs, 0);
}

/// Blocklists are asked for the normal form of a name without its dot.
pub proof fn law_blocklist_names_are_normal(name: Seq<char>)
    ensures
        blocklist_name(name).push('.') == normalized(name),
{
}

} // verus!
