//! The NSEC chain of a zone: one link per name that holds records, in canonical
//! order, the last link pointing back at the apex.
use vstd::prelude::*;
use vstd::string::*;

use crate::dnssec::nsec::Nsec;
use crate::names::{
    canonical_key, canonical_lt, in_zone, law_apex_sorts_first, law_canonical_order_is_total,
    law_canonical_order_is_transitive, law_normalizing_is_idempotent,
    law_same_key_same_normal_form, name_in_zone, name_precedes, normalize_name, normalized,
};
use crate::record::{DnsRecord, RecordKind};
use crate::text::{eq_text, strings};

verus! {

/// Whether the link from `owner` to `next` covers `name`: the names strictly between
/// the two in canonical order, or, where the link wraps, those after `owner` and those
/// before `next`.
pub open spec fn covers(owner: Seq<char>, next: Seq<char>, name: Seq<char>) -> bool {
    if canonical_lt(owner, next) {
        canonical_lt(owner, name) && canonical_lt(name, next)
    } else {
        canonical_lt(owner, name) || canonical_lt(name, next)
    }
}

/// Whether the NSEC at `owner`, pointing at `next`, proves `name` absent.
pub fn nsec_covers(owner: &str, next: &str, name: &str) -> (r: bool)
    ensures
        r == covers(owner@, next@, name@),
{
    if name_precedes(owner, next) {
        name_precedes(owner, name) && name_precedes(name, next)
    } else {
        name_precedes(owner, name) || name_precedes(name, next)
    }
}

/// A record that is a reason for its name to exist: neither a signature nor a denial.
pub open spec fn is_authoritative_data(kind: RecordKind) -> bool {
    kind != RecordKind::RRSIG && kind != RecordKind::NSEC
}

/// A record type that a bit map names because such a record is stored.
pub open spec fn is_claimed(kind: RecordKind) -> bool {
    is_authoritative_data(kind) && kind != RecordKind::ANAME
}

/// Whether the chain of the zone at `apex` has a link at `name`.
pub open spec fn is_chained(apex: Seq<char>, records: Seq<DnsRecord>, name: Seq<char>) -> bool {
    name == apex || exists|i: int|
        {
            &&& 0 <= i < records.len()
            &&& normalized((#[trigger] records[i]).name@) == name
            &&& in_zone(name, apex)
            &&& is_authoritative_data(records[i].record_type)
        }
}

/// The types stored at `name` that its bit map names, in the order of the records.
pub open spec fn kinds_at(records: Seq<DnsRecord>, name: Seq<char>) -> Seq<RecordKind>
    decreases records.len(),
{
    if records.len() == 0 {
        Seq::empty()
    } else {
        let before = kinds_at(records.drop_last(), name);
        let last = records.last();
        if normalized(last.name@) == name && is_claimed(last.record_type) {
            before.push(last.record_type)
        } else {
            before
        }
    }
}

/// Names in strictly ascending canonical order.
pub open spec fn canonically_ascending(owners: Seq<Seq<char>>) -> bool {
    forall|i: int, j: int|
        0 <= i < j < owners.len() ==> canonical_lt(#[trigger] owners[i], #[trigger] owners[j])
}

/// The owners of a chain's links.
pub open spec fn chain_owners(chain: Seq<(String, Nsec)>) -> Seq<Seq<char>> {
    Seq::new(chain.len(), |i: int| chain[i].0@)
}

/// What the link at position `i` of a chain points to.
pub open spec fn next_of(owners: Seq<Seq<char>>, i: int) -> Seq<char> {
    if i + 1 < owners.len() {
        owners[i + 1]
    } else {
        owners[0]
    }
}

/// Names in normal form.
spec fn all_normal(owners: Seq<Seq<char>>) -> bool {
    forall|i: int| 0 <= i < owners.len() ==> normalized(#[trigger] owners[i]) == owners[i]
}

/// Adds a normalized name to an ascending list of normalized names, unless it is there.
fn insert_owner(owners: &mut Vec<String>, name: String)
    requires
        canonically_ascending(strings(old(owners)@)),
        all_normal(strings(old(owners)@)),
        normalized(name@) == name@,
    ensures
        canonically_ascending(strings(final(owners)@)),
        all_normal(strings(final(owners)@)),
        forall|n: Seq<char>|
            strings(final(owners)@).contains(n) == (strings(old(owners)@).contains(n) || n
                == name@),
        final(owners)@.len() > 0,
{
    let ghost before = strings(owners@);
    let mut at: usize = 0;
    while at < owners.len() && name_precedes(owners[at].as_str(), name.as_str())
        invariant
            at <= owners.len(),
            before == strings(owners@),
            *owners == *old(owners),
            forall|k: int| 0 <= k < at ==> canonical_lt(#[trigger] before[k], name@),
        decreases owners.len() - at,
    {
        at = at + 1;
    }
    if at < owners.len() && eq_text(owners[at].as_str(), name.as_str()) {
        assert(before[at as int] == name@);
        return;
    }
    let ghost added = name@;
    owners.insert(at, name);
    let ghost after = strings(owners@);
    proof {
        assert(after =~= before.insert(at as int, added));
        assert forall|k: int| at <= k < before.len() implies canonical_lt(
            added,
            #[trigger] before[k],
        ) by {
            let here = before[at as int];
            law_canonical_order_is_total(here, added);
            law_same_key_same_normal_form(here, added);
            assert(canonical_lt(added, here));
            if k > at {
                law_canonical_order_is_transitive(added, here, before[k]);
            }
        }
        assert forall|i: int, j: int| 0 <= i < j < after.len() implies canonical_lt(
            #[trigger] after[i],
            #[trigger] after[j],
        ) by {
            if j < at {
                assert(after[i] == before[i] && after[j] == before[j]);
            } else if j == at {
                assert(after[i] == before[i] && after[j] == added);
            } else if i < at {
                assert(after[i] == before[i] && after[j] == before[j - 1]);
            } else if i == at {
                assert(after[i] == added && after[j] == before[j - 1]);
            } else {
                assert(after[i] == before[i - 1] && after[j] == before[j - 1]);
            }
        }
        assert forall|i: int| 0 <= i < after.len() implies normalized(#[trigger] after[i])
            == after[i] by {
            if i < at {
                assert(after[i] == before[i]);
            } else if i > at {
                assert(after[i] == before[i - 1]);
            }
        }
        assert forall|n: Seq<char>| after.contains(n) == (before.contains(n) || n == added) by {
            if before.contains(n) {
                let k = choose|k: int| 0 <= k < before.len() && before[k] == n;
                if k < at {
                    assert(after[k] == n);
                } else {
                    assert(after[k + 1] == n);
                }
            }
            assert(after[at as int] == added);
            if after.contains(n) {
                let k = choose|k: int| 0 <= k < after.len() && after[k] == n;
                if k < at {
                    assert(before[k] == n);
                } else if k > at {
                    assert(before[k - 1] == n);
                }
            }
        }
    }
}

/// The types that the link at `owner` claims because records of them are stored.
fn collect_kinds(records: &[DnsRecord], owner: &str) -> (r: Vec<RecordKind>)
    ensures
        r@ == kinds_at(records@, owner@),
{
    let mut out: Vec<RecordKind> = Vec::new();
    let mut i: usize = 0;
    assert(records@.subrange(0, 0) =~= Seq::empty());
    while i < records.len()
        invariant
            i <= records.len(),
            out@ == kinds_at(records@.subrange(0, i as int), owner@),
        decreases records.len() - i,
    {
        let name = normalize_name(records[i].name.as_str());
        let kind = records[i].record_type;
        proof {
            let p = records@.subrange(0, i + 1);
            assert(p.drop_last() =~= records@.subrange(0, i as int));
            assert(p.last() == records@[i as int]);
        }
        if eq_text(name.as_str(), owner) && kind != RecordKind::RRSIG && kind != RecordKind::NSEC
            && kind != RecordKind::ANAME {
            out.push(kind);
        }
        i = i + 1;
    }
    assert(records@.subrange(0, i as int) =~= records@);
    out
}

/// The names of a zone's links, in canonical order.
fn collect_owners(apex: &str, records: &[DnsRecord]) -> (r: Vec<String>)
    requires
        normalized(apex@) == apex@,
    ensures
        r@.len() > 0,
        canonically_ascending(strings(r@)),
        forall|n: Seq<char>| strings(r@).contains(n) == is_chained(apex@, records@, n),
{
    let mut owners: Vec<String> = Vec::new();
    insert_owner(&mut owners, apex.to_owned());
    assert forall|n: Seq<char>|
        strings(owners@).contains(n) == is_chained(apex@, records@.subrange(0, 0), n) by {
    }
    let mut i: usize = 0;
    while i < records.len()
        invariant
            i <= records.len(),
            owners@.len() > 0,
            canonically_ascending(strings(owners@)),
            all_normal(strings(owners@)),
            forall|n: Seq<char>|
                strings(owners@).contains(n) == is_chained(
                    apex@,
                    records@.subrange(0, i as int),
                    n,
                ),
        decreases records.len() - i,
    {
        let name = normalize_name(records[i].name.as_str());
        let kind = records[i].record_type;
        let ghost before = strings(owners@);
        let ghost p = records@.subrange(0, i as int);
        let ghost q = records@.subrange(0, i + 1);
        let ghost added = name@;
        let ghost counts = in_zone(added, apex@) && is_authoritative_data(kind);
        proof {
            law_normalizing_is_idempotent(records@[i as int].name@);
        }
        if name_in_zone(name.as_str(), apex) && kind != RecordKind::RRSIG && kind
            != RecordKind::NSEC {
            insert_owner(&mut owners, name);
        }
        proof {
            assert forall|n: Seq<char>| strings(owners@).contains(n) == is_chained(
                apex@,
                q,
                n,
            ) by {
                assert(strings(owners@).contains(n) == (before.contains(n) || (counts && n
                    == added)));
                if is_chained(apex@, p, n) && n != apex@ {
                    let k = choose|k: int|
                        {
                            &&& 0 <= k < p.len()
                            &&& normalized((#[trigger] p[k]).name@) == n
                            &&& in_zone(n, apex@)
                            &&& is_authoritative_data(p[k].record_type)
                        };
                    assert(q[k] == p[k]);
                }
                assert(q[i as int] == records@[i as int]);
                if is_chained(apex@, q, n) && n != apex@ {
                    let k = choose|k: int|
                        {
                            &&& 0 <= k < q.len()
                            &&& normalized((#[trigger] q[k]).name@) == n
                            &&& in_zone(n, apex@)
                            &&& is_authoritative_data(q[k].record_type)
                        };
                    if k < i {
                        assert(p[k] == q[k]);
                    }
                }
            }
        }
        i = i + 1;
    }
    assert(records@.subrange(0, i as int) =~= records@);
    owners
}

/// Builds the NSEC chain for a zone from the records it holds.
pub fn build_nsec_chain(zone: &str, records: &[DnsRecord]) -> (r: Vec<(String, Nsec)>)
    ensures
        r@.len() > 0,
        canonically_ascending(chain_owners(r@)),
        forall|n: Seq<char>|
            chain_owners(r@).contains(n) == is_chained(normalized(zone@), records@, n),
        r@[0].0@ == normalized(zone@),
        forall|i: int|
            0 <= i < r@.len() ==> {
                let owners = chain_owners(r@);
                &&& (#[trigger] r@[i]).1.next_owner@ == next_of(owners, i)
                &&& r@[i].1.types@ == kinds_at(records@, owners[i]).push(RecordKind::NSEC).push(
                    RecordKind::RRSIG,
                )
            },
{
    let apex = normalize_name(zone);
    proof {
        law_normalizing_is_idempotent(zone@);
    }
    let owners = collect_owners(apex.as_str(), records);
    let ghost names = strings(owners@);
    let mut chain: Vec<(String, Nsec)> = Vec::new();
    let mut i: usize = 0;
    while i < owners.len()
        invariant
            i <= owners.len(),
            names == strings(owners@),
            owners@.len() > 0,
            apex@ == normalized(zone@),
            canonically_ascending(names),
            forall|n: Seq<char>| names.contains(n) == is_chained(apex@, records@, n),
            chain.len() == i,
            forall|k: int|
                0 <= k < i ==> {
                    &&& (#[trigger] chain@[k]).0@ == names[k]
                    &&& chain@[k].1.next_owner@ == next_of(names, k)
                    &&& chain@[k].1.types@ == kinds_at(records@, names[k]).push(
                        RecordKind::NSEC,
                    ).push(RecordKind::RRSIG)
                },
        decreases owners.len() - i,
    {
        let next_owner = if i + 1 < owners.len() {
            owners[i + 1].clone()
        } else {
            owners[0].clone()
        };
        let mut types = collect_kinds(records, owners[i].as_str());
        types.push(RecordKind::NSEC);
        types.push(RecordKind::RRSIG);
        chain.push((owners[i].clone(), Nsec { next_owner, types }));
        i = i + 1;
    }
    proof {
        assert(chain_owners(chain@) =~= names);
        // Nothing in the zone sorts before its apex, so the apex comes first.
        let apex_name = normalized(zone@);
        assert(is_chained(apex_name, records@, apex_name));
        assert(names.contains(apex_name));
        let k = choose|k: int| 0 <= k < names.len() && names[k] == apex_name;
        let first = names[0];
        assert(names.contains(first));
        assert(is_chained(apex_name, records@, first));
        if first != apex_name {
            let m = choose|m: int|
                {
                    &&& 0 <= m < records@.len()
                    &&& normalized((#[trigger] records@[m]).name@) == first
                    &&& in_zone(first, apex_name)
                    &&& is_authoritative_data(records@[m].record_type)
                };
            law_normalizing_is_idempotent(records@[m].name@);
            law_apex_sorts_first(first, zone@);
            crate::names::law_normalizing_keeps_the_key(zone@);
            assert(canonical_lt(names[0], names[k]));
        }
    }
    chain
}

// ---------------------------------------------------------------------------
// Laws of the chain
// ---------------------------------------------------------------------------
/// The number of names in an ascending list that precede `name`.
proof fn lemma_split_point(owners: Seq<Seq<char>>, name: Seq<char>, n: int) -> (k: int)
    requires
        canonically_ascending(owners),
        0 <= n <= owners.len(),
    ensures
        0 <= k <= n,
        forall|i: int| 0 <= i < k ==> canonical_lt(#[trigger] owners[i], name),
        forall|i: int| k <= i < n ==> !canonical_lt(#[trigger] owners[i], name),
    decreases n,
{
    if n == 0 {
        0
    } else if canonical_lt(owners[n - 1], name) {
        assert forall|i: int| 0 <= i < n implies canonical_lt(#[trigger] owners[i], name) by {
            if i < n - 1 {
                law_canonical_order_is_transitive(owners[i], owners[n - 1], name);
            }
        }
        n
    } else {
        lemma_split_point(owners, name, n - 1)
    }
}

/// The chain leaves no gap and has no overlap: a name that is not in it, wherever it
/// sorts, is covered by exactly one link.
pub proof fn law_absent_name_covered_once(owners: Seq<Seq<char>>, name: Seq<char>)
    requires
        owners.len() > 0,
        canonically_ascending(owners),
        forall|i: int|
            0 <= i < owners.len() ==> canonical_key(#[trigger] owners[i]) != canonical_key(name),
    ensures
        exists|i: int|
            {
                &&& 0 <= i < owners.len()
                &&& covers(#[trigger] owners[i], next_of(owners, i), name)
                &&& forall|j: int|
                    0 <= j < owners.len() && covers(#[trigger] owners[j], next_of(owners, j), name)
                        ==> j == i
            },
{
    let n = owners.len() as int;
    let k = lemma_split_point(owners, name, n);
    assert forall|i: int| 0 <= i < n implies (canonical_lt(#[trigger] owners[i], name) == (i < k))
        && (canonical_lt(name, owners[i]) == (i >= k)) by {
        law_canonical_order_is_total(owners[i], name);
    }
    let at = if 0 < k < n {
        k - 1
    } else {
        n - 1
    };
    assert forall|j: int| 0 <= j < n implies (covers(#[trigger] owners[j], next_of(owners, j), name)
        == (j == at)) by {
        if j + 1 < n {
            assert(canonical_lt(owners[j], owners[j + 1]));
            assert(canonical_lt(name, owners[j + 1]) == (j + 1 >= k));
        } else if n == 1 {
            law_canonical_order_is_total(owners[0], owners[0]);
        } else {
            assert(canonical_lt(owners[0], owners[j]));
            law_canonical_order_is_total(owners[0], owners[j]);
            assert(canonical_lt(name, owners[0]) == (0 >= k));
        }
    }
    assert(covers(owners[at], next_of(owners, at), name));
}

/// A name that has a link of its own is covered by none, so the chain never denies a
/// name that exists.
pub proof fn law_present_name_never_covered(owners: Seq<Seq<char>>, name: Seq<char>, i: int, m: int)
    requires
        canonically_ascending(owners),
        0 <= i < owners.len(),
        0 <= m < owners.len(),
        canonical_key(owners[m]) == canonical_key(name),
    ensures
        !covers(owners[i], next_of(owners, i), name),
{
    let n = owners.len();
    law_canonical_order_is_total(owners[i], owners[m]);
    law_canonical_order_is_total(owners[m], owners[m]);
    if i + 1 < n {
        assert(canonical_lt(owners[i], owners[i + 1]));
        if m <= i {
            if m < i {
                assert(canonical_lt(owners[m], owners[i]));
            }
        } else if m > i + 1 {
            assert(canonical_lt(owners[i + 1], owners[m]));
            law_canonical_order_is_total(owners[i + 1], owners[m]);
        }
    } else {
        if 0 < i {
            assert(canonical_lt(owners[0], owners[i]));
            law_canonical_order_is_total(owners[0], owners[i]);
        }
        if m < i {
            assert(canonical_lt(owners[m], owners[i]));
        }
        if 0 < m {
            assert(canonical_lt(owners[0], owners[m]));
            law_canonical_order_is_total(owners[0], owners[m]);
        }
    }
}

proof fn lemma_kinds_at_claimed(records: Seq<DnsRecord>, name: Seq<char>, i: int)
    requires
        0 <= i < kinds_at(records, name).len(),
    ensures
        is_claimed(kinds_at(records, name)[i]),
        exists|k: int|
            {
                &&& 0 <= k < records.len()
                &&& normalized((#[trigger] records[k]).name@) == name
                &&& records[k].record_type == kinds_at(records, name)[i]
            },
    decreases records.len(),
{
    let d = records.drop_last();
    let before = kinds_at(d, name);
    if i < before.len() {
        lemma_kinds_at_claimed(d, name, i);
        let k = choose|k: int|
            {
                &&& 0 <= k < d.len()
                &&& normalized((#[trigger] d[k]).name@) == name
                &&& d[k].record_type == before[i]
            };
        assert(records[k] == d[k]);
    } else {
        assert(records[records.len() - 1] == records.last());
    }
}

/// The bit map of a link claims NSEC and RRSIG, and beyond those two only types of
/// which a record is stored at the name; it never claims ANAME.
pub proof fn law_bitmap_claims_what_is_stored(
    records: Seq<DnsRecord>,
    name: Seq<char>,
    kind: RecordKind,
)
    ensures
        ({
            let types = kinds_at(records, name).push(RecordKind::NSEC).push(RecordKind::RRSIG);
            &&& types.contains(RecordKind::NSEC)
            &&& types.contains(RecordKind::RRSIG)
            &&& !types.contains(RecordKind::ANAME)
            &&& types.contains(kind) && kind != RecordKind::NSEC && kind != RecordKind::RRSIG
                ==> exists|k: int|
                {
                    &&& 0 <= k < records.len()
                    &&& normalized((#[trigger] records[k]).name@) == name
                    &&& records[k].record_type == kind
                }
        }),
{
    let stored = kinds_at(records, name);
    let types = stored.push(RecordKind::NSEC).push(RecordKind::RRSIG);
    assert(types[stored.len() as int] == RecordKind::NSEC);
    assert(types[stored.len() as int + 1] == RecordKind::RRSIG);
    if types.contains(RecordKind::ANAME) {
        let i = choose|i: int| 0 <= i < types.len() && types[i] == RecordKind::ANAME;
        assert(i < stored.len());
        lemma_kinds_at_claimed(records, name, i);
    }
    if types.contains(kind) && kind != RecordKind::NSEC && kind != RecordKind::RRSIG {
        let i = choose|i: int| 0 <= i < types.len() && types[i] == kind;
        assert(i < stored.len());
        lemma_kinds_at_claimed(records, name, i);
    }
}

} // verus!
