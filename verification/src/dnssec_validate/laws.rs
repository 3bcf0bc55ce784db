//! What the judgements of this module mean, said of the records that they are made on.
use vstd::prelude::*;
use vstd::utf8::encode_utf8;

use crate::dnssec_validate::base32::base32_text;
use crate::dnssec_validate::denial::{
    closest, covering, delegation_bitmap, encloser, hash_covered, hash_text, matching, next_closer,
    no_ds, nodata, nsec_covered, nsec_index, nxdomain, owner_text, span_covers, text_lt,
    wildcard_expansion, wildcard_for, Denial, Denied, Nsec3Data, NsecData, TYPE_CNAME, TYPE_DS,
    TYPE_NS, TYPE_SOA,
};
use crate::names::{lemma_octets_trichotomy, octets_lt};
use crate::wire_name::{
    counted_labels, is_zone_of, name_lt, parent_of, same_name, star, trimmed_to, wildcard_at, Name,
};

verus! {

// ---------------------------------------------------------------------------
// Which record is meant
// ---------------------------------------------------------------------------
/// Whether an NSEC3 record is the one of a name: its owner is the hash of the name.
pub open spec fn is_of(record: (Name, Nsec3Data), name: Seq<Seq<u8>>) -> bool {
    owner_text(record.0@) is Some && hash_text(record.1, name) == Ok::<Seq<char>, Seq<char>>(
        owner_text(record.0@)->0,
    )
}

/// Whether the hash of a name lies strictly between the two hashes of an NSEC3 record. The
/// record with the last hash of a zone leads back to the first.
pub open spec fn jumps_over(record: (Name, Nsec3Data), name: Seq<Seq<u8>>) -> bool {
    let next = base32_text(record.1.next@);
    &&& owner_text(record.0@) matches Some(owner)
    &&& hash_text(record.1, name) matches Ok(hash)
    &&& octets_lt(encode_utf8(owner), encode_utf8(hash)) || octets_lt(
        encode_utf8(hash),
        encode_utf8(next),
    )
    &&& octets_lt(encode_utf8(owner), encode_utf8(next)) ==> octets_lt(
        encode_utf8(owner),
        encode_utf8(hash),
    ) && octets_lt(encode_utf8(hash), encode_utf8(next))
}

/// An NSEC3 record is found for a name exactly where some record is the name's own, as far
/// as the name can be hashed for each.
pub proof fn law_matching_finds_the_record(
    nsec3: Seq<(Name, Nsec3Data)>,
    name: Seq<Seq<u8>>,
    i: int,
)
    requires
        0 <= i <= nsec3.len(),
    ensures
        match matching(nsec3, name, i) {
            Ok(Some(k)) => {
                &&& i <= k < nsec3.len() && is_of(nsec3[k], name)
                &&& forall|j: int| i <= j < k ==> !is_of(#[trigger] nsec3[j], name)
            },
            Ok(None) => forall|j: int| i <= j < nsec3.len() ==> !is_of(#[trigger] nsec3[j], name),
            Err(_) => exists|j: int|
                i <= j < nsec3.len() && hash_text((#[trigger] nsec3[j]).1, name) is Err,
        },
    decreases nsec3.len() - i,
{
    if i < nsec3.len() {
        law_matching_finds_the_record(nsec3, name, i + 1);
        if hash_text(nsec3[i].1, name) is Err {
            assert(hash_text((nsec3[i]).1, name) is Err);
        }
    }
}

/// A covering NSEC3 record is found for a name exactly where the name's hash lies between
/// the two hashes of some record, as far as the name can be hashed for each.
pub proof fn law_covering_finds_the_span(
    nsec3: Seq<(Name, Nsec3Data)>,
    name: Seq<Seq<u8>>,
    i: int,
)
    requires
        0 <= i <= nsec3.len(),
    ensures
        match covering(nsec3, name, i) {
            Ok(Some(k)) => {
                &&& i <= k < nsec3.len() && jumps_over(nsec3[k], name)
                &&& forall|j: int| i <= j < k ==> !jumps_over(#[trigger] nsec3[j], name)
            },
            Ok(None) => forall|j: int|
                i <= j < nsec3.len() ==> !jumps_over(#[trigger] nsec3[j], name),
            Err(_) => exists|j: int|
                i <= j < nsec3.len() && hash_text((#[trigger] nsec3[j]).1, name) is Err,
        },
    decreases nsec3.len() - i,
{
    if i < nsec3.len() {
        law_covering_finds_the_span(nsec3, name, i + 1);
        if hash_text(nsec3[i].1, name) is Err {
            assert(hash_text((nsec3[i]).1, name) is Err);
        }
    }
}

/// The span between two hashes holds neither of them, and a span that does not wrap holds
/// nothing that lies outside of its ends.
pub proof fn law_hash_span_is_open(owner: Seq<char>, next: Seq<char>, hash: Seq<char>)
    ensures
        !hash_covered(owner, next, owner),
        !hash_covered(owner, next, next),
        text_lt(owner, next) && hash_covered(owner, next, hash) ==> text_lt(owner, hash) && text_lt(
            hash,
            next,
        ),
        hash_covered(owner, next, hash) ==> text_lt(owner, hash) || text_lt(hash, next),
        text_lt(owner, hash) && text_lt(hash, next) ==> hash_covered(owner, next, hash),
{
    let (o, n) = (encode_utf8(owner), encode_utf8(next));
    lemma_octets_trichotomy(o, o);
    lemma_octets_trichotomy(n, n);
    lemma_octets_trichotomy(o, n);
}

/// An NSEC record's span holds a name that sorts strictly between its two names, and no
/// name outside of them unless it leads back to the start of the zone.
pub proof fn law_name_span_is_open(
    owner: Seq<Seq<u8>>,
    next: Seq<Seq<u8>>,
    name: Seq<Seq<u8>>,
)
    ensures
        name_lt(owner, name) && name_lt(name, next) ==> span_covers(owner, next, name),
        name_lt(owner, next) && span_covers(owner, next, name) ==> name_lt(owner, name) && name_lt(
            name,
            next,
        ),
        span_covers(owner, next, name) ==> name_lt(owner, name) || name_lt(name, next),
        !name_lt(owner, next) && name_lt(owner, name) ==> span_covers(owner, next, name),
        !name_lt(owner, next) && name_lt(name, next) ==> span_covers(owner, next, name),
        same_name(owner, name) || same_name(next, name) ==> !span_covers(owner, next, name),
{
    crate::wire_name::law_names_are_ordered(owner, name);
    crate::wire_name::law_names_are_ordered(name, next);
    crate::wire_name::law_names_are_ordered(owner, next);
    assert(same_name(owner, name) ==> name_lt(owner, next) == name_lt(name, next));
    assert(same_name(next, name) ==> name_lt(owner, next) == name_lt(owner, name));
}

/// The name one label below an encloser is made of the last labels of the name that was
/// asked for, one more than the encloser has.
pub proof fn law_next_closer_is_one_label_longer(qname: Seq<Seq<u8>>, ce: Seq<Seq<u8>>)
    ensures
        next_closer(qname, ce) is Some <==> counted_labels(ce) < counted_labels(qname),
        next_closer(qname, ce) matches Some(next) ==> {
            &&& next.len() == counted_labels(ce) + 1
            &&& next.len() <= qname.len()
            &&& forall|i: int|
                0 <= i < next.len() ==> next[next.len() - 1 - i] == #[trigger] qname[qname.len() - 1
                    - i]
        },
{
}

/// The closest encloser is made of the last labels of the name, has an NSEC3 record of its
/// own, and no ancestor of the name between them has one.
#[verifier::spinoff_prover]
#[verifier::rlimit(40)]
pub proof fn law_closest_encloser_is_the_longest(
    nsec3: Seq<(Name, Nsec3Data)>,
    qname: Seq<Seq<u8>>,
    take: nat,
)
    requires
        take <= qname.len(),
    ensures
        match encloser(nsec3, qname, take) {
            Ok(Some((ce, next))) => {
                &&& ce.len() <= take
                &&& ce == qname.subrange(qname.len() - ce.len(), qname.len() as int)
                &&& exists|k: int| 0 <= k < nsec3.len() && is_of(#[trigger] nsec3[k], ce)
                &&& forall|n: int, k: int|
                    ce.len() < n <= take && 0 <= k < nsec3.len() ==> !#[trigger] is_of(
                        nsec3[k],
                        #[trigger] qname.subrange(qname.len() - n, qname.len() as int),
                    )
                &&& next == match next_closer(qname, ce) {
                    Some(n) => n,
                    None => ce,
                }
            },
            Ok(None) => forall|n: int, k: int|
                0 <= n <= take && 0 <= k < nsec3.len() ==> !#[trigger] is_of(
                    nsec3[k],
                    #[trigger] qname.subrange(qname.len() - n, qname.len() as int),
                ),
            Err(_) => true,
        },
    decreases take,
{
    let candidate = trimmed_to(qname, take as int);
    assert(candidate == qname.subrange(qname.len() - take, qname.len() as int));
    law_matching_finds_the_record(nsec3, candidate, 0);
    match matching(nsec3, candidate, 0) {
        Ok(Some(k)) => {
            assert(is_of(nsec3[k], candidate));
        },
        Ok(None) => {
            if take > 0 {
                law_closest_encloser_is_the_longest(nsec3, qname, (take - 1) as nat);
            }
        },
        Err(_) => {},
    }
}

// ---------------------------------------------------------------------------
// Opt-out
// ---------------------------------------------------------------------------
/// A delegation without a record of its own is insecure exactly where the NSEC3 record
/// that jumps over it allows unsigned delegations. Without that permission a missing DS was
/// taken away.
pub proof fn law_opt_out_decides_an_unmatched_delegation(
    child: Seq<Seq<u8>>,
    denial: Denial,
    ce: Seq<Seq<u8>>,
    next: Seq<Seq<u8>>,
    i: int,
)
    requires
        forall|k: int| 0 <= k < denial.nsec@.len() ==> !same_name((#[trigger] denial.nsec@[k]).0@, child),
        matching(denial.nsec3@, child, 0) == Ok::<Option<int>, Seq<char>>(None),
        closest(denial.nsec3@, child) == Ok::<Option<(Seq<Seq<u8>>, Seq<Seq<u8>>)>, Seq<char>>(
            Some((ce, next)),
        ),
        covering(denial.nsec3@, next, 0) == Ok::<Option<int>, Seq<char>>(Some(i)),
    ensures
        no_ds(child, denial) == Ok::<Denied, Seq<char>>(Denied::OptedOut)
            <==> denial.nsec3@[i].1.opt_out,
        !denial.nsec3@[i].1.opt_out ==> no_ds(child, denial) is Err,
{
    lemma_no_owner(denial.nsec@, child, 0);
    law_covering_finds_the_span(denial.nsec3@, next, 0);
}

proof fn lemma_no_owner(nsec: Seq<(Name, NsecData)>, name: Seq<Seq<u8>>, i: int)
    requires
        0 <= i <= nsec.len(),
    ensures
        i <= nsec_index(nsec, name, i) <= nsec.len(),
        nsec_index(nsec, name, i) == nsec.len() <==> forall|k: int|
            i <= k < nsec.len() ==> !same_name((#[trigger] nsec[k]).0@, name),
        nsec_index(nsec, name, i) < nsec.len() ==> same_name(
            nsec[nsec_index(nsec, name, i)].0@,
            name,
        ),
    decreases nsec.len() - i,
{
    if i < nsec.len() {
        lemma_no_owner(nsec, name, i + 1);
    }
}

/// Whether a denial holds an NSEC3 record that jumps over a name and allows unsigned
/// delegations there, or forbids them.
pub open spec fn opts_out(denial: Denial, name: Seq<Seq<u8>>, allowed: bool) -> bool {
    exists|i: int|
        0 <= i < denial.nsec3@.len() && jumps_over(#[trigger] denial.nsec3@[i], name)
            && denial.nsec3@[i].1.opt_out == allowed
}

/// Whatever is said to be opted out lies under an NSEC3 record that jumps over an ancestor
/// of the name, or the name, and has the flag; and a name said not to exist by NSEC3 records
/// lies under one that has it not.
#[verifier::spinoff_prover]
#[verifier::rlimit(40)]
pub proof fn law_opted_out_needs_the_flag(
    qname: Seq<Seq<u8>>,
    qtype: u16,
    zone: Seq<Seq<u8>>,
    denial: Denial,
)
    ensures
        no_ds(qname, denial) == Ok::<Denied, Seq<char>>(Denied::OptedOut) ==> exists|n: int|
            0 <= n <= qname.len() && opts_out(denial, #[trigger] trimmed_to(qname, n), true),
        nodata(qname, qtype, zone, denial) == Ok::<Denied, Seq<char>>(Denied::OptedOut)
            ==> exists|n: int|
            0 <= n <= qname.len() && opts_out(denial, #[trigger] trimmed_to(qname, n), true),
        nxdomain(qname, zone, denial) == Ok::<Denied, Seq<char>>(Denied::OptedOut)
            ==> exists|n: int|
            0 <= n <= qname.len() && opts_out(denial, #[trigger] trimmed_to(qname, n), true),
        wildcard_expansion(qname, zone, denial) == Ok::<Denied, Seq<char>>(Denied::OptedOut)
            ==> exists|n: int|
            0 <= n <= qname.len() && opts_out(denial, #[trigger] trimmed_to(qname, n), true),
        denial.nsec@.len() == 0 && nxdomain(qname, zone, denial) == Ok::<Denied, Seq<char>>(
            Denied::Proven,
        ) ==> exists|n: int|
            0 <= n <= qname.len() && opts_out(denial, #[trigger] trimmed_to(qname, n), false),
        denial.nsec@.len() == 0 && wildcard_expansion(qname, zone, denial) == Ok::<
            Denied,
            Seq<char>,
        >(Denied::Proven) ==> exists|n: int|
            0 <= n <= qname.len() && opts_out(denial, #[trigger] trimmed_to(qname, n), false),
{
    law_closest_encloser_is_the_longest(denial.nsec3@, qname, counted_labels(qname));
    match closest(denial.nsec3@, qname) {
        Ok(Some((ce, next))) => {
            law_covering_finds_the_span(denial.nsec3@, next, 0);
            assert(next == trimmed_to(qname, next.len() as int));
        },
        _ => {},
    }
    match next_closer(qname, zone) {
        Some(next) => {
            law_covering_finds_the_span(denial.nsec3@, next, 0);
            assert(next == trimmed_to(qname, next.len() as int));
        },
        None => {},
    }
}

// ---------------------------------------------------------------------------
// What proves an absence
// ---------------------------------------------------------------------------
/// The types at a delegation prove that it has no DS exactly where they claim NS and
/// neither DS nor SOA.
pub proof fn law_delegation_bitmap(record: Seq<char>, child: Seq<Seq<u8>>, types: Seq<u16>)
    ensures
        delegation_bitmap(record, child, types) is Ok <==> types.contains(TYPE_NS)
            && !types.contains(TYPE_DS) && !types.contains(TYPE_SOA),
        delegation_bitmap(record, child, types) is Ok ==> delegation_bitmap(record, child, types)
            == Ok::<Denied, Seq<char>>(Denied::Proven),
        TYPE_NS == 2 && TYPE_DS == 43 && TYPE_SOA == 6 && TYPE_CNAME == 5,
{
}

/// An NSEC record at the delegation decides alone: the delegation has no DS exactly where
/// the record claims NS and neither DS nor SOA.
pub proof fn law_nsec_at_the_delegation_decides(child: Seq<Seq<u8>>, denial: Denial, i: int)
    requires
        0 <= i < denial.nsec@.len(),
        same_name(denial.nsec@[i].0@, child),
        forall|k: int| 0 <= k < i ==> !same_name((#[trigger] denial.nsec@[k]).0@, child),
    ensures
        ({
            let types = denial.nsec@[i].1.types@;
            &&& no_ds(child, denial) == Ok::<Denied, Seq<char>>(Denied::Proven) <==> types.contains(
                TYPE_NS,
            ) && !types.contains(TYPE_DS) && !types.contains(TYPE_SOA)
            &&& no_ds(child, denial) != Ok::<Denied, Seq<char>>(Denied::OptedOut)
        }),
{
    lemma_first_owner(denial.nsec@, child, 0, i);
}

proof fn lemma_first_owner(nsec: Seq<(Name, NsecData)>, name: Seq<Seq<u8>>, i: int, k: int)
    requires
        0 <= i <= k < nsec.len(),
        same_name(nsec[k].0@, name),
        forall|j: int| i <= j < k ==> !same_name((#[trigger] nsec[j]).0@, name),
    ensures
        nsec_index(nsec, name, i) == k,
    decreases k - i,
{
    if i < k {
        assert(!same_name(nsec[i].0@, name));
        lemma_first_owner(nsec, name, i + 1, k);
    }
}

/// The NSEC3 record of a delegation decides alone, as its NSEC record would.
pub proof fn law_nsec3_of_the_delegation_decides(child: Seq<Seq<u8>>, denial: Denial, i: int)
    requires
        forall|k: int| 0 <= k < denial.nsec@.len() ==> !same_name((#[trigger] denial.nsec@[k]).0@, child),
        matching(denial.nsec3@, child, 0) == Ok::<Option<int>, Seq<char>>(Some(i)),
    ensures
        ({
            let types = denial.nsec3@[i].1.types@;
            &&& no_ds(child, denial) == Ok::<Denied, Seq<char>>(Denied::Proven) <==> types.contains(
                TYPE_NS,
            ) && !types.contains(TYPE_DS) && !types.contains(TYPE_SOA)
            &&& no_ds(child, denial) != Ok::<Denied, Seq<char>>(Denied::OptedOut)
        }),
{
    lemma_no_owner(denial.nsec@, child, 0);
    law_matching_finds_the_record(denial.nsec3@, child, 0);
}

/// NSEC records prove that a name does not exist exactly where none is at the name, one
/// jumps over the name, and one jumps over the wildcard beside it: `*` in front of the name
/// without its first label, or in front of the zone where that is above the zone.
pub proof fn law_nxdomain_by_nsec(qname: Seq<Seq<u8>>, zone: Seq<Seq<u8>>, denial: Denial)
    requires
        denial.nsec@.len() > 0,
    ensures
        nxdomain(qname, zone, denial) is Ok <==> {
            &&& forall|k: int|
                0 <= k < denial.nsec@.len() ==> !same_name((#[trigger] denial.nsec@[k]).0@, qname)
            &&& nsec_covered(denial.nsec@, qname)
            &&& nsec_covered(denial.nsec@, wildcard_for(qname, zone))
        },
        nxdomain(qname, zone, denial) is Ok ==> nxdomain(qname, zone, denial) == Ok::<
            Denied,
            Seq<char>,
        >(Denied::Proven),
{
    lemma_no_owner(denial.nsec@, qname, 0);
}

/// A wildcard stands directly beside the name that was asked for, and never above the apex
/// of the zone.
pub proof fn law_wildcard_is_beside_the_name(qname: Seq<Seq<u8>>, zone: Seq<Seq<u8>>)
    requires
        crate::wire_name::wire_len(zone) + 2 <= 255,
        qname.len() > 0 ==> crate::wire_name::wire_len(qname.drop_first()) + 2 <= 255,
    ensures
        ({
            let w = wildcard_for(qname, zone);
            &&& w.len() > 0 && w[0] == seq![0x2au8]
            &&& qname.len() > 0 && is_zone_of(zone, qname.drop_first()) ==> w.drop_first()
                == qname.drop_first()
            &&& qname.len() > 0 && !is_zone_of(zone, qname.drop_first()) ==> w.drop_first() == zone
            &&& is_zone_of(zone, w.drop_first())
        }),
{
    let w = wildcard_for(qname, zone);
    if is_zone_of(zone, parent_of(qname)) {
        assert(w == seq![star()] + parent_of(qname));
        assert(w.drop_first() =~= parent_of(qname));
    } else {
        assert(w == seq![star()] + zone);
        assert(w.drop_first() =~= zone);
        assert(crate::wire_name::name_key(zone).subrange(0, zone.len() as int)
            =~= crate::wire_name::name_key(zone));
    }
}

/// NSEC3 records prove that a name does not exist exactly where one jumps over the name
/// below its closest encloser and one jumps over the wildcard at the encloser; how much that
/// proves is the first one's flag.
#[verifier::spinoff_prover]
#[verifier::rlimit(40)]
pub proof fn law_nxdomain_by_nsec3(
    qname: Seq<Seq<u8>>,
    zone: Seq<Seq<u8>>,
    denial: Denial,
    ce: Seq<Seq<u8>>,
    next: Seq<Seq<u8>>,
)
    requires
        denial.nsec@.len() == 0,
        closest(denial.nsec3@, qname) == Ok::<Option<(Seq<Seq<u8>>, Seq<Seq<u8>>)>, Seq<char>>(
            Some((ce, next)),
        ),
        covering(denial.nsec3@, next, 0) is Ok,
        covering(denial.nsec3@, wildcard_at(ce), 0) is Ok,
    ensures
        nxdomain(qname, zone, denial) is Ok <==> {
            &&& exists|k: int|
                0 <= k < denial.nsec3@.len() && jumps_over(#[trigger] denial.nsec3@[k], next)
            &&& exists|k: int|
                0 <= k < denial.nsec3@.len() && jumps_over(
                    #[trigger] denial.nsec3@[k],
                    wildcard_at(ce),
                )
        },
        covering(denial.nsec3@, next, 0) matches Ok(Some(i)) ==> nxdomain(qname, zone, denial) is Ok
            ==> (nxdomain(qname, zone, denial) == Ok::<Denied, Seq<char>>(Denied::OptedOut)
            <==> denial.nsec3@[i].1.opt_out),
{
    law_covering_finds_the_span(denial.nsec3@, next, 0);
    law_covering_finds_the_span(denial.nsec3@, wildcard_at(ce), 0);
    law_matching_finds_the_record(denial.nsec3@, qname, 0);
    assert(denial.nsec3@.len() > 0) by {
        law_closest_encloser_is_the_longest(denial.nsec3@, qname, counted_labels(qname));
    }
}

/// An NSEC record at a name decides whether the name has records of a type: it has none
/// exactly where the record claims neither that type nor a CNAME.
pub proof fn law_nsec_at_the_name_decides(
    qname: Seq<Seq<u8>>,
    qtype: u16,
    zone: Seq<Seq<u8>>,
    denial: Denial,
    i: int,
)
    requires
        0 <= i < denial.nsec@.len(),
        same_name(denial.nsec@[i].0@, qname),
        forall|k: int| 0 <= k < i ==> !same_name((#[trigger] denial.nsec@[k]).0@, qname),
    ensures
        nodata(qname, qtype, zone, denial) == Ok::<Denied, Seq<char>>(Denied::Proven)
            <==> !denial.nsec@[i].1.types@.contains(qtype) && !denial.nsec@[i].1.types@.contains(5),
        nodata(qname, qtype, zone, denial) != Ok::<Denied, Seq<char>>(Denied::OptedOut),
        nxdomain(qname, zone, denial) is Err,
{
    lemma_first_owner(denial.nsec@, qname, 0, i);
}

/// Without a record at the name, NSEC records prove that it has no records of a type exactly
/// where the wildcard beside it has a record that does not claim the type, and the name
/// itself is jumped over.
pub proof fn law_nsec_at_the_wildcard_decides(
    qname: Seq<Seq<u8>>,
    qtype: u16,
    zone: Seq<Seq<u8>>,
    denial: Denial,
)
    requires
        denial.nsec@.len() > 0,
        forall|k: int| 0 <= k < denial.nsec@.len() ==> !same_name((#[trigger] denial.nsec@[k]).0@, qname),
    ensures
        nodata(qname, qtype, zone, denial) == Ok::<Denied, Seq<char>>(Denied::Proven) <==> {
            let at = nsec_index(denial.nsec@, wildcard_for(qname, zone), 0);
            &&& 0 <= at < denial.nsec@.len()
            &&& same_name(denial.nsec@[at].0@, wildcard_for(qname, zone))
            &&& !denial.nsec@[at].1.types@.contains(qtype)
            &&& nsec_covered(denial.nsec@, qname)
        },
        nodata(qname, qtype, zone, denial) != Ok::<Denied, Seq<char>>(Denied::OptedOut),
{
    lemma_no_owner(denial.nsec@, qname, 0);
    lemma_no_owner(denial.nsec@, wildcard_for(qname, zone), 0);
}

/// The NSEC3 record of a name decides whether the name has records of a type, as its NSEC
/// record would.
pub proof fn law_nsec3_of_the_name_decides(
    qname: Seq<Seq<u8>>,
    qtype: u16,
    zone: Seq<Seq<u8>>,
    denial: Denial,
    i: int,
)
    requires
        denial.nsec@.len() == 0,
        matching(denial.nsec3@, qname, 0) == Ok::<Option<int>, Seq<char>>(Some(i)),
    ensures
        nodata(qname, qtype, zone, denial) == Ok::<Denied, Seq<char>>(Denied::Proven)
            <==> !denial.nsec3@[i].1.types@.contains(qtype) && !denial.nsec3@[i].1.types@.contains(
            5,
        ),
        nodata(qname, qtype, zone, denial) != Ok::<Denied, Seq<char>>(Denied::OptedOut),
{
    law_matching_finds_the_record(denial.nsec3@, qname, 0);
}

/// Without an NSEC3 record of the name, that of the wildcard at its closest encloser decides;
/// without that one too, nothing is proven, but the span below the encloser may be opted out.
#[verifier::spinoff_prover]
#[verifier::rlimit(40)]
pub proof fn law_nsec3_of_the_wildcard_decides(
    qname: Seq<Seq<u8>>,
    qtype: u16,
    zone: Seq<Seq<u8>>,
    denial: Denial,
    ce: Seq<Seq<u8>>,
    next: Seq<Seq<u8>>,
)
    requires
        denial.nsec@.len() == 0,
        matching(denial.nsec3@, qname, 0) == Ok::<Option<int>, Seq<char>>(None),
        closest(denial.nsec3@, qname) == Ok::<Option<(Seq<Seq<u8>>, Seq<Seq<u8>>)>, Seq<char>>(
            Some((ce, next)),
        ),
    ensures
        match matching(denial.nsec3@, wildcard_at(ce), 0) {
            Ok(Some(i)) => {
                &&& is_of(denial.nsec3@[i], wildcard_at(ce))
                &&& nodata(qname, qtype, zone, denial) == Ok::<Denied, Seq<char>>(Denied::Proven)
                    <==> !denial.nsec3@[i].1.types@.contains(qtype)
                &&& nodata(qname, qtype, zone, denial) != Ok::<Denied, Seq<char>>(Denied::OptedOut)
            },
            Ok(None) => {
                &&& nodata(qname, qtype, zone, denial) != Ok::<Denied, Seq<char>>(Denied::Proven)
                &&& covering(denial.nsec3@, next, 0) matches Ok(Some(i)) ==> (nodata(
                    qname,
                    qtype,
                    zone,
                    denial,
                ) == Ok::<Denied, Seq<char>>(Denied::OptedOut) <==> denial.nsec3@[i].1.opt_out)
            },
            Err(_) => nodata(qname, qtype, zone, denial) is Err,
        },
{
    law_matching_finds_the_record(denial.nsec3@, wildcard_at(ce), 0);
    law_closest_encloser_is_the_longest(denial.nsec3@, qname, counted_labels(qname));
    law_covering_finds_the_span(denial.nsec3@, next, 0);
}

/// An answer from a wildcard is believed exactly where a record jumps over the name that was
/// asked for, or over the name one label below the wildcard's parent where the names are
/// hashed.
#[verifier::spinoff_prover]
#[verifier::rlimit(40)]
pub proof fn law_wildcard_answers(qname: Seq<Seq<u8>>, ce: Seq<Seq<u8>>, denial: Denial)
    ensures
        denial.nsec@.len() > 0 ==> (wildcard_expansion(qname, ce, denial) == Ok::<
            Denied,
            Seq<char>,
        >(Denied::Proven) <==> exists|k: int|
            0 <= k < denial.nsec@.len() && span_covers(
                (#[trigger] denial.nsec@[k]).0@,
                denial.nsec@[k].1.next@,
                qname,
            )),
        denial.nsec@.len() > 0 ==> wildcard_expansion(qname, ce, denial) != Ok::<
            Denied,
            Seq<char>,
        >(Denied::OptedOut),
        denial.nsec@.len() == 0 && denial.nsec3@.len() > 0 && counted_labels(ce) < counted_labels(
            qname,
        ) ==> {
            let next = qname.subrange(
                qname.len() - counted_labels(ce) as int - 1,
                qname.len() as int,
            );
            covering(denial.nsec3@, next, 0) matches Ok(Some(i)) ==> {
                &&& jumps_over(denial.nsec3@[i], next)
                &&& wildcard_expansion(qname, ce, denial) == Ok::<Denied, Seq<char>>(
                    if denial.nsec3@[i].1.opt_out {
                        Denied::OptedOut
                    } else {
                        Denied::Proven
                    },
                )
            }
        },
{
    if counted_labels(ce) < counted_labels(qname) {
        let next = qname.subrange(qname.len() - counted_labels(ce) as int - 1, qname.len() as int);
        law_covering_finds_the_span(denial.nsec3@, next, 0);
        assert(next_closer(qname, ce) == Some(next));
    }
}

/// A record that asks for more than 100 iterations, or another hash than SHA-1, hashes
/// nothing; any other hashes as its salt, the name and the count say.
pub proof fn law_hashing_is_bounded(nsec3: Nsec3Data, name: Seq<Seq<u8>>)
    ensures
        nsec3.iterations > 100 || nsec3.hash_algorithm != 1 ==> hash_text(nsec3, name) is Err,
        nsec3.iterations <= 100 && nsec3.hash_algorithm == 1 ==> match crate::dnssec_validate::denial::nsec3_digest(
            nsec3.salt@,
            name,
            nsec3.iterations,
        ) {
            Ok(d) => hash_text(nsec3, name) == Ok::<Seq<char>, Seq<char>>(base32_text(d)),
            Err(_) => hash_text(nsec3, name) is Err,
        },
{
}

} // verus!
