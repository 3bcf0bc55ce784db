//! What verifying signatures comes to, said of the records of a section.
use vstd::prelude::*;

use crate::codec::read16;
use crate::dns_server::record_laws::number_at;
use crate::dnssec_validate::anchors::{
    anchor_keys, anchor_of, anchors_of, fixed_key_len, run_together, verifiable,
};
use crate::dnssec_validate::records::{
    at, ds_of, ds_views, is_soa_below, is_zone_key, nsec3_of, nsec_of, rrset_index, rrsets_of,
    rrsets_with, signs_below, sigs_of, zone_keys_of, DataView, DnskeyView, RecordView, RrsetView,
    SignatureView, TYPE_DNSKEY, TYPE_RRSIG,
};
use crate::dnssec_validate::verdict::{serial_before, withheld, Verdict};
use crate::dnssec_validate::verify::{
    anchored_keys, covering_signature, digest_matches, has_covering, key_rdata, no_match,
    record_octets, signature_failure, signature_rdata, tag_of, try_keys, try_signatures,
    validated_keys, verified_one, verified_rrset, vouches, KeySource,
};
use crate::text::{parse_unsigned, trimmed, words};
use crate::wire_name::{counted_labels, is_zone_of, name_key, name_octets, same_name};

verus! {

// ---------------------------------------------------------------------------
// What is handed to a verifier
// ---------------------------------------------------------------------------
proof fn lemma_be16_at(front: Seq<u8>, x: u16, behind: Seq<u8>)
    ensures
        read16(front + crate::codec::be16(x) + behind, front.len() as int) == x,
{
    let b = front + crate::codec::be16(x) + behind;
    let at = front.len() as int;
    assert(b[at] == crate::codec::be16(x)[0] && b[at + 1] == crate::codec::be16(x)[1]);
}

proof fn lemma_be32_at(front: Seq<u8>, x: u32, behind: Seq<u8>)
    ensures
        number_at(front + crate::codec::be32(x) + behind, front.len() as int) == x,
{
    let b = front + crate::codec::be32(x) + behind;
    let at = front.len() as int;
    crate::laws::law_be32_keeps_the_number(x);
    assert(b[at] == crate::codec::be32(x)[0] && b[at + 1] == crate::codec::be32(x)[1] && b[at + 2]
        == crate::codec::be32(x)[2] && b[at + 3] == crate::codec::be32(x)[3]);
}

/// Key data is the flags, the protocol number 3, the algorithm and the key.
pub proof fn law_key_fields_stand_in_order(key: DnskeyView)
    ensures
        ({
            let b = key_rdata(key);
            &&& b.len() == 4 + key.public_key.len()
            &&& read16(b, 0) == key.flags && b[2] == 3 && b[3] == key.algorithm
            &&& b.subrange(4, b.len() as int) == key.public_key
        }),
{
    let b = key_rdata(key);
    lemma_be16_at(Seq::empty(), key.flags, seq![3u8, key.algorithm] + key.public_key);
    assert(b =~= Seq::empty() + crate::codec::be16(key.flags) + (seq![3u8, key.algorithm]
        + key.public_key));
    assert(b.subrange(4, b.len() as int) =~= key.public_key);
}

/// Signature data is the type covered, the algorithm, the labels, the original TTL, the
/// expiration, the inception, the key tag, the signer and the signature, in this order.
#[verifier::spinoff_prover]
#[verifier::rlimit(40)]
pub proof fn law_signature_fields_stand_in_order(sig: SignatureView)
    ensures
        ({
            let b = signature_rdata(sig);
            let n = name_octets(sig.signer).len() as int;
            &&& b.len() == 18 + n + sig.signature.len()
            &&& read16(b, 0) == sig.type_covered && b[2] == sig.algorithm && b[3] == sig.labels
            &&& number_at(b, 4) == sig.original_ttl
            &&& number_at(b, 8) == sig.expiration
            &&& number_at(b, 12) == sig.inception
            &&& read16(b, 16) == sig.key_tag
            &&& b.subrange(18, 18 + n) == name_octets(sig.signer)
            &&& b.subrange(18 + n, b.len() as int) == sig.signature
        }),
{
    let b = signature_rdata(sig);
    let n = name_octets(sig.signer).len() as int;
    let none = Seq::<u8>::empty();
    let p0 = crate::codec::be16(sig.type_covered);
    let p1 = seq![sig.algorithm, sig.labels];
    let p2 = crate::codec::be32(sig.original_ttl);
    let p3 = crate::codec::be32(sig.expiration);
    let p4 = crate::codec::be32(sig.inception);
    let p5 = crate::codec::be16(sig.key_tag);
    let tail = name_octets(sig.signer) + sig.signature;
    assert(b =~= none + p0 + (p1 + p2 + p3 + p4 + p5 + tail));
    lemma_be16_at(none, sig.type_covered, p1 + p2 + p3 + p4 + p5 + tail);
    assert(b =~= p0 + p1 + p2 + (p3 + p4 + p5 + tail));
    lemma_be32_at(p0 + p1, sig.original_ttl, p3 + p4 + p5 + tail);
    assert(b =~= p0 + p1 + p2 + p3 + (p4 + p5 + tail));
    lemma_be32_at(p0 + p1 + p2, sig.expiration, p4 + p5 + tail);
    assert(b =~= p0 + p1 + p2 + p3 + p4 + (p5 + tail));
    lemma_be32_at(p0 + p1 + p2 + p3, sig.inception, p5 + tail);
    assert(b =~= p0 + p1 + p2 + p3 + p4 + p5 + tail);
    lemma_be16_at(p0 + p1 + p2 + p3 + p4, sig.key_tag, tail);
    assert(b[2] == p1[0] && b[3] == p1[1]);
    assert(b.subrange(18, 18 + n) =~= name_octets(sig.signer));
    assert(b.subrange(18 + n, b.len() as int) =~= sig.signature);
}

/// A record is its owner, its type, the class IN, a TTL of 0, the length of its data and its
/// data.
#[verifier::spinoff_prover]
#[verifier::rlimit(40)]
pub proof fn law_record_fields_stand_in_order(owner: Seq<u8>, rtype: u16, rdata: Seq<u8>)
    requires
        rdata.len() <= 0xffff,
    ensures
        ({
            let b = record_octets(owner, rtype, rdata);
            let n = owner.len() as int;
            &&& b.len() == n + 10 + rdata.len()
            &&& b.subrange(0, n) == owner
            &&& read16(b, n) == rtype
            &&& read16(b, n + 2) == 1
            &&& number_at(b, n + 4) == 0
            &&& read16(b, n + 8) == rdata.len()
            &&& b.subrange(n + 10, b.len() as int) == rdata
        }),
{
    let b = record_octets(owner, rtype, rdata);
    let n = owner.len() as int;
    let p0 = crate::codec::be16(rtype);
    let p1 = crate::codec::be16(1);
    let p2 = crate::codec::be32(0);
    let p3 = crate::codec::be16(rdata.len() as u16);
    assert(b =~= owner + p0 + (p1 + p2 + p3 + rdata));
    lemma_be16_at(owner, rtype, p1 + p2 + p3 + rdata);
    assert(b =~= owner + p0 + p1 + (p2 + p3 + rdata));
    lemma_be16_at(owner + p0, 1, p2 + p3 + rdata);
    assert(b =~= owner + p0 + p1 + p2 + (p3 + rdata));
    lemma_be32_at(owner + p0 + p1, 0, p3 + rdata);
    lemma_be16_at(owner + p0 + p1 + p2, rdata.len() as u16, rdata);
    assert(b.subrange(0, n) =~= owner);
    assert(b.subrange(n + 10, b.len() as int) =~= rdata);
}

// ---------------------------------------------------------------------------
// What verifies
// ---------------------------------------------------------------------------
/// Whether a key of a set has a signature's algorithm and tag and accepts it.
pub open spec fn some_key_accepts(
    keys: Seq<DnskeyView>,
    owner: Seq<Seq<u8>>,
    sig: SignatureView,
    rrset: Seq<RecordView>,
) -> bool {
    exists|k: int|
        0 <= k < keys.len() && (#[trigger] keys[k]).algorithm == sig.algorithm && tag_of(keys[k])
            == Some(sig.key_tag) && signature_failure(keys[k], owner, sig, rrset) is None
}

proof fn lemma_some_key(
    keys: Seq<DnskeyView>,
    owner: Seq<Seq<u8>>,
    sig: SignatureView,
    rrset: Seq<RecordView>,
    i: int,
    tried: bool,
    last: Seq<char>,
)
    requires
        0 <= i <= keys.len(),
    ensures
        try_keys(keys, owner, sig, rrset, i, tried, last) is Ok <==> exists|k: int|
            i <= k < keys.len() && (#[trigger] keys[k]).algorithm == sig.algorithm && tag_of(
                keys[k],
            ) == Some(sig.key_tag) && signature_failure(keys[k], owner, sig, rrset) is None,
    decreases keys.len() - i,
{
    if i < keys.len() {
        let e = signature_failure(keys[i], owner, sig, rrset);
        lemma_some_key(keys, owner, sig, rrset, i + 1, tried, last);
        lemma_some_key(
            keys,
            owner,
            sig,
            rrset,
            i + 1,
            tried,
            crate::dnssec_validate::verify::no_tag(),
        );
        if e is Some {
            lemma_some_key(
                keys,
                owner,
                sig,
                rrset,
                i + 1,
                true,
                "signature did not verify: "@ + e->0,
            );
        }
    }
}

/// A signature verifies exactly where the zone made it, now is neither before its inception
/// nor after its expiration, it covers no more labels than the owner has, its algorithm is
/// one that can be verified, and some key of the set accepts it. What it then says of a
/// wildcard is the last labels of the owner, as many as it covers, where those are fewer.
pub proof fn law_when_a_signature_verifies(
    owner: Seq<Seq<u8>>,
    rtype: u16,
    rrset: Seq<RecordView>,
    sig: SignatureView,
    keys: Seq<DnskeyView>,
    zone: Seq<Seq<u8>>,
    now: u32,
)
    ensures
        ({
            let r = verified_one(owner, rtype, rrset, sig, keys, zone, now);
            &&& r is Ok <==> {
                &&& same_name(sig.signer, zone)
                &&& !serial_before(now, sig.inception)
                &&& !serial_before(sig.expiration, now)
                &&& sig.labels <= counted_labels(owner)
                &&& sig.algorithm == 5 || sig.algorithm == 7 || sig.algorithm == 8 || sig.algorithm
                    == 10 || sig.algorithm == 13 || sig.algorithm == 14 || sig.algorithm == 15
                &&& some_key_accepts(keys, owner, sig, rrset)
            }
            &&& r matches Ok(None) ==> sig.labels == counted_labels(owner)
            &&& r matches Ok(Some(ce)) ==> {
                &&& sig.labels < counted_labels(owner)
                &&& ce.len() == sig.labels
                &&& ce == owner.subrange(owner.len() - sig.labels, owner.len() as int)
            }
        }),
{
    lemma_some_key(keys, owner, sig, rrset, 0, false, no_match());
}

/// Inside its window a signature is neither too young nor too old; outside, it is one of them.
pub proof fn law_validity_window(inception: u32, expiration: u32, now: u32)
    ensures
        inception <= now && now - inception < 0x8000_0000 ==> !serial_before(now, inception),
        now <= expiration && expiration - now < 0x8000_0000 ==> !serial_before(expiration, now),
        now < inception && inception - now < 0x8000_0000 ==> serial_before(now, inception),
        expiration < now && now - expiration < 0x8000_0000 ==> serial_before(expiration, now),
        !serial_before(now, now),
{
}

/// Whether a record is a signature that proves an RRset.
pub open spec fn proves(
    r: RecordView,
    owner: Seq<Seq<u8>>,
    rtype: u16,
    rrset: Seq<RecordView>,
    keys: Seq<DnskeyView>,
    zone: Seq<Seq<u8>>,
    now: u32,
) -> bool {
    &&& r.data matches DataView::Rrsig(s)
    &&& same_name(r.name, owner) && s.type_covered == rtype
    &&& same_name(s.signer, zone)
    &&& !serial_before(now, s.inception)
    &&& !serial_before(s.expiration, now)
    &&& s.labels <= counted_labels(owner)
    &&& s.algorithm == 5 || s.algorithm == 7 || s.algorithm == 8 || s.algorithm == 10 || s.algorithm
        == 13 || s.algorithm == 14 || s.algorithm == 15
    &&& some_key_accepts(keys, owner, s, rrset)
}

proof fn lemma_some_signature(
    owner: Seq<Seq<u8>>,
    rtype: u16,
    rrset: Seq<RecordView>,
    sigs: Seq<RecordView>,
    keys: Seq<DnskeyView>,
    zone: Seq<Seq<u8>>,
    now: u32,
    i: int,
    last: Seq<char>,
)
    requires
        0 <= i <= sigs.len(),
    ensures
        try_signatures(owner, rtype, rrset, sigs, keys, zone, now, i, last) is Ok <==> exists|
            k: int,
        |
            i <= k < sigs.len() && proves(#[trigger] sigs[k], owner, rtype, rrset, keys, zone, now),
    decreases sigs.len() - i,
{
    if i < sigs.len() {
        match covering_signature(sigs[i], owner, rtype) {
            None => {
                lemma_some_signature(owner, rtype, rrset, sigs, keys, zone, now, i + 1, last);
            },
            Some(s) => {
                law_when_a_signature_verifies(owner, rtype, rrset, s, keys, zone, now);
                match verified_one(owner, rtype, rrset, s, keys, zone, now) {
                    Ok(_) => {
                        assert(proves(sigs[i], owner, rtype, rrset, keys, zone, now));
                    },
                    Err(e) => {
                        lemma_some_signature(owner, rtype, rrset, sigs, keys, zone, now, i + 1, e);
                    },
                }
            },
        }
    }
}

/// An RRset verifies exactly where there is something in it and some signature of the section
/// proves it: bad signatures beside a good one do no harm.
pub proof fn law_one_proof_is_enough(
    owner: Seq<Seq<u8>>,
    rtype: u16,
    rrset: Seq<RecordView>,
    sigs: Seq<RecordView>,
    keys: Seq<DnskeyView>,
    zone: Seq<Seq<u8>>,
    now: u32,
)
    ensures
        verified_rrset(owner, rtype, rrset, sigs, keys, zone, now) is Ok <==> rrset.len() > 0
            && exists|k: int|
            0 <= k < sigs.len() && proves(#[trigger] sigs[k], owner, rtype, rrset, keys, zone, now),
{
    lemma_some_signature(owner, rtype, rrset, sigs, keys, zone, now, 0, Seq::empty());
    if exists|k: int|
        0 <= k < sigs.len() && proves(#[trigger] sigs[k], owner, rtype, rrset, keys, zone, now) {
        let k = choose|k: int|
            0 <= k < sigs.len() && proves(#[trigger] sigs[k], owner, rtype, rrset, keys, zone, now);
        assert(covering_signature(sigs[k], owner, rtype) is Some);
        assert(has_covering(sigs, owner, rtype));
    }
}

/// The keys that a source vouches for are those of the set, and all of them.
pub proof fn law_vouched_keys_are_all_found(
    a: Seq<DnskeyView>,
    b: Seq<DnskeyView>,
    source: KeySource<'_>,
    zone: Seq<Seq<u8>>,
)
    ensures
        anchored_keys(a + b, source, zone) == anchored_keys(a, source, zone) + anchored_keys(
            b,
            source,
            zone,
        ),
        a.len() == 0 ==> anchored_keys(a, source, zone).len() == 0,
        a.len() == 1 ==> anchored_keys(a, source, zone) == if vouches(source, zone, a[0]) {
            a
        } else {
            Seq::empty()
        },
    decreases b.len(),
{
    if a.len() == 1 {
        assert(a.drop_last() =~= Seq::empty());
        assert(anchored_keys(a.drop_last(), source, zone) =~= Seq::empty());
        assert(anchored_keys(a, source, zone) =~= if vouches(source, zone, a[0]) {
            a
        } else {
            Seq::empty()
        });
    }
    if b.len() == 0 {
        assert(a + b =~= a);
        assert(anchored_keys(a, source, zone) + anchored_keys(b, source, zone) =~= anchored_keys(
            a,
            source,
            zone,
        ));
    } else {
        law_vouched_keys_are_all_found(a, b.drop_last(), source, zone);
        assert((a + b).drop_last() =~= a + b.drop_last());
        assert(anchored_keys(a + b, source, zone) =~= anchored_keys(a, source, zone)
            + anchored_keys(b, source, zone));
    }
}

/// The keys of a zone are trusted exactly where a signature over the set of them is accepted
/// by a key in it that the source vouches for; then all of the zone's keys are.
pub proof fn law_when_keys_are_trusted(
    zone: Seq<Seq<u8>>,
    records: Seq<RecordView>,
    sigs: Seq<RecordView>,
    source: KeySource<'_>,
    now: u32,
)
    ensures
        ({
            let keys = zone_keys_of(records, zone);
            let set = at(records, zone, TYPE_DNSKEY);
            let r = validated_keys(zone, records, sigs, source, now);
            &&& r is Ok <==> keys.len() > 0 && set.len() > 0 && exists|k: int|
                0 <= k < sigs.len() && proves(
                    #[trigger] sigs[k],
                    zone,
                    48,
                    set,
                    anchored_keys(keys, source, zone),
                    zone,
                    now,
                )
            &&& r matches Ok(trusted) ==> trusted == keys
        }),
{
    let keys = zone_keys_of(records, zone);
    let anchored = anchored_keys(keys, source, zone);
    law_one_proof_is_enough(
        zone,
        TYPE_DNSKEY,
        at(records, zone, TYPE_DNSKEY),
        sigs,
        anchored,
        zone,
        now,
    );
}

// ---------------------------------------------------------------------------
// What a section holds
// ---------------------------------------------------------------------------
/// A key may verify RRsets exactly where its zone-key flag, 256, is set and its flag for
/// revoked keys, 128, is not.
pub proof fn law_zone_key_flags(k: DnskeyView)
    ensures
        is_zone_key(k) <==> k.flags & 256 != 0 && k.flags & 128 == 0,
{
    let f = k.flags;
    assert(f & 256 != 0 <==> f / 256 % 2 == 1) by (bit_vector);
    assert(f & 128 == 0 <==> f / 128 % 2 == 0) by (bit_vector);
}

/// The keys of a zone are found in all of a section: each DNSKEY record at the zone with a
/// key that may verify, in their order, and no other.
pub proof fn law_zone_keys_are_all_found(
    a: Seq<RecordView>,
    b: Seq<RecordView>,
    zone: Seq<Seq<u8>>,
)
    ensures
        zone_keys_of(a + b, zone) == zone_keys_of(a, zone) + zone_keys_of(b, zone),
        a.len() == 0 ==> zone_keys_of(a, zone).len() == 0,
        a.len() == 1 ==> (zone_keys_of(a, zone).len() > 0 <==> a[0].data is Dnskey && a[0].rtype
            == 48 && same_name(a[0].name, zone) && is_zone_key(a[0].data->Dnskey_0)),
        a.len() == 1 && zone_keys_of(a, zone).len() > 0 ==> zone_keys_of(a, zone) == seq![
            a[0].data->Dnskey_0,
        ],
    decreases b.len(),
{
    if a.len() == 1 {
        assert(a.drop_last() =~= Seq::empty());
        assert(zone_keys_of(a.drop_last(), zone) =~= Seq::empty());
        if zone_keys_of(a, zone).len() > 0 {
            assert(zone_keys_of(a, zone) =~= seq![a[0].data->Dnskey_0]);
        }
    }
    if b.len() == 0 {
        assert(a + b =~= a);
        assert(zone_keys_of(a, zone) + zone_keys_of(b, zone) =~= zone_keys_of(a, zone));
    } else {
        law_zone_keys_are_all_found(a, b.drop_last(), zone);
        assert((a + b).drop_last() =~= a + b.drop_last());
        assert(zone_keys_of(a + b, zone) =~= zone_keys_of(a, zone) + zone_keys_of(b, zone));
    }
}

/// The DS data of a child is found in all of a section.
pub proof fn law_ds_data_is_all_found(a: Seq<RecordView>, b: Seq<RecordView>, child: Seq<Seq<u8>>)
    ensures
        ds_of(a + b, child) == ds_of(a, child) + ds_of(b, child),
        a.len() == 0 ==> ds_of(a, child).len() == 0,
        a.len() == 1 ==> (ds_of(a, child).len() > 0 <==> a[0].data is Ds && a[0].rtype == 43
            && same_name(a[0].name, child)),
        a.len() == 1 && ds_of(a, child).len() > 0 ==> ds_of(a, child) == seq![a[0].data->Ds_0],
    decreases b.len(),
{
    if a.len() == 1 {
        assert(a.drop_last() =~= Seq::empty());
        assert(ds_of(a.drop_last(), child) =~= Seq::empty());
        if ds_of(a, child).len() > 0 {
            assert(ds_of(a, child) =~= seq![a[0].data->Ds_0]);
        }
    }
    if b.len() == 0 {
        assert(a + b =~= a);
        assert(ds_of(a, child) + ds_of(b, child) =~= ds_of(a, child));
    } else {
        law_ds_data_is_all_found(a, b.drop_last(), child);
        assert((a + b).drop_last() =~= a + b.drop_last());
        assert(ds_of(a + b, child) =~= ds_of(a, child) + ds_of(b, child));
    }
}

/// The NSEC and NSEC3 data of a section is found in all of it, each with its owner.
pub proof fn law_denial_data_is_all_found(a: Seq<RecordView>, b: Seq<RecordView>)
    ensures
        nsec_of(a + b) == nsec_of(a) + nsec_of(b),
        nsec3_of(a + b) == nsec3_of(a) + nsec3_of(b),
        a.len() == 0 ==> nsec_of(a).len() == 0 && nsec3_of(a).len() == 0,
        a.len() == 1 ==> nsec_of(a) == match a[0].data {
            DataView::Nsec(n) => seq![(a[0].name, n)],
            _ => Seq::empty(),
        },
        a.len() == 1 ==> nsec3_of(a) == match a[0].data {
            DataView::Nsec3(n) => seq![(a[0].name, n)],
            _ => Seq::empty(),
        },
    decreases b.len(),
{
    if a.len() == 1 {
        assert(a.drop_last() =~= Seq::empty());
        assert(nsec_of(a.drop_last()) =~= Seq::empty());
        assert(nsec3_of(a.drop_last()) =~= Seq::empty());
        assert(nsec_of(a) =~= match a[0].data {
            DataView::Nsec(n) => seq![(a[0].name, n)],
            _ => Seq::empty(),
        });
        assert(nsec3_of(a) =~= match a[0].data {
            DataView::Nsec3(n) => seq![(a[0].name, n)],
            _ => Seq::empty(),
        });
    }
    if b.len() == 0 {
        assert(a + b =~= a);
        assert(nsec_of(a) + nsec_of(b) =~= nsec_of(a));
        assert(nsec3_of(a) + nsec3_of(b) =~= nsec3_of(a));
    } else {
        law_denial_data_is_all_found(a, b.drop_last());
        assert((a + b).drop_last() =~= a + b.drop_last());
        assert(nsec_of(a + b) =~= nsec_of(a) + nsec_of(b));
        assert(nsec3_of(a + b) =~= nsec3_of(a) + nsec3_of(b));
    }
}

/// The signatures of a section are all of its RRSIG records, in their order.
pub proof fn law_signatures_are_all_found(a: Seq<RecordView>, b: Seq<RecordView>)
    ensures
        sigs_of(a + b) == sigs_of(a) + sigs_of(b),
        a.len() == 0 ==> sigs_of(a).len() == 0,
        a.len() == 1 ==> sigs_of(a) == if a[0].rtype == 46 {
            a
        } else {
            Seq::empty()
        },
    decreases b.len(),
{
    if a.len() == 1 {
        assert(a.drop_last() =~= Seq::empty());
        assert(sigs_of(a.drop_last()) =~= Seq::empty());
        assert(sigs_of(a) =~= if a[0].rtype == 46 {
            a
        } else {
            Seq::empty()
        });
    }
    if b.len() == 0 {
        assert(a + b =~= a);
        assert(sigs_of(a) + sigs_of(b) =~= sigs_of(a));
    } else {
        law_signatures_are_all_found(a, b.drop_last());
        assert((a + b).drop_last() =~= a + b.drop_last());
        assert(sigs_of(a + b) =~= sigs_of(a) + sigs_of(b));
    }
}

proof fn lemma_rrset_index(sets: Seq<RrsetView>, r: RecordView, i: int)
    requires
        0 <= i <= sets.len(),
    ensures
        ({
            let k = rrset_index(sets, r, i);
            &&& i <= k <= sets.len()
            &&& k < sets.len() ==> sets[k].rtype == r.rtype && same_name(sets[k].name, r.name)
            &&& forall|j: int|
                i <= j < k ==> !((#[trigger] sets[j]).rtype == r.rtype && same_name(
                    sets[j].name,
                    r.name,
                ))
        }),
    decreases sets.len() - i,
{
    if i < sets.len() && !(sets[i].rtype == r.rtype && same_name(sets[i].name, r.name)) {
        lemma_rrset_index(sets, r, i + 1);
    }
}

/// Whether sets hold records of their own name and type alone, and no two are for the same
/// name and type.
pub open spec fn are_apart(sets: Seq<RrsetView>) -> bool {
    &&& forall|i: int, k: int|
        0 <= i < sets.len() && 0 <= k < sets[i].records.len() ==> {
            let r = #[trigger] sets[i].records[k];
            r.rtype == sets[i].rtype && same_name(sets[i].name, r.name) && r.rtype != 46
        }
    &&& forall|i: int, j: int|
        0 <= i < j < sets.len() ==> !((#[trigger] sets[i]).rtype == (#[trigger] sets[j]).rtype
            && same_name(sets[i].name, sets[j].name))
}

/// Whether some set holds a record.
pub open spec fn is_held(sets: Seq<RrsetView>, r: RecordView) -> bool {
    exists|i: int| 0 <= i < sets.len() && (#[trigger] sets[i]).records.contains(r)
}

/// Each record of a section but the signatures is in a set of its own name and type, and no
/// two sets are for the same; what the sets hold is of the section.
#[verifier::spinoff_prover]
#[verifier::rlimit(40)]
pub proof fn law_rrsets_part_the_section(records: Seq<RecordView>)
    ensures
        are_apart(rrsets_of(records)),
        forall|k: int|
            0 <= k < records.len() && (#[trigger] records[k]).rtype != 46 ==> is_held(
                rrsets_of(records),
                records[k],
            ),
        forall|r: RecordView| is_held(rrsets_of(records), r) ==> #[trigger] records.contains(r),
    decreases records.len(),
{
    if records.len() > 0 {
        let d = records.drop_last();
        let r = records.last();
        law_rrsets_part_the_section(d);
        let before = rrsets_of(d);
        let after = rrsets_of(records);
        assert forall|x: RecordView| d.contains(x) implies records.contains(x) by {
            let k = choose|k: int| 0 <= k < d.len() && d[k] == x;
            assert(records[k] == x);
        }
        assert(records.contains(r)) by {
            assert(records[records.len() - 1] == r);
        }
        if r.rtype == TYPE_RRSIG {
            assert forall|k: int|
                0 <= k < records.len() && (#[trigger] records[k]).rtype != 46 implies is_held(
                after,
                records[k],
            ) by {
                assert(d[k] == records[k]);
            }
            assert forall|x: RecordView| is_held(after, x) implies #[trigger] records.contains(
                x,
            ) by {
                assert(d.contains(x));
            }
        } else {
            lemma_rrset_index(before, r, 0);
            lemma_with_one_more(before, r);
            assert forall|k: int|
                0 <= k < records.len() && (#[trigger] records[k]).rtype != 46 implies is_held(
                after,
                records[k],
            ) by {
                if k < d.len() {
                    assert(d[k] == records[k]);
                    assert(is_held(before, d[k]));
                }
            }
            assert forall|x: RecordView| is_held(after, x) implies #[trigger] records.contains(
                x,
            ) by {
                if x != r {
                    assert(is_held(before, x));
                    assert(d.contains(x));
                }
            }
        }
    }
}

#[verifier::spinoff_prover]
#[verifier::rlimit(40)]
proof fn lemma_with_one_more(before: Seq<RrsetView>, r: RecordView)
    requires
        are_apart(before),
        r.rtype != 46,
    ensures
        are_apart(rrsets_with(before, r)),
        is_held(rrsets_with(before, r), r),
        forall|x: RecordView| #[trigger]
            is_held(before, x) ==> is_held(rrsets_with(before, r), x),
        forall|x: RecordView| #[trigger]
            is_held(rrsets_with(before, r), x) ==> x == r || is_held(before, x),
{
    lemma_rrset_index(before, r, 0);
    let i = rrset_index(before, r, 0);
    let after = rrsets_with(before, r);
    if i < before.len() {
        let grown = before[i].records.push(r);
        assert(after[i].records == grown);
        assert(grown[grown.len() - 1] == r);
        assert(after[i].records.contains(r));
        assert forall|a: int, k: int|
            0 <= a < after.len() && 0 <= k < after[a].records.len() implies {
            let x = #[trigger] after[a].records[k];
            x.rtype == after[a].rtype && same_name(after[a].name, x.name) && x.rtype != 46
        } by {
            if a == i {
                if k < before[i].records.len() {
                    assert(after[i].records[k] == before[i].records[k]);
                }
            } else {
                assert(after[a] == before[a]);
            }
        }
        assert forall|a: int, b: int| 0 <= a < b < after.len() implies !((
        #[trigger] after[a]).rtype == (#[trigger] after[b]).rtype && same_name(
            after[a].name,
            after[b].name,
        )) by {
            assert(after[a].rtype == before[a].rtype && after[a].name == before[a].name);
            assert(after[b].rtype == before[b].rtype && after[b].name == before[b].name);
        }
        assert forall|x: RecordView| #[trigger] is_held(before, x) implies is_held(after, x) by {
            let a = choose|a: int| 0 <= a < before.len() && (#[trigger] before[a]).records.contains(x);
            let k = choose|k: int| 0 <= k < before[a].records.len() && before[a].records[k] == x;
            assert(after[a].records[k] == x);
            assert(after[a].records.contains(x));
        }
        assert forall|x: RecordView| #[trigger] is_held(after, x) implies x == r || is_held(
            before,
            x,
        ) by {
            let a = choose|a: int| 0 <= a < after.len() && (#[trigger] after[a]).records.contains(x);
            let k = choose|k: int| 0 <= k < after[a].records.len() && after[a].records[k] == x;
            if x != r {
                assert(before[a].records[k] == x);
                assert(before[a].records.contains(x));
            }
        }
    } else {
        let n = before.len() as int;
        assert(after[n].records == seq![r]);
        assert(after[n].records[0] == r);
        assert(after[n].records.contains(r));
        assert forall|a: int, k: int|
            0 <= a < after.len() && 0 <= k < after[a].records.len() implies {
            let x = #[trigger] after[a].records[k];
            x.rtype == after[a].rtype && same_name(after[a].name, x.name) && x.rtype != 46
        } by {
            if a < n {
                assert(after[a] == before[a]);
            }
        }
        assert forall|a: int, b: int| 0 <= a < b < after.len() implies !((
        #[trigger] after[a]).rtype == (#[trigger] after[b]).rtype && same_name(
            after[a].name,
            after[b].name,
        )) by {
            assert(after[a] == before[a]);
            if b < n {
                assert(after[b] == before[b]);
            }
        }
        assert forall|x: RecordView| #[trigger] is_held(before, x) implies is_held(after, x) by {
            let a = choose|a: int| 0 <= a < before.len() && (#[trigger] before[a]).records.contains(x);
            assert(after[a] == before[a]);
        }
        assert forall|x: RecordView| #[trigger] is_held(after, x) implies x == r || is_held(
            before,
            x,
        ) by {
            let a = choose|a: int| 0 <= a < after.len() && (#[trigger] after[a]).records.contains(x);
            if a < n {
                assert(before[a].records.contains(x));
            } else {
                let k = choose|k: int| 0 <= k < after[n].records.len() && after[n].records[k] == x;
            }
        }
    }
}

/// A zone that signs below another lies strictly below it, and at or above what it signs; so
/// does the owner of an SOA record below a zone.
pub proof fn law_signers_lie_below(r: RecordView, zone: Seq<Seq<u8>>, signer: Seq<Seq<u8>>)
    ensures
        signs_below(r, zone, signer) ==> zone.len() < signer.len() <= r.name.len() && r.data
            is Rrsig,
        is_soa_below(r, zone) <==> r.rtype == 6 && is_zone_of(zone, r.name) && zone.len()
            < r.name.len(),
{
    let (kz, ks, kr) = (name_key(zone), name_key(signer), name_key(r.name));
    if zone.len() == signer.len() {
        assert(ks.subrange(0, zone.len() as int) =~= ks);
    }
    if zone.len() == r.name.len() {
        assert(kr.subrange(0, zone.len() as int) =~= kr);
    }
    if zone.len() < r.name.len() {
        assert(kz.len() != kr.len());
    }
}

/// Trust anchors vouch for the keys that are among them; DS records for the keys whose digest
/// one of them holds under an algorithm that can be verified.
pub proof fn law_who_vouches(source: KeySource<'_>, zone: Seq<Seq<u8>>, key: DnskeyView)
    ensures
        source matches KeySource::Anchors(anchors) ==> (vouches(source, zone, key)
            <==> anchor_keys(*anchors).contains((key.public_key, key.algorithm))),
        source matches KeySource::Ds(set) ==> (vouches(source, zone, key) <==> exists|i: int|
            0 <= i < set@.len() && verifiable((#[trigger] set@[i]).algorithm) && digest_matches(
                set@[i]@,
                zone,
                key,
            ) == Some(true)),
{
    if let KeySource::Ds(set) = source {
        assert(forall|i: int| 0 <= i < set@.len() ==> #[trigger] ds_views(set@)[i] == set@[i]@);
        if exists|i: int|
            0 <= i < set@.len() && verifiable((#[trigger] set@[i]).algorithm) && digest_matches(
                set@[i]@,
                zone,
                key,
            ) == Some(true) {
            let i = choose|i: int|
                0 <= i < set@.len() && verifiable((#[trigger] set@[i]).algorithm)
                    && digest_matches(set@[i]@, zone, key) == Some(true);
            assert(ds_views(set@)[i] == set@[i]@);
        }
        if vouches(source, zone, key) {
            let i = choose|i: int|
                0 <= i < set@.len() && verifiable((#[trigger] ds_views(set@)[i]).algorithm)
                    && digest_matches(ds_views(set@)[i], zone, key) == Some(true);
            assert(ds_views(set@)[i] == set@[i]@);
        }
    }
}

/// Answers are withheld where they are bogus or nothing is known of them, and are served
/// where they are secure or known to be unsigned.
pub proof fn law_what_is_withheld(v: Verdict)
    ensures
        withheld(v) <==> !(v is Secure || v is Insecure),
{
}

// ---------------------------------------------------------------------------
// Trust anchors
// ---------------------------------------------------------------------------
/// A trust anchor is taken exactly where its flags have the zone-key flag, its protocol is 3,
/// its algorithm can be verified, and its key is there and of the size that the algorithm's
/// keys have, where they have one.
#[verifier::spinoff_prover]
#[verifier::rlimit(40)]
pub proof fn law_when_an_anchor_is_taken(entry: Seq<char>)
    ensures
        ({
            let f = words(trimmed(entry));
            anchor_of(entry) matches Ok((key, algorithm)) ==> {
                &&& f.len() >= 4
                &&& parse_unsigned(f[0], 0xffff) matches Some(flags)
                &&& flags / 256 % 2 == 1
                &&& parse_unsigned(f[1], 0xff) == Some(3nat)
                &&& parse_unsigned(f[2], 0xff) == Some(algorithm as nat)
                &&& algorithm == 5 || algorithm == 7 || algorithm == 8 || algorithm == 10
                    || algorithm == 13 || algorithm == 14 || algorithm == 15
                &&& key.len() > 0
                &&& algorithm == 15 ==> key.len() == 32
                &&& algorithm == 13 ==> key.len() == 64
                &&& algorithm == 14 ==> key.len() == 96
                &&& crate::codec::base64_decoded(
                    run_together(f.subrange(3, f.len() as int)),
                ) == Some(key)
            }
        }),
        ({
            let f = words(trimmed(entry));
            let key = crate::codec::base64_decoded(run_together(f.subrange(3, f.len() as int)));
            anchor_of(entry) is Err ==> {
                ||| f.len() < 4
                ||| parse_unsigned(f[0], 0xffff) is None
                ||| parse_unsigned(f[0], 0xffff)->0 / 256 % 2 == 0
                ||| parse_unsigned(f[1], 0xff) != Some(3nat)
                ||| parse_unsigned(f[2], 0xff) is None
                ||| !verifiable(parse_unsigned(f[2], 0xff)->0 as u8)
                ||| key is None || key->0.len() == 0
                ||| fixed_key_len(parse_unsigned(f[2], 0xff)->0 as u8) is Some && key->0.len()
                    != fixed_key_len(parse_unsigned(f[2], 0xff)->0 as u8)->0
            }
        }),
{
}

/// Texts that are run together are run together one after the other.
pub proof fn law_running_together(a: Seq<Seq<char>>, b: Seq<Seq<char>>)
    ensures
        run_together(a + b) == run_together(a) + run_together(b),
        a.len() == 1 ==> run_together(a) == a[0],
    decreases b.len(),
{
    if a.len() == 1 {
        assert(a.drop_last() =~= Seq::empty());
        assert(run_together(a.drop_last()) =~= Seq::empty());
        assert(run_together(a) =~= a[0]);
    }
    if b.len() == 0 {
        assert(a + b =~= a);
        assert(run_together(a) + run_together(b) =~= run_together(a));
    } else {
        law_running_together(a, b.drop_last());
        assert((a + b).drop_last() =~= a + b.drop_last());
        assert(run_together(a + b) =~= run_together(a) + run_together(b));
    }
}

/// The key that an entry is taken as an anchor for, where it is.
#[verifier::opaque]
pub open spec fn taken_key(entry: Seq<char>) -> Option<(Seq<u8>, u8)> {
    match anchor_of(entry) {
        Ok(key) => Some(key),
        Err(_) => None,
    }
}

proof fn lemma_one_more_anchor(entries: Seq<Seq<char>>, n: nat)
    requires
        0 < n <= entries.len(),
    ensures
        ({
            let before = anchors_of(entries, (n - 1) as nat);
            let key = taken_key(entries[n - 1]);
            &&& anchors_of(entries, n) is Ok <==> before is Ok && key is Some
            &&& before is Ok && key is Some ==> anchors_of(entries, n)->Ok_0 == if before->Ok_0.contains(
                key->0,
            ) {
                before->Ok_0
            } else {
                before->Ok_0.push(key->0)
            }
        }),
{
    reveal(taken_key);
}

/// Every entry's key becomes an anchor, each key once; one bad entry spoils them all.
pub proof fn law_each_entry_is_an_anchor(entries: Seq<Seq<char>>, n: nat)
    requires
        n <= entries.len(),
    ensures
        anchors_of(entries, n) is Ok <==> forall|i: int|
            0 <= i < n ==> taken_key(#[trigger] entries[i]) is Some,
        anchors_of(entries, n) matches Ok(keys) ==> {
            &&& keys.len() <= n
            &&& keys.no_duplicates()
            &&& forall|i: int|
                0 <= i < n ==> keys.contains((taken_key(#[trigger] entries[i]))->0)
        },
    decreases n,
{
    if n > 0 {
        let m = (n - 1) as nat;
        law_each_entry_is_an_anchor(entries, m);
        lemma_one_more_anchor(entries, n);
        if anchors_of(entries, m) is Ok && taken_key(entries[m as int]) is Some {
            let before = anchors_of(entries, m)->Ok_0;
            let key = taken_key(entries[m as int])->0;
            let keys = anchors_of(entries, n)->Ok_0;
            assert forall|i: int| 0 <= i < n implies keys.contains(
                (taken_key(#[trigger] entries[i]))->0,
            ) by {
                if i < m {
                    let x = taken_key(entries[i])->0;
                    let k = choose|k: int| 0 <= k < before.len() && before[k] == x;
                    assert(keys[k] == x);
                } else if !before.contains(key) {
                    assert(keys[keys.len() - 1] == key);
                }
            }
        }
    }
}

} // verus!
