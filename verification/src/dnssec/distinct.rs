//! What is signed for one RRset is signed for no other.
use vstd::prelude::*;

use super::keys::key_accepts;
use super::rrsig::{rrsig_prefix, RrsigView};
use super::sign::{
    law_sorted_set_orders, rdatas_fit, rdatas_of, rr_octets, rrs_octets, same_members,
    signed_message, sorted_set, verification_of, VerifyError,
};
use crate::codec::{be16, be32};
use crate::names::{canonical_form, labels_fit, lowered_octets, wire_labels, DOT};
use crate::record::{type_code, DnsRecord, RecordKind};
use crate::text::split;
use crate::wire_name::labels_at;

verus! {

proof fn lemma_wire_labels_front(labels: Seq<Seq<u8>>)
    requires
        labels.len() > 0,
    ensures
        wire_labels(labels) == seq![(labels[0].len() % 256) as u8] + labels[0] + wire_labels(
            labels.drop_first(),
        ),
    decreases labels.len(),
{
    let first = seq![(labels[0].len() % 256) as u8] + labels[0];
    if labels.len() == 1 {
        assert(labels.drop_last() =~= Seq::empty());
        assert(labels.drop_first() =~= Seq::empty());
        assert(wire_labels(labels) =~= first + wire_labels(labels.drop_first()));
    } else {
        let d = labels.drop_last();
        lemma_wire_labels_front(d);
        assert(d[0] == labels[0]);
        assert(d.drop_first() =~= labels.drop_first().drop_last());
        assert(labels.drop_first().last() == labels.last());
        assert(wire_labels(labels) =~= first + wire_labels(labels.drop_first()));
    }
}

/// A name on the wire ends where it says, whatever follows.
proof fn lemma_labels_delimited(labels: Seq<Seq<u8>>, rest: Seq<u8>)
    requires
        labels_fit(labels),
    ensures
        labels_at(wire_labels(labels).push(0u8) + rest) == Some(
            (labels, (wire_labels(labels).len() + 1) as nat),
        ),
    decreases labels.len(),
{
    let b = wire_labels(labels).push(0u8) + rest;
    if labels.len() == 0 {
        assert(b[0] == 0);
        assert(labels =~= Seq::empty());
    } else {
        lemma_wire_labels_front(labels);
        let tail = labels.drop_first();
        assert(labels_fit(tail)) by {
            assert forall|i: int| 0 <= i < tail.len() implies 1 <= (#[trigger] tail[i]).len()
                <= 63 by {
                assert(tail[i] == labels[i + 1]);
            }
        }
        lemma_labels_delimited(tail, rest);
        let n = labels[0].len() as int;
        assert(1 <= n <= 63);
        assert(b[0] == n);
        assert(b.subrange(1, n + 1) =~= labels[0]);
        assert(b.subrange(n + 1, b.len() as int) =~= wire_labels(tail).push(0u8) + rest);
        assert(seq![labels[0]] + tail =~= labels);
    }
}

/// The labels of a name's canonical form.
spec fn canonical_labels(name: Seq<char>) -> Seq<Seq<u8>> {
    let octets = lowered_octets(name);
    if octets.len() == 0 {
        Seq::empty()
    } else {
        split(octets, DOT)
    }
}

proof fn lemma_owner_delimited(a: Seq<char>, b: Seq<char>, x: Seq<u8>, y: Seq<u8>)
    requires
        canonical_form(a) is Some,
        canonical_form(b) is Some,
        canonical_form(a)->0 + x == canonical_form(b)->0 + y,
    ensures
        canonical_form(a) == canonical_form(b),
        x == y,
{
    let la = canonical_labels(a);
    let lb = canonical_labels(b);
    assert(canonical_form(a)->0 =~= wire_labels(la).push(0u8));
    assert(canonical_form(b)->0 =~= wire_labels(lb).push(0u8));
    lemma_labels_delimited(la, x);
    lemma_labels_delimited(lb, y);
    assert(la == lb);
    lemma_cancel_front(canonical_form(a)->0, x, y);
}

proof fn lemma_cancel_front<T>(p: Seq<T>, x: Seq<T>, y: Seq<T>)
    requires
        p + x == p + y,
    ensures
        x == y,
{
    assert((p + x).subrange(p.len() as int, (p + x).len() as int) =~= x);
    assert((p + y).subrange(p.len() as int, (p + y).len() as int) =~= y);
}

proof fn lemma_rrs_front(owner: Seq<u8>, kind: RecordKind, ttl: u32, rdatas: Seq<Seq<u8>>)
    requires
        rdatas.len() > 0,
    ensures
        rrs_octets(owner, kind, ttl, rdatas) == rr_octets(owner, kind, ttl, rdatas[0])
            + rrs_octets(owner, kind, ttl, rdatas.drop_first()),
    decreases rdatas.len(),
{
    let first = rr_octets(owner, kind, ttl, rdatas[0]);
    if rdatas.len() == 1 {
        assert(rdatas.drop_last() =~= Seq::empty());
        assert(rdatas.drop_first() =~= Seq::empty());
        assert(rrs_octets(owner, kind, ttl, Seq::<Seq<u8>>::empty()) =~= Seq::empty());
        assert(rdatas.last() == rdatas[0]);
        assert(rrs_octets(owner, kind, ttl, rdatas) =~= first);
        assert(first + Seq::<u8>::empty() =~= first);
    } else {
        let d = rdatas.drop_last();
        lemma_rrs_front(owner, kind, ttl, d);
        assert(d.drop_first() =~= rdatas.drop_first().drop_last());
        assert(rdatas.drop_first().last() == rdatas.last());
        let last = rr_octets(owner, kind, ttl, rdatas.last());
        let middle = rrs_octets(owner, kind, ttl, d.drop_first());
        assert(first + middle + last =~= first + (middle + last));
    }
}

/// What stands between a record's owner and its data.
spec fn between(kind: RecordKind, ttl: u32, rdata: Seq<u8>) -> Seq<u8> {
    be16(type_code(kind)) + be16(1) + be32(ttl) + be16(rdata.len() as u16)
}

proof fn lemma_rdata_delimited(
    kind: RecordKind,
    ttl: u32,
    a: Seq<u8>,
    b: Seq<u8>,
    x: Seq<u8>,
    y: Seq<u8>,
)
    requires
        a.len() <= 0xffff,
        b.len() <= 0xffff,
        between(kind, ttl, a) + a + x == between(kind, ttl, b) + b + y,
    ensures
        a == b,
        x == y,
{
    let l = between(kind, ttl, a) + a + x;
    let r = between(kind, ttl, b) + b + y;
    assert(between(kind, ttl, a).len() == 10 && between(kind, ttl, b).len() == 10);
    assert(l[8] == be16(a.len() as u16)[0] && l[9] == be16(a.len() as u16)[1]);
    assert(r[8] == be16(b.len() as u16)[0] && r[9] == be16(b.len() as u16)[1]);
    assert(a.len() == b.len());
    assert(l.subrange(10, 10 + a.len() as int) =~= a);
    assert(r.subrange(10, 10 + b.len() as int) =~= b);
    assert(l.subrange(10 + a.len() as int, l.len() as int) =~= x);
    assert(r.subrange(10 + b.len() as int, r.len() as int) =~= y);
}

proof fn lemma_rr_parts(
    owner: Seq<u8>,
    kind: RecordKind,
    ttl: u32,
    rdata: Seq<u8>,
    rest: Seq<u8>,
)
    ensures
        rr_octets(owner, kind, ttl, rdata) + rest == owner + (between(kind, ttl, rdata) + rdata
            + rest),
{
    assert(rr_octets(owner, kind, ttl, rdata) + rest =~= owner + (between(kind, ttl, rdata) + rdata
        + rest));
}

proof fn lemma_rrs_injective(
    owner: Seq<u8>,
    kind: RecordKind,
    ttl: u32,
    a: Seq<Seq<u8>>,
    b: Seq<Seq<u8>>,
)
    requires
        rdatas_fit(a),
        rdatas_fit(b),
        rrs_octets(owner, kind, ttl, a) == rrs_octets(owner, kind, ttl, b),
    ensures
        a == b,
    decreases a.len(),
{
    if a.len() > 0 {
        lemma_rrs_front(owner, kind, ttl, a);
    }
    if b.len() > 0 {
        lemma_rrs_front(owner, kind, ttl, b);
    }
    if a.len() > 0 && b.len() > 0 {
        let ra = rrs_octets(owner, kind, ttl, a.drop_first());
        let rb = rrs_octets(owner, kind, ttl, b.drop_first());
        lemma_rr_parts(owner, kind, ttl, a[0], ra);
        lemma_rr_parts(owner, kind, ttl, b[0], rb);
        lemma_cancel_front(
            owner,
            between(kind, ttl, a[0]) + a[0] + ra,
            between(kind, ttl, b[0]) + b[0] + rb,
        );
        lemma_rdata_delimited(kind, ttl, a[0], b[0], ra, rb);
        lemma_rrs_injective(owner, kind, ttl, a.drop_first(), b.drop_first());
        assert(seq![a[0]] + a.drop_first() =~= a);
        assert(seq![b[0]] + b.drop_first() =~= b);
    } else {
        assert(rrs_octets(owner, kind, ttl, Seq::<Seq<u8>>::empty()).len() == 0);
        if a.len() > 0 {
            assert(b =~= Seq::empty());
            assert(rr_octets(owner, kind, ttl, a[0]).len() >= 10);
        }
        if b.len() > 0 {
            assert(a =~= Seq::empty());
            assert(rr_octets(owner, kind, ttl, b[0]).len() >= 10);
        }
        assert(a =~= b);
    }
}

proof fn lemma_message_parts(
    rrsig: RrsigView,
    a: Seq<char>,
    first: Seq<DnsRecord>,
    b: Seq<char>,
    second: Seq<DnsRecord>,
)
    requires
        signed_message(rrsig, a, first) is Ok,
        signed_message(rrsig, a, first) == signed_message(rrsig, b, second),
        first.len() > 0,
    ensures
        canonical_form(a) == canonical_form(b),
        sorted_set(rdatas_of(first)->0) == sorted_set(rdatas_of(second)->0),
{
    let kind = rrsig.type_covered;
    let ttl = rrsig.original_ttl;
    let sa = sorted_set(rdatas_of(first)->0);
    let sb = sorted_set(rdatas_of(second)->0);
    let oa = canonical_form(a)->0;
    let ob = canonical_form(b)->0;
    lemma_cancel_front(
        rrsig_prefix(rrsig)->0,
        rrs_octets(oa, kind, ttl, sa),
        rrs_octets(ob, kind, ttl, sb),
    );
    let data = rdatas_of(first)->0;
    assert(data.len() > 0);
    law_sorted_set_orders(data);
    assert(data.contains(data[0]));
    assert(sa.contains(data[0]));
    lemma_rrs_front(oa, kind, ttl, sa);
    if sb.len() == 0 {
        assert(rrs_octets(oa, kind, ttl, sa).len() == 0);
    }
    lemma_rrs_front(ob, kind, ttl, sb);
    let ra = rrs_octets(oa, kind, ttl, sa.drop_first());
    let rb = rrs_octets(ob, kind, ttl, sb.drop_first());
    lemma_rr_parts(oa, kind, ttl, sa[0], ra);
    lemma_rr_parts(ob, kind, ttl, sb[0], rb);
    lemma_owner_delimited(
        a,
        b,
        between(kind, ttl, sa[0]) + sa[0] + ra,
        between(kind, ttl, sb[0]) + sb[0] + rb,
    );
    lemma_rrs_injective(oa, kind, ttl, sa, sb);
}

/// A signature covers the owner and the data: where the owner is another name, or the
/// records hold other data, the octets that a key is asked about are others, and a
/// verification that succeeds is the key's word for those octets.
pub proof fn law_other_data_is_another_message(
    rrsig: RrsigView,
    owner: Seq<char>,
    rrset: Seq<DnsRecord>,
    other_owner: Seq<char>,
    other_rrset: Seq<DnsRecord>,
    public_key: Seq<u8>,
)
    requires
        signed_message(rrsig, owner, rrset) is Ok,
        rrset.len() > 0,
        canonical_form(owner) != canonical_form(other_owner) || rdatas_of(other_rrset) is None
            || !same_members(rdatas_of(rrset)->0, rdatas_of(other_rrset)->0),
    ensures
        signed_message(rrsig, other_owner, other_rrset) != signed_message(rrsig, owner, rrset),
        verification_of(rrsig, other_owner, other_rrset, public_key) == Ok::<(), VerifyError>(())
            ==> key_accepts(
            rrsig.algorithm,
            public_key,
            signed_message(rrsig, other_owner, other_rrset)->Ok_0,
            rrsig.signature,
        ),
{
    if signed_message(rrsig, owner, rrset) == signed_message(rrsig, other_owner, other_rrset) {
        lemma_message_parts(rrsig, owner, rrset, other_owner, other_rrset);
        let a = rdatas_of(rrset)->0;
        let b = rdatas_of(other_rrset)->0;
        law_sorted_set_orders(a);
        law_sorted_set_orders(b);
        assert forall|x: Seq<u8>| #[trigger] a.contains(x) == b.contains(x) by {
            assert(sorted_set(a).contains(x) == a.contains(x));
            assert(sorted_set(b).contains(x) == b.contains(x));
        }
    }
}

} // verus!
