//! Signing RRsets and verifying signatures over them.
use vstd::prelude::*;
use vstd::string::*;

use crate::codec::{be16, be32, push_be16, push_be32};
use crate::dnssec::algorithm::DnssecAlgorithm;
use crate::dnssec::keys::{
    curve_of, ed25519_signature, key_accepts, rng_failed, unspecified, verify_ecdsa,
    verify_ed25519, Curve, KeyError, SigningKey,
};
use crate::dnssec::rdata::{canonical_rdata, rdata_of};
use crate::dnssec::rrsig::{
    law_rrsig_value_round_trip, rrsig_parsed, rrsig_prefix, rrsig_text, Rrsig, RrsigError,
    RrsigView,
};
use crate::names::{
    canonical_form, canonical_name, label_count, lemma_octets_transitive, lemma_octets_trichotomy,
    normalize_name, normalized, octets_lt, octets_precede, rrsig_label_count,
};
use crate::record::{type_code, DnsRecord, RecordKind};
use crate::text::{byte_strings, eq_bytes, is_word, lower_char, strip_end, white_space};

verus! {

/// How far an RRSIG is backdated, to tolerate clock skew between signer and validator.
pub const RRSIG_INCEPTION_BACKDATE_SECS: u64 = 3600;

/// How long a generated RRSIG remains valid.
pub const RRSIG_VALIDITY_SECS: u64 = 2592000;

/// Why an RRset cannot be signed.
#[derive(Debug, Clone, PartialEq, Eq)]
pub enum SigningError {
    /// There is nothing to sign.
    EmptyRrset,
    /// An RRSIG RRset is never itself signed (RFC 4035 section 2.2).
    SignsSignatures,
    /// A record has no canonical form.
    CannotEncode,
    /// The owner has no canonical form.
    BadOwner,
    /// The signer has no canonical form.
    BadSigner,
    /// A record's RDATA is longer than 65535 octets.
    RdataTooLong,
    /// The key, of this algorithm, made no signature.
    KeyFailed(DnssecAlgorithm, KeyError),
}

/// Why a signature does not verify.
#[derive(Debug, Clone, PartialEq, Eq)]
pub enum VerifyError {
    /// The stored RRSIG value is malformed.
    Malformed(RrsigError),
    /// The message that the signature is over cannot be built.
    Unsignable(SigningError),
    /// The key does not accept the signature.
    Rejected,
    /// The algorithm is not one that signatures are verified with.
    Unsupported,
}

// ---------------------------------------------------------------------------
// Canonical RRset order
// ---------------------------------------------------------------------------
/// Octet strings in strictly ascending order.
pub open spec fn octets_ascending(s: Seq<Seq<u8>>) -> bool {
    forall|i: int, j: int| 0 <= i < j < s.len() ==> octets_lt(#[trigger] s[i], #[trigger] s[j])
}

/// An ascending list with `x` at its place in it.
pub open spec fn placed(s: Seq<Seq<u8>>, x: Seq<u8>) -> Seq<Seq<u8>>
    decreases s.len(),
{
    if s.len() == 0 {
        seq![x]
    } else if s.last() == x {
        s
    } else if octets_lt(s.last(), x) {
        s.push(x)
    } else {
        placed(s.drop_last(), x).push(s.last())
    }
}

/// The octet strings of `s` in ascending order, each once (RFC 4034 section 6.3).
pub open spec fn sorted_set(s: Seq<Seq<u8>>) -> Seq<Seq<u8>>
    decreases s.len(),
{
    if s.len() == 0 {
        Seq::empty()
    } else {
        placed(sorted_set(s.drop_last()), s.last())
    }
}

/// Whether two lists hold the same octet strings.
pub open spec fn same_members(a: Seq<Seq<u8>>, b: Seq<Seq<u8>>) -> bool {
    forall|x: Seq<u8>| #[trigger] a.contains(x) == b.contains(x)
}

proof fn lemma_push_contains<T>(s: Seq<T>, x: T, y: T)
    ensures
        s.push(x).contains(y) == (s.contains(y) || y == x),
{
    let t = s.push(x);
    assert(t[s.len() as int] == x);
    if s.contains(y) {
        let i = choose|i: int| 0 <= i < s.len() && s[i] == y;
        assert(t[i] == y);
    }
    if t.contains(y) {
        let i = choose|i: int| 0 <= i < t.len() && t[i] == y;
        if i < s.len() {
            assert(s[i] == y);
        }
    }
}

proof fn lemma_drop_last_contains<T>(s: Seq<T>, y: T)
    requires
        s.len() > 0,
    ensures
        s.contains(y) == (s.drop_last().contains(y) || y == s.last()),
{
    assert(s =~= s.drop_last().push(s.last()));
    lemma_push_contains(s.drop_last(), s.last(), y);
}

proof fn lemma_placed(s: Seq<Seq<u8>>, x: Seq<u8>)
    requires
        octets_ascending(s),
    ensures
        octets_ascending(placed(s, x)),
        forall|y: Seq<u8>| #[trigger] placed(s, x).contains(y) == (s.contains(y) || y == x),
    decreases s.len(),
{
    let t = placed(s, x);
    if s.len() == 0 {
        assert forall|y: Seq<u8>| #[trigger] t.contains(y) == (s.contains(y) || y == x) by {
            assert(t[0] == x);
        }
    } else if s.last() == x {
        assert(s[s.len() - 1] == x);
    } else if octets_lt(s.last(), x) {
        assert forall|i: int, j: int| 0 <= i < j < t.len() implies octets_lt(
            #[trigger] t[i],
            #[trigger] t[j],
        ) by {
            if j == s.len() && i < s.len() - 1 {
                lemma_octets_transitive(s[i], s.last(), x);
            }
        }
        assert forall|y: Seq<u8>| #[trigger] t.contains(y) == (s.contains(y) || y == x) by {
            lemma_push_contains(s, x, y);
        }
    } else {
        let d = s.drop_last();
        let p = placed(d, x);
        assert(octets_ascending(d)) by {
            assert forall|i: int, j: int| 0 <= i < j < d.len() implies octets_lt(
                #[trigger] d[i],
                #[trigger] d[j],
            ) by {
                assert(d[i] == s[i] && d[j] == s[j]);
            }
        }
        lemma_placed(d, x);
        lemma_octets_trichotomy(s.last(), x);
        assert forall|i: int| 0 <= i < p.len() implies octets_lt(#[trigger] p[i], s.last()) by {
            assert(p.contains(p[i]));
            if p[i] != x {
                let k = choose|k: int| 0 <= k < d.len() && d[k] == p[i];
                assert(octets_lt(s[k], s[s.len() - 1]));
            }
        }
        assert forall|i: int, j: int| 0 <= i < j < t.len() implies octets_lt(
            #[trigger] t[i],
            #[trigger] t[j],
        ) by {
            if j < p.len() {
                assert(t[i] == p[i] && t[j] == p[j]);
            } else {
                assert(t[i] == p[i]);
            }
        }
        assert forall|y: Seq<u8>| #[trigger] t.contains(y) == (s.contains(y) || y == x) by {
            lemma_push_contains(p, s.last(), y);
            lemma_drop_last_contains(s, y);
            assert(p.contains(y) == (d.contains(y) || y == x));
        }
    }
}

/// Sorting orders the octet strings, keeps each, and repeats none.
pub proof fn law_sorted_set_orders(s: Seq<Seq<u8>>)
    ensures
        octets_ascending(sorted_set(s)),
        same_members(sorted_set(s), s),
    decreases s.len(),
{
    if s.len() > 0 {
        let d = s.drop_last();
        law_sorted_set_orders(d);
        lemma_placed(sorted_set(d), s.last());
        assert forall|x: Seq<u8>| #[trigger] sorted_set(s).contains(x) == s.contains(x) by {
            lemma_drop_last_contains(s, x);
            assert(sorted_set(d).contains(x) == d.contains(x));
        }
    }
}

/// An ascending list is determined by its members.
proof fn lemma_ascending_unique(a: Seq<Seq<u8>>, b: Seq<Seq<u8>>)
    requires
        octets_ascending(a),
        octets_ascending(b),
        same_members(a, b),
    ensures
        a == b,
    decreases a.len(),
{
    if a.len() == 0 {
        if b.len() > 0 {
            assert(b.contains(b[0]));
            assert(a.contains(b[0]));
        }
        assert(a =~= b);
    } else {
        let la = a.last();
        assert(a[a.len() - 1] == la);
        assert(a.contains(la));
        assert(b.contains(la));
        let lb = b.last();
        assert(b[b.len() - 1] == lb);
        assert(b.contains(lb));
        assert(a.contains(lb));
        if la != lb {
            let i = choose|i: int| 0 <= i < b.len() && b[i] == la;
            let j = choose|j: int| 0 <= j < a.len() && a[j] == lb;
            assert(octets_lt(b[i], b[b.len() - 1]));
            assert(octets_lt(a[j], a[a.len() - 1]));
            lemma_octets_trichotomy(la, lb);
        }
        let da = a.drop_last();
        let db = b.drop_last();
        assert forall|x: Seq<u8>| #[trigger] da.contains(x) == db.contains(x) by {
            lemma_drop_last_contains(a, x);
            lemma_drop_last_contains(b, x);
            assert(a.contains(x) == b.contains(x));
            if x == la {
                lemma_octets_trichotomy(la, la);
                if da.contains(x) {
                    let i = choose|i: int| 0 <= i < da.len() && da[i] == x;
                    assert(octets_lt(a[i], a[a.len() - 1]));
                }
                if db.contains(x) {
                    let i = choose|i: int| 0 <= i < db.len() && db[i] == x;
                    assert(octets_lt(b[i], b[b.len() - 1]));
                }
            }
        }
        assert forall|i: int, j: int| 0 <= i < j < da.len() implies octets_lt(
            #[trigger] da[i],
            #[trigger] da[j],
        ) by {
            assert(da[i] == a[i] && da[j] == a[j]);
        }
        assert forall|i: int, j: int| 0 <= i < j < db.len() implies octets_lt(
            #[trigger] db[i],
            #[trigger] db[j],
        ) by {
            assert(db[i] == b[i] && db[j] == b[j]);
        }
        lemma_ascending_unique(da, db);
        assert(a =~= da.push(la));
        assert(b =~= db.push(lb));
    }
}

/// Sorting depends on which octet strings there are, not on their order or on how
/// often one occurs.
pub proof fn law_sorted_set_is_canonical(a: Seq<Seq<u8>>, b: Seq<Seq<u8>>)
    requires
        same_members(a, b),
    ensures
        sorted_set(a) == sorted_set(b),
{
    law_sorted_set_orders(a);
    law_sorted_set_orders(b);
    assert forall|x: Seq<u8>| #[trigger] sorted_set(a).contains(x) == sorted_set(b).contains(x) by {
        assert(a.contains(x) == b.contains(x));
    }
    lemma_ascending_unique(sorted_set(a), sorted_set(b));
}

/// Puts an octet string at its place in an ascending list.
fn place(list: &mut Vec<Vec<u8>>, x: Vec<u8>)
    ensures
        byte_strings(final(list)@) == placed(byte_strings(old(list)@), x@),
{
    let ghost all = byte_strings(list@);
    let ghost added = x@;
    let mut at: usize = list.len();
    assert(all.subrange(0, at as int) =~= all);
    assert(all.subrange(at as int, at as int) =~= Seq::empty());
    assert(placed(all, added) + Seq::<Seq<u8>>::empty() =~= placed(all, added));
    while at > 0
        invariant
            at <= list.len(),
            *list == *old(list),
            all == byte_strings(list@),
            added == x@,
            placed(all, added) == placed(all.subrange(0, at as int), added) + all.subrange(
                at as int,
                all.len() as int,
            ),
        decreases at,
    {
        let ghost head = all.subrange(0, at as int);
        let ghost tail = all.subrange(at as int, all.len() as int);
        assert(head.last() == list@[at - 1]@);
        if eq_bytes(list[at - 1].as_slice(), x.as_slice()) {
            assert(head + tail =~= all);
            return;
        }
        if octets_precede(list[at - 1].as_slice(), x.as_slice()) {
            let ghost before = list@;
            list.insert(at, x);
            proof {
                assert(placed(head, added) == head.push(added));
                assert(byte_strings(list@) =~= head.push(added) + tail);
            }
            return;
        }
        proof {
            let shorter = all.subrange(0, at - 1);
            assert(head.drop_last() =~= shorter);
            assert(placed(shorter, added).push(head.last()) + tail =~= placed(shorter, added)
                + all.subrange(at - 1, all.len() as int));
        }
        at = at - 1;
    }
    list.insert(0, x);
    proof {
        assert(all.subrange(0, 0) =~= Seq::empty());
        assert(all.subrange(0, all.len() as int) =~= all);
        assert(byte_strings(list@) =~= seq![added] + all);
    }
}

// ---------------------------------------------------------------------------
// The signed message
// ---------------------------------------------------------------------------
/// The canonical RDATA of each record, if each has one.
pub open spec fn rdatas_of(rrset: Seq<DnsRecord>) -> Option<Seq<Seq<u8>>>
    decreases rrset.len(),
{
    if rrset.len() == 0 {
        Some(Seq::empty())
    } else {
        let last = rrset.last();
        match (
            rdatas_of(rrset.drop_last()),
            rdata_of(last.record_type, last.value@, last.priority),
        ) {
            (Some(before), Some(rdata)) => Some(before.push(rdata)),
            _ => None,
        }
    }
}

/// One record in canonical form: owner, type, class IN, the original TTL, and the RDATA
/// behind its length.
pub open spec fn rr_octets(owner: Seq<u8>, kind: RecordKind, ttl: u32, rdata: Seq<u8>) -> Seq<u8> {
    owner + be16(type_code(kind)) + be16(1) + be32(ttl) + be16(rdata.len() as u16) + rdata
}

/// Records in canonical form, one after another.
pub open spec fn rrs_octets(
    owner: Seq<u8>,
    kind: RecordKind,
    ttl: u32,
    rdatas: Seq<Seq<u8>>,
) -> Seq<u8>
    decreases rdatas.len(),
{
    if rdatas.len() == 0 {
        Seq::empty()
    } else {
        rrs_octets(owner, kind, ttl, rdatas.drop_last()) + rr_octets(
            owner,
            kind,
            ttl,
            rdatas.last(),
        )
    }
}

/// Whether each RDATA fits its 16-bit length.
pub open spec fn rdatas_fit(rdatas: Seq<Seq<u8>>) -> bool {
    forall|i: int| 0 <= i < rdatas.len() ==> (#[trigger] rdatas[i]).len() <= 0xffff
}

/// The octets that a signature is computed over (RFC 4034 section 3.1.8.1): the RRSIG's
/// RDATA without the signature, then every record in canonical form and order.
pub open spec fn signed_message(
    rrsig: RrsigView,
    owner: Seq<char>,
    rrset: Seq<DnsRecord>,
) -> Result<Seq<u8>, SigningError> {
    if rdatas_of(rrset) is None {
        Err(SigningError::CannotEncode)
    } else if canonical_form(owner) is None {
        Err(SigningError::BadOwner)
    } else if rrsig_prefix(rrsig) is None {
        Err(SigningError::BadSigner)
    } else if !rdatas_fit(sorted_set(rdatas_of(rrset)->0)) {
        Err(SigningError::RdataTooLong)
    } else {
        Ok(
            rrsig_prefix(rrsig)->0 + rrs_octets(
                canonical_form(owner)->0,
                rrsig.type_covered,
                rrsig.original_ttl,
                sorted_set(rdatas_of(rrset)->0),
            ),
        )
    }
}

proof fn lemma_rdatas_prefix(rrset: Seq<DnsRecord>, n: int)
    requires
        0 <= n <= rrset.len(),
        rdatas_of(rrset.subrange(0, n)) is None,
    ensures
        rdatas_of(rrset) is None,
    decreases rrset.len() - n,
{
    if n == rrset.len() {
        assert(rrset.subrange(0, n) =~= rrset);
    } else {
        assert(rrset.subrange(0, n + 1).drop_last() =~= rrset.subrange(0, n));
        lemma_rdatas_prefix(rrset, n + 1);
    }
}

/// The canonical RDATAs of an RRset in canonical order.
fn sorted_rdatas(rrset: &[DnsRecord]) -> (r: Option<Vec<Vec<u8>>>)
    ensures
        match r {
            Some(v) => rdatas_of(rrset@) is Some && byte_strings(v@) == sorted_set(
                rdatas_of(rrset@)->0,
            ),
            None => rdatas_of(rrset@) is None,
        },
{
    let mut out: Vec<Vec<u8>> = Vec::new();
    let mut i: usize = 0;
    assert(rrset@.subrange(0, 0) =~= Seq::empty());
    assert(byte_strings(out@) =~= Seq::empty());
    while i < rrset.len()
        invariant
            i <= rrset.len(),
            rdatas_of(rrset@.subrange(0, i as int)) is Some,
            byte_strings(out@) == sorted_set(rdatas_of(rrset@.subrange(0, i as int))->0),
        decreases rrset.len() - i,
    {
        proof {
            let p = rrset@.subrange(0, i + 1);
            assert(p.drop_last() =~= rrset@.subrange(0, i as int));
            assert(p.last() == rrset@[i as int]);
        }
        match canonical_rdata(&rrset[i]) {
            Some(rdata) => {
                proof {
                    let before = rdatas_of(rrset@.subrange(0, i as int))->0;
                    assert(before.push(rdata@).drop_last() =~= before);
                }
                place(&mut out, rdata);
            },
            None => {
                proof {
                    lemma_rdatas_prefix(rrset@, i + 1);
                }
                return None;
            },
        }
        i = i + 1;
    }
    assert(rrset@.subrange(0, i as int) =~= rrset@);
    Some(out)
}

fn push_rr(out: &mut Vec<u8>, owner: &[u8], kind: RecordKind, ttl: u32, rdata: &[u8])
    requires
        rdata@.len() <= 0xffff,
    ensures
        final(out)@ == old(out)@ + rr_octets(owner@, kind, ttl, rdata@),
{
    out.extend_from_slice(owner);
    push_be16(out, kind.wire_type());
    push_be16(out, 1);
    push_be32(out, ttl);
    push_be16(out, rdata.len() as u16);
    out.extend_from_slice(rdata);
    assert(out@ =~= old(out)@ + rr_octets(owner@, kind, ttl, rdata@));
}

/// The octets that a signature over an RRset is computed over.
pub fn signing_input(rrsig: &Rrsig, owner: &str, rrset: &[DnsRecord]) -> (r: Result<
    Vec<u8>,
    SigningError,
>)
    ensures
        match r {
            Ok(v) => signed_message(rrsig@, owner@, rrset@) == Ok::<Seq<u8>, SigningError>(v@),
            Err(e) => signed_message(rrsig@, owner@, rrset@) == Err::<Seq<u8>, SigningError>(e),
        },
{
    let rdatas = match sorted_rdatas(rrset) {
        Some(v) => v,
        None => {
            return Err(SigningError::CannotEncode);
        },
    };
    let ghost all = byte_strings(rdatas@);
    let owner_wire = match canonical_name(owner) {
        Some(v) => v,
        None => {
            return Err(SigningError::BadOwner);
        },
    };
    let mut input = match rrsig.signed_prefix() {
        Some(v) => v,
        None => {
            return Err(SigningError::BadSigner);
        },
    };
    let ghost prefix = input@;
    let ghost kind = rrsig.type_covered;
    let ghost ttl = rrsig.original_ttl;
    let mut i: usize = 0;
    proof {
        assert(all.subrange(0, 0) =~= Seq::empty());
        assert(prefix + Seq::<u8>::empty() =~= prefix);
    }
    while i < rdatas.len()
        invariant
            i <= rdatas.len(),
            all == byte_strings(rdatas@),
            kind == rrsig.type_covered,
            ttl == rrsig.original_ttl,
            rdatas_of(rrset@) is Some,
            all == sorted_set(rdatas_of(rrset@)->0),
            canonical_form(owner@) == Some(owner_wire@),
            rrsig_prefix(rrsig@) == Some(prefix),
            forall|k: int| 0 <= k < i ==> (#[trigger] all[k]).len() <= 0xffff,
            input@ == prefix + rrs_octets(owner_wire@, kind, ttl, all.subrange(0, i as int)),
        decreases rdatas.len() - i,
    {
        let ghost before = input@;
        let n: usize = rdatas[i].len();
        if n > 0xffff {
            assert(all[i as int].len() > 0xffff);
            return Err(SigningError::RdataTooLong);
        }
        push_rr(
            &mut input,
            owner_wire.as_slice(),
            rrsig.type_covered,
            rrsig.original_ttl,
            rdatas[i].as_slice(),
        );
        proof {
            let p = all.subrange(0, i + 1);
            assert(p.drop_last() =~= all.subrange(0, i as int));
            assert(p.last() == rdatas@[i as int]@);
            let rr = rr_octets(owner_wire@, kind, ttl, p.last());
            assert(input@ == before + rr);
            assert(input@ =~= prefix + (rrs_octets(owner_wire@, kind, ttl, p.drop_last()) + rr));
        }
        i = i + 1;
    }
    assert(all.subrange(0, i as int) =~= all);
    Ok(input)
}

// ---------------------------------------------------------------------------
// Signing and verifying
// ---------------------------------------------------------------------------
/// One RRset to be signed, and the validity window to sign it under.
pub struct RrsetToSign<'a> {
    /// The zone whose key signs this, and so the RRSIG's signer name.
    pub signer_zone: &'a str,
    /// The owner name shared by every record in the set.
    pub owner: &'a str,
    pub type_covered: RecordKind,
    /// The TTL of the RRset.
    pub original_ttl: u32,
    pub rrset: &'a [DnsRecord],
    pub inception: u32,
    pub expiration: u32,
}

/// The RRSIG that a key makes for an RRset, with a given signature.
pub open spec fn rrsig_for(key: SigningKey, set: RrsetToSign<'_>, signature: Seq<u8>) -> RrsigView {
    RrsigView {
        type_covered: set.type_covered,
        algorithm: key.algorithm,
        labels: rrsig_label_count(set.owner@) as u8,
        original_ttl: set.original_ttl,
        expiration: set.expiration,
        inception: set.inception,
        key_tag: key.key_tag,
        signer_name: normalized(set.signer_zone@),
        signature,
    }
}

/// What is signed for an RRset, or why it is not signed.
pub open spec fn message_for(key: SigningKey, set: RrsetToSign<'_>) -> Result<
    Seq<u8>,
    SigningError,
> {
    if set.rrset@.len() == 0 {
        Err(SigningError::EmptyRrset)
    } else if set.type_covered == RecordKind::RRSIG {
        Err(SigningError::SignsSignatures)
    } else {
        signed_message(rrsig_for(key, set, Seq::empty()), set.owner@, set.rrset@)
    }
}

/// Signs one RRset, returning the RRSIG in stored form.
pub fn sign_rrset(key: &SigningKey, set: &RrsetToSign<'_>) -> (r: Result<String, SigningError>)
    requires
        key.well_formed(),
    ensures
        match message_for(*key, *set) {
            Err(e) => r == Err::<String, SigningError>(e),
            Ok(message) => {
                &&& r is Err ==> match r->Err_0 {
                    SigningError::KeyFailed(algorithm, KeyError::SigningFailed(text)) => {
                        &&& algorithm == key.algorithm
                        &&& curve_of(algorithm) is Some
                        &&& text@ == rng_failed() || text@ == unspecified()
                    },
                    _ => false,
                }
                &&& key.algorithm == DnssecAlgorithm::Ed25519 ==> r is Ok && r->Ok_0@ == rrsig_text(
                    rrsig_for(*key, *set, ed25519_signature(key.pkcs8@, message)),
                )
                &&& r is Ok ==> exists|signature: Seq<u8>|
                    {
                        &&& #[trigger] key_accepts(
                            key.algorithm,
                            key.public_key@,
                            message,
                            signature,
                        )
                        &&& signature.len() > 0
                        &&& r->Ok_0@ == rrsig_text(rrsig_for(*key, *set, signature))
                    }
            },
        },
{
    if set.rrset.len() == 0 {
        return Err(SigningError::EmptyRrset);
    }
    if set.type_covered == RecordKind::RRSIG {
        return Err(SigningError::SignsSignatures);
    }
    let empty: Vec<u8> = Vec::new();
    let mut rrsig = Rrsig {
        type_covered: set.type_covered,
        algorithm: key.algorithm,
        labels: label_count(set.owner),
        original_ttl: set.original_ttl,
        expiration: set.expiration,
        inception: set.inception,
        key_tag: key.key_tag,
        signer_name: normalize_name(set.signer_zone),
        signature: empty,
    };
    assert(rrsig@.signature =~= Seq::empty());
    assert(rrsig@ == rrsig_for(*key, *set, Seq::empty()));
    match signing_input(&rrsig, set.owner, set.rrset) {
        Ok(input) => match key.sign(input.as_slice()) {
            Ok(signature) => {
                rrsig.signature = signature;
                assert(rrsig@ == rrsig_for(*key, *set, signature@));
                assert(key_accepts(key.algorithm, key.public_key@, input@, signature@));
                Ok(rrsig.to_value())
            },
            Err(e) => Err(SigningError::KeyFailed(key.algorithm, e)),
        },
        Err(e) => Err(e),
    }
}

/// Whether a parsed RRSIG verifies over an RRset under a public key.
pub open spec fn verification_of(
    rrsig: RrsigView,
    owner: Seq<char>,
    rrset: Seq<DnsRecord>,
    public_key: Seq<u8>,
) -> Result<(), VerifyError> {
    match signed_message(rrsig, owner, rrset) {
        Err(e) => Err(VerifyError::Unsignable(e)),
        Ok(message) => if rrsig.algorithm == DnssecAlgorithm::RsaSha256 {
            Err(VerifyError::Unsupported)
        } else if key_accepts(rrsig.algorithm, public_key, message, rrsig.signature) {
            Ok(())
        } else {
            Err(VerifyError::Rejected)
        },
    }
}

/// Whether a stored RRSIG verifies over an RRset under a public key.
pub open spec fn verification(
    value: Seq<char>,
    owner: Seq<char>,
    rrset: Seq<DnsRecord>,
    public_key: Seq<u8>,
) -> Result<(), VerifyError> {
    match rrsig_parsed(value) {
        Err(e) => Err(VerifyError::Malformed(e)),
        Ok(rrsig) => verification_of(rrsig, owner, rrset, public_key),
    }
}

/// Whether a key accepts a signature of a message.
fn accepts(algorithm: DnssecAlgorithm, public_key: &[u8], message: &[u8], signature: &[u8]) -> (r:
    bool)
    ensures
        r == key_accepts(algorithm, public_key@, message@, signature@),
{
    let curve = match algorithm {
        DnssecAlgorithm::RsaSha256 => {
            return false;
        },
        DnssecAlgorithm::Ed25519 => {
            return verify_ed25519(public_key, message, signature);
        },
        DnssecAlgorithm::EcdsaP256Sha256 => Curve::P256,
        DnssecAlgorithm::EcdsaP384Sha384 => Curve::P384,
    };
    let mut point: Vec<u8> = Vec::new();
    point.push(4);
    point.extend_from_slice(public_key);
    assert(point@ =~= seq![4u8] + public_key@);
    verify_ecdsa(curve, point.as_slice(), message, signature)
}

/// Verifies an RRSIG against an RRset and a DNSKEY-form public key.
pub fn verify_rrsig(rrsig_value: &str, owner: &str, rrset: &[DnsRecord], public_key: &[u8]) -> (r:
    Result<(), VerifyError>)
    ensures
        r == verification(rrsig_value@, owner@, rrset@, public_key@),
{
    let rrsig = match Rrsig::parse(rrsig_value) {
        Ok(r) => r,
        Err(e) => {
            return Err(VerifyError::Malformed(e));
        },
    };
    match signing_input(&rrsig, owner, rrset) {
        Ok(input) => {
            if rrsig.algorithm == DnssecAlgorithm::RsaSha256 {
                Err(VerifyError::Unsupported)
            } else if accepts(
                rrsig.algorithm,
                public_key,
                input.as_slice(),
                rrsig.signature.as_slice(),
            ) {
                Ok(())
            } else {
                Err(VerifyError::Rejected)
            }
        },
        Err(e) => Err(VerifyError::Unsignable(e)),
    }
}

// ---------------------------------------------------------------------------
// Laws
// ---------------------------------------------------------------------------
#[verifier::spinoff_prover]
#[verifier::rlimit(50)]
proof fn lemma_rdatas_contain(rrset: Seq<DnsRecord>, x: Seq<u8>)
    requires
        rdatas_of(rrset) is Some,
    ensures
        rdatas_of(rrset)->0.contains(x) == exists|i: int|
            0 <= i < rrset.len() && rdata_of(
                (#[trigger] rrset[i]).record_type,
                rrset[i].value@,
                rrset[i].priority,
            ) == Some(x),
    decreases rrset.len(),
{
    if rrset.len() > 0 {
        let d = rrset.drop_last();
        let last = rrset.last();
        lemma_rdatas_contain(d, x);
        let rdata = rdata_of(last.record_type, last.value@, last.priority)->0;
        lemma_push_contains(rdatas_of(d)->0, rdata, x);
        assert(rrset[rrset.len() - 1] == last);
        if rdatas_of(d)->0.contains(x) {
            let i = choose|i: int|
                0 <= i < d.len() && rdata_of(
                    (#[trigger] d[i]).record_type,
                    d[i].value@,
                    d[i].priority,
                ) == Some(x);
            assert(rrset[i] == d[i]);
        }
        if exists|i: int|
            0 <= i < rrset.len() && rdata_of(
                (#[trigger] rrset[i]).record_type,
                rrset[i].value@,
                rrset[i].priority,
            ) == Some(x) {
            let i = choose|i: int|
                0 <= i < rrset.len() && rdata_of(
                    (#[trigger] rrset[i]).record_type,
                    rrset[i].value@,
                    rrset[i].priority,
                ) == Some(x);
            if i < d.len() {
                assert(d[i] == rrset[i]);
            }
        }
    }
}

proof fn lemma_rdatas_defined(rrset: Seq<DnsRecord>)
    ensures
        rdatas_of(rrset) is Some == forall|i: int|
            0 <= i < rrset.len() ==> rdata_of(
                (#[trigger] rrset[i]).record_type,
                rrset[i].value@,
                rrset[i].priority,
            ) is Some,
    decreases rrset.len(),
{
    if rrset.len() > 0 {
        let d = rrset.drop_last();
        lemma_rdatas_defined(d);
        assert(rrset[rrset.len() - 1] == rrset.last());
        assert(forall|i: int| 0 <= i < d.len() ==> d[i] == #[trigger] rrset[i]);
        if rdatas_of(d) is None {
            let i = choose|i: int|
                0 <= i < d.len() && rdata_of(
                    (#[trigger] d[i]).record_type,
                    d[i].value@,
                    d[i].priority,
                ) is None;
            assert(rrset[i] == d[i]);
        }
    }
}

/// The order of the records in an RRset, and repeated records, do not change what is
/// signed: two lists of the same records have the same message.
pub proof fn law_rrset_order_does_not_matter(
    rrsig: RrsigView,
    owner: Seq<char>,
    a: Seq<DnsRecord>,
    b: Seq<DnsRecord>,
)
    requires
        forall|r: DnsRecord| #[trigger] a.contains(r) == b.contains(r),
    ensures
        signed_message(rrsig, owner, a) == signed_message(rrsig, owner, b),
{
    lemma_rdatas_defined(a);
    lemma_rdatas_defined(b);
    assert forall|i: int| 0 <= i < a.len() implies b.contains(#[trigger] a[i]) by {
        assert(a.contains(a[i]));
    }
    assert forall|i: int| 0 <= i < b.len() implies a.contains(#[trigger] b[i]) by {
        assert(b.contains(b[i]));
    }
    assert(rdatas_of(a) is Some == rdatas_of(b) is Some);
    if rdatas_of(a) is Some {
        let ra = rdatas_of(a)->0;
        let rb = rdatas_of(b)->0;
        assert forall|x: Seq<u8>| #[trigger] ra.contains(x) == rb.contains(x) by {
            lemma_rdatas_contain(a, x);
            lemma_rdatas_contain(b, x);
            if ra.contains(x) {
                let i = choose|i: int|
                    0 <= i < a.len() && rdata_of(
                        (#[trigger] a[i]).record_type,
                        a[i].value@,
                        a[i].priority,
                    ) == Some(x);
                assert(b.contains(a[i]));
                let j = choose|j: int| 0 <= j < b.len() && b[j] == a[i];
                assert(b[j] == a[i]);
            }
            if rb.contains(x) {
                let i = choose|i: int|
                    0 <= i < b.len() && rdata_of(
                        (#[trigger] b[i]).record_type,
                        b[i].value@,
                        b[i].priority,
                    ) == Some(x);
                assert(a.contains(b[i]));
                let j = choose|j: int| 0 <= j < a.len() && a[j] == b[i];
                assert(a[j] == b[i]);
            }
        }
        law_sorted_set_is_canonical(ra, rb);
    }
}

proof fn lemma_normalized_is_word(name: Seq<char>)
    requires
        forall|i: int| 0 <= i < name.len() ==> !white_space(#[trigger] name[i]),
    ensures
        is_word(normalized(name)),
{
    let t = strip_end(name, '.');
    lemma_strip_end_is_prefix(name, '.');
    let n = normalized(name);
    assert forall|i: int| 0 <= i < n.len() implies !white_space(#[trigger] n[i]) by {
        if i < t.len() {
            assert(n[i] == lower_char(t[i]));
            assert(t[i] == name[i]);
        }
    }
}

proof fn lemma_strip_end_is_prefix<T>(s: Seq<T>, x: T)
    ensures
        strip_end(s, x).len() <= s.len(),
        forall|i: int| 0 <= i < strip_end(s, x).len() ==> #[trigger] strip_end(s, x)[i] == s[i],
    decreases s.len(),
{
    if s.len() > 0 && s.last() == x {
        lemma_strip_end_is_prefix(s.drop_last(), x);
    }
}

/// A signature that the key accepts for an RRset's message makes a stored RRSIG that
/// verifies over that RRset under that key: what signing writes, verifying takes. The
/// zone must hold no white space, or the stored form would have too many fields.
pub proof fn law_signed_rrset_verifies(key: SigningKey, set: RrsetToSign<'_>, signature: Seq<u8>)
    requires
        message_for(key, set) is Ok,
        key_accepts(key.algorithm, key.public_key@, message_for(key, set)->Ok_0, signature),
        signature.len() > 0,
        forall|i: int|
            0 <= i < set.signer_zone@.len() ==> !white_space(#[trigger] set.signer_zone@[i]),
    ensures
        verification(
            rrsig_text(rrsig_for(key, set, signature)),
            set.owner@,
            set.rrset@,
            key.public_key@,
        ) == Ok::<(), VerifyError>(()),
{
    let r = rrsig_for(key, set, signature);
    lemma_normalized_is_word(set.signer_zone@);
    law_rrsig_value_round_trip(r);
    assert(signed_message(r, set.owner@, set.rrset@) == message_for(key, set));
}

} // verus!
