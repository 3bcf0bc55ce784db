//! Verifying RRsets against a zone's keys, and the keys against their anchors.
use hickory_proto::dnssec::rdata::{DNSSECRData, DNSKEY, DS};
use hickory_proto::dnssec::{Algorithm, PublicKeyBuf, Verifier};
use hickory_proto::rr::{DNSClass, Name as WireName, RData, Record};
use hickory_proto::serialize::binary::BinDecodable;
use vstd::prelude::*;
use vstd::string::*;

use crate::codec::{be16, be32, push_be16, push_be32};
use crate::dnssec::algorithm::{key_tag_of, sum_key_tag};
use crate::dnssec_validate::anchors::{anchor_keys, is_anchor, is_verifiable, verifiable};
use crate::dnssec_validate::denial::{display_type, type_text};
use crate::dnssec_validate::records::{
    at, ds_views, key_views, record_views, records_at, zone_keys, zone_keys_of, DataView, Dnskey,
    DnskeyView, Ds, DsView, RecordData, RecordView, Signature, SignatureView, WireRecord,
    TYPE_DNSKEY, TYPE_RRSIG,
};
use crate::dnssec_validate::verdict::{serial_before, serial_lt};
use crate::text::{decimal, decimal_string, join2, join3, join4, join5};
use crate::wire_name::{counted_labels, name_octets, name_text, same_name, trimmed_to, Name};

verus! {

/// What a validated signature reveals about how the RRset was produced.
#[derive(Debug)]
pub struct SignatureFacts {
    /// Set when the signature covered fewer labels than the owner has: the RRset was
    /// made from a wildcard, and this is the wildcard's parent.
    pub wildcard_closest_encloser: Option<Name>,
}

/// The facts, or the reason that there are none as text.
pub open spec fn facts(r: Result<SignatureFacts, String>) -> Result<
    Option<Seq<Seq<u8>>>,
    Seq<char>,
> {
    match r {
        Ok(f) => Ok(
            match f.wildcard_closest_encloser {
                Some(n) => Some(n@),
                None => None,
            },
        ),
        Err(e) => Err(e@),
    }
}

// ---------------------------------------------------------------------------
// hickory
// ---------------------------------------------------------------------------
/// Why `hickory` does not accept the signature in an RRSIG record over other records under
/// the key in a DNSKEY record; none where it does accept it. Each record is in wire form.
pub uninterp spec fn wire_failure(
    key: Seq<u8>,
    sig: Seq<u8>,
    records: Seq<Seq<u8>>,
) -> Option<Seq<char>>;

/// Whether a DS digest is the digest of a key at a zone; none where it cannot be computed.
pub uninterp spec fn digest_matches(
    ds: DsView,
    zone: Seq<Seq<u8>>,
    key: DnskeyView,
) -> Option<bool>;

/// How `hickory` prints an algorithm for debugging.
pub uninterp spec fn algorithm_text(number: u8) -> Seq<char>;

/// `hickory_proto::dnssec::Verifier::verify_rrsig` of the key in a DNSKEY record, for class
/// IN, the owner and the signature being those of an RRSIG record. Its answer, and the
/// text of its error, depend on the records' octets alone.
#[verifier::external_body]
fn verify_wire(key: &[u8], sig: &[u8], records: &[WireRecord]) -> (r: Result<(), String>)
    ensures
        match r {
            Ok(_) => wire_failure(key@, sig@, wires(record_views(records@))) is None,
            Err(e) => wire_failure(key@, sig@, wires(record_views(records@))) == Some(e@),
        },
{
    let check = || {
        let key = Record::from_bytes(key)?;
        let sig = Record::from_bytes(sig)?;
        let records: Result<Vec<_>, _> = records.iter().map(|r| Record::from_bytes(&r.wire)).collect();
        match (key.data(), sig.data()) {
            (RData::DNSSEC(DNSSECRData::DNSKEY(k)), RData::DNSSEC(DNSSECRData::RRSIG(s))) => {
                k.verify_rrsig(sig.name(), DNSClass::IN, s, records?.iter())
            },
            _ => Err("not a key and a signature".into()),
        }
    };
    check().map_err(|e: hickory_proto::ProtoError| e.to_string())
}

/// `hickory_proto::dnssec::rdata::DS::covers`. Its answer depends on the DS, the zone and
/// the key alone.
#[verifier::external_body]
fn ds_covers(ds: &Ds, zone: &Name, key: &Dnskey) -> (r: Option<bool>)
    ensures
        r == digest_matches(ds@, zone@, key@),
{
    let zone = WireName::from_labels(zone.labels.iter().map(|l| &l[..])).ok()?;
    let public = PublicKeyBuf::new(key.public_key.clone(), Algorithm::from_u8(key.algorithm));
    let key = DNSKEY::with_flags(key.flags, public);
    let algorithm = Algorithm::from_u8(ds.algorithm);
    let ds = DS::new(ds.key_tag, algorithm, ds.digest_type.into(), ds.digest.clone());
    ds.covers(&zone, &key).ok()
}

/// The debug form of `hickory_proto::dnssec::Algorithm`, which depends on the number
/// alone.
#[verifier::external_body]
fn display_algorithm(number: u8) -> (r: String)
    ensures
        r@ == algorithm_text(number),
{
    format!("{:?}", Algorithm::from_u8(number))
}

// ---------------------------------------------------------------------------
// Key tags
// ---------------------------------------------------------------------------
/// The RDATA of a DNSKEY.
pub open spec fn key_rdata(key: DnskeyView) -> Seq<u8> {
    be16(key.flags) + seq![3u8, key.algorithm] + key.public_key
}

/// The tag of a key whose RDATA fits a record.
pub open spec fn tag_of(key: DnskeyView) -> Option<u16> {
    if key.public_key.len() <= 65531 {
        Some(key_tag_of(key_rdata(key)))
    } else {
        None
    }
}

/// The key tag of a DNSKEY (RFC 4034 appendix B).
pub fn key_tag(key: &Dnskey) -> (r: Option<u16>)
    ensures
        r == tag_of(key@),
{
    if key.public_key.len() > 65531 {
        return None;
    }
    let rdata = encode_key(key);
    Some(sum_key_tag(rdata.as_slice()))
}

// ---------------------------------------------------------------------------
// Records for the verifier
// ---------------------------------------------------------------------------
/// The wire form of each record.
pub open spec fn wires(records: Seq<RecordView>) -> Seq<Seq<u8>> {
    Seq::new(records.len(), |i: int| records[i].wire)
}

/// The RDATA of an RRSIG.
pub open spec fn signature_rdata(sig: SignatureView) -> Seq<u8> {
    be16(sig.type_covered) + seq![sig.algorithm, sig.labels] + be32(sig.original_ttl) + be32(
        sig.expiration,
    ) + be32(sig.inception) + be16(sig.key_tag) + name_octets(sig.signer) + sig.signature
}

/// A record of class IN in wire form, its TTL zero.
pub open spec fn record_octets(owner: Seq<u8>, rtype: u16, rdata: Seq<u8>) -> Seq<u8> {
    owner + be16(rtype) + be16(1) + be32(0) + be16(rdata.len() as u16) + rdata
}

/// Why a key does not accept a signature over records; none where it does.
pub open spec fn signature_failure(
    key: DnskeyView,
    owner: Seq<Seq<u8>>,
    sig: SignatureView,
    records: Seq<RecordView>,
) -> Option<Seq<char>> {
    if signature_rdata(sig).len() > 0xffff {
        Some("the signature is longer than a record can hold"@)
    } else {
        wire_failure(
            record_octets(seq![0u8], TYPE_DNSKEY, key_rdata(key)),
            record_octets(name_octets(owner), TYPE_RRSIG, signature_rdata(sig)),
            wires(records),
        )
    }
}

fn encode_record(owner: Vec<u8>, rtype: u16, rdata: &[u8]) -> (r: Vec<u8>)
    requires
        rdata@.len() <= 0xffff,
    ensures
        r@ == record_octets(owner@, rtype, rdata@),
{
    let mut out = owner;
    push_be16(&mut out, rtype);
    push_be16(&mut out, 1);
    push_be32(&mut out, 0);
    push_be16(&mut out, rdata.len() as u16);
    out.extend_from_slice(rdata);
    assert(out@ =~= record_octets(owner@, rtype, rdata@));
    out
}

fn encode_key(key: &Dnskey) -> (r: Vec<u8>)
    ensures
        r@ == key_rdata(key@),
{
    let mut rdata: Vec<u8> = Vec::new();
    push_be16(&mut rdata, key.flags);
    rdata.push(3);
    rdata.push(key.algorithm);
    rdata.extend_from_slice(key.public_key.as_slice());
    assert(rdata@ =~= key_rdata(key@));
    rdata
}

fn encode_signature(sig: &Signature) -> (r: Vec<u8>)
    ensures
        r@ == signature_rdata(sig@),
{
    let mut rdata: Vec<u8> = Vec::new();
    push_be16(&mut rdata, sig.type_covered);
    rdata.push(sig.algorithm);
    rdata.push(sig.labels);
    push_be32(&mut rdata, sig.original_ttl);
    push_be32(&mut rdata, sig.expiration);
    push_be32(&mut rdata, sig.inception);
    push_be16(&mut rdata, sig.key_tag);
    let signer = sig.signer.to_wire();
    rdata.extend_from_slice(signer.as_slice());
    rdata.extend_from_slice(sig.signature.as_slice());
    assert(rdata@ =~= signature_rdata(sig@));
    rdata
}

/// Whether a key whose RDATA fits a record accepts a signature over records.
pub fn verify_signature(key: &Dnskey, owner: &Name, sig: &Signature, records: &[WireRecord]) -> (r:
    Result<(), String>)
    requires
        key.public_key@.len() <= 65531,
    ensures
        match r {
            Ok(_) => signature_failure(key@, owner@, sig@, record_views(records@)) is None,
            Err(e) => signature_failure(key@, owner@, sig@, record_views(records@)) == Some(e@),
        },
{
    let sig_rdata = encode_signature(sig);
    if sig_rdata.len() > 0xffff {
        return Err("the signature is longer than a record can hold".to_owned());
    }
    let mut root: Vec<u8> = Vec::new();
    root.push(0);
    assert(root@ =~= seq![0u8]);
    let rdata = encode_key(key);
    let key_record = encode_record(root, TYPE_DNSKEY, rdata.as_slice());
    let sig_record = encode_record(owner.to_wire(), TYPE_RRSIG, sig_rdata.as_slice());
    verify_wire(key_record.as_slice(), sig_record.as_slice(), records)
}

// ---------------------------------------------------------------------------
// One signature
// ---------------------------------------------------------------------------
pub open spec fn rrsig_over(owner: Seq<Seq<u8>>, rtype: u16) -> Seq<char> {
    "RRSIG over "@ + name_text(owner) + " "@ + type_text(rtype)
}

/// How it reads that a key is longer than the buffer that its tag is computed in.
pub open spec fn no_tag() -> Seq<char> {
    "could not compute key tag: maximum buffer size exceeded: 65535"@
}

/// Whether a key is a candidate for a signature: algorithm and tag agree. A tag is a
/// checksum, so several keys may be candidates.
pub open spec fn is_candidate(key: DnskeyView, sig: SignatureView) -> bool {
    key.algorithm == sig.algorithm && tag_of(key) == Some(sig.key_tag)
}

/// The keys from `i` on, tried in turn. Some key accepts the signature, or none does: then
/// whether a candidate was tried so far, and the last reason that came up.
pub open spec fn try_keys(
    keys: Seq<DnskeyView>,
    owner: Seq<Seq<u8>>,
    sig: SignatureView,
    records: Seq<RecordView>,
    i: int,
    tried: bool,
    last: Seq<char>,
) -> Result<(), (bool, Seq<char>)>
    decreases keys.len() - i,
{
    if i >= keys.len() {
        Err((tried, last))
    } else if keys[i].algorithm != sig.algorithm {
        try_keys(keys, owner, sig, records, i + 1, tried, last)
    } else if tag_of(keys[i]) is None {
        try_keys(keys, owner, sig, records, i + 1, tried, no_tag())
    } else if tag_of(keys[i]) != Some(sig.key_tag) {
        try_keys(keys, owner, sig, records, i + 1, tried, last)
    } else {
        match signature_failure(keys[i], owner, sig, records) {
            None => Ok(()),
            Some(e) => try_keys(
                keys,
                owner,
                sig,
                records,
                i + 1,
                true,
                "signature did not verify: "@ + e,
            ),
        }
    }
}

pub open spec fn no_match() -> Seq<char> {
    "no key matched the RRSIG's tag and algorithm"@
}

/// Whether one signature verifies an RRset: it is the zone's, now lies in its validity
/// window, it claims no more labels than the owner has, its algorithm is verifiable, and a
/// key of the zone accepts it. A signature over fewer labels than the owner has comes from
/// a wildcard, whose parent is given.
pub open spec fn verified_one(
    owner: Seq<Seq<u8>>,
    rtype: u16,
    rrset: Seq<RecordView>,
    sig: SignatureView,
    keys: Seq<DnskeyView>,
    zone: Seq<Seq<u8>>,
    now: u32,
) -> Result<Option<Seq<Seq<u8>>>, Seq<char>> {
    let over = rrsig_over(owner, rtype);
    if !same_name(sig.signer, zone) {
        Err(
            over + " is signed by "@ + name_text(sig.signer) + ", which is not the zone "@
                + name_text(zone),
        )
    } else if serial_before(now, sig.inception) {
        Err(over + " is not valid until "@ + decimal(sig.inception as nat))
    } else if serial_before(sig.expiration, now) {
        Err(over + " expired at "@ + decimal(sig.expiration as nat))
    } else if sig.labels > counted_labels(owner) {
        Err(
            over + " claims "@ + decimal(sig.labels as nat) + " labels, the name has "@
                + decimal(counted_labels(owner)),
        )
    } else if !verifiable(sig.algorithm) {
        Err(over + " uses unsupported algorithm "@ + algorithm_text(sig.algorithm))
    } else {
        match try_keys(keys, owner, sig, rrset, 0, false, no_match()) {
            Ok(_) => Ok(
                if sig.labels < counted_labels(owner) {
                    Some(trimmed_to(owner, sig.labels as int))
                } else {
                    None
                },
            ),
            Err((tried, last)) => if tried {
                Err(last)
            } else {
                Err(
                    over + " names key tag "@ + decimal(sig.key_tag as nat) + " algorithm "@
                        + algorithm_text(sig.algorithm) + ", which is not in the "@ + name_text(
                        zone,
                    ) + " DNSKEY RRset"@,
                )
            },
        }
    }
}

fn over_text(owner: &Name, rtype: u16) -> (r: String)
    ensures
        r@ == rrsig_over(owner@, rtype),
{
    let o = owner.text();
    let t = display_type(rtype);
    join4("RRSIG over ", o.as_str(), " ", t.as_str())
}

/// Tries each key on a signature.
fn find_key(keys: &[Dnskey], owner: &Name, sig: &Signature, rrset: &[WireRecord]) -> (r: Result<
    (),
    (bool, String),
>)
    ensures
        ({
            let all = key_views(keys@);
            let records = record_views(rrset@);
            match r {
                Ok(_) => try_keys(all, owner@, sig@, records, 0, false, no_match()) is Ok,
                Err((tried, last)) => try_keys(all, owner@, sig@, records, 0, false, no_match())
                    == Err::<(), (bool, Seq<char>)>((tried, last@)),
            }
        }),
{
    let ghost all = key_views(keys@);
    let ghost records = record_views(rrset@);
    let mut tried = false;
    let mut last = "no key matched the RRSIG's tag and algorithm".to_owned();
    let mut i: usize = 0;
    while i < keys.len()
        invariant
            i <= keys.len(),
            all == key_views(keys@),
            records == record_views(rrset@),
            try_keys(all, owner@, sig@, records, 0, false, no_match()) == try_keys(
                all,
                owner@,
                sig@,
                records,
                i as int,
                tried,
                last@,
            ),
        decreases keys.len() - i,
    {
        assert(all[i as int] == keys@[i as int]@);
        if keys[i].algorithm == sig.algorithm {
            match key_tag(&keys[i]) {
                None => {
                    last = "could not compute key tag: maximum buffer size exceeded: 65535".to_owned();
                },
                Some(tag) => {
                    if tag == sig.key_tag {
                        match verify_signature(&keys[i], owner, sig, rrset) {
                            Ok(_) => {
                                return Ok(());
                            },
                            Err(e) => {
                                tried = true;
                                last = join2("signature did not verify: ", e.as_str());
                            },
                        }
                    }
                },
            }
        }
        i = i + 1;
    }
    Err((tried, last))
}

/// One RRSIG against one RRset.
pub fn verify_one(
    owner: &Name,
    rtype: u16,
    rrset: &[WireRecord],
    sig: &Signature,
    keys: &[Dnskey],
    zone: &Name,
    now: u32,
) -> (r: Result<SignatureFacts, String>)
    ensures
        facts(r) == verified_one(
            owner@,
            rtype,
            record_views(rrset@),
            sig@,
            key_views(keys@),
            zone@,
            now,
        ),
{
    let over = over_text(owner, rtype);
    if !sig.signer.is(zone) {
        let signer = sig.signer.text();
        let z = zone.text();
        return Err(
            join5(
                over.as_str(),
                " is signed by ",
                signer.as_str(),
                ", which is not the zone ",
                z.as_str(),
            ),
        );
    }
    if serial_lt(now, sig.inception) {
        let t = decimal_string(sig.inception as u64);
        return Err(join3(over.as_str(), " is not valid until ", t.as_str()));
    }
    if serial_lt(sig.expiration, now) {
        let t = decimal_string(sig.expiration as u64);
        return Err(join3(over.as_str(), " expired at ", t.as_str()));
    }
    let owner_labels: usize = owner.num_labels();
    if sig.labels as usize > owner_labels {
        let claimed = decimal_string(sig.labels as u64);
        let has = decimal_string(owner_labels as u64);
        return Err(
            join5(
                over.as_str(),
                " claims ",
                claimed.as_str(),
                " labels, the name has ",
                has.as_str(),
            ),
        );
    }
    if !is_verifiable(sig.algorithm) {
        let a = display_algorithm(sig.algorithm);
        return Err(join3(over.as_str(), " uses unsupported algorithm ", a.as_str()));
    }
    match find_key(keys, owner, sig, rrset) {
        Ok(_) => {
            let wildcard = if (sig.labels as usize) < owner_labels {
                Some(owner.trim_to(sig.labels as usize))
            } else {
                None
            };
            Ok(SignatureFacts { wildcard_closest_encloser: wildcard })
        },
        Err((tried, last)) => {
            if tried {
                Err(last)
            } else {
                let tag = decimal_string(sig.key_tag as u64);
                let a = display_algorithm(sig.algorithm);
                let z = zone.text();
                let head = join5(
                    over.as_str(),
                    " names key tag ",
                    tag.as_str(),
                    " algorithm ",
                    a.as_str(),
                );
                Err(
                    join4(head.as_str(), ", which is not in the ", z.as_str(), " DNSKEY RRset"),
                )
            }
        },
    }
}

// ---------------------------------------------------------------------------
// One RRset
// ---------------------------------------------------------------------------
/// The signature in a record that covers the RRset at `owner` of type `rtype`.
pub open spec fn covering_signature(r: RecordView, owner: Seq<Seq<u8>>, rtype: u16) -> Option<
    SignatureView,
> {
    match r.data {
        DataView::Rrsig(s) => if same_name(r.name, owner) && s.type_covered == rtype {
            Some(s)
        } else {
            None
        },
        _ => None,
    }
}

/// Whether a section has a signature over the RRset at `owner` of type `rtype`.
pub open spec fn has_covering(sigs: Seq<RecordView>, owner: Seq<Seq<u8>>, rtype: u16) -> bool {
    exists|i: int|
        0 <= i < sigs.len() && covering_signature(#[trigger] sigs[i], owner, rtype) is Some
}

/// The signatures from `i` on, tried in turn: what the first that verifies reveals, or the
/// reason of the last that does not.
pub open spec fn try_signatures(
    owner: Seq<Seq<u8>>,
    rtype: u16,
    rrset: Seq<RecordView>,
    sigs: Seq<RecordView>,
    keys: Seq<DnskeyView>,
    zone: Seq<Seq<u8>>,
    now: u32,
    i: int,
    last: Seq<char>,
) -> Result<Option<Seq<Seq<u8>>>, Seq<char>>
    decreases sigs.len() - i,
{
    if i >= sigs.len() {
        Err(last)
    } else {
        match covering_signature(sigs[i], owner, rtype) {
            None => try_signatures(owner, rtype, rrset, sigs, keys, zone, now, i + 1, last),
            Some(s) => match verified_one(owner, rtype, rrset, s, keys, zone, now) {
                Ok(f) => Ok(f),
                Err(e) => try_signatures(owner, rtype, rrset, sigs, keys, zone, now, i + 1, e),
            },
        }
    }
}

/// Whether some signature of a section verifies an RRset.
pub open spec fn verified_rrset(
    owner: Seq<Seq<u8>>,
    rtype: u16,
    rrset: Seq<RecordView>,
    sigs: Seq<RecordView>,
    keys: Seq<DnskeyView>,
    zone: Seq<Seq<u8>>,
    now: u32,
) -> Result<Option<Seq<Seq<u8>>>, Seq<char>> {
    if rrset.len() == 0 {
        Err("nothing to verify for "@ + name_text(owner) + " "@ + type_text(rtype))
    } else if keys.len() == 0 {
        Err("no DNSKEYs available for "@ + name_text(zone))
    } else if !has_covering(sigs, owner, rtype) {
        Err("no RRSIG covers "@ + name_text(owner) + " "@ + type_text(rtype))
    } else {
        match try_signatures(owner, rtype, rrset, sigs, keys, zone, now, 0, Seq::empty()) {
            Ok(f) => Ok(f),
            Err(e) => Err(
                "no RRSIG validated "@ + name_text(owner) + " "@ + type_text(rtype) + ": "@ + e,
            ),
        }
    }
}

/// Verifies one RRset against a zone's validated DNSKEY set. `rrset` holds the records
/// sharing `owner` and `rtype`; `sigs` holds the RRSIG records at `owner`.
pub fn verify_rrset(
    owner: &Name,
    rtype: u16,
    rrset: &[WireRecord],
    sigs: &[WireRecord],
    keys: &[Dnskey],
    zone: &Name,
    now: u32,
) -> (r: Result<SignatureFacts, String>)
    ensures
        facts(r) == verified_rrset(
            owner@,
            rtype,
            record_views(rrset@),
            record_views(sigs@),
            key_views(keys@),
            zone@,
            now,
        ),
{
    let o = owner.text();
    let t = display_type(rtype);
    if rrset.len() == 0 {
        return Err(join4("nothing to verify for ", o.as_str(), " ", t.as_str()));
    }
    if keys.len() == 0 {
        let z = zone.text();
        return Err(join2("no DNSKEYs available for ", z.as_str()));
    }
    let ghost all = record_views(sigs@);
    let ghost set = record_views(rrset@);
    let ghost ks = key_views(keys@);
    let mut found = false;
    let mut last = String::new();
    let mut i: usize = 0;
    while i < sigs.len()
        invariant
            i <= sigs.len(),
            all == record_views(sigs@),
            set == record_views(rrset@),
            ks == key_views(keys@),
            set.len() > 0,
            ks.len() > 0,
            found == exists|k: int|
                0 <= k < i && covering_signature(#[trigger] all[k], owner@, rtype) is Some,
            try_signatures(owner@, rtype, set, all, ks, zone@, now, 0, Seq::empty())
                == try_signatures(owner@, rtype, set, all, ks, zone@, now, i as int, last@),
        decreases sigs.len() - i,
    {
        assert(all[i as int] == sigs@[i as int]@);
        if let RecordData::Rrsig(sig) = &sigs[i].data {
            if sig.type_covered == rtype && sigs[i].name.is(owner) {
                found = true;
                assert(covering_signature(all[i as int], owner@, rtype) is Some);
                match verify_one(owner, rtype, rrset, sig, keys, zone, now) {
                    Ok(f) => {
                        assert(has_covering(all, owner@, rtype));
                        return Ok(f);
                    },
                    Err(e) => {
                        last = e;
                    },
                }
            }
        }
        i = i + 1;
    }
    if !found {
        return Err(join4("no RRSIG covers ", o.as_str(), " ", t.as_str()));
    }
    let head = join5("no RRSIG validated ", o.as_str(), " ", t.as_str(), ": ");
    Err(join2(head.as_str(), last.as_str()))
}

// ---------------------------------------------------------------------------
// A zone's keys
// ---------------------------------------------------------------------------
/// Where the keys that anchor a DNSKEY RRset come from.
pub enum KeySource<'a> {
    /// The top of the chain: the configured trust anchors.
    Anchors(&'a hickory_proto::dnssec::TrustAnchors),
    /// The parent zone's DS RRset, itself already validated.
    Ds(&'a [Ds]),
}

/// Whether a source vouches for a key of `zone`.
pub open spec fn vouches(source: KeySource<'_>, zone: Seq<Seq<u8>>, key: DnskeyView) -> bool {
    match source {
        KeySource::Anchors(anchors) => anchor_keys(*anchors).contains(
            (key.public_key, key.algorithm),
        ),
        KeySource::Ds(set) => exists|i: int|
            0 <= i < set@.len() && verifiable((#[trigger] ds_views(set@)[i]).algorithm)
                && digest_matches(ds_views(set@)[i], zone, key) == Some(true),
    }
}

/// The keys that a source vouches for, in their order.
pub open spec fn anchored_keys(
    keys: Seq<DnskeyView>,
    source: KeySource<'_>,
    zone: Seq<Seq<u8>>,
) -> Seq<DnskeyView>
    decreases keys.len(),
{
    if keys.len() == 0 {
        Seq::empty()
    } else {
        let before = anchored_keys(keys.drop_last(), source, zone);
        if vouches(source, zone, keys.last()) {
            before.push(keys.last())
        } else {
            before
        }
    }
}

pub open spec fn unanchored(source: KeySource<'_>, zone: Seq<Seq<u8>>, keys: nat) -> Seq<char> {
    match source {
        KeySource::Anchors(_) => "no DNSKEY at "@ + name_text(zone)
            + " matches a configured trust anchor ("@ + decimal(keys) + " key(s) offered)"@,
        KeySource::Ds(set) => "no DNSKEY at "@ + name_text(zone)
            + " is covered by any of the "@ + decimal(set@.len())
            + " DS record(s) the parent published"@,
    }
}

/// The keys of a zone, where a key that the source vouches for signed the set of them.
pub open spec fn validated_keys(
    zone: Seq<Seq<u8>>,
    records: Seq<RecordView>,
    sigs: Seq<RecordView>,
    source: KeySource<'_>,
    now: u32,
) -> Result<Seq<DnskeyView>, Seq<char>> {
    let keys = zone_keys_of(records, zone);
    let anchored = anchored_keys(keys, source, zone);
    if keys.len() == 0 {
        Err(name_text(zone) + " returned no usable DNSKEY records"@)
    } else if anchored.len() == 0 {
        Err(unanchored(source, zone, keys.len()))
    } else {
        match verified_rrset(
            zone,
            TYPE_DNSKEY,
            at(records, zone, TYPE_DNSKEY),
            sigs,
            anchored,
            zone,
            now,
        ) {
            Ok(_) => Ok(keys),
            Err(e) => Err(
                name_text(zone) + " DNSKEY RRset is not signed by an anchored key: "@ + e,
            ),
        }
    }
}

/// Whether any DS in the set names an algorithm that can be verified (RFC 6840 section
/// 5.11).
pub fn ds_algorithms_supported(ds: &[Ds]) -> (r: bool)
    ensures
        r == exists|i: int| 0 <= i < ds@.len() && verifiable((#[trigger] ds@[i]).algorithm),
{
    let mut i: usize = 0;
    while i < ds.len()
        invariant
            i <= ds.len(),
            forall|k: int| 0 <= k < i ==> !verifiable((#[trigger] ds@[k]).algorithm),
        decreases ds.len() - i,
    {
        if is_verifiable(ds[i].algorithm) {
            return true;
        }
        i = i + 1;
    }
    false
}

fn is_vouched(source: &KeySource<'_>, zone: &Name, key: &Dnskey) -> (r: bool)
    ensures
        r == vouches(*source, zone@, key@),
{
    match source {
        KeySource::Anchors(anchors) => is_anchor(
            anchors,
            key.public_key.as_slice(),
            key.algorithm,
        ),
        KeySource::Ds(set) => {
            let ghost views = ds_views(set@);
            let mut i: usize = 0;
            while i < set.len()
                invariant
                    i <= set.len(),
                    views == ds_views(set@),
                    *source == KeySource::Ds(*set),
                    forall|k: int|
                        0 <= k < i ==> !(verifiable((#[trigger] views[k]).algorithm)
                            && digest_matches(views[k], zone@, key@) == Some(true)),
                decreases set.len() - i,
            {
                assert(views[i as int] == set@[i as int]@);
                if is_verifiable(set[i].algorithm) {
                    if let Some(true) = ds_covers(&set[i], zone, key) {
                        assert(verifiable(ds_views(set@)[i as int].algorithm));
                        return true;
                    }
                }
                i = i + 1;
            }
            false
        },
    }
}

/// Validates a zone's DNSKEY RRset and returns the keys that may then be used to verify
/// everything else in that zone.
pub fn validate_dnskey_rrset(
    zone: &Name,
    records: &[WireRecord],
    sigs: &[WireRecord],
    source: &KeySource<'_>,
    now: u32,
) -> (r: Result<Vec<Dnskey>, String>)
    ensures
        ({
            let want = validated_keys(
                zone@,
                record_views(records@),
                record_views(sigs@),
                *source,
                now,
            );
            match r {
                Ok(keys) => want == Ok::<Seq<DnskeyView>, Seq<char>>(key_views(keys@)),
                Err(e) => want == Err::<Seq<DnskeyView>, Seq<char>>(e@),
            }
        }),
{
    let keys = zone_keys(records, zone);
    let ghost views = key_views(keys@);
    let z = zone.text();
    if keys.len() == 0 {
        return Err(join2(z.as_str(), " returned no usable DNSKEY records"));
    }
    let mut anchored: Vec<Dnskey> = Vec::new();
    let mut i: usize = 0;
    proof {
        assert(views.subrange(0, 0) =~= Seq::empty());
        assert(key_views(anchored@) =~= Seq::empty());
    }
    while i < keys.len()
        invariant
            i <= keys.len(),
            views == key_views(keys@),
            key_views(anchored@) == anchored_keys(views.subrange(0, i as int), *source, zone@),
        decreases keys.len() - i,
    {
        let ghost before = key_views(anchored@);
        proof {
            let p = views.subrange(0, i + 1);
            assert(p.drop_last() =~= views.subrange(0, i as int));
            assert(p.last() == keys@[i as int]@);
        }
        if is_vouched(source, zone, &keys[i]) {
            anchored.push(keys[i].clone());
            assert(key_views(anchored@) =~= before.push(keys@[i as int]@));
        }
        i = i + 1;
    }
    assert(views.subrange(0, i as int) =~= views);
    if anchored.len() == 0 {
        return Err(
            match source {
                KeySource::Anchors(_) => {
                    let n = decimal_string(keys.len() as u64);
                    join5(
                        "no DNSKEY at ",
                        z.as_str(),
                        " matches a configured trust anchor (",
                        n.as_str(),
                        " key(s) offered)",
                    )
                },
                KeySource::Ds(set) => {
                    let n = decimal_string(set.len() as u64);
                    join5(
                        "no DNSKEY at ",
                        z.as_str(),
                        " is covered by any of the ",
                        n.as_str(),
                        " DS record(s) the parent published",
                    )
                },
            },
        );
    }
    let set = records_at(records, zone, TYPE_DNSKEY);
    match verify_rrset(
        zone,
        TYPE_DNSKEY,
        set.as_slice(),
        sigs,
        anchored.as_slice(),
        zone,
        now,
    ) {
        Ok(_) => Ok(keys),
        Err(e) => Err(
            join3(
                z.as_str(),
                " DNSKEY RRset is not signed by an anchored key: ",
                e.as_str(),
            ),
        ),
    }
}

// ---------------------------------------------------------------------------
// Laws
// ---------------------------------------------------------------------------
proof fn lemma_try_keys(
    keys: Seq<DnskeyView>,
    owner: Seq<Seq<u8>>,
    sig: SignatureView,
    records: Seq<RecordView>,
    i: int,
    tried: bool,
    last: Seq<char>,
)
    requires
        0 <= i <= keys.len(),
        try_keys(keys, owner, sig, records, i, tried, last) is Ok,
    ensures
        exists|k: int|
            i <= k < keys.len() && is_candidate(#[trigger] keys[k], sig) && signature_failure(
                keys[k],
                owner,
                sig,
                records,
            ) is None,
    decreases keys.len() - i,
{
    if i < keys.len() {
        if keys[i].algorithm != sig.algorithm {
            lemma_try_keys(keys, owner, sig, records, i + 1, tried, last);
        } else if tag_of(keys[i]) is None {
            lemma_try_keys(keys, owner, sig, records, i + 1, tried, no_tag());
        } else if tag_of(keys[i]) != Some(sig.key_tag) {
            lemma_try_keys(keys, owner, sig, records, i + 1, tried, last);
        } else {
            match signature_failure(keys[i], owner, sig, records) {
                None => {
                    assert(is_candidate(keys[i], sig));
                },
                Some(e) => {
                    lemma_try_keys(
                        keys,
                        owner,
                        sig,
                        records,
                        i + 1,
                        true,
                        "signature did not verify: "@ + e,
                    );
                },
            }
        }
    }
}

/// Whether a signature is evidence for an RRset: it covers it, the zone made it, it is
/// valid now, and a key accepts it.
pub open spec fn is_evidence(
    r: RecordView,
    owner: Seq<Seq<u8>>,
    rtype: u16,
    rrset: Seq<RecordView>,
    keys: Seq<DnskeyView>,
    zone: Seq<Seq<u8>>,
    now: u32,
) -> bool {
    match covering_signature(r, owner, rtype) {
        None => false,
        Some(s) => {
            &&& same_name(s.signer, zone)
            &&& !serial_before(now, s.inception)
            &&& !serial_before(s.expiration, now)
            &&& s.labels <= counted_labels(owner)
            &&& verifiable(s.algorithm)
            &&& exists|k: int|
                0 <= k < keys.len() && is_candidate(#[trigger] keys[k], s) && signature_failure(
                    keys[k],
                    owner,
                    s,
                    rrset,
                ) is None
        },
    }
}

proof fn lemma_try_signatures(
    owner: Seq<Seq<u8>>,
    rtype: u16,
    rrset: Seq<RecordView>,
    sigs: Seq<RecordView>,
    keys: Seq<DnskeyView>,
    zone: Seq<Seq<u8>>,
    now: u32,
    i: int,
    last: Seq<char>,
)
    requires
        0 <= i <= sigs.len(),
        try_signatures(owner, rtype, rrset, sigs, keys, zone, now, i, last) is Ok,
    ensures
        exists|k: int|
            i <= k < sigs.len() && is_evidence(
                #[trigger] sigs[k],
                owner,
                rtype,
                rrset,
                keys,
                zone,
                now,
            ),
    decreases sigs.len() - i,
{
    if i < sigs.len() {
        match covering_signature(sigs[i], owner, rtype) {
            None => {
                lemma_try_signatures(owner, rtype, rrset, sigs, keys, zone, now, i + 1, last);
            },
            Some(s) => match verified_one(owner, rtype, rrset, s, keys, zone, now) {
                Ok(_) => {
                    lemma_try_keys(keys, owner, s, rrset, 0, false, no_match());
                    assert(is_evidence(sigs[i], owner, rtype, rrset, keys, zone, now));
                },
                Err(e) => {
                    lemma_try_signatures(owner, rtype, rrset, sigs, keys, zone, now, i + 1, e);
                },
            },
        }
    }
}

/// An RRset verifies only on evidence: a signature over it by the zone itself, inside its
/// validity window, that a key of the zone with the signature's tag and algorithm accepts.
pub proof fn law_verified_means_evidence(
    owner: Seq<Seq<u8>>,
    rtype: u16,
    rrset: Seq<RecordView>,
    sigs: Seq<RecordView>,
    keys: Seq<DnskeyView>,
    zone: Seq<Seq<u8>>,
    now: u32,
)
    requires
        verified_rrset(owner, rtype, rrset, sigs, keys, zone, now) is Ok,
    ensures
        exists|k: int|
            0 <= k < sigs.len() && is_evidence(
                #[trigger] sigs[k],
                owner,
                rtype,
                rrset,
                keys,
                zone,
                now,
            ),
{
    lemma_try_signatures(owner, rtype, rrset, sigs, keys, zone, now, 0, Seq::empty());
}

proof fn lemma_anchored_are_vouched(
    keys: Seq<DnskeyView>,
    source: KeySource<'_>,
    zone: Seq<Seq<u8>>,
    i: int,
)
    requires
        0 <= i < anchored_keys(keys, source, zone).len(),
    ensures
        vouches(source, zone, anchored_keys(keys, source, zone)[i]),
        keys.contains(anchored_keys(keys, source, zone)[i]),
    decreases keys.len(),
{
    let d = keys.drop_last();
    let before = anchored_keys(d, source, zone);
    if i < before.len() {
        lemma_anchored_are_vouched(d, source, zone, i);
        let k = choose|k: int| 0 <= k < d.len() && d[k] == before[i];
        assert(keys[k] == before[i]);
    } else {
        assert(keys[keys.len() - 1] == keys.last());
    }
}

/// A zone's keys are trusted only where one of them that the source vouches for accepts a
/// signature over the set of them: a key that was merely appended gains nothing.
pub proof fn law_keys_are_signed_by_an_anchored_key(
    zone: Seq<Seq<u8>>,
    records: Seq<RecordView>,
    sigs: Seq<RecordView>,
    source: KeySource<'_>,
    now: u32,
)
    requires
        validated_keys(zone, records, sigs, source, now) is Ok,
    ensures
        exists|key: DnskeyView, k: int|
            {
                &&& 0 <= k < sigs.len()
                &&& zone_keys_of(records, zone).contains(key)
                &&& vouches(source, zone, key)
                &&& #[trigger] is_evidence(
                    sigs[k],
                    zone,
                    TYPE_DNSKEY,
                    at(records, zone, TYPE_DNSKEY),
                    seq![key],
                    zone,
                    now,
                )
            },
{
    let keys = zone_keys_of(records, zone);
    let anchored = anchored_keys(keys, source, zone);
    let set = at(records, zone, TYPE_DNSKEY);
    law_verified_means_evidence(zone, TYPE_DNSKEY, set, sigs, anchored, zone, now);
    let k = choose|k: int|
        0 <= k < sigs.len() && is_evidence(
            #[trigger] sigs[k],
            zone,
            TYPE_DNSKEY,
            set,
            anchored,
            zone,
            now,
        );
    let s = covering_signature(sigs[k], zone, TYPE_DNSKEY)->0;
    let j = choose|j: int|
        0 <= j < anchored.len() && is_candidate(#[trigger] anchored[j], s) && signature_failure(
            anchored[j],
            zone,
            s,
            set,
        ) is None;
    lemma_anchored_are_vouched(keys, source, zone, j);
    let key = anchored[j];
    assert(seq![key][0] == key);
    assert(is_candidate(seq![key][0], s));
    assert(is_evidence(sigs[k], zone, TYPE_DNSKEY, set, seq![key], zone, now));
}

} // verus!
