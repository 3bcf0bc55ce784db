//! Proofs that something does not exist, from NSEC and NSEC3 records whose signatures
//! have already been verified.
use vstd::prelude::*;
use vstd::string::*;
use vstd::utf8::encode_utf8;

use crate::dnssec_validate::base32::{base32_text, base32hex};
use crate::names::{octets_lt, octets_precede};
use crate::text::{
    byte_strings, decimal, decimal_string, eq_text, from_utf8_lossy, join2, join3, join4, join5,
    join7, lossy_text, to_uppercase, uppercase,
};
use crate::wire_name::{
    counted_labels, is_zone_of, name_lt, name_text, parent_of, same_name, trimmed_to, wildcard_at,
    Name,
};

verus! {

/// The most NSEC3 iterations that are computed (RFC 9276 section 3.2).
pub const MAX_NSEC3_ITERATIONS: u16 = 100;

/// The code of NS records.
pub const TYPE_NS: u16 = 2;

/// The code of CNAME records.
pub const TYPE_CNAME: u16 = 5;

/// The code of SOA records.
pub const TYPE_SOA: u16 = 6;

/// The code of DS records.
pub const TYPE_DS: u16 = 43;

/// The data of an NSEC record as it arrived: the next name, and the types present.
#[derive(Debug)]
pub struct NsecData {
    pub next: Name,
    pub types: Vec<u16>,
}

/// The data of an NSEC3 record as it arrived.
#[derive(Debug)]
pub struct Nsec3Data {
    pub hash_algorithm: u8,
    pub opt_out: bool,
    pub iterations: u16,
    pub salt: Vec<u8>,
    pub next: Vec<u8>,
    pub types: Vec<u16>,
}

/// The NSEC and NSEC3 records of an authority section, with their owners.
///
/// Only records whose signatures have verified belong in it: an unverified denial is
/// evidence of nothing.
#[derive(Debug)]
pub struct Denial {
    pub nsec: Vec<(Name, NsecData)>,
    pub nsec3: Vec<(Name, Nsec3Data)>,
}

/// The outcome of a denial-of-existence proof.
#[derive(Debug, Clone, Copy, PartialEq, Eq, Structural)]
pub enum Denied {
    /// The denial is proven.
    Proven,
    /// NSEC3 opt-out applies: the span may hold names that were never signed, so nothing
    /// under it can be proven absent (RFC 5155 section 6).
    OptedOut,
}

impl Default for Denial {
    fn default() -> (r: Denial)
        ensures
            r.nsec@.len() == 0,
            r.nsec3@.len() == 0,
    {
        Denial { nsec: Vec::new(), nsec3: Vec::new() }
    }
}

impl Denial {
    /// Whether there is no record to prove anything with.
    pub fn is_empty(&self) -> (r: bool)
        ensures
            r == (self.nsec@.len() == 0 && self.nsec3@.len() == 0),
    {
        self.nsec.len() == 0 && self.nsec3.len() == 0
    }
}

/// The result of a proof, its reason for failing taken as text.
pub open spec fn outcome(r: Result<Denied, String>) -> Result<Denied, Seq<char>> {
    match r {
        Ok(d) => Ok(d),
        Err(e) => Err(e@),
    }
}

// ---------------------------------------------------------------------------
// NSEC
// ---------------------------------------------------------------------------
/// The first record at or after `i` that is owned by `name`; the number of records where
/// there is none.
pub open spec fn nsec_index(nsec: Seq<(Name, NsecData)>, name: Seq<Seq<u8>>, i: int) -> int
    decreases nsec.len() - i,
{
    if i >= nsec.len() {
        nsec.len() as int
    } else if same_name(nsec[i].0@, name) {
        i
    } else {
        nsec_index(nsec, name, i + 1)
    }
}

/// Whether some record is owned by `name`.
pub open spec fn nsec_owns(nsec: Seq<(Name, NsecData)>, name: Seq<Seq<u8>>) -> bool {
    nsec_index(nsec, name, 0) < nsec.len()
}

/// Whether the span from `owner` to `next` covers `name`; the last span of a zone wraps.
pub open spec fn span_covers(owner: Seq<Seq<u8>>, next: Seq<Seq<u8>>, name: Seq<Seq<u8>>) -> bool {
    if name_lt(owner, next) {
        name_lt(owner, name) && name_lt(name, next)
    } else {
        name_lt(owner, name) || name_lt(name, next)
    }
}

/// Whether the span of some record covers `name`.
pub open spec fn nsec_covered(nsec: Seq<(Name, NsecData)>, name: Seq<Seq<u8>>) -> bool {
    exists|i: int| 0 <= i < nsec.len() && span_covers((#[trigger] nsec[i]).0@, nsec[i].1.next@, name)
}

proof fn lemma_nsec_index(nsec: Seq<(Name, NsecData)>, name: Seq<Seq<u8>>, i: int)
    requires
        0 <= i <= nsec.len(),
    ensures
        i <= nsec_index(nsec, name, i) <= nsec.len(),
        nsec_index(nsec, name, i) < nsec.len() ==> same_name(
            nsec[nsec_index(nsec, name, i)].0@,
            name,
        ),
        forall|k: int| i <= k < nsec_index(nsec, name, i) ==> !same_name(nsec[k].0@, name),
    decreases nsec.len() - i,
{
    if i < nsec.len() && !same_name(nsec[i].0@, name) {
        lemma_nsec_index(nsec, name, i + 1);
    }
}

fn find_nsec(nsec: &Vec<(Name, NsecData)>, name: &Name) -> (r: usize)
    ensures
        r == nsec_index(nsec@, name@, 0),
        r <= nsec@.len(),
{
    let mut i: usize = 0;
    while i < nsec.len()
        invariant
            i <= nsec.len(),
            nsec_index(nsec@, name@, 0) == nsec_index(nsec@, name@, i as int),
        decreases nsec.len() - i,
    {
        if nsec[i].0.is(name) {
            return i;
        }
        i = i + 1;
    }
    nsec.len()
}

/// Whether some NSEC's span covers `name`.
pub fn nsec_covers_name(denial: &Denial, name: &Name) -> (r: bool)
    ensures
        r == nsec_covered(denial.nsec@, name@),
{
    let mut i: usize = 0;
    while i < denial.nsec.len()
        invariant
            i <= denial.nsec.len(),
            forall|k: int|
                0 <= k < i ==> !span_covers(
                    (#[trigger] denial.nsec@[k]).0@,
                    denial.nsec@[k].1.next@,
                    name@,
                ),
        decreases denial.nsec.len() - i,
    {
        let owner = &denial.nsec[i].0;
        let next = &denial.nsec[i].1.next;
        let covered = if owner.precedes(next) {
            owner.precedes(name) && name.precedes(next)
        } else {
            owner.precedes(name) || name.precedes(next)
        };
        if covered {
            assert(span_covers(denial.nsec@[i as int].0@, denial.nsec@[i as int].1.next@, name@));
            return true;
        }
        i = i + 1;
    }
    false
}

/// The wildcard that could have answered for `qname` in `zone`.
pub open spec fn wildcard_for(qname: Seq<Seq<u8>>, zone: Seq<Seq<u8>>) -> Seq<Seq<u8>> {
    if is_zone_of(zone, parent_of(qname)) {
        wildcard_at(parent_of(qname))
    } else {
        wildcard_at(zone)
    }
}

/// The wildcard that could have answered for `qname`: `*` in front of its parent, which
/// is never above the zone's apex.
pub fn wildcard_of(qname: &Name, zone: &Name) -> (r: Name)
    ensures
        r@ == wildcard_for(qname@, zone@),
{
    let parent = qname.base_name();
    if zone.zone_of(&parent) {
        parent.prepend_wildcard()
    } else {
        zone.prepend_wildcard()
    }
}

/// The ancestor of `qname` with one label more than `encloser`.
pub open spec fn next_closer(qname: Seq<Seq<u8>>, encloser: Seq<Seq<u8>>) -> Option<Seq<Seq<u8>>> {
    if counted_labels(encloser) >= counted_labels(qname) {
        None
    } else {
        Some(trimmed_to(qname, counted_labels(encloser) as int + 1))
    }
}

/// The ancestor of `qname` that is exactly one label longer than `encloser`.
pub fn next_closer_name(qname: &Name, encloser: &Name) -> (r: Option<Name>)
    ensures
        match r {
            Some(n) => next_closer(qname@, encloser@) == Some(n@),
            None => next_closer(qname@, encloser@) is None,
        },
{
    let q: usize = qname.num_labels();
    let e: usize = encloser.num_labels();
    if e >= q {
        None
    } else {
        Some(qname.trim_to(e + 1))
    }
}

// ---------------------------------------------------------------------------
// NSEC3
// ---------------------------------------------------------------------------
/// The NSEC3 digest of a name, or why there is none.
pub uninterp spec fn nsec3_digest(
    salt: Seq<u8>,
    labels: Seq<Seq<u8>>,
    iterations: u16,
) -> Result<Seq<u8>, Seq<char>>;

/// `hickory_proto::dnssec::Nsec3HashAlgorithm::hash` with SHA-1. The digest, or the text
/// of the error, depends on the salt, the name and the iteration count alone.
#[verifier::external_body]
fn hash_name(salt: &[u8], labels: &Vec<Vec<u8>>, iterations: u16) -> (r: Result<Vec<u8>, String>)
    ensures
        match r {
            Ok(v) => nsec3_digest(salt@, byte_strings(labels@), iterations) == Ok::<
                Seq<u8>,
                Seq<char>,
            >(v@),
            Err(e) => nsec3_digest(salt@, byte_strings(labels@), iterations) == Err::<
                Seq<u8>,
                Seq<char>,
            >(e@),
        },
{
    let name = hickory_proto::rr::Name::from_labels(labels.iter().map(|l| l.as_slice()));
    let name = name.map_err(|e| e.to_string())?;
    let algorithm = hickory_proto::dnssec::Nsec3HashAlgorithm::SHA1;
    let digest = algorithm.hash(salt, &name, iterations).map_err(|e| e.to_string())?;
    Ok(digest.as_ref().to_vec())
}

/// How `hickory` displays a record type.
pub uninterp spec fn type_text(code: u16) -> Seq<char>;

/// `hickory_proto::rr::RecordType`'s `to_string`, which depends on the code alone.
#[verifier::external_body]
pub(crate) fn display_type(code: u16) -> (r: String)
    ensures
        r@ == type_text(code),
{
    hickory_proto::rr::RecordType::from(code).to_string()
}

/// The hash of a name under a record's parameters in base32hex, or why there is none.
pub open spec fn hash_text(nsec3: Nsec3Data, name: Seq<Seq<u8>>) -> Result<Seq<char>, Seq<char>> {
    if nsec3.iterations > MAX_NSEC3_ITERATIONS {
        Err(
            "NSEC3 iteration count "@ + decimal(nsec3.iterations as nat) + " exceeds the "@
                + decimal(MAX_NSEC3_ITERATIONS as nat)
                + " we are willing to compute (RFC 9276)"@,
        )
    } else if nsec3.hash_algorithm != 1 {
        Err(
            "unsupported NSEC3 hash algorithm: algorithm type value unknown: "@ + decimal(
                nsec3.hash_algorithm as nat,
            ),
        )
    } else {
        match nsec3_digest(nsec3.salt@, name, nsec3.iterations) {
            Ok(d) => Ok(base32_text(d)),
            Err(e) => Err("NSEC3 hashing failed for "@ + name_text(name) + ": "@ + e),
        }
    }
}

/// The hash that an NSEC3 record's owner spells.
pub open spec fn owner_text(owner: Seq<Seq<u8>>) -> Option<Seq<char>> {
    if owner.len() == 0 {
        None
    } else {
        Some(uppercase(lossy_text(owner[0])))
    }
}

/// Whether text `a` sorts before `b`, by their UTF-8 octets.
pub open spec fn text_lt(a: Seq<char>, b: Seq<char>) -> bool {
    octets_lt(encode_utf8(a), encode_utf8(b))
}

/// Whether the span between two hashes covers a third; the last span wraps.
pub open spec fn hash_covered(owner: Seq<char>, next: Seq<char>, target: Seq<char>) -> bool {
    if text_lt(owner, next) {
        text_lt(owner, target) && text_lt(target, next)
    } else {
        text_lt(owner, target) || text_lt(target, next)
    }
}

/// The first record at or after `i` whose owner is the hash of `name`.
pub open spec fn matching(nsec3: Seq<(Name, Nsec3Data)>, name: Seq<Seq<u8>>, i: int) -> Result<
    Option<int>,
    Seq<char>,
>
    decreases nsec3.len() - i,
{
    if i >= nsec3.len() {
        Ok(None)
    } else {
        match owner_text(nsec3[i].0@) {
            None => matching(nsec3, name, i + 1),
            Some(owner) => match hash_text(nsec3[i].1, name) {
                Err(e) => Err(e),
                Ok(h) => if h == owner {
                    Ok(Some(i))
                } else {
                    matching(nsec3, name, i + 1)
                },
            },
        }
    }
}

/// The first record at or after `i` whose span covers the hash of `name`.
pub open spec fn covering(nsec3: Seq<(Name, Nsec3Data)>, name: Seq<Seq<u8>>, i: int) -> Result<
    Option<int>,
    Seq<char>,
>
    decreases nsec3.len() - i,
{
    if i >= nsec3.len() {
        Ok(None)
    } else {
        match owner_text(nsec3[i].0@) {
            None => covering(nsec3, name, i + 1),
            Some(owner) => match hash_text(nsec3[i].1, name) {
                Err(e) => Err(e),
                Ok(h) => if hash_covered(owner, base32_text(nsec3[i].1.next@), h) {
                    Ok(Some(i))
                } else {
                    covering(nsec3, name, i + 1)
                },
            },
        }
    }
}

/// The longest ancestor of `qname` with at most `take` labels that an NSEC3 record
/// matches, and the name one label below it.
pub open spec fn encloser(nsec3: Seq<(Name, Nsec3Data)>, qname: Seq<Seq<u8>>, take: nat) -> Result<
    Option<(Seq<Seq<u8>>, Seq<Seq<u8>>)>,
    Seq<char>,
>
    decreases take,
{
    let candidate = trimmed_to(qname, take as int);
    match matching(nsec3, candidate, 0) {
        Err(e) => Err(e),
        Ok(Some(_)) => match next_closer(qname, candidate) {
            Some(n) => Ok(Some((candidate, n))),
            None => Ok(Some((candidate, candidate))),
        },
        Ok(None) => if take == 0 {
            Ok(None)
        } else {
            encloser(nsec3, qname, (take - 1) as nat)
        },
    }
}

/// The closest encloser of `qname` and the next closer name.
pub open spec fn closest(nsec3: Seq<(Name, Nsec3Data)>, qname: Seq<Seq<u8>>) -> Result<
    Option<(Seq<Seq<u8>>, Seq<Seq<u8>>)>,
    Seq<char>,
> {
    encloser(nsec3, qname, counted_labels(qname))
}

fn text_precedes(a: &str, b: &str) -> (r: bool)
    ensures
        r == text_lt(a@, b@),
{
    octets_precede(a.as_bytes(), b.as_bytes())
}

/// The base32hex hash of `name` under one NSEC3 record's parameters.
pub fn hashed(nsec3: &Nsec3Data, name: &Name) -> (r: Result<String, String>)
    ensures
        match r {
            Ok(h) => hash_text(*nsec3, name@) == Ok::<Seq<char>, Seq<char>>(h@),
            Err(e) => hash_text(*nsec3, name@) == Err::<Seq<char>, Seq<char>>(e@),
        },
{
    if nsec3.iterations > MAX_NSEC3_ITERATIONS {
        let count = decimal_string(nsec3.iterations as u64);
        let most = decimal_string(MAX_NSEC3_ITERATIONS as u64);
        return Err(
            join5(
                "NSEC3 iteration count ",
                count.as_str(),
                " exceeds the ",
                most.as_str(),
                " we are willing to compute (RFC 9276)",
            ),
        );
    }
    if nsec3.hash_algorithm != 1 {
        let number = decimal_string(nsec3.hash_algorithm as u64);
        return Err(
            join2(
                "unsupported NSEC3 hash algorithm: algorithm type value unknown: ",
                number.as_str(),
            ),
        );
    }
    match hash_name(nsec3.salt.as_slice(), &name.labels, nsec3.iterations) {
        Ok(digest) => Ok(base32hex(digest.as_slice())),
        Err(e) => {
            let text = name.text();
            let head = join3("NSEC3 hashing failed for ", text.as_str(), ": ");
            Err(join2(head.as_str(), e.as_str()))
        },
    }
}

/// The owner label of an NSEC3 record, uppercased for comparison.
fn owner_hash(owner: &Name) -> (r: Option<String>)
    ensures
        match r {
            Some(s) => owner_text(owner@) == Some(s@),
            None => owner_text(owner@) is None,
        },
{
    if owner.labels.len() == 0 {
        return None;
    }
    let label = from_utf8_lossy(owner.labels[0].as_slice());
    Some(to_uppercase(label.as_str()))
}

/// The position as the specification counts it.
spec fn position(r: Result<Option<usize>, String>) -> Result<Option<int>, Seq<char>> {
    match r {
        Ok(Some(i)) => Ok(Some(i as int)),
        Ok(None) => Ok(None),
        Err(e) => Err(e@),
    }
}

/// The NSEC3 record whose owner is the hash of `name`.
fn nsec3_matching(denial: &Denial, name: &Name) -> (r: Result<Option<usize>, String>)
    ensures
        position(r) == matching(denial.nsec3@, name@, 0),
        r is Ok && r->Ok_0 is Some ==> r->Ok_0->0 < denial.nsec3@.len(),
{
    let mut i: usize = 0;
    while i < denial.nsec3.len()
        invariant
            i <= denial.nsec3.len(),
            matching(denial.nsec3@, name@, 0) == matching(denial.nsec3@, name@, i as int),
        decreases denial.nsec3.len() - i,
    {
        if let Some(owner) = owner_hash(&denial.nsec3[i].0) {
            match hashed(&denial.nsec3[i].1, name) {
                Err(e) => {
                    return Err(e);
                },
                Ok(h) => {
                    if eq_text(h.as_str(), owner.as_str()) {
                        return Ok(Some(i));
                    }
                },
            }
        }
        i = i + 1;
    }
    Ok(None)
}

/// The NSEC3 record whose span covers the hash of `name`.
fn nsec3_covering(denial: &Denial, name: &Name) -> (r: Result<Option<usize>, String>)
    ensures
        position(r) == covering(denial.nsec3@, name@, 0),
        r is Ok && r->Ok_0 is Some ==> r->Ok_0->0 < denial.nsec3@.len(),
{
    let mut i: usize = 0;
    while i < denial.nsec3.len()
        invariant
            i <= denial.nsec3.len(),
            covering(denial.nsec3@, name@, 0) == covering(denial.nsec3@, name@, i as int),
        decreases denial.nsec3.len() - i,
    {
        if let Some(owner) = owner_hash(&denial.nsec3[i].0) {
            let next = base32hex(denial.nsec3[i].1.next.as_slice());
            match hashed(&denial.nsec3[i].1, name) {
                Err(e) => {
                    return Err(e);
                },
                Ok(target) => {
                    let covered = if text_precedes(owner.as_str(), next.as_str()) {
                        text_precedes(owner.as_str(), target.as_str()) && text_precedes(
                            target.as_str(),
                            next.as_str(),
                        )
                    } else {
                        text_precedes(owner.as_str(), target.as_str()) || text_precedes(
                            target.as_str(),
                            next.as_str(),
                        )
                    };
                    if covered {
                        return Ok(Some(i));
                    }
                },
            }
        }
        i = i + 1;
    }
    Ok(None)
}

spec fn enclosure(r: Result<Option<(Name, Name)>, String>) -> Result<
    Option<(Seq<Seq<u8>>, Seq<Seq<u8>>)>,
    Seq<char>,
> {
    match r {
        Ok(Some((a, b))) => Ok(Some((a@, b@))),
        Ok(None) => Ok(None),
        Err(e) => Err(e@),
    }
}

/// The closest encloser of `qname`, together with the next closer name.
fn closest_encloser(qname: &Name, denial: &Denial) -> (r: Result<Option<(Name, Name)>, String>)
    ensures
        enclosure(r) == closest(denial.nsec3@, qname@),
{
    let mut take: usize = qname.num_labels();
    loop
        invariant
            closest(denial.nsec3@, qname@) == encloser(denial.nsec3@, qname@, take as nat),
        decreases take,
    {
        let candidate = qname.trim_to(take);
        match nsec3_matching(denial, &candidate) {
            Err(e) => {
                return Err(e);
            },
            Ok(Some(_)) => {
                return match next_closer_name(qname, &candidate) {
                    Some(n) => Ok(Some((candidate, n))),
                    None => {
                        let same = candidate.clone();
                        Ok(Some((candidate, same)))
                    },
                };
            },
            Ok(None) => {},
        }
        if take == 0 {
            return Ok(None);
        }
        take = take - 1;
    }
}

fn has_type(types: &Vec<u16>, code: u16) -> (r: bool)
    ensures
        r == types@.contains(code),
{
    let mut i: usize = 0;
    while i < types.len()
        invariant
            i <= types.len(),
            forall|k: int| 0 <= k < i ==> types@[k] != code,
        decreases types.len() - i,
    {
        if types[i] == code {
            assert(types@[i as int] == code);
            return true;
        }
        i = i + 1;
    }
    false
}

// ---------------------------------------------------------------------------
// No DS at a delegation
// ---------------------------------------------------------------------------
/// What the types at a delegation say about a DS; `record` begins the reason.
pub open spec fn delegation_bitmap(
    record: Seq<char>,
    child: Seq<Seq<u8>>,
    types: Seq<u16>,
) -> Result<Denied, Seq<char>> {
    if types.contains(TYPE_DS) {
        Err(record + name_text(child) + " asserts a DS exists, but none was delivered"@)
    } else if types.contains(TYPE_SOA) {
        Err(
            record + name_text(child)
                + " is the child apex, not the parent's delegation point"@,
        )
    } else if !types.contains(TYPE_NS) {
        Err(record + name_text(child) + " does not assert a delegation"@)
    } else {
        Ok(Denied::Proven)
    }
}

pub open spec fn unproven_delegation(child: Seq<Seq<u8>>) -> Seq<char> {
    "no NSEC or NSEC3 record proves the delegation to "@ + name_text(child) + " has no DS"@
}

/// Whether a denial proves that the delegation to `child` carries no DS record.
pub open spec fn no_ds(child: Seq<Seq<u8>>, denial: Denial) -> Result<Denied, Seq<char>> {
    if denial.nsec@.len() == 0 && denial.nsec3@.len() == 0 {
        Err(
            "the delegation to "@ + name_text(child)
                + " carried neither a DS record nor any NSEC/NSEC3 proving there is none"@,
        )
    } else if nsec_owns(denial.nsec@, child) {
        delegation_bitmap(
            "the NSEC at "@,
            child,
            denial.nsec@[nsec_index(denial.nsec@, child, 0)].1.types@,
        )
    } else if denial.nsec3@.len() == 0 {
        Err(unproven_delegation(child))
    } else {
        match matching(denial.nsec3@, child, 0) {
            Err(e) => Err(e),
            Ok(Some(i)) => delegation_bitmap(
                "the NSEC3 for "@,
                child,
                denial.nsec3@[i].1.types@,
            ),
            Ok(None) => match closest(denial.nsec3@, child) {
                Err(e) => Err(e),
                Ok(None) => Err(unproven_delegation(child)),
                Ok(Some((ce, next))) => match covering(denial.nsec3@, next, 0) {
                    Err(e) => Err(e),
                    Ok(None) => Err(unproven_delegation(child)),
                    Ok(Some(i)) => if denial.nsec3@[i].1.opt_out {
                        Ok(Denied::OptedOut)
                    } else {
                        Err(
                            "the NSEC3 covering "@ + name_text(next) + " (closest encloser "@
                                + name_text(ce) + ") is not opt-out, so "@ + name_text(child)
                                + " must have had an NSEC3 of its own"@,
                        )
                    },
                },
            },
        }
    }
}

fn judge_delegation(record: &str, child: &Name, types: &Vec<u16>) -> (r: Result<Denied, String>)
    ensures
        outcome(r) == delegation_bitmap(record@, child@, types@),
{
    let text = child.text();
    if has_type(types, TYPE_DS) {
        Err(join3(record, text.as_str(), " asserts a DS exists, but none was delivered"))
    } else if has_type(types, TYPE_SOA) {
        Err(
            join3(
                record,
                text.as_str(),
                " is the child apex, not the parent's delegation point",
            ),
        )
    } else if !has_type(types, TYPE_NS) {
        Err(join3(record, text.as_str(), " does not assert a delegation"))
    } else {
        Ok(Denied::Proven)
    }
}

/// Proves that a delegation to `child` carries no DS record, which is what makes
/// everything below it legitimately insecure.
pub fn prove_no_ds(child: &Name, denial: &Denial) -> (r: Result<Denied, String>)
    ensures
        outcome(r) == no_ds(child@, *denial),
{
    let text = child.text();
    if denial.is_empty() {
        return Err(
            join3(
                "the delegation to ",
                text.as_str(),
                " carried neither a DS record nor any NSEC/NSEC3 proving there is none",
            ),
        );
    }
    let at: usize = find_nsec(&denial.nsec, child);
    if at < denial.nsec.len() {
        return judge_delegation("the NSEC at ", child, &denial.nsec[at].1.types);
    }
    if denial.nsec3.len() > 0 {
        match nsec3_matching(denial, child) {
            Err(e) => {
                return Err(e);
            },
            Ok(Some(i)) => {
                return judge_delegation("the NSEC3 for ", child, &denial.nsec3[i].1.types);
            },
            Ok(None) => {},
        }
        match closest_encloser(child, denial) {
            Err(e) => {
                return Err(e);
            },
            Ok(None) => {},
            Ok(Some((ce, next))) => match nsec3_covering(denial, &next) {
                Err(e) => {
                    return Err(e);
                },
                Ok(None) => {},
                Ok(Some(i)) => {
                    if denial.nsec3[i].1.opt_out {
                        return Ok(Denied::OptedOut);
                    }
                    let next_text = next.text();
                    let ce_text = ce.text();
                    return Err(
                        join7(
                            "the NSEC3 covering ",
                            next_text.as_str(),
                            " (closest encloser ",
                            ce_text.as_str(),
                            ") is not opt-out, so ",
                            text.as_str(),
                            " must have had an NSEC3 of its own",
                        ),
                    );
                },
            },
        }
    }
    Err(
        join3(
            "no NSEC or NSEC3 record proves the delegation to ",
            text.as_str(),
            " has no DS",
        ),
    )
}

// ---------------------------------------------------------------------------
// The name does not exist
// ---------------------------------------------------------------------------
pub open spec fn wildcard_open(
    record: Seq<char>,
    wildcard: Seq<Seq<u8>>,
    qname: Seq<Seq<u8>>,
) -> Seq<char> {
    record + name_text(wildcard) + " that could have answered "@ + name_text(qname)
}

/// Whether NSEC records prove that `qname` does not exist in `zone`: they cover the name, and
/// they cover the wildcard that could have answered for it. A record that the wildcard owns
/// shows that it exists.
pub open spec fn nxdomain_by_nsec(
    qname: Seq<Seq<u8>>,
    zone: Seq<Seq<u8>>,
    nsec: Seq<(Name, NsecData)>,
) -> Result<Denied, Seq<char>> {
    let wildcard = wildcard_for(qname, zone);
    if nsec_owns(nsec, qname) {
        Err("an NSEC asserts "@ + name_text(qname) + " exists"@)
    } else if !nsec_covered(nsec, qname) {
        Err("no NSEC covers "@ + name_text(qname))
    } else if !nsec_covered(nsec, wildcard) {
        Err(wildcard_open("no NSEC rules out the wildcard "@, wildcard, qname))
    } else {
        Ok(Denied::Proven)
    }
}

/// Whether NSEC3 records prove that `qname` does not exist (RFC 5155 section 8.4).
pub open spec fn nxdomain_by_nsec3(
    qname: Seq<Seq<u8>>,
    nsec3: Seq<(Name, Nsec3Data)>,
) -> Result<Denied, Seq<char>> {
    match closest(nsec3, qname) {
        Err(e) => Err(e),
        Ok(None) => Err("no NSEC3 closest encloser found for "@ + name_text(qname)),
        Ok(Some((ce, next))) => match covering(nsec3, next, 0) {
            Err(e) => Err(e),
            Ok(None) => Err("no NSEC3 covers the next closer name "@ + name_text(next)),
            Ok(Some(i)) => {
                let wildcard = wildcard_at(ce);
                let verdict = if nsec3[i].1.opt_out {
                    Ok(Denied::OptedOut)
                } else {
                    Ok(Denied::Proven)
                };
                match covering(nsec3, wildcard, 0) {
                    Err(e) => Err(e),
                    Ok(Some(_)) => verdict,
                    Ok(None) => Err(
                        wildcard_open("no NSEC3 rules out the wildcard "@, wildcard, qname),
                    ),
                }
            },
        },
    }
}

/// Whether a denial proves that `qname` does not exist in `zone`.
pub open spec fn nxdomain(qname: Seq<Seq<u8>>, zone: Seq<Seq<u8>>, denial: Denial) -> Result<
    Denied,
    Seq<char>,
> {
    if denial.nsec@.len() > 0 {
        nxdomain_by_nsec(qname, zone, denial.nsec@)
    } else if denial.nsec3@.len() > 0 {
        nxdomain_by_nsec3(qname, denial.nsec3@)
    } else {
        Err("no NSEC or NSEC3 record accompanies the NXDOMAIN for "@ + name_text(qname))
    }
}

fn wildcard_reason(record: &str, wildcard: &Name, qname: &Name) -> (r: String)
    ensures
        r@ == wildcard_open(record@, wildcard@, qname@),
{
    let w = wildcard.text();
    let q = qname.text();
    join4(record, w.as_str(), " that could have answered ", q.as_str())
}

fn prove_nxdomain_by_nsec3(qname: &Name, denial: &Denial) -> (r: Result<Denied, String>)
    ensures
        outcome(r) == nxdomain_by_nsec3(qname@, denial.nsec3@),
{
    let (ce, next) = match closest_encloser(qname, denial) {
        Err(e) => {
            return Err(e);
        },
        Ok(None) => {
            let text = qname.text();
            return Err(join2("no NSEC3 closest encloser found for ", text.as_str()));
        },
        Ok(Some(found)) => found,
    };
    let opt_out = match nsec3_covering(denial, &next) {
        Err(e) => {
            return Err(e);
        },
        Ok(None) => {
            let text = next.text();
            return Err(join2("no NSEC3 covers the next closer name ", text.as_str()));
        },
        Ok(Some(i)) => denial.nsec3[i].1.opt_out,
    };
    let wildcard = ce.prepend_wildcard();
    match nsec3_covering(denial, &wildcard) {
        Err(e) => {
            return Err(e);
        },
        Ok(Some(_)) => {},
        Ok(None) => {
            return Err(wildcard_reason("no NSEC3 rules out the wildcard ", &wildcard, qname));
        },
    }
    if opt_out {
        Ok(Denied::OptedOut)
    } else {
        Ok(Denied::Proven)
    }
}

/// Proves that `qname` does not exist at all (NXDOMAIN).
pub fn prove_nxdomain(qname: &Name, zone: &Name, denial: &Denial) -> (r: Result<Denied, String>)
    ensures
        outcome(r) == nxdomain(qname@, zone@, *denial),
{
    if denial.nsec.len() > 0 {
        if find_nsec(&denial.nsec, qname) < denial.nsec.len() {
            let text = qname.text();
            return Err(join3("an NSEC asserts ", text.as_str(), " exists"));
        }
        if !nsec_covers_name(denial, qname) {
            let text = qname.text();
            return Err(join2("no NSEC covers ", text.as_str()));
        }
        let wildcard = wildcard_of(qname, zone);
        if !nsec_covers_name(denial, &wildcard) {
            return Err(wildcard_reason("no NSEC rules out the wildcard ", &wildcard, qname));
        }
        return Ok(Denied::Proven);
    }
    if denial.nsec3.len() > 0 {
        return prove_nxdomain_by_nsec3(qname, denial);
    }
    let text = qname.text();
    Err(join2("no NSEC or NSEC3 record accompanies the NXDOMAIN for ", text.as_str()))
}

// ---------------------------------------------------------------------------
// The name has no records of a type
// ---------------------------------------------------------------------------
pub open spec fn asserts_type(record: Seq<char>, name: Seq<Seq<u8>>, qtype: u16) -> Seq<char> {
    record + name_text(name) + " asserts "@ + type_text(qtype) + " exists"@
}

pub open spec fn asserts_cname(record: Seq<char>, name: Seq<Seq<u8>>) -> Seq<char> {
    record + name_text(name) + " asserts a CNAME, which should have been followed"@
}

/// What the types at the name itself say about `qtype`; `record` begins the reason.
pub open spec fn name_bitmap(
    record: Seq<char>,
    name: Seq<Seq<u8>>,
    qtype: u16,
    types: Seq<u16>,
) -> Result<Denied, Seq<char>> {
    if types.contains(qtype) {
        Err(asserts_type(record, name, qtype))
    } else if types.contains(TYPE_CNAME) {
        Err(asserts_cname(record, name))
    } else {
        Ok(Denied::Proven)
    }
}

/// Whether NSEC records prove that `qname` has no records of `qtype`.
pub open spec fn nodata_by_nsec(
    qname: Seq<Seq<u8>>,
    qtype: u16,
    zone: Seq<Seq<u8>>,
    nsec: Seq<(Name, NsecData)>,
) -> Result<Denied, Seq<char>> {
    let wildcard = wildcard_for(qname, zone);
    if nsec_owns(nsec, qname) {
        name_bitmap("the NSEC at "@, qname, qtype, nsec[nsec_index(nsec, qname, 0)].1.types@)
    } else if nsec_owns(nsec, wildcard) {
        if nsec[nsec_index(nsec, wildcard, 0)].1.types@.contains(qtype) {
            Err(asserts_type("the wildcard NSEC at "@, wildcard, qtype))
        } else if !nsec_covered(nsec, qname) {
            Err(
                "the wildcard NSEC at "@ + name_text(wildcard) + " denies "@ + type_text(qtype)
                    + ", but nothing shows "@ + name_text(qname)
                    + " does not exist in its own right"@,
            )
        } else {
            Ok(Denied::Proven)
        }
    } else {
        Err(
            "no NSEC at or covering "@ + name_text(qname) + " denies "@ + type_text(qtype),
        )
    }
}

/// Whether NSEC3 records prove that `qname` has no records of `qtype` (RFC 5155 sections
/// 8.5 to 8.7).
pub open spec fn nodata_by_nsec3(
    qname: Seq<Seq<u8>>,
    qtype: u16,
    nsec3: Seq<(Name, Nsec3Data)>,
) -> Result<Denied, Seq<char>> {
    let unproven = "no NSEC3 denies "@ + type_text(qtype) + " at "@ + name_text(qname);
    match matching(nsec3, qname, 0) {
        Err(e) => Err(e),
        Ok(Some(i)) => name_bitmap("the NSEC3 for "@, qname, qtype, nsec3[i].1.types@),
        Ok(None) => match closest(nsec3, qname) {
            Err(e) => Err(e),
            Ok(None) => Err("no NSEC3 matches or encloses "@ + name_text(qname)),
            Ok(Some((ce, next))) => {
                let wildcard = wildcard_at(ce);
                match matching(nsec3, wildcard, 0) {
                    Err(e) => Err(e),
                    Ok(Some(i)) => if nsec3[i].1.types@.contains(qtype) {
                        Err(asserts_type("the wildcard NSEC3 for "@, wildcard, qtype))
                    } else {
                        Ok(Denied::Proven)
                    },
                    Ok(None) => match covering(nsec3, next, 0) {
                        Err(e) => Err(e),
                        Ok(Some(i)) => if nsec3[i].1.opt_out {
                            Ok(Denied::OptedOut)
                        } else {
                            Err(unproven)
                        },
                        Ok(None) => Err(unproven),
                    },
                }
            },
        },
    }
}

/// Whether a denial proves that `qname` exists without records of `qtype`.
pub open spec fn nodata(
    qname: Seq<Seq<u8>>,
    qtype: u16,
    zone: Seq<Seq<u8>>,
    denial: Denial,
) -> Result<Denied, Seq<char>> {
    if denial.nsec@.len() > 0 {
        nodata_by_nsec(qname, qtype, zone, denial.nsec@)
    } else if denial.nsec3@.len() > 0 {
        nodata_by_nsec3(qname, qtype, denial.nsec3@)
    } else {
        Err("no NSEC or NSEC3 record accompanies the NODATA for "@ + name_text(qname))
    }
}

fn type_reason(record: &str, name: &Name, qtype: u16) -> (r: String)
    ensures
        r@ == asserts_type(record@, name@, qtype),
{
    let n = name.text();
    let t = display_type(qtype);
    join5(record, n.as_str(), " asserts ", t.as_str(), " exists")
}

fn judge_name(record: &str, name: &Name, qtype: u16, types: &Vec<u16>) -> (r: Result<
    Denied,
    String,
>)
    ensures
        outcome(r) == name_bitmap(record@, name@, qtype, types@),
{
    if has_type(types, qtype) {
        Err(type_reason(record, name, qtype))
    } else if has_type(types, TYPE_CNAME) {
        let n = name.text();
        Err(join3(record, n.as_str(), " asserts a CNAME, which should have been followed"))
    } else {
        Ok(Denied::Proven)
    }
}

fn prove_nodata_by_nsec(qname: &Name, qtype: u16, zone: &Name, denial: &Denial) -> (r: Result<
    Denied,
    String,
>)
    ensures
        outcome(r) == nodata_by_nsec(qname@, qtype, zone@, denial.nsec@),
{
    let at: usize = find_nsec(&denial.nsec, qname);
    if at < denial.nsec.len() {
        return judge_name("the NSEC at ", qname, qtype, &denial.nsec[at].1.types);
    }
    let wildcard = wildcard_of(qname, zone);
    let at: usize = find_nsec(&denial.nsec, &wildcard);
    let t = display_type(qtype);
    let q = qname.text();
    if at < denial.nsec.len() {
        if has_type(&denial.nsec[at].1.types, qtype) {
            return Err(type_reason("the wildcard NSEC at ", &wildcard, qtype));
        }
        if !nsec_covers_name(denial, qname) {
            let w = wildcard.text();
            return Err(
                join7(
                    "the wildcard NSEC at ",
                    w.as_str(),
                    " denies ",
                    t.as_str(),
                    ", but nothing shows ",
                    q.as_str(),
                    " does not exist in its own right",
                ),
            );
        }
        return Ok(Denied::Proven);
    }
    Err(join4("no NSEC at or covering ", q.as_str(), " denies ", t.as_str()))
}

fn prove_nodata_by_nsec3(qname: &Name, qtype: u16, denial: &Denial) -> (r: Result<Denied, String>)
    ensures
        outcome(r) == nodata_by_nsec3(qname@, qtype, denial.nsec3@),
{
    match nsec3_matching(denial, qname) {
        Err(e) => {
            return Err(e);
        },
        Ok(Some(i)) => {
            return judge_name("the NSEC3 for ", qname, qtype, &denial.nsec3[i].1.types);
        },
        Ok(None) => {},
    }
    let q = qname.text();
    let (ce, next) = match closest_encloser(qname, denial) {
        Err(e) => {
            return Err(e);
        },
        Ok(None) => {
            return Err(join2("no NSEC3 matches or encloses ", q.as_str()));
        },
        Ok(Some(found)) => found,
    };
    let wildcard = ce.prepend_wildcard();
    match nsec3_matching(denial, &wildcard) {
        Err(e) => {
            return Err(e);
        },
        Ok(Some(i)) => {
            if has_type(&denial.nsec3[i].1.types, qtype) {
                return Err(type_reason("the wildcard NSEC3 for ", &wildcard, qtype));
            }
            return Ok(Denied::Proven);
        },
        Ok(None) => {},
    }
    match nsec3_covering(denial, &next) {
        Err(e) => {
            return Err(e);
        },
        Ok(Some(i)) => {
            if denial.nsec3[i].1.opt_out {
                return Ok(Denied::OptedOut);
            }
        },
        Ok(None) => {},
    }
    let t = display_type(qtype);
    Err(join4("no NSEC3 denies ", t.as_str(), " at ", q.as_str()))
}

/// Proves that `qname` exists but has no records of `qtype` (NODATA).
pub fn prove_nodata(qname: &Name, qtype: u16, zone: &Name, denial: &Denial) -> (r: Result<
    Denied,
    String,
>)
    ensures
        outcome(r) == nodata(qname@, qtype, zone@, *denial),
{
    if denial.nsec.len() > 0 {
        return prove_nodata_by_nsec(qname, qtype, zone, denial);
    }
    if denial.nsec3.len() > 0 {
        return prove_nodata_by_nsec3(qname, qtype, denial);
    }
    let text = qname.text();
    Err(join2("no NSEC or NSEC3 record accompanies the NODATA for ", text.as_str()))
}

// ---------------------------------------------------------------------------
// Wildcard answers
// ---------------------------------------------------------------------------
/// Whether a denial shows that a wildcard under `ce` was free to answer for `qname`.
pub open spec fn wildcard_expansion(
    qname: Seq<Seq<u8>>,
    ce: Seq<Seq<u8>>,
    denial: Denial,
) -> Result<Denied, Seq<char>> {
    if denial.nsec@.len() == 0 && denial.nsec3@.len() == 0 {
        Err(
            name_text(qname) + " was answered from a wildcard under "@ + name_text(ce)
                + " with no NSEC/NSEC3 showing the name itself does not exist"@,
        )
    } else if denial.nsec@.len() > 0 {
        if nsec_covered(denial.nsec@, qname) {
            Ok(Denied::Proven)
        } else {
            Err(
                "no NSEC shows "@ + name_text(qname)
                    + " is absent, so the wildcard answer under "@ + name_text(ce)
                    + " is unsubstantiated"@,
            )
        }
    } else {
        match next_closer(qname, ce) {
            None => Err(name_text(ce) + " does not enclose "@ + name_text(qname)),
            Some(next) => match covering(denial.nsec3@, next, 0) {
                Err(e) => Err(e),
                Ok(Some(i)) => if denial.nsec3@[i].1.opt_out {
                    Ok(Denied::OptedOut)
                } else {
                    Ok(Denied::Proven)
                },
                Ok(None) => Err(
                    "no NSEC3 covers the next closer name "@ + name_text(next)
                        + ", so the wildcard answer for "@ + name_text(qname)
                        + " is unsubstantiated"@,
                ),
            },
        }
    }
}

/// Proves that a wildcard-derived answer was legitimate: the queried name must not exist
/// in its own right (RFC 4035 section 5.3.4).
pub fn prove_wildcard_expansion(qname: &Name, closest_encloser: &Name, denial: &Denial) -> (r:
    Result<Denied, String>)
    ensures
        outcome(r) == wildcard_expansion(qname@, closest_encloser@, *denial),
{
    let q = qname.text();
    let ce = closest_encloser.text();
    if denial.is_empty() {
        return Err(
            join4(
                q.as_str(),
                " was answered from a wildcard under ",
                ce.as_str(),
                " with no NSEC/NSEC3 showing the name itself does not exist"),
        );
    }
    if denial.nsec.len() > 0 {
        if nsec_covers_name(denial, qname) {
            return Ok(Denied::Proven);
        }
        return Err(
            join5(
                "no NSEC shows ",
                q.as_str(),
                " is absent, so the wildcard answer under ",
                ce.as_str(),
                " is unsubstantiated",
            ),
        );
    }
    let next = match next_closer_name(qname, closest_encloser) {
        Some(n) => n,
        None => {
            return Err(join3(ce.as_str(), " does not enclose ", q.as_str()));
        },
    };
    match nsec3_covering(denial, &next) {
        Err(e) => Err(e),
        Ok(Some(i)) => {
            if denial.nsec3[i].1.opt_out {
                Ok(Denied::OptedOut)
            } else {
                Ok(Denied::Proven)
            }
        },
        Ok(None) => {
            let n = next.text();
            Err(
                join5(
                    "no NSEC3 covers the next closer name ",
                    n.as_str(),
                    ", so the wildcard answer for ",
                    q.as_str(),
                    " is unsubstantiated",
                ),
            )
        },
    }
}

// ---------------------------------------------------------------------------
// Laws
// ---------------------------------------------------------------------------
/// A proven absence of a DS rests on a record at the delegation itself that claims NS and
/// claims neither DS nor SOA: stripping a DS out of a response proves nothing.
pub proof fn law_no_ds_needs_a_delegation_record(child: Seq<Seq<u8>>, denial: Denial)
    requires
        no_ds(child, denial) == Ok::<Denied, Seq<char>>(Denied::Proven),
    ensures
        exists|types: Seq<u16>|
            {
                &&& #[trigger] types.contains(TYPE_NS)
                &&& !types.contains(TYPE_DS)
                &&& !types.contains(TYPE_SOA)
                &&& {
                    ||| exists|i: int|
                        0 <= i < denial.nsec@.len() && same_name(
                            (#[trigger] denial.nsec@[i]).0@,
                            child,
                        ) && denial.nsec@[i].1.types@ == types
                    ||| exists|i: int|
                        0 <= i < denial.nsec3@.len() && hash_text(
                            (#[trigger] denial.nsec3@[i]).1,
                            child,
                        ) == Ok::<Seq<char>, Seq<char>>(owner_text(denial.nsec3@[i].0@)->0)
                            && denial.nsec3@[i].1.types@ == types
                }
            },
{
    lemma_nsec_index(denial.nsec@, child, 0);
    if nsec_owns(denial.nsec@, child) {
        let i = nsec_index(denial.nsec@, child, 0);
        assert(denial.nsec@[i].1.types@.contains(TYPE_NS));
    } else {
        lemma_matching(denial.nsec3@, child, 0);
        match matching(denial.nsec3@, child, 0) {
            Ok(Some(i)) => {
                assert(denial.nsec3@[i].1.types@.contains(TYPE_NS));
            },
            _ => {},
        }
    }
}

proof fn lemma_matching(nsec3: Seq<(Name, Nsec3Data)>, name: Seq<Seq<u8>>, i: int)
    requires
        0 <= i <= nsec3.len(),
    ensures
        match matching(nsec3, name, i) {
            Ok(Some(k)) => i <= k < nsec3.len() && owner_text(nsec3[k].0@) is Some && hash_text(
                nsec3[k].1,
                name,
            ) == Ok::<Seq<char>, Seq<char>>(owner_text(nsec3[k].0@)->0),
            _ => true,
        },
    decreases nsec3.len() - i,
{
    if i < nsec3.len() {
        lemma_matching(nsec3, name, i + 1);
    }
}

/// A name with an NSEC record of its own is never proven not to exist, and a type that
/// its record claims is never proven absent.
pub proof fn law_no_denial_of_what_is_claimed(
    qname: Seq<Seq<u8>>,
    qtype: u16,
    zone: Seq<Seq<u8>>,
    denial: Denial,
)
    requires
        nsec_owns(denial.nsec@, qname),
    ensures
        nxdomain(qname, zone, denial) is Err,
        denial.nsec@[nsec_index(denial.nsec@, qname, 0)].1.types@.contains(qtype) ==> nodata(
            qname,
            qtype,
            zone,
            denial,
        ) is Err,
{
    lemma_nsec_index(denial.nsec@, qname, 0);
}

/// A span covers neither of its ends: those names exist.
pub proof fn law_span_is_open(owner: Seq<Seq<u8>>, next: Seq<Seq<u8>>)
    ensures
        !span_covers(owner, next, owner),
        !span_covers(owner, next, next),
{
    crate::wire_name::law_names_are_ordered(owner, owner);
    crate::wire_name::law_names_are_ordered(next, next);
    crate::wire_name::law_names_are_ordered(owner, next);
}

/// A response without denial records proves nothing absent.
pub proof fn law_silence_proves_nothing(
    qname: Seq<Seq<u8>>,
    qtype: u16,
    zone: Seq<Seq<u8>>,
    denial: Denial,
)
    requires
        denial.nsec@.len() == 0,
        denial.nsec3@.len() == 0,
    ensures
        no_ds(qname, denial) is Err,
        nxdomain(qname, zone, denial) is Err,
        nodata(qname, qtype, zone, denial) is Err,
        wildcard_expansion(qname, zone, denial) is Err,
{
}

/// That a name does not exist is only proven by records that cover the name and cover the
/// wildcard that could have answered for it.
pub proof fn law_nxdomain_rules_out_the_wildcard(
    qname: Seq<Seq<u8>>,
    zone: Seq<Seq<u8>>,
    denial: Denial,
)
    requires
        nxdomain(qname, zone, denial) is Ok,
    ensures
        denial.nsec@.len() > 0 ==> nsec_covered(denial.nsec@, qname) && nsec_covered(
            denial.nsec@,
            wildcard_for(qname, zone),
        ),
        denial.nsec@.len() == 0 ==> {
            &&& closest(denial.nsec3@, qname) matches Ok(Some((ce, next)))
            &&& covering(denial.nsec3@, next, 0) matches Ok(Some(_))
            &&& covering(denial.nsec3@, wildcard_at(ce), 0) matches Ok(Some(_))
        },
{
}

/// An answer from a wildcard is only believed with records that show that the name itself
/// does not exist.
pub proof fn law_wildcards_need_an_absent_name(
    qname: Seq<Seq<u8>>,
    ce: Seq<Seq<u8>>,
    denial: Denial,
)
    requires
        wildcard_expansion(qname, ce, denial) is Ok,
    ensures
        denial.nsec@.len() > 0 ==> nsec_covered(denial.nsec@, qname),
        denial.nsec@.len() == 0 ==> next_closer(qname, ce) is Some && covering(
            denial.nsec3@,
            next_closer(qname, ce)->0,
            0,
        ) matches Ok(Some(_)),
{
}

} // verus!
