//! Records as they arrived on the wire, and what can be read off a section of them.
use vstd::prelude::*;
use vstd::slice::slice_to_vec;

use crate::dnssec_validate::denial::{Denial, Nsec3Data, NsecData};
use crate::wire_name::{is_zone_of, same_name, Name};

verus! {

/// The code of SOA records.
pub const TYPE_SOA: u16 = 6;

/// The code of DS records.
pub const TYPE_DS: u16 = 43;

/// The code of RRSIG records.
pub const TYPE_RRSIG: u16 = 46;

/// The code of NSEC records.
pub const TYPE_NSEC: u16 = 47;

/// The code of DNSKEY records.
pub const TYPE_DNSKEY: u16 = 48;

/// The code of NSEC3 records.
pub const TYPE_NSEC3: u16 = 50;

/// The code of NSEC3PARAM records.
pub const TYPE_NSEC3PARAM: u16 = 51;

/// The data of a DNSKEY record.
#[derive(Debug)]
pub struct Dnskey {
    pub flags: u16,
    pub algorithm: u8,
    pub public_key: Vec<u8>,
}

/// The data of a DS record.
#[derive(Debug)]
pub struct Ds {
    pub key_tag: u16,
    pub algorithm: u8,
    pub digest_type: u8,
    pub digest: Vec<u8>,
}

/// The data of an RRSIG record.
#[derive(Debug)]
pub struct Signature {
    pub type_covered: u16,
    pub algorithm: u8,
    pub labels: u8,
    pub original_ttl: u32,
    pub expiration: u32,
    pub inception: u32,
    pub key_tag: u16,
    pub signer: Name,
    pub signature: Vec<u8>,
}

/// The data of a record, as far as validation reads it.
#[derive(Debug)]
pub enum RecordData {
    Dnskey(Dnskey),
    Ds(Ds),
    Rrsig(Signature),
    Nsec(NsecData),
    Nsec3(Nsec3Data),
    Other,
}

/// A record as it arrived.
#[derive(Debug)]
pub struct WireRecord {
    pub name: Name,
    pub rtype: u16,
    pub ttl: u32,
    pub data: RecordData,
    /// The whole record in wire form, its names uncompressed.
    pub wire: Vec<u8>,
}

/// The contents of a DNSKEY.
pub ghost struct DnskeyView {
    pub flags: u16,
    pub algorithm: u8,
    pub public_key: Seq<u8>,
}

/// The contents of a DS.
pub ghost struct DsView {
    pub key_tag: u16,
    pub algorithm: u8,
    pub digest_type: u8,
    pub digest: Seq<u8>,
}

/// The contents of an RRSIG.
pub ghost struct SignatureView {
    pub type_covered: u16,
    pub algorithm: u8,
    pub labels: u8,
    pub original_ttl: u32,
    pub expiration: u32,
    pub inception: u32,
    pub key_tag: u16,
    pub signer: Seq<Seq<u8>>,
    pub signature: Seq<u8>,
}

/// The contents of an NSEC.
pub ghost struct NsecView {
    pub next: Seq<Seq<u8>>,
    pub types: Seq<u16>,
}

/// The contents of an NSEC3.
pub ghost struct Nsec3View {
    pub hash_algorithm: u8,
    pub opt_out: bool,
    pub iterations: u16,
    pub salt: Seq<u8>,
    pub next: Seq<u8>,
    pub types: Seq<u16>,
}

/// The contents of a record's data.
pub ghost enum DataView {
    Dnskey(DnskeyView),
    Ds(DsView),
    Rrsig(SignatureView),
    Nsec(NsecView),
    Nsec3(Nsec3View),
    Other,
}

/// The contents of a record.
pub ghost struct RecordView {
    pub name: Seq<Seq<u8>>,
    pub rtype: u16,
    pub ttl: u32,
    pub data: DataView,
    pub wire: Seq<u8>,
}

impl View for Dnskey {
    type V = DnskeyView;

    open spec fn view(&self) -> DnskeyView {
        DnskeyView {
            flags: self.flags,
            algorithm: self.algorithm,
            public_key: self.public_key@,
        }
    }
}

impl View for Ds {
    type V = DsView;

    open spec fn view(&self) -> DsView {
        DsView {
            key_tag: self.key_tag,
            algorithm: self.algorithm,
            digest_type: self.digest_type,
            digest: self.digest@,
        }
    }
}

impl View for Signature {
    type V = SignatureView;

    open spec fn view(&self) -> SignatureView {
        SignatureView {
            type_covered: self.type_covered,
            algorithm: self.algorithm,
            labels: self.labels,
            original_ttl: self.original_ttl,
            expiration: self.expiration,
            inception: self.inception,
            key_tag: self.key_tag,
            signer: self.signer@,
            signature: self.signature@,
        }
    }
}

impl View for NsecData {
    type V = NsecView;

    open spec fn view(&self) -> NsecView {
        NsecView { next: self.next@, types: self.types@ }
    }
}

impl View for Nsec3Data {
    type V = Nsec3View;

    open spec fn view(&self) -> Nsec3View {
        Nsec3View {
            hash_algorithm: self.hash_algorithm,
            opt_out: self.opt_out,
            iterations: self.iterations,
            salt: self.salt@,
            next: self.next@,
            types: self.types@,
        }
    }
}

impl View for RecordData {
    type V = DataView;

    open spec fn view(&self) -> DataView {
        match *self {
            RecordData::Dnskey(k) => DataView::Dnskey(k@),
            RecordData::Ds(d) => DataView::Ds(d@),
            RecordData::Rrsig(s) => DataView::Rrsig(s@),
            RecordData::Nsec(n) => DataView::Nsec(n@),
            RecordData::Nsec3(n) => DataView::Nsec3(n@),
            RecordData::Other => DataView::Other,
        }
    }
}

impl View for WireRecord {
    type V = RecordView;

    open spec fn view(&self) -> RecordView {
        RecordView {
            name: self.name@,
            rtype: self.rtype,
            ttl: self.ttl,
            data: self.data@,
            wire: self.wire@,
        }
    }
}

/// The contents of records.
pub open spec fn record_views(records: Seq<WireRecord>) -> Seq<RecordView> {
    Seq::new(records.len(), |i: int| records[i]@)
}

/// The contents of keys.
pub open spec fn key_views(keys: Seq<Dnskey>) -> Seq<DnskeyView> {
    Seq::new(keys.len(), |i: int| keys[i]@)
}

/// The contents of DS data.
pub open spec fn ds_views(ds: Seq<Ds>) -> Seq<DsView> {
    Seq::new(ds.len(), |i: int| ds[i]@)
}

fn copy_types(types: &Vec<u16>) -> (r: Vec<u16>)
    ensures
        r@ == types@,
{
    slice_to_vec(types.as_slice())
}

impl Clone for Dnskey {
    fn clone(&self) -> (r: Dnskey)
        ensures
            r@ == self@,
    {
        Dnskey {
            flags: self.flags,
            algorithm: self.algorithm,
            public_key: slice_to_vec(self.public_key.as_slice()),
        }
    }
}

impl Clone for Ds {
    fn clone(&self) -> (r: Ds)
        ensures
            r@ == self@,
    {
        Ds {
            key_tag: self.key_tag,
            algorithm: self.algorithm,
            digest_type: self.digest_type,
            digest: slice_to_vec(self.digest.as_slice()),
        }
    }
}

impl Clone for Signature {
    fn clone(&self) -> (r: Signature)
        ensures
            r@ == self@,
    {
        Signature {
            type_covered: self.type_covered,
            algorithm: self.algorithm,
            labels: self.labels,
            original_ttl: self.original_ttl,
            expiration: self.expiration,
            inception: self.inception,
            key_tag: self.key_tag,
            signer: self.signer.clone(),
            signature: slice_to_vec(self.signature.as_slice()),
        }
    }
}

impl Clone for NsecData {
    fn clone(&self) -> (r: NsecData)
        ensures
            r@ == self@,
    {
        NsecData { next: self.next.clone(), types: copy_types(&self.types) }
    }
}

impl Clone for Nsec3Data {
    fn clone(&self) -> (r: Nsec3Data)
        ensures
            r@ == self@,
    {
        Nsec3Data {
            hash_algorithm: self.hash_algorithm,
            opt_out: self.opt_out,
            iterations: self.iterations,
            salt: slice_to_vec(self.salt.as_slice()),
            next: slice_to_vec(self.next.as_slice()),
            types: copy_types(&self.types),
        }
    }
}

impl Clone for RecordData {
    fn clone(&self) -> (r: RecordData)
        ensures
            r@ == self@,
    {
        match self {
            RecordData::Dnskey(k) => RecordData::Dnskey(k.clone()),
            RecordData::Ds(d) => RecordData::Ds(d.clone()),
            RecordData::Rrsig(s) => RecordData::Rrsig(s.clone()),
            RecordData::Nsec(n) => RecordData::Nsec(n.clone()),
            RecordData::Nsec3(n) => RecordData::Nsec3(n.clone()),
            RecordData::Other => RecordData::Other,
        }
    }
}

impl Clone for WireRecord {
    fn clone(&self) -> (r: WireRecord)
        ensures
            r@ == self@,
    {
        WireRecord {
            name: self.name.clone(),
            rtype: self.rtype,
            ttl: self.ttl,
            data: self.data.clone(),
            wire: slice_to_vec(self.wire.as_slice()),
        }
    }
}

// ---------------------------------------------------------------------------
// Picking records out of a section
// ---------------------------------------------------------------------------
/// Whether a record is owned by `owner` and of type `rtype`.
pub open spec fn is_at(r: RecordView, owner: Seq<Seq<u8>>, rtype: u16) -> bool {
    same_name(r.name, owner) && r.rtype == rtype
}

/// The records owned by `owner` of type `rtype`, in their order.
pub open spec fn at(records: Seq<RecordView>, owner: Seq<Seq<u8>>, rtype: u16) -> Seq<RecordView> {
    records.filter(|r: RecordView| is_at(r, owner, rtype))
}

/// Extracts the records of a given type at a given owner.
pub fn records_at(records: &[WireRecord], owner: &Name, rtype: u16) -> (r: Vec<WireRecord>)
    ensures
        record_views(r@) == at(record_views(records@), owner@, rtype),
{
    let mut out: Vec<WireRecord> = Vec::new();
    let ghost all = record_views(records@);
    let ghost p = |r: RecordView| is_at(r, owner@, rtype);
    let mut i: usize = 0;
    proof {
        reveal(Seq::filter);
        assert(all.subrange(0, 0) =~= Seq::empty());
        assert(record_views(out@) =~= all.subrange(0, 0).filter(p));
    }
    while i < records.len()
        invariant
            i <= records.len(),
            all == record_views(records@),
            p == (|r: RecordView| is_at(r, owner@, rtype)),
            record_views(out@) == all.subrange(0, i as int).filter(p),
        decreases records.len() - i,
    {
        let ghost before = out@;
        if records[i].rtype == rtype && records[i].name.is(owner) {
            out.push(records[i].clone());
        }
        proof {
            reveal(Seq::filter);
            let q = all.subrange(0, i + 1);
            assert(q.drop_last() =~= all.subrange(0, i as int));
            assert(q.last() == records@[i as int]@);
            assert(record_views(out@) =~= q.filter(p));
        }
        i = i + 1;
    }
    assert(all.subrange(0, i as int) =~= all);
    out
}

/// Whether a DNSKEY may verify RRsets: the zone-key flag is set and the key is not revoked
/// (RFC 4034 section 2.1.1, RFC 5011 section 3).
pub open spec fn is_zone_key(k: DnskeyView) -> bool {
    k.flags / 256 % 2 == 1 && k.flags / 128 % 2 == 0
}

/// The usable zone keys of `zone` in a section.
pub open spec fn zone_keys_of(records: Seq<RecordView>, zone: Seq<Seq<u8>>) -> Seq<DnskeyView>
    decreases records.len(),
{
    if records.len() == 0 {
        Seq::empty()
    } else {
        let before = zone_keys_of(records.drop_last(), zone);
        let last = records.last();
        match last.data {
            DataView::Dnskey(k) => if is_at(last, zone, TYPE_DNSKEY) && is_zone_key(k) {
                before.push(k)
            } else {
                before
            },
            _ => before,
        }
    }
}

/// Pulls the DNSKEY records out of a section, keeping only those usable as zone keys.
pub fn zone_keys(records: &[WireRecord], zone: &Name) -> (r: Vec<Dnskey>)
    ensures
        key_views(r@) == zone_keys_of(record_views(records@), zone@),
{
    let mut out: Vec<Dnskey> = Vec::new();
    let ghost all = record_views(records@);
    let mut i: usize = 0;
    proof {
        assert(all.subrange(0, 0) =~= Seq::empty());
        assert(key_views(out@) =~= Seq::empty());
    }
    while i < records.len()
        invariant
            i <= records.len(),
            all == record_views(records@),
            key_views(out@) == zone_keys_of(all.subrange(0, i as int), zone@),
        decreases records.len() - i,
    {
        let ghost before = key_views(out@);
        proof {
            let q = all.subrange(0, i + 1);
            assert(q.drop_last() =~= all.subrange(0, i as int));
            assert(q.last() == records@[i as int]@);
        }
        if let RecordData::Dnskey(k) = &records[i].data {
            if records[i].rtype == TYPE_DNSKEY && records[i].name.is(zone) && k.flags / 256 % 2 == 1
                && k.flags / 128 % 2 == 0 {
                out.push(k.clone());
                assert(key_views(out@) =~= before.push(k@));
            }
        }
        i = i + 1;
    }
    assert(all.subrange(0, i as int) =~= all);
    out
}

/// The DS data for `child` in a section.
pub open spec fn ds_of(records: Seq<RecordView>, child: Seq<Seq<u8>>) -> Seq<DsView>
    decreases records.len(),
{
    if records.len() == 0 {
        Seq::empty()
    } else {
        let before = ds_of(records.drop_last(), child);
        let last = records.last();
        match last.data {
            DataView::Ds(d) => if is_at(last, child, TYPE_DS) {
                before.push(d)
            } else {
                before
            },
            _ => before,
        }
    }
}

/// Pulls the DS records for `child` out of a section.
pub fn ds_records(records: &[WireRecord], child: &Name) -> (r: Vec<Ds>)
    ensures
        ds_views(r@) == ds_of(record_views(records@), child@),
{
    let mut out: Vec<Ds> = Vec::new();
    let ghost all = record_views(records@);
    let mut i: usize = 0;
    proof {
        assert(all.subrange(0, 0) =~= Seq::empty());
        assert(ds_views(out@) =~= Seq::empty());
    }
    while i < records.len()
        invariant
            i <= records.len(),
            all == record_views(records@),
            ds_views(out@) == ds_of(all.subrange(0, i as int), child@),
        decreases records.len() - i,
    {
        let ghost before = ds_views(out@);
        proof {
            let q = all.subrange(0, i + 1);
            assert(q.drop_last() =~= all.subrange(0, i as int));
            assert(q.last() == records@[i as int]@);
        }
        if let RecordData::Ds(d) = &records[i].data {
            if records[i].rtype == TYPE_DS && records[i].name.is(child) {
                out.push(d.clone());
                assert(ds_views(out@) =~= before.push(d@));
            }
        }
        i = i + 1;
    }
    assert(all.subrange(0, i as int) =~= all);
    out
}

/// The contents of owned NSEC data.
pub open spec fn nsec_views(v: Seq<(Name, NsecData)>) -> Seq<(Seq<Seq<u8>>, NsecView)> {
    Seq::new(v.len(), |i: int| (v[i].0@, v[i].1@))
}

/// The contents of owned NSEC3 data.
pub open spec fn nsec3_views(v: Seq<(Name, Nsec3Data)>) -> Seq<(Seq<Seq<u8>>, Nsec3View)> {
    Seq::new(v.len(), |i: int| (v[i].0@, v[i].1@))
}

/// The NSEC data of a section with its owners.
pub open spec fn nsec_of(records: Seq<RecordView>) -> Seq<(Seq<Seq<u8>>, NsecView)>
    decreases records.len(),
{
    if records.len() == 0 {
        Seq::empty()
    } else {
        let before = nsec_of(records.drop_last());
        match records.last().data {
            DataView::Nsec(n) => before.push((records.last().name, n)),
            _ => before,
        }
    }
}

/// The NSEC3 data of a section with its owners.
pub open spec fn nsec3_of(records: Seq<RecordView>) -> Seq<(Seq<Seq<u8>>, Nsec3View)>
    decreases records.len(),
{
    if records.len() == 0 {
        Seq::empty()
    } else {
        let before = nsec3_of(records.drop_last());
        match records.last().data {
            DataView::Nsec3(n) => before.push((records.last().name, n)),
            _ => before,
        }
    }
}

impl Denial {
    /// Collects the NSEC and NSEC3 records from an authority section.
    pub fn from_records(records: &[WireRecord]) -> (r: Denial)
        ensures
            nsec_views(r.nsec@) == nsec_of(record_views(records@)),
            nsec3_views(r.nsec3@) == nsec3_of(record_views(records@)),
    {
        let mut nsec: Vec<(Name, NsecData)> = Vec::new();
        let mut nsec3: Vec<(Name, Nsec3Data)> = Vec::new();
        let ghost all = record_views(records@);
        let mut i: usize = 0;
        proof {
            assert(all.subrange(0, 0) =~= Seq::empty());
            assert(nsec_views(nsec@) =~= Seq::empty());
            assert(nsec3_views(nsec3@) =~= Seq::empty());
        }
        while i < records.len()
            invariant
                i <= records.len(),
                all == record_views(records@),
                nsec_views(nsec@) == nsec_of(all.subrange(0, i as int)),
                nsec3_views(nsec3@) == nsec3_of(all.subrange(0, i as int)),
            decreases records.len() - i,
        {
            let ghost before = nsec_views(nsec@);
            let ghost before3 = nsec3_views(nsec3@);
            proof {
                let q = all.subrange(0, i + 1);
                assert(q.drop_last() =~= all.subrange(0, i as int));
                assert(q.last() == records@[i as int]@);
            }
            match &records[i].data {
                RecordData::Nsec(n) => {
                    nsec.push((records[i].name.clone(), n.clone()));
                    assert(nsec_views(nsec@) =~= before.push((records@[i as int].name@, n@)));
                },
                RecordData::Nsec3(n) => {
                    nsec3.push((records[i].name.clone(), n.clone()));
                    assert(nsec3_views(nsec3@) =~= before3.push((records@[i as int].name@, n@)));
                },
                _ => {},
            }
            i = i + 1;
        }
        assert(all.subrange(0, i as int) =~= all);
        Denial { nsec, nsec3 }
    }
}

// ---------------------------------------------------------------------------
// RRsets
// ---------------------------------------------------------------------------
/// An RRset: an owner name, a type, and every record sharing both.
pub struct Rrset {
    pub name: Name,
    pub rtype: u16,
    pub records: Vec<WireRecord>,
}

/// The contents of an RRset.
pub ghost struct RrsetView {
    pub name: Seq<Seq<u8>>,
    pub rtype: u16,
    pub records: Seq<RecordView>,
}

impl View for Rrset {
    type V = RrsetView;

    open spec fn view(&self) -> RrsetView {
        RrsetView {
            name: self.name@,
            rtype: self.rtype,
            records: record_views(self.records@),
        }
    }
}

/// The contents of RRsets.
pub open spec fn rrset_views(sets: Seq<Rrset>) -> Seq<RrsetView> {
    Seq::new(sets.len(), |i: int| sets[i]@)
}

/// The first RRset at or after `i` that a record belongs to.
pub open spec fn rrset_index(sets: Seq<RrsetView>, r: RecordView, i: int) -> int
    decreases sets.len() - i,
{
    if i >= sets.len() {
        sets.len() as int
    } else if sets[i].rtype == r.rtype && same_name(sets[i].name, r.name) {
        i
    } else {
        rrset_index(sets, r, i + 1)
    }
}

/// RRsets with one record more.
pub open spec fn rrsets_with(sets: Seq<RrsetView>, r: RecordView) -> Seq<RrsetView> {
    let i = rrset_index(sets, r, 0);
    if i < sets.len() {
        sets.update(i, RrsetView { records: sets[i].records.push(r), ..sets[i] })
    } else {
        sets.push(RrsetView { name: r.name, rtype: r.rtype, records: seq![r] })
    }
}

/// The RRsets of a section, signatures held aside, in order of first appearance.
pub open spec fn rrsets_of(records: Seq<RecordView>) -> Seq<RrsetView>
    decreases records.len(),
{
    if records.len() == 0 {
        Seq::empty()
    } else {
        let before = rrsets_of(records.drop_last());
        if records.last().rtype == TYPE_RRSIG {
            before
        } else {
            rrsets_with(before, records.last())
        }
    }
}

/// The signatures of a section.
pub open spec fn sigs_of(records: Seq<RecordView>) -> Seq<RecordView>
    decreases records.len(),
{
    if records.len() == 0 {
        Seq::empty()
    } else {
        let before = sigs_of(records.drop_last());
        if records.last().rtype == TYPE_RRSIG {
            before.push(records.last())
        } else {
            before
        }
    }
}

fn add_to_rrsets(sets: &mut Vec<Rrset>, r: WireRecord)
    ensures
        rrset_views(final(sets)@) == rrsets_with(rrset_views(old(sets)@), r@),
{
    let ghost views = rrset_views(sets@);
    let ghost rv = r@;
    let mut i: usize = 0;
    while i < sets.len()
        invariant
            i <= sets.len(),
            *sets == *old(sets),
            views == rrset_views(sets@),
            rv == r@,
            rrset_index(views, rv, 0) == rrset_index(views, rv, i as int),
        decreases sets.len() - i,
    {
        assert(views[i as int] == sets@[i as int]@);
        if sets[i].rtype == r.rtype && sets[i].name.is(&r.name) {
            // Take the set out, add the record, and put it back in its place.
            let ghost was = sets@[i as int]@;
            let mut set = sets.remove(i);
            let ghost group = record_views(set.records@);
            set.records.push(r);
            assert(record_views(set.records@) =~= group.push(rv));
            sets.insert(i, set);
            assert(rrset_views(sets@) =~= views.update(
                i as int,
                RrsetView { records: was.records.push(rv), ..was },
            ));
            return;
        }
        i = i + 1;
    }
    let name = r.name.clone();
    let rtype: u16 = r.rtype;
    let mut records: Vec<WireRecord> = Vec::new();
    records.push(r);
    assert(record_views(records@) =~= seq![rv]);
    sets.push(Rrset { name, rtype, records });
    assert(rrset_views(sets@) =~= rrsets_with(views, rv));
}

/// Splits a section into the RRsets it contains, with RRSIGs held aside.
pub fn group_rrsets(records: &[WireRecord]) -> (r: (Vec<Rrset>, Vec<WireRecord>))
    ensures
        rrset_views(r.0@) == rrsets_of(record_views(records@)),
        record_views(r.1@) == sigs_of(record_views(records@)),
{
    let mut sets: Vec<Rrset> = Vec::new();
    let mut sigs: Vec<WireRecord> = Vec::new();
    let ghost all = record_views(records@);
    let mut i: usize = 0;
    proof {
        assert(all.subrange(0, 0) =~= Seq::empty());
        assert(rrset_views(sets@) =~= Seq::empty());
        assert(record_views(sigs@) =~= Seq::empty());
    }
    while i < records.len()
        invariant
            i <= records.len(),
            all == record_views(records@),
            rrset_views(sets@) == rrsets_of(all.subrange(0, i as int)),
            record_views(sigs@) == sigs_of(all.subrange(0, i as int)),
        decreases records.len() - i,
    {
        let ghost before = record_views(sigs@);
        proof {
            let q = all.subrange(0, i + 1);
            assert(q.drop_last() =~= all.subrange(0, i as int));
            assert(q.last() == records@[i as int]@);
        }
        let record = records[i].clone();
        if record.rtype == TYPE_RRSIG {
            sigs.push(record);
            assert(record_views(sigs@) =~= before.push(records@[i as int]@));
        } else {
            add_to_rrsets(&mut sets, record);
        }
        i = i + 1;
    }
    assert(all.subrange(0, i as int) =~= all);
    (sets, sigs)
}

// ---------------------------------------------------------------------------
// Small questions about a section
// ---------------------------------------------------------------------------
/// Whether a type is one that a validator handles itself.
pub open spec fn dnssec_type(rtype: u16) -> bool {
    rtype == TYPE_RRSIG || rtype == TYPE_DNSKEY || rtype == TYPE_DS || rtype == TYPE_NSEC || rtype
        == TYPE_NSEC3 || rtype == TYPE_NSEC3PARAM
}

/// Whether a record is one of the DNSSEC types a validator handles itself.
pub fn is_dnssec_type(rtype: u16) -> (r: bool)
    ensures
        r == dnssec_type(rtype),
{
    rtype == TYPE_RRSIG || rtype == TYPE_DNSKEY || rtype == TYPE_DS || rtype == TYPE_NSEC || rtype
        == TYPE_NSEC3 || rtype == TYPE_NSEC3PARAM
}

/// Whether `ttl` is the smallest TTL in a section, `fallback` in an empty one.
pub open spec fn is_min_ttl(records: Seq<RecordView>, fallback: u32, ttl: u32) -> bool {
    if records.len() == 0 {
        ttl == fallback
    } else {
        &&& exists|i: int| 0 <= i < records.len() && (#[trigger] records[i]).ttl == ttl
        &&& forall|i: int| 0 <= i < records.len() ==> ttl <= (#[trigger] records[i]).ttl
    }
}

/// The minimum TTL across a section.
pub fn min_ttl(records: &[WireRecord], fallback: u32) -> (r: u32)
    ensures
        is_min_ttl(record_views(records@), fallback, r),
{
    if records.len() == 0 {
        return fallback;
    }
    let ghost all = record_views(records@);
    let mut least: u32 = records[0].ttl;
    assert(all[0].ttl == least);
    let mut i: usize = 1;
    while i < records.len()
        invariant
            1 <= i <= records.len(),
            all == record_views(records@),
            exists|k: int| 0 <= k < all.len() && (#[trigger] all[k]).ttl == least,
            forall|k: int| 0 <= k < i ==> least <= (#[trigger] all[k]).ttl,
        decreases records.len() - i,
    {
        assert(all[i as int].ttl == records@[i as int].ttl);
        if records[i].ttl < least {
            least = records[i].ttl;
        }
        i = i + 1;
    }
    least
}

/// The SOA record that makes `soa_below` name its owner.
pub open spec fn is_soa_below(r: RecordView, zone: Seq<Seq<u8>>) -> bool {
    r.rtype == TYPE_SOA && is_zone_of(zone, r.name) && !same_name(r.name, zone)
}

/// The apex of a zone below `zone` that a section's SOA names, the first such.
pub fn soa_below(records: &[WireRecord], zone: &Name) -> (r: Option<Name>)
    ensures
        ({
            let all = record_views(records@);
            match r {
                Some(n) => exists|i: int|
                    {
                        &&& 0 <= i < all.len()
                        &&& is_soa_below(#[trigger] all[i], zone@)
                        &&& all[i].name == n@
                        &&& forall|k: int| 0 <= k < i ==> !is_soa_below(#[trigger] all[k], zone@)
                    },
                None => forall|i: int|
                    0 <= i < all.len() ==> !is_soa_below(#[trigger] all[i], zone@),
            }
        }),
{
    let ghost all = record_views(records@);
    let mut i: usize = 0;
    while i < records.len()
        invariant
            i <= records.len(),
            all == record_views(records@),
            forall|k: int| 0 <= k < i ==> !is_soa_below(#[trigger] all[k], zone@),
        decreases records.len() - i,
    {
        assert(all[i as int] == records@[i as int]@);
        if records[i].rtype == TYPE_SOA && zone.zone_of(&records[i].name) && !records[i].name.is(
            zone,
        ) {
            assert(is_soa_below(all[i as int], zone@));
            return Some(records[i].name.clone());
        }
        i = i + 1;
    }
    None
}

/// Whether a section holds any RRSIG.
pub fn has_any_rrsig(records: &[WireRecord]) -> (r: bool)
    ensures
        r == exists|i: int|
            0 <= i < records@.len() && (#[trigger] record_views(records@)[i]).rtype == TYPE_RRSIG
                && record_views(records@)[i].data != DataView::Other,
{
    let ghost all = record_views(records@);
    let mut i: usize = 0;
    while i < records.len()
        invariant
            i <= records.len(),
            all == record_views(records@),
            forall|k: int|
                0 <= k < i ==> !((#[trigger] all[k]).rtype == TYPE_RRSIG && all[k].data
                    != DataView::Other),
        decreases records.len() - i,
    {
        assert(all[i as int] == records@[i as int]@);
        let known = match &records[i].data {
            RecordData::Other => false,
            _ => true,
        };
        if known && records[i].rtype == TYPE_RRSIG {
            assert(record_views(records@)[i as int].rtype == TYPE_RRSIG);
            return true;
        }
        i = i + 1;
    }
    false
}

/// Whether a record with a signature makes `signer` the zone below `zone` that signed it.
pub open spec fn signs_below(r: RecordView, zone: Seq<Seq<u8>>, signer: Seq<Seq<u8>>) -> bool {
    &&& r.data matches DataView::Rrsig(s) && same_name(s.signer, signer)
    &&& !same_name(signer, zone)
    &&& is_zone_of(zone, signer)
    &&& is_zone_of(signer, r.name)
}

/// Whether `signer` signed every signature of a section and lies below `zone`.
pub open spec fn signed_below(
    records: Seq<RecordView>,
    zone: Seq<Seq<u8>>,
    signer: Seq<Seq<u8>>,
) -> bool {
    forall|i: int|
        0 <= i < records.len() && (#[trigger] records[i]).data is Rrsig ==> signs_below(
            records[i],
            zone,
            signer,
        )
}

/// Whether a section has a signature.
pub open spec fn has_signature(records: Seq<RecordView>) -> bool {
    exists|i: int| 0 <= i < records.len() && (#[trigger] records[i]).data is Rrsig
}

proof fn lemma_zone_of_same(a: Seq<Seq<u8>>, b: Seq<Seq<u8>>, c: Seq<Seq<u8>>)
    requires
        same_name(a, b),
    ensures
        is_zone_of(a, c) == is_zone_of(b, c),
        is_zone_of(c, a) == is_zone_of(c, b),
        same_name(a, c) == same_name(b, c),
{
    assert(crate::wire_name::name_key(a).len() == crate::wire_name::name_key(b).len());
}

/// The zone that signed a section, when it lies strictly below `zone`: every signature
/// names it, it is inside `zone`, and it contains every name it signed.
pub fn signer_below(records: &[WireRecord], zone: &Name) -> (r: Option<Name>)
    ensures
        ({
            let all = record_views(records@);
            match r {
                Some(n) => has_signature(all) && signed_below(all, zone@, n@),
                None => !has_signature(all) || forall|n: Seq<Seq<u8>>|
                    !(#[trigger] signed_below(all, zone@, n)),
            }
        }),
{
    let ghost all = record_views(records@);
    let mut signer: Option<Name> = None;
    let mut i: usize = 0;
    while i < records.len()
        invariant
            i <= records.len(),
            all == record_views(records@),
            match signer {
                Some(n) => {
                    &&& exists|k: int| 0 <= k < i && (#[trigger] all[k]).data is Rrsig
                    &&& forall|k: int|
                        0 <= k < i && (#[trigger] all[k]).data is Rrsig ==> signs_below(
                            all[k],
                            zone@,
                            n@,
                        )
                },
                None => forall|k: int| 0 <= k < i ==> !((#[trigger] all[k]).data is Rrsig),
            },
        decreases records.len() - i,
    {
        let ghost here = all[i as int];
        assert(here == records@[i as int]@);
        if let RecordData::Rrsig(sig) = &records[i].data {
            let candidate = &sig.signer;
            if candidate.is(zone) || !zone.zone_of(candidate) || !candidate.zone_of(
                &records[i].name,
            ) {
                proof {
                    assert forall|n: Seq<Seq<u8>>| !(#[trigger] signed_below(all, zone@, n)) by {
                        if signed_below(all, zone@, n) {
                            assert(signs_below(all[i as int], zone@, n));
                            lemma_zone_of_same(candidate@, n, zone@);
                            lemma_zone_of_same(candidate@, n, here.name);
                        }
                    }
                }
                return None;
            }
            let differs = match &signer {
                Some(seen) => !seen.is(candidate),
                None => false,
            };
            if differs {
                proof {
                    let k = choose|k: int| 0 <= k < i && (#[trigger] all[k]).data is Rrsig;
                    assert(signs_below(all[k], zone@, signer->0@));
                    assert forall|n: Seq<Seq<u8>>| !(#[trigger] signed_below(all, zone@, n)) by {
                        if signed_below(all, zone@, n) {
                            assert(signs_below(all[i as int], zone@, n));
                            assert(signs_below(all[k], zone@, n));
                        }
                    }
                }
                return None;
            }
            if signer.is_none() {
                signer = Some(candidate.clone());
                assert(signs_below(all[i as int], zone@, signer->0@));
            } else {
                proof {
                    lemma_zone_of_same(candidate@, signer->0@, zone@);
                    lemma_zone_of_same(candidate@, signer->0@, here.name);
                    assert(signs_below(all[i as int], zone@, signer->0@));
                }
            }
        }
        i = i + 1;
    }
    signer
}

/// The algorithm numbers of a key set, in ascending order, each once.
pub open spec fn are_algorithms_of(keys: Seq<DnskeyView>, algorithms: Seq<u8>) -> bool {
    &&& forall|i: int, j: int|
        0 <= i < j < algorithms.len() ==> #[trigger] algorithms[i] < #[trigger] algorithms[j]
    &&& forall|a: u8|
        algorithms.contains(a) == exists|i: int|
            0 <= i < keys.len() && (#[trigger] keys[i]).algorithm == a
}

/// The algorithms present in a DNSKEY set.
pub fn dnskey_algorithms(keys: &[Dnskey]) -> (r: Vec<u8>)
    ensures
        are_algorithms_of(key_views(keys@), r@),
{
    let mut out: Vec<u8> = Vec::new();
    let ghost all = key_views(keys@);
    let mut a: u16 = 0;
    while a < 256
        invariant
            a <= 256,
            all == key_views(keys@),
            forall|i: int| 0 <= i < out@.len() ==> (#[trigger] out@[i]) < a,
            forall|i: int, j: int|
                0 <= i < j < out@.len() ==> #[trigger] out@[i] < #[trigger] out@[j],
            forall|x: u8|
                x < a ==> out@.contains(x) == exists|i: int|
                    0 <= i < all.len() && (#[trigger] all[i]).algorithm == x,
        decreases 256 - a,
    {
        let mut found = false;
        let mut i: usize = 0;
        while i < keys.len()
            invariant
                i <= keys.len(),
                a < 256,
                all == key_views(keys@),
                found == exists|k: int| 0 <= k < i && (#[trigger] all[k]).algorithm == a,
            decreases keys.len() - i,
        {
            assert(all[i as int].algorithm == keys@[i as int].algorithm);
            if keys[i].algorithm as u16 == a {
                found = true;
            }
            i = i + 1;
        }
        let ghost before = out@;
        if found {
            out.push(a as u8);
        }
        proof {
            assert forall|x: u8| x < a + 1 implies out@.contains(x) == exists|i: int|
                0 <= i < all.len() && (#[trigger] all[i]).algorithm == x by {
                if x < a {
                    assert(out@.contains(x) == before.contains(x)) by {
                        if before.contains(x) {
                            let k = choose|k: int| 0 <= k < before.len() && before[k] == x;
                            assert(out@[k] == x);
                        }
                        if out@.contains(x) {
                            let k = choose|k: int| 0 <= k < out@.len() && out@[k] == x;
                            assert(k < before.len());
                            assert(before[k] == x);
                        }
                    }
                } else {
                    if found {
                        assert(out@[before.len() as int] == x);
                    } else if out@.contains(x) {
                        let k = choose|k: int| 0 <= k < out@.len() && out@[k] == x;
                        assert(out@[k] < a);
                    }
                }
            }
        }
        a = a + 1;
    }
    out
}

} // verus!
