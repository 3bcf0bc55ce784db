//! What a server has learned from its upstreams: answers, that there are none, and the way
//! to them. It holds until it expires, or until the server settles on another upstream.
use std::collections::HashMap;
use vstd::hash_map::StringHashMap;
use vstd::prelude::*;

use super::cache::{scoped_cache_name, scoped_name, CacheEntry, NegativeEntry};
use super::resolve::NegativeKind;
use crate::addr::SocketAddress;
use crate::message::ResourceRecord;
use crate::record::{DnsRecord, RecordKind};

verus! {

broadcast use {vstd::string::group_string_axioms, vstd::std_specs::hash::group_hash_axioms};

// ---------------------------------------------------------------------------
// Shelves
// ---------------------------------------------------------------------------
/// A value that is kept for a name and a type of record.
#[derive(Debug)]
pub struct Slot<T> {
    pub kind: Option<RecordKind>,
    pub value: T,
    /// When it is out of date, in seconds since the epoch, if ever.
    pub expires: Option<u64>,
}

/// The slot for a type of record.
pub open spec fn slot_for<T>(slots: Seq<Slot<T>>, kind: Option<RecordKind>) -> Option<Slot<T>>
    decreases slots.len(),
{
    if slots.len() == 0 {
        None
    } else if slots.last().kind == kind {
        Some(slots.last())
    } else {
        slot_for(slots.drop_last(), kind)
    }
}

/// Whether a slot can still be used at some time.
pub open spec fn is_current<T>(slot: Slot<T>, now: u64) -> bool {
    slot.expires is None || now < slot.expires->0
}

proof fn lemma_slot_replaced<T>(
    slots: Seq<Slot<T>>,
    i: int,
    slot: Slot<T>,
    kind: Option<RecordKind>,
)
    requires
        0 <= i < slots.len(),
        slots[i].kind == slot.kind,
        forall|j: int| i < j < slots.len() ==> (#[trigger] slots[j]).kind != slot.kind,
    ensures
        slot_for(slots.update(i, slot), kind) == if kind == slot.kind {
            Some(slot)
        } else {
            slot_for(slots, kind)
        },
    decreases slots.len(),
{
    let after = slots.update(i, slot);
    if i < slots.len() - 1 {
        assert(after.drop_last() =~= slots.drop_last().update(i, slot));
        lemma_slot_replaced(slots.drop_last(), i, slot, kind);
    } else {
        assert(after.drop_last() =~= slots.drop_last());
    }
}

proof fn lemma_slot_missing<T>(slots: Seq<Slot<T>>, kind: Option<RecordKind>)
    requires
        forall|j: int| 0 <= j < slots.len() ==> (#[trigger] slots[j]).kind != kind,
    ensures
        slot_for(slots, kind) is None,
    decreases slots.len(),
{
    if slots.len() > 0 {
        assert(slots.last() == slots[slots.len() - 1]);
        lemma_slot_missing(slots.drop_last(), kind);
    }
}

/// Finds the slot for a type of record.
fn find_slot<T>(slots: &Vec<Slot<T>>, kind: Option<RecordKind>) -> (r: Option<usize>)
    ensures
        match r {
            Some(i) => i < slots@.len() && slots@[i as int].kind == kind && slot_for(slots@, kind)
                == Some(slots@[i as int]) && forall|j: int|
                i < j < slots@.len() ==> (#[trigger] slots@[j]).kind != kind,
            None => slot_for(slots@, kind) is None,
        },
{
    let mut i: usize = slots.len();
    assert(slots@.subrange(0, i as int) =~= slots@);
    while i > 0
        invariant
            i <= slots@.len(),
            slot_for(slots@, kind) == slot_for(slots@.subrange(0, i as int), kind),
            forall|j: int| i <= j < slots@.len() ==> (#[trigger] slots@[j]).kind != kind,
        decreases i,
    {
        i = i - 1;
        proof {
            let s = slots@.subrange(0, i + 1);
            assert(s.last() == slots@[i as int]);
            assert(s.drop_last() =~= slots@.subrange(0, i as int));
        }
        if same_kind(slots[i].kind, kind) {
            return Some(i);
        }
    }
    None
}

fn same_kind(a: Option<RecordKind>, b: Option<RecordKind>) -> (r: bool)
    ensures
        r == (a == b),
{
    match (a, b) {
        (Some(a), Some(b)) => a == b,
        (None, None) => true,
        _ => false,
    }
}

/// Values kept by name and type of record.
pub struct Shelf<T> {
    /// The number of each name that something is kept for.
    numbers: StringHashMap<u64>,
    /// What is kept for the name of each number.
    rows: HashMap<u64, Vec<Slot<T>>>,
    /// The next number.
    next: u64,
}

impl<T> Shelf<T> {
    /// Every name has a number of its own, and something is kept for it.
    pub closed spec fn wf(&self) -> bool {
        &&& forall|n: Seq<char>|
            #![trigger self.numbers@[n]]
            self.numbers@.contains_key(n) ==> self.numbers@[n] < self.next
                && self.rows@.contains_key(self.numbers@[n]) && self.rows@[self.numbers@[n]]@.len()
                > 0
        &&& forall|a: Seq<char>, b: Seq<char>|
            #![trigger self.numbers@[a], self.numbers@[b]]
            self.numbers@.contains_key(a) && self.numbers@.contains_key(b) && self.numbers@[a]
                == self.numbers@[b] ==> a == b
    }

    /// Whether another name can be kept without forgetting the others: as good as ever.
    pub closed spec fn has_room(&self) -> bool {
        self.next < u64::MAX
    }

    /// What is kept for a name and a type of record, out of date or not.
    pub closed spec fn at(&self, name: Seq<char>, kind: Option<RecordKind>) -> Option<Slot<T>> {
        if self.numbers@.contains_key(name) {
            slot_for(self.rows@[self.numbers@[name]]@, kind)
        } else {
            None
        }
    }

    /// Whether nothing is kept.
    pub open spec fn is_bare(&self) -> bool {
        forall|n: Seq<char>, k: Option<RecordKind>| #[trigger] self.at(n, k) is None
    }

    /// An empty shelf.
    pub fn new() -> (r: Shelf<T>)
        ensures
            r.wf(),
            r.has_room(),
            r.is_bare(),
    {
        Shelf { numbers: StringHashMap::new(), rows: HashMap::new(), next: 0 }
    }

    /// What is kept for a name and a type of record, if it can still be used.
    pub fn get(&self, name: &str, kind: Option<RecordKind>, now: u64) -> (r: Option<&T>)
        requires
            self.wf(),
        ensures
            match self.at(name@, kind) {
                Some(slot) if is_current(slot, now) => r == Some(&slot.value),
                _ => r is None,
            },
    {
        let number: u64 = match self.numbers.get(name) {
            Some(n) => *n,
            None => return None,
        };
        match self.rows.get(&number) {
            Some(row) => match find_slot(row, kind) {
                Some(i) => {
                    let current = match row[i].expires {
                        Some(expires) => now < expires,
                        None => true,
                    };
                    if current {
                        Some(&row[i].value)
                    } else {
                        None
                    }
                },
                None => None,
            },
            None => None,
        }
    }

    /// Keeps a value for a name and a type of record, in place of what was kept for them.
    /// Where there is no room, everything else is forgotten.
    pub fn put(&mut self, name: &str, slot: Slot<T>)
        requires
            old(self).wf(),
        ensures
            final(self).wf(),
            forall|n: Seq<char>, k: Option<RecordKind>|
                #[trigger] final(self).at(n, k) == if n == name@ && k == slot.kind {
                    Some(slot)
                } else if old(self).has_room() {
                    old(self).at(n, k)
                } else {
                    None
                },
    {
        if self.next == u64::MAX {
            self.clear();
        }
        self.place(name, slot);
    }

    fn place(&mut self, name: &str, slot: Slot<T>)
        requires
            old(self).wf(),
            old(self).has_room(),
        ensures
            final(self).wf(),
            forall|n: Seq<char>, k: Option<RecordKind>|
                #[trigger] final(self).at(n, k) == if n == name@ && k == slot.kind {
                    Some(slot)
                } else {
                    old(self).at(n, k)
                },
    {
        let known: Option<u64> = match self.numbers.get(name) {
            Some(n) => Some(*n),
            None => None,
        };
        let number: u64 = match known {
            Some(n) => n,
            None => self.next,
        };
        let mut row: Vec<Slot<T>> = match known {
            Some(n) => match self.rows.remove(&n) {
                Some(row) => row,
                None => Vec::new(),
            },
            None => Vec::new(),
        };
        let ghost before = row@;
        match find_slot(&row, slot.kind) {
            Some(i) => {
                proof {
                    assert forall|k: Option<RecordKind>|
                        slot_for(before.update(i as int, slot), k) == if k == slot.kind {
                            Some(slot)
                        } else {
                            slot_for(before, k)
                        } by {
                        lemma_slot_replaced(before, i as int, slot, k);
                    }
                }
                row.set(i, slot);
            },
            None => {
                row.push(slot);
                assert(row@.drop_last() =~= before);
            },
        }
        let ghost after = row@;
        assert(forall|k: Option<RecordKind>|
            slot_for(after, k) == if k == slot.kind {
                Some(slot)
            } else {
                slot_for(before, k)
            });
        self.rows.insert(number, row);
        if known.is_none() {
            self.numbers.insert(name.to_owned(), number);
            self.next = number + 1;
        }
        proof {
            let was = *old(self);
            assert(self.numbers@[name@] == number);
            assert(self.rows@[number]@ == after);
            assert(was.numbers@.contains_key(name@) ==> before == was.rows@[number]@);
            assert forall|n: Seq<char>, k: Option<RecordKind>| #[trigger]
                self.at(n, k) == if n == name@ && k == slot.kind {
                    Some(slot)
                } else {
                    was.at(n, k)
                } by {
                if n != name@ && was.numbers@.contains_key(n) {
                    assert(was.numbers@[n] != number);
                    assert(self.numbers@[n] == was.numbers@[n]);
                    assert(self.rows@[was.numbers@[n]] == was.rows@[was.numbers@[n]]);
                }
            }
        }
    }

    /// Keeps nothing for a name.
    pub fn remove(&mut self, name: &str)
        requires
            old(self).wf(),
        ensures
            final(self).wf(),
            old(self).has_room() ==> final(self).has_room(),
            forall|n: Seq<char>, k: Option<RecordKind>|
                #[trigger] final(self).at(n, k) == if n == name@ {
                    None
                } else {
                    old(self).at(n, k)
                },
    {
        let number: u64 = match self.numbers.get(name) {
            Some(n) => *n,
            None => return,
        };
        self.rows.remove(&number);
        self.numbers.remove(name);
    }

    /// Keeps nothing.
    pub fn clear(&mut self)
        ensures
            final(self).wf(),
            final(self).has_room(),
            final(self).is_bare(),
    {
        self.numbers.clear();
        self.rows.clear();
        self.next = 0;
    }

    /// Whether nothing is kept.
    pub fn is_empty(&self) -> (r: bool)
        requires
            self.wf(),
        ensures
            r == self.is_bare(),
    {
        let empty = self.numbers.is_empty();
        proof {
            if !empty {
                let n = choose|n: Seq<char>| self.numbers@.contains_key(n);
                let row = self.rows@[self.numbers@[n]]@;
                assert(self.numbers@.contains_key(n));
                assert(self.at(n, row.last().kind) is Some);
            }
        }
        empty
    }
}

// ---------------------------------------------------------------------------
// The cache of answers
// ---------------------------------------------------------------------------
/// Records that are kept as an answer.
#[derive(Debug)]
pub struct Kept {
    pub records: Vec<DnsRecord>,
    /// Whether they are the server's own.
    pub local: bool,
}

/// The answers that are remembered, and the questions that have none.
pub struct AnswerCache {
    pub answers: Shelf<Kept>,
    pub negatives: Shelf<NegativeKind>,
}

/// Whether a shelf is another one with one more slot, what that replaces aside.
pub open spec fn is_put<T>(
    before: Shelf<T>,
    after: Shelf<T>,
    name: Seq<char>,
    slot: Slot<T>,
) -> bool {
    after.wf() && forall|n: Seq<char>, k: Option<RecordKind>|
        #[trigger] after.at(n, k) == if n == name && k == slot.kind {
            Some(slot)
        } else if before.has_room() {
            before.at(n, k)
        } else {
            None
        }
}

/// When something is out of date that holds for some seconds.
pub open spec fn end_of(now: u64, ttl: u32) -> u64 {
    if now + ttl <= u64::MAX {
        (now + ttl) as u64
    } else {
        u64::MAX
    }
}

fn end_time(now: u64, ttl: u32) -> (r: u64)
    ensures
        r == end_of(now, ttl),
{
    match now.checked_add(ttl as u64) {
        Some(t) => t,
        None => u64::MAX,
    }
}

impl AnswerCache {
    /// Whether both shelves are in order.
    pub open spec fn wf(&self) -> bool {
        self.answers.wf() && self.negatives.wf()
    }

    /// Whether nothing is remembered.
    pub open spec fn is_bare(&self) -> bool {
        self.answers.is_bare() && self.negatives.is_bare()
    }

    /// What is remembered at some time as the answer to a question.
    pub open spec fn kept(&self, name: Seq<char>, kind: Option<RecordKind>, now: u64) -> Option<
        Kept,
    > {
        match self.answers.at(name, kind) {
            Some(slot) if is_current(slot, now) => Some(slot.value),
            _ => None,
        }
    }

    /// An empty cache.
    pub fn new() -> (r: AnswerCache)
        ensures
            r.wf(),
            r.is_bare(),
    {
        AnswerCache { answers: Shelf::new(), negatives: Shelf::new() }
    }

    /// The records that are remembered as the answer to a question.
    pub fn lookup(&self, name: &str, kind: Option<RecordKind>, now: u64) -> (r: Vec<DnsRecord>)
        requires
            self.wf(),
        ensures
            r@ == match self.kept(name@, kind, now) {
                Some(kept) => kept.records@,
                None => Seq::empty(),
            },
    {
        match self.answers.get(name, kind, now) {
            Some(kept) => {
                let records = kept.records.clone();
                assert(records@ =~= kept.records@);
                records
            },
            None => Vec::new(),
        }
    }

    /// The server's own records that are remembered as the answer to a question.
    pub fn lookup_local_only(&self, name: &str, kind: Option<RecordKind>, now: u64) -> (r: Vec<
        DnsRecord,
    >)
        requires
            self.wf(),
        ensures
            r@ == match self.kept(name@, kind, now) {
                Some(kept) if kept.local => kept.records@,
                _ => Seq::empty(),
            },
    {
        match self.answers.get(name, kind, now) {
            Some(kept) => if kept.local {
                let records = kept.records.clone();
                assert(records@ =~= kept.records@);
                records
            } else {
                Vec::new()
            },
            None => Vec::new(),
        }
    }

    /// In which way a question is remembered to have no answer.
    pub fn lookup_negative(&self, name: &str, kind: Option<RecordKind>, now: u64) -> (r: Option<
        NegativeKind,
    >)
        requires
            self.wf(),
        ensures
            r == match self.negatives.at(name@, kind) {
                Some(slot) if is_current(slot, now) => Some(slot.value),
                _ => None,
            },
    {
        match self.negatives.get(name, kind, now) {
            Some(negative) => Some(*negative),
            None => None,
        }
    }

    /// Remembers an answer from upstream until its time to live is over.
    pub fn insert(&mut self, entry: CacheEntry, now: u64)
        requires
            old(self).wf(),
        ensures
            final(self).negatives == old(self).negatives,
            is_put(
                old(self).answers,
                final(self).answers,
                entry.name@,
                (Slot {
                    kind: entry.kind,
                    value: (Kept { records: entry.records, local: false }),
                    expires: Some(end_of(now, entry.ttl)),
                }),
            ),
    {
        let slot = Slot {
            kind: entry.kind,
            value: Kept { records: entry.records, local: false },
            expires: Some(end_time(now, entry.ttl)),
        };
        self.answers.put(entry.name.as_str(), slot);
    }

    /// Remembers an answer of the server's own.
    pub fn insert_local(&mut self, name: &str, kind: Option<RecordKind>, records: Vec<DnsRecord>)
        requires
            old(self).wf(),
        ensures
            final(self).negatives == old(self).negatives,
            is_put(
                old(self).answers,
                final(self).answers,
                name@,
                (Slot { kind, value: (Kept { records, local: true }), expires: None }),
            ),
    {
        self.answers.put(name, Slot { kind, value: Kept { records, local: true }, expires: None });
    }

    /// Remembers an answer of the server's own, and forgets that its name had none.
    pub fn remember_local(&mut self, name: &str, kind: Option<RecordKind>, records: Vec<DnsRecord>)
        requires
            old(self).wf(),
        ensures
            final(self).negatives.wf(),
            forall|n: Seq<char>, k: Option<RecordKind>|
                #[trigger] final(self).negatives.at(n, k) == if n == name@ {
                    None
                } else {
                    old(self).negatives.at(n, k)
                },
            is_put(
                old(self).answers,
                final(self).answers,
                name@,
                (Slot { kind, value: (Kept { records, local: true }), expires: None }),
            ),
    {
        self.invalidate_negative(name);
        self.insert_local(name, kind, records);
    }

    /// Remembers an answer within a network, and forgets that its name had none there or
    /// elsewhere.
    pub fn remember_scoped(
        &mut self,
        scope: &str,
        qname: &str,
        kind: Option<RecordKind>,
        records: Vec<DnsRecord>,
    )
        requires
            old(self).wf(),
        ensures
            final(self).negatives.wf(),
            forall|n: Seq<char>, k: Option<RecordKind>|
                #[trigger] final(self).negatives.at(n, k) == if n == qname@ || n == scoped_name(
                    scope@,
                    qname@,
                ) {
                    None
                } else {
                    old(self).negatives.at(n, k)
                },
            is_put(
                old(self).answers,
                final(self).answers,
                scoped_name(scope@, qname@),
                (Slot { kind, value: (Kept { records, local: true }), expires: None }),
            ),
    {
        let name = scoped_cache_name(scope, qname);
        self.invalidate_negative(name.as_str());
        self.invalidate_negative(qname);
        self.insert_local(name.as_str(), kind, records);
    }

    /// Remembers that a question has no answer.
    pub fn insert_negative(&mut self, entry: NegativeEntry, now: u64)
        requires
            old(self).wf(),
        ensures
            final(self).answers == old(self).answers,
            is_put(
                old(self).negatives,
                final(self).negatives,
                entry.name@,
                (Slot {
                    kind: entry.kind,
                    value: entry.negative,
                    expires: Some(end_of(now, entry.ttl)),
                }),
            ),
    {
        let slot = Slot {
            kind: entry.kind,
            value: entry.negative,
            expires: Some(end_time(now, entry.ttl)),
        };
        self.negatives.put(entry.name.as_str(), slot);
    }

    /// Forgets for which types of record a name has no answer.
    pub fn invalidate_negative(&mut self, name: &str)
        requires
            old(self).wf(),
        ensures
            final(self).wf(),
            final(self).answers == old(self).answers,
            forall|n: Seq<char>, k: Option<RecordKind>|
                #[trigger] final(self).negatives.at(n, k) == if n == name@ {
                    None
                } else {
                    old(self).negatives.at(n, k)
                },
    {
        self.negatives.remove(name);
    }

    /// Forgets everything.
    pub fn flush(&mut self)
        ensures
            final(self).wf(),
            final(self).is_bare(),
    {
        self.answers.clear();
        self.negatives.clear();
    }

    /// Whether nothing is remembered.
    pub fn is_empty(&self) -> (r: bool)
        requires
            self.wf(),
        ensures
            r == self.is_bare(),
    {
        self.answers.is_empty() && self.negatives.is_empty()
    }
}

/// An answer that was put into the cache is found under its question until its time to live
/// is over, and not after.
pub proof fn law_answers_are_found_until_they_expire(
    before: AnswerCache,
    after: AnswerCache,
    entry: CacheEntry,
    now: u64,
    later: u64,
)
    requires
        is_put(
            before.answers,
            after.answers,
            entry.name@,
            (Slot {
                kind: entry.kind,
                value: (Kept { records: entry.records, local: false }),
                expires: Some(end_of(now, entry.ttl)),
            }),
        ),
    ensures
        after.kept(entry.name@, entry.kind, later) == if later < end_of(now, entry.ttl) {
            Some(Kept { records: entry.records, local: false })
        } else {
            None
        },
{
}

// ---------------------------------------------------------------------------
// Everything that was learned
// ---------------------------------------------------------------------------
/// What a server has learned from its upstreams.
pub struct Learned {
    /// The cache of answers.
    pub answers: AnswerCache,
    /// The servers that zones are delegated to, which an iterative resolution starts at.
    pub delegations: Shelf<Vec<SocketAddress>>,
    /// The records that an iterative resolution has seen on its way.
    pub records: Shelf<Vec<ResourceRecord>>,
}

impl Learned {
    /// Whether all shelves are in order.
    pub open spec fn wf(&self) -> bool {
        self.answers.wf() && self.delegations.wf() && self.records.wf()
    }

    /// Whether nothing has been learned.
    pub open spec fn is_bare(&self) -> bool {
        self.answers.is_bare() && self.delegations.is_bare() && self.records.is_bare()
    }

    /// Nothing learned.
    pub fn new() -> (r: Learned)
        ensures
            r.wf(),
            r.is_bare(),
    {
        Learned { answers: AnswerCache::new(), delegations: Shelf::new(), records: Shelf::new() }
    }

    /// Forgets everything.
    pub fn flush(&mut self)
        ensures
            final(self).wf(),
            final(self).is_bare(),
    {
        self.answers.flush();
        self.delegations.clear();
        self.records.clear();
    }

    /// Whether nothing has been learned.
    pub fn is_empty(&self) -> (r: bool)
        requires
            self.wf(),
        ensures
            r == self.is_bare(),
    {
        self.answers.is_empty() && self.delegations.is_empty() && self.records.is_empty()
    }
}

} // verus!
