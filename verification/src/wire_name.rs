//! Fully qualified domain names as sequences of labels, the way they stand on the wire.
//!
//! Names compare without regard to ASCII case, and sort from the root down.
use vstd::prelude::*;
use vstd::slice::slice_to_vec;
use vstd::string::*;

use crate::names::{labels_lt, lemma_labels_trichotomy, octets_precede, wire_labels};
use crate::text::{byte_strings, eq_bytes, lower_bytes, to_lower_bytes};

verus! {

/// A fully qualified domain name: its labels from left to right, without the root label.
#[derive(Debug, PartialEq, Eq)]
pub struct Name {
    pub labels: Vec<Vec<u8>>,
}

impl View for Name {
    type V = Seq<Seq<u8>>;

    open spec fn view(&self) -> Seq<Seq<u8>> {
        byte_strings(self.labels@)
    }
}

/// The labels from right to left, ASCII case folded away.
pub open spec fn name_key(name: Seq<Seq<u8>>) -> Seq<Seq<u8>> {
    Seq::new(name.len(), |i: int| lower_bytes(name[name.len() - 1 - i]))
}

/// Whether two names are the same name.
pub open spec fn same_name(a: Seq<Seq<u8>>, b: Seq<Seq<u8>>) -> bool {
    name_key(a) == name_key(b)
}

/// Whether name `a` sorts before name `b`.
pub open spec fn name_lt(a: Seq<Seq<u8>>, b: Seq<Seq<u8>>) -> bool {
    labels_lt(name_key(a), name_key(b))
}

/// Whether `name` is the apex of `zone` or lies below it.
pub open spec fn is_zone_of(zone: Seq<Seq<u8>>, name: Seq<Seq<u8>>) -> bool {
    zone.len() <= name.len() && name_key(name).subrange(0, zone.len() as int) == name_key(zone)
}

/// The last `n` labels; the whole name where it has no more.
pub open spec fn trimmed_to(name: Seq<Seq<u8>>, n: int) -> Seq<Seq<u8>> {
    if n > name.len() {
        name
    } else {
        name.subrange(name.len() - n, name.len() as int)
    }
}

/// The name without its first label.
pub open spec fn parent_of(name: Seq<Seq<u8>>) -> Seq<Seq<u8>> {
    if name.len() == 0 {
        name
    } else {
        name.drop_first()
    }
}

/// The label of a wildcard.
pub open spec fn star() -> Seq<u8> {
    seq![0x2au8]
}

/// The number of labels, a leading wildcard not counted.
pub open spec fn counted_labels(name: Seq<Seq<u8>>) -> nat {
    if name.len() > 0 && name[0] == star() {
        (name.len() - 1) as nat
    } else {
        name.len()
    }
}

/// The length of a name on the wire.
pub open spec fn wire_len(name: Seq<Seq<u8>>) -> nat
    decreases name.len(),
{
    if name.len() == 0 {
        1
    } else {
        wire_len(name.drop_last()) + name.last().len() + 1
    }
}

/// `*` in front of a name; the name itself where that would be longer than 255 octets.
pub open spec fn wildcard_at(name: Seq<Seq<u8>>) -> Seq<Seq<u8>> {
    if wire_len(name) + 2 <= 255 {
        seq![star()] + name
    } else {
        name
    }
}

/// A name in wire form, uncompressed.
pub open spec fn name_octets(name: Seq<Seq<u8>>) -> Seq<u8> {
    wire_labels(name).push(0u8)
}

/// The labels at the front of `b`, up to a root label, and how many octets they take with
/// it. A length octet above 63 is no label's.
pub open spec fn labels_at(b: Seq<u8>) -> Option<(Seq<Seq<u8>>, nat)>
    decreases b.len(),
{
    if b.len() == 0 {
        None
    } else if b[0] == 0 {
        Some((Seq::empty(), 1))
    } else if b[0] > 63 || b[0] as int + 1 > b.len() {
        None
    } else {
        match labels_at(b.subrange(b[0] as int + 1, b.len() as int)) {
            Some((rest, n)) => Some((seq![b.subrange(1, b[0] as int + 1)] + rest, b[0] as nat + 1 + n)),
            None => None,
        }
    }
}

/// How `hickory` displays a name with these labels.
pub uninterp spec fn name_text(labels: Seq<Seq<u8>>) -> Seq<char>;

/// The labels that `hickory` reads from the text form of a name.
pub uninterp spec fn name_of(s: Seq<char>) -> Option<Seq<Seq<u8>>>;

/// `hickory_proto::rr::Name`'s `to_string`. The text depends on the labels alone.
#[verifier::external_body]
fn display_labels(labels: &Vec<Vec<u8>>) -> (r: String)
    ensures
        r@ == name_text(byte_strings(labels@)),
{
    let name = hickory_proto::rr::Name::from_labels(labels.iter().map(|l| l.as_slice()));
    name.map(|n| n.to_string()).unwrap_or_default()
}

/// `hickory_proto::rr::Name::from_ascii`. Whether the text is a name, and its labels,
/// depend on the text alone.
#[verifier::external_body]
fn labels_from_ascii(s: &str) -> (r: Option<Vec<Vec<u8>>>)
    ensures
        match r {
            Some(v) => name_of(s@) == Some(byte_strings(v@)),
            None => name_of(s@) is None,
        },
{
    let name = hickory_proto::rr::Name::from_ascii(s).ok()?;
    Some(name.iter().map(|l| l.to_vec()).collect())
}

/// The octets of each label, copied.
pub fn copy_labels(labels: &[Vec<u8>]) -> (r: Vec<Vec<u8>>)
    ensures
        byte_strings(r@) == byte_strings(labels@),
{
    let mut out: Vec<Vec<u8>> = Vec::new();
    let mut i: usize = 0;
    while i < labels.len()
        invariant
            i <= labels.len(),
            out.len() == i,
            forall|k: int| 0 <= k < i ==> (#[trigger] out@[k])@ == labels@[k]@,
        decreases labels.len() - i,
    {
        out.push(slice_to_vec(labels[i].as_slice()));
        i = i + 1;
    }
    assert(byte_strings(out@) =~= byte_strings(labels@));
    out
}

/// Whether two labels are the same without regard to case.
fn same_label(a: &[u8], b: &[u8]) -> (r: bool)
    ensures
        r == (lower_bytes(a@) == lower_bytes(b@)),
{
    let la = to_lower_bytes(a);
    let lb = to_lower_bytes(b);
    eq_bytes(la.as_slice(), lb.as_slice())
}

impl Clone for Name {
    fn clone(&self) -> (r: Name)
        ensures
            r@ == self@,
    {
        Name { labels: copy_labels(self.labels.as_slice()) }
    }
}

impl Name {
    /// Reads a name from its text form.
    pub fn from_ascii(s: &str) -> (r: Option<Name>)
        ensures
            match r {
                Some(n) => name_of(s@) == Some(n@),
                None => name_of(s@) is None,
            },
    {
        match labels_from_ascii(s) {
            Some(labels) => Some(Name { labels }),
            None => None,
        }
    }

    /// Reads a name in uncompressed wire form from the front of `b`.
    pub fn from_wire(b: &[u8]) -> (r: Option<(Name, usize)>)
        ensures
            match r {
                Some((name, n)) => labels_at(b@) == Some((name@, n as nat)) && n <= b@.len(),
                None => labels_at(b@) is None,
            },
    {
        let mut labels: Vec<Vec<u8>> = Vec::new();
        let mut at: usize = 0;
        assert(b@.subrange(0, b@.len() as int) =~= b@);
        assert(byte_strings(labels@) =~= Seq::empty());
        loop
            invariant
                at <= b.len(),
                labels_at(b@) == (match labels_at(b@.subrange(at as int, b@.len() as int)) {
                    Some((rest, n)) => Some((byte_strings(labels@) + rest, at as nat + n)),
                    None => None,
                }),
            decreases b.len() - at,
        {
            let ghost tail = b@.subrange(at as int, b@.len() as int);
            if at == b.len() {
                return None;
            }
            assert(tail[0] == b@[at as int]);
            let n: usize = b[at] as usize;
            if n == 0 {
                let r = Name { labels };
                assert(r@ + Seq::<Seq<u8>>::empty() =~= r@);
                return Some((r, at + 1));
            }
            if n > 63 || n + 1 > b.len() - at {
                return None;
            }
            let ghost before = byte_strings(labels@);
            let label = slice_to_vec(vstd::slice::slice_subrange(b, at + 1, at + 1 + n));
            let ghost l = label@;
            labels.push(label);
            proof {
                assert(l =~= tail.subrange(1, n + 1));
                assert(byte_strings(labels@) =~= before.push(l));
                assert(tail.subrange(n + 1, tail.len() as int) =~= b@.subrange(
                    at + 1 + n,
                    b@.len() as int,
                ));
                match labels_at(b@.subrange(at + 1 + n, b@.len() as int)) {
                    Some((rest, k)) => {
                        assert(before.push(l) + rest =~= before + (seq![l] + rest));
                    },
                    None => {},
                }
            }
            at = at + 1 + n;
        }
    }

    /// This name in wire form, uncompressed.
    pub fn to_wire(&self) -> (r: Vec<u8>)
        ensures
            r@ == name_octets(self@),
    {
        let mut out: Vec<u8> = Vec::new();
        let ghost all = self@;
        let mut i: usize = 0;
        assert(all.subrange(0, 0) =~= Seq::empty());
        while i < self.labels.len()
            invariant
                i <= self.labels.len(),
                all == self@,
                out@ == wire_labels(all.subrange(0, i as int)),
            decreases self.labels.len() - i,
        {
            out.push((self.labels[i].len() % 256) as u8);
            out.extend_from_slice(self.labels[i].as_slice());
            proof {
                let p = all.subrange(0, i + 1);
                assert(p.drop_last() =~= all.subrange(0, i as int));
                assert(p.last() == self.labels@[i as int]@);
                assert(out@ =~= wire_labels(p));
            }
            i = i + 1;
        }
        assert(all.subrange(0, i as int) =~= all);
        out.push(0);
        out
    }

    /// The text form of this name.
    pub fn text(&self) -> (r: String)
        ensures
            r@ == name_text(self@),
    {
        display_labels(&self.labels)
    }

    /// Whether this is the same name as `other`.
    pub fn is(&self, other: &Name) -> (r: bool)
        ensures
            r == same_name(self@, other@),
    {
        if self.labels.len() != other.labels.len() {
            assert(name_key(self@).len() != name_key(other@).len());
            return false;
        }
        let r = self.ends_in(other);
        assert(name_key(self@).subrange(0, other@.len() as int) =~= name_key(self@));
        r
    }

    /// Whether the last labels of this name are those of `suffix`.
    fn ends_in(&self, suffix: &Name) -> (r: bool)
        ensures
            r == is_zone_of(suffix@, self@),
    {
        let n: usize = suffix.labels.len();
        if n > self.labels.len() {
            return false;
        }
        let skip: usize = self.labels.len() - n;
        let ghost key = name_key(self@).subrange(0, n as int);
        let ghost want = name_key(suffix@);
        let mut i: usize = n;
        while i > 0
            invariant
                i <= n,
                n == suffix.labels.len(),
                n <= self.labels.len(),
                skip == self.labels.len() - n,
                key == name_key(self@).subrange(0, n as int),
                want == name_key(suffix@),
                forall|k: int| 0 <= k < n - i ==> key[k] == want[k],
            decreases i,
        {
            let ghost k = n - i;
            assert(key[k] == lower_bytes(self.labels@[skip + i - 1]@));
            assert(want[k] == lower_bytes(suffix.labels@[i - 1]@));
            if !same_label(self.labels[skip + i - 1].as_slice(), suffix.labels[i - 1].as_slice()) {
                return false;
            }
            i = i - 1;
        }
        assert(key =~= want);
        true
    }

    /// Whether `name` is the apex of this zone or lies below it.
    pub fn zone_of(&self, name: &Name) -> (r: bool)
        ensures
            r == is_zone_of(self@, name@),
    {
        name.ends_in(self)
    }

    /// Whether this name sorts before `other`.
    pub fn precedes(&self, other: &Name) -> (r: bool)
        ensures
            r == name_lt(self@, other@),
    {
        let ghost ka = name_key(self@);
        let ghost kb = name_key(other@);
        let mut i: usize = 0;
        assert(ka.subrange(0, ka.len() as int) =~= ka);
        assert(kb.subrange(0, kb.len() as int) =~= kb);
        loop
            invariant
                i <= self.labels.len(),
                i <= other.labels.len(),
                ka == name_key(self@),
                kb == name_key(other@),
                labels_lt(ka, kb) == labels_lt(
                    ka.subrange(i as int, ka.len() as int),
                    kb.subrange(i as int, kb.len() as int),
                ),
            decreases self.labels.len() - i,
        {
            let ghost ta = ka.subrange(i as int, ka.len() as int);
            let ghost tb = kb.subrange(i as int, kb.len() as int);
            if i == other.labels.len() {
                return false;
            }
            if i == self.labels.len() {
                return true;
            }
            let a = to_lower_bytes(self.labels[self.labels.len() - 1 - i].as_slice());
            let b = to_lower_bytes(other.labels[other.labels.len() - 1 - i].as_slice());
            assert(ta[0] == a@);
            assert(tb[0] == b@);
            if !eq_bytes(a.as_slice(), b.as_slice()) {
                return octets_precede(a.as_slice(), b.as_slice());
            }
            proof {
                assert(ta.drop_first() =~= ka.subrange(i + 1, ka.len() as int));
                assert(tb.drop_first() =~= kb.subrange(i + 1, kb.len() as int));
            }
            i = i + 1;
        }
    }

    /// The number of labels, a leading wildcard not counted.
    pub fn num_labels(&self) -> (r: usize)
        ensures
            r == counted_labels(self@),
    {
        let n: usize = self.labels.len();
        if n > 0 && self.labels[0].len() == 1 && self.labels[0][0] == 0x2a {
            assert(self@[0] =~= star());
            n - 1
        } else {
            proof {
                if n > 0 && self@[0] == star() {
                    assert(self.labels@[0]@.len() == 1 && self.labels@[0]@[0] == 0x2a);
                }
            }
            n
        }
    }

    /// The last `n` labels.
    pub fn trim_to(&self, n: usize) -> (r: Name)
        ensures
            r@ == trimmed_to(self@, n as int),
    {
        let count: usize = self.labels.len();
        if n > count {
            return self.clone();
        }
        let tail = vstd::slice::slice_subrange(self.labels.as_slice(), count - n, count);
        let r = Name { labels: copy_labels(tail) };
        assert(r@ =~= trimmed_to(self@, n as int));
        r
    }

    /// The name without its first label.
    pub fn base_name(&self) -> (r: Name)
        ensures
            r@ == parent_of(self@),
    {
        if self.labels.len() == 0 {
            return self.clone();
        }
        let r = self.trim_to(self.labels.len() - 1);
        assert(r@ =~= self@.drop_first());
        r
    }

    /// `*` in front of this name.
    pub fn prepend_wildcard(&self) -> (r: Name)
        ensures
            r@ == wildcard_at(self@),
    {
        // What is left of 255 octets beside the wildcard label and the root label.
        let mut room: usize = 252;
        let mut i: usize = 0;
        let ghost all = self@;
        assert(all.subrange(0, 0) =~= Seq::empty());
        while i < self.labels.len()
            invariant
                i <= self.labels.len(),
                all == self@,
                room + wire_len(all.subrange(0, i as int)) == 253,
            decreases self.labels.len() - i,
        {
            proof {
                let p = all.subrange(0, i + 1);
                assert(p.drop_last() =~= all.subrange(0, i as int));
                assert(p.last() == self.labels@[i as int]@);
                lemma_wire_len_prefix(all, i + 1);
            }
            let n: usize = self.labels[i].len();
            if n >= room {
                return self.clone();
            }
            room = room - n - 1;
            i = i + 1;
        }
        assert(all.subrange(0, i as int) =~= all);
        let mut labels: Vec<Vec<u8>> = Vec::new();
        let mut first: Vec<u8> = Vec::new();
        first.push(0x2a);
        assert(first@ =~= star());
        labels.push(first);
        let mut rest = copy_labels(self.labels.as_slice());
        labels.append(&mut rest);
        let r = Name { labels };
        proof {
            assert(r@.len() == all.len() + 1);
            assert(r@ =~= seq![star()] + all);
        }
        r
    }
}

proof fn lemma_wire_len_prefix(name: Seq<Seq<u8>>, n: int)
    requires
        0 <= n <= name.len(),
    ensures
        wire_len(name.subrange(0, n)) <= wire_len(name),
    decreases name.len() - n,
{
    if n < name.len() {
        assert(name.subrange(0, n + 1).drop_last() =~= name.subrange(0, n));
        lemma_wire_len_prefix(name, n + 1);
    } else {
        assert(name.subrange(0, n) =~= name);
    }
}

/// Names are totally ordered up to case: exactly one of two names precedes the other, or
/// they are the same name.
pub proof fn law_names_are_ordered(a: Seq<Seq<u8>>, b: Seq<Seq<u8>>)
    ensures
        !(name_lt(a, b) && name_lt(b, a)),
        same_name(a, b) == (!name_lt(a, b) && !name_lt(b, a)),
{
    lemma_labels_trichotomy(name_key(a), name_key(b));
}

} // verus!
