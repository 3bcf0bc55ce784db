//! Reading and changing messages in wire form, without decoding them.
use vstd::prelude::*;

use crate::codec::{read16, read_be16};
use crate::text::{join, lower_byte, lower_bytes};
use crate::wire_name::{labels_at, Name};

verus! {

// ---------------------------------------------------------------------------
// Headers and questions
// ---------------------------------------------------------------------------
/// The type that the first question of a query asks for: what follows the name that
/// follows the header.
pub open spec fn question_type(query: Seq<u8>) -> Option<u16> {
    if query.len() < 12 {
        None
    } else {
        match labels_at(query.subrange(12, query.len() as int)) {
            Some((_, n)) => if 12 + n + 2 <= query.len() {
                Some(read16(query, 12 + n as int))
            } else {
                None
            },
            None => None,
        }
    }
}

/// Reads the type that the first question of a query asks for. A compression pointer has
/// no business in a question: there is no type behind one.
pub fn wire_qtype(query: &[u8]) -> (r: Option<u16>)
    ensures
        r == question_type(query@),
{
    if query.len() < 12 {
        return None;
    }
    match Name::from_wire(vstd::slice::slice_subrange(query, 12, query.len())) {
        Some((_, n)) => if n + 2 <= query.len() - 12 {
            Some(read_be16(query, 12 + n))
        } else {
            None
        },
        None => None,
    }
}

/// The response code in a header, without the high bits of an OPT record.
pub open spec fn header_rcode(response: Seq<u8>) -> u8 {
    if response.len() > 3 {
        response[3] % 16
    } else {
        0
    }
}

/// Reads the response code from a response's header.
pub fn wire_rcode(response: &[u8]) -> (r: u8)
    ensures
        r == header_rcode(response@),
{
    if response.len() > 3 {
        response[3] % 16
    } else {
        0
    }
}

/// Whether a header says that the message was truncated.
pub open spec fn is_truncated(response: Seq<u8>) -> bool {
    response.len() > 2 && response[2] / 2 % 2 == 1
}

/// Whether a response says that it was truncated.
pub fn wire_truncated(response: &[u8]) -> (r: bool)
    ensures
        r == is_truncated(response@),
{
    response.len() > 2 && response[2] / 2 % 2 == 1
}

// ---------------------------------------------------------------------------
// Names as text
// ---------------------------------------------------------------------------
/// The runs of octets at the front of `b`, each behind its length, up to a length of zero.
pub open spec fn runs_at(b: Seq<u8>) -> Option<Seq<Seq<u8>>>
    decreases b.len(),
{
    if b.len() == 0 {
        None
    } else if b[0] == 0 {
        Some(Seq::empty())
    } else if b[0] as int + 1 > b.len() {
        None
    } else {
        match runs_at(b.subrange(b[0] as int + 1, b.len() as int)) {
            Some(rest) => Some(seq![b.subrange(1, b[0] as int + 1)] + rest),
            None => None,
        }
    }
}

/// Octets as the characters with the same numbers.
pub open spec fn octet_chars(b: Seq<u8>) -> Seq<char> {
    Seq::new(b.len(), |i: int| b[i] as char)
}

/// Runs of octets as text, a dot behind each; a dot alone where there are none.
pub open spec fn dotted(runs: Seq<Seq<u8>>) -> Seq<char> {
    join(Seq::new(runs.len(), |i: int| octet_chars(runs[i])), '.').push('.')
}

/// The name at the front of `b` as text.
pub open spec fn qname_text(b: Seq<u8>) -> Option<Seq<char>> {
    match runs_at(b) {
        Some(runs) => Some(dotted(runs)),
        None => None,
    }
}

proof fn lemma_dotted_push(runs: Seq<Seq<u8>>, run: Seq<u8>)
    ensures
        dotted(runs.push(run)) == (if runs.len() == 0 {
            octet_chars(run)
        } else {
            dotted(runs) + octet_chars(run)
        }).push('.'),
{
    let a = Seq::new(runs.len(), |i: int| octet_chars(runs[i]));
    let b = Seq::new(runs.push(run).len(), |i: int| octet_chars(runs.push(run)[i]));
    assert(b.drop_last() =~= a);
    assert(b.last() == octet_chars(run));
}

/// Reads the name at the front of `data` into text.
pub fn extract_qname(data: &[u8]) -> (r: Option<String>)
    ensures
        match r {
            Some(s) => qname_text(data@) == Some(s@),
            None => qname_text(data@) is None,
        },
{
    let mut name = String::new();
    let mut pos: usize = 0;
    let ghost mut runs: Seq<Seq<u8>> = Seq::empty();
    assert(data@.subrange(0, data@.len() as int) =~= data@);
    proof {
        match runs_at(data@) {
            Some(rest) => assert(runs + rest =~= rest),
            None => {},
        }
    }
    loop
        invariant
            pos <= data@.len(),
            runs_at(data@) == (match runs_at(data@.subrange(pos as int, data@.len() as int)) {
                Some(rest) => Some(runs + rest),
                None => None,
            }),
            runs.len() == 0 ==> pos == 0 && name@.len() == 0,
            runs.len() > 0 ==> pos > 0 && name@.push('.') == dotted(runs),
        decreases data@.len() - pos,
    {
        let ghost tail = data@.subrange(pos as int, data@.len() as int);
        if pos >= data.len() {
            return None;
        }
        assert(tail[0] == data@[pos as int]);
        let n: usize = data[pos] as usize;
        if n == 0 {
            proof {
                assert(runs + Seq::<Seq<u8>>::empty() =~= runs);
                if runs.len() == 0 {
                    assert(Seq::new(runs.len(), |i: int| octet_chars(runs[i])) =~= Seq::empty());
                    assert(name@ =~= Seq::empty());
                }
            }
            name.push('.');
            return Some(name);
        }
        if n + 1 > data.len() - pos {
            return None;
        }
        if pos > 0 {
            name.push('.');
        }
        let ghost before = name@;
        let ghost run = data@.subrange(pos + 1, pos + 1 + n);
        let mut i: usize = 1;
        assert(before + octet_chars(run.subrange(0, 0)) =~= before);
        while i <= n
            invariant
                1 <= i <= n + 1,
                pos + 1 + n <= data.len(),
                run == data@.subrange(pos + 1, pos + 1 + n),
                name@ == before + octet_chars(run.subrange(0, i - 1)),
            decreases n + 1 - i,
        {
            name.push(data[pos + i] as char);
            proof {
                assert(before + octet_chars(run.subrange(0, i as int)) =~= (before + octet_chars(
                    run.subrange(0, i - 1),
                )).push(run[i - 1] as char));
            }
            i = i + 1;
        }
        proof {
            assert(run.subrange(0, n as int) =~= run);
            assert(tail.subrange(1, n + 1) =~= run);
            assert(tail.subrange(n + 1, tail.len() as int) =~= data@.subrange(
                pos + n + 1,
                data@.len() as int,
            ));
            match runs_at(tail.subrange(n + 1, tail.len() as int)) {
                Some(rest) => assert(runs + (seq![run] + rest) =~= runs.push(run) + rest),
                None => {},
            }
            lemma_dotted_push(runs, run);
            if runs.len() == 0 {
                assert(name@ =~= octet_chars(run));
            }
            runs = runs.push(run);
        }
        pos = pos + n + 1;
    }
}

// ---------------------------------------------------------------------------
// Case
// ---------------------------------------------------------------------------
/// Whether the octet at `k` belongs to a run, rather than being a length or behind them.
pub open spec fn in_run(b: Seq<u8>, k: int) -> bool
    decreases b.len(),
{
    if b.len() == 0 || b[0] == 0 || b[0] as int + 1 > b.len() || k <= 0 {
        false
    } else if k <= b[0] {
        true
    } else {
        in_run(b.subrange(b[0] as int + 1, b.len() as int), k - b[0] - 1)
    }
}

/// A letter in the other case; any other octet as it is.
pub open spec fn toggled(b: u8) -> u8 {
    if 0x41 <= b <= 0x5a {
        (b + 0x20) as u8
    } else if 0x61 <= b <= 0x7a {
        (b - 0x20) as u8
    } else {
        b
    }
}

fn toggle(b: u8) -> (r: u8)
    ensures
        r == toggled(b),
{
    if 0x41 <= b && b <= 0x5a {
        b + 0x20
    } else if 0x61 <= b && b <= 0x7a {
        b - 0x20
    } else {
        b
    }
}

/// The octet at `k` of a query with the case of its name changed where `flips` says so.
pub open spec fn flipped_octet(query: Seq<u8>, flips: Seq<bool>, k: int) -> u8 {
    if k >= 12 && in_run(query.subrange(12, query.len() as int), k - 12) && k < flips.len()
        && flips[k] {
        toggled(query[k])
    } else {
        query[k]
    }
}

/// A query with the case of its name changed where `flips` says so.
pub open spec fn flipped(query: Seq<u8>, flips: Seq<bool>) -> Seq<u8> {
    Seq::new(query.len(), |k: int| flipped_octet(query, flips, k))
}

/// What changing the case of a query's name gives: the query, its name before and after.
pub open spec fn case_flipped(query: Seq<u8>, flips: Seq<bool>) -> Option<
    (Seq<u8>, Seq<char>, Seq<char>),
> {
    if query.len() < 13 {
        None
    } else {
        let sent = flipped(query, flips);
        match (
            qname_text(query.subrange(12, query.len() as int)),
            qname_text(sent.subrange(12, sent.len() as int)),
        ) {
            (Some(before), Some(after)) => Some((sent, before, after)),
            _ => None,
        }
    }
}

/// Changes the case of the name in a query where `flips` says so.
pub fn flip_qname_case(query_data: &[u8], flips: &[bool]) -> (r: Option<(Vec<u8>, String, String)>)
    ensures
        match r {
            Some((sent, before, after)) => case_flipped(query_data@, flips@) == Some(
                (sent@, before@, after@),
            ),
            None => case_flipped(query_data@, flips@) is None,
        },
{
    if query_data.len() < 13 {
        return None;
    }
    let ghost q = query_data@;
    let ghost b = q.subrange(12, q.len() as int);
    let original = match extract_qname(
        vstd::slice::slice_subrange(query_data, 12, query_data.len()),
    ) {
        Some(s) => s,
        None => {
            return None;
        },
    };
    let mut sent = vstd::slice::slice_to_vec(query_data);
    let mut pos: usize = 12;
    assert(b.subrange(0, b.len() as int) =~= b);
    loop
        invariant
            q == query_data@,
            b == q.subrange(12, q.len() as int),
            12 <= pos <= q.len(),
            sent@.len() == q.len(),
            runs_at(b.subrange(pos - 12, b.len() as int)) is Some,
            forall|j: int|
                pos <= j < q.len() ==> (in_run(b, j - 12) <==> #[trigger] in_run(
                    b.subrange(pos - 12, b.len() as int),
                    j - pos,
                )),
            forall|j: int| 0 <= j < pos ==> #[trigger] sent@[j] == flipped_octet(q, flips@, j),
            forall|j: int| pos <= j < q.len() ==> #[trigger] sent@[j] == q[j],
        ensures
            sent@.len() == q.len(),
            forall|j: int| 0 <= j < q.len() ==> #[trigger] sent@[j] == flipped_octet(q, flips@, j),
        decreases q.len() - pos,
    {
        let ghost tail = b.subrange(pos - 12, b.len() as int);
        if pos >= sent.len() {
            proof {
                assert(tail.len() == 0);
            }
            break;
        }
        assert(tail[0] == q[pos as int]);
        let n: usize = sent[pos] as usize;
        if n == 0 {
            proof {
                assert forall|j: int| pos <= j < q.len() implies #[trigger] sent@[j]
                    == flipped_octet(q, flips@, j) by {
                    assert(!in_run(tail, j - pos));
                }
            }
            break;
        }
        assert(n + 1 <= tail.len());
        let mut i: usize = 1;
        assert(!in_run(tail, 0));
        assert(in_run(b, pos - 12) == in_run(tail, pos - pos));
        while i <= n
            invariant
                1 <= i <= n + 1,
                q == query_data@,
                b == q.subrange(12, q.len() as int),
                12 <= pos,
                pos + n + 1 <= sent.len(),
                sent@.len() == q.len(),
                tail == b.subrange(pos - 12, b.len() as int),
                tail[0] == n,
                tail.len() >= n + 1,
                n > 0,
                forall|j: int|
                    pos <= j < q.len() ==> (in_run(b, j - 12) <==> #[trigger] in_run(
                        tail,
                        j - pos,
                    )),
                forall|j: int|
                    0 <= j < pos + i ==> #[trigger] sent@[j] == flipped_octet(q, flips@, j),
                forall|j: int| pos + i <= j < q.len() ==> #[trigger] sent@[j] == q[j],
            decreases n + 1 - i,
        {
            let k: usize = pos + i;
            proof {
                assert(in_run(tail, k - pos));
                assert(in_run(b, k - 12));
            }
            if k < flips.len() && flips[k] {
                let c: u8 = toggle(sent[k]);
                sent.set(k, c);
            }
            i = i + 1;
        }
        proof {
            let next = b.subrange(pos + n + 1 - 12, b.len() as int);
            assert(tail.subrange(n + 1, tail.len() as int) =~= next);
            assert forall|j: int| pos + n + 1 <= j < q.len() implies (in_run(b, j - 12)
                <==> #[trigger] in_run(next, j - (pos + n + 1))) by {
                assert(in_run(tail, j - pos) == in_run(next, j - pos - n - 1));
            }
        }
        pos = pos + n + 1;
    }
    assert(sent@ =~= flipped(q, flips@));
    match extract_qname(vstd::slice::slice_subrange(sent.as_slice(), 12, sent.len())) {
        Some(after) => Some((sent, original, after)),
        None => None,
    }
}

/// `rand::Rng::random_iter`: as many random choices as asked for. Each is one or the
/// other by chance, so nothing more is said of them.
#[verifier::external_body]
fn coin_flips(n: usize) -> (r: Vec<bool>)
    ensures
        r@.len() == n,
{
    rand::Rng::random_iter::<bool>(rand::rng()).take(n).collect()
}

/// Randomizes the case of the name in a query, so that an answer shows whether its sender
/// has seen the query. Gives the query to send, the name in it, and the name as it was sent.
///
/// Which letters change is left to chance. Whatever was drawn, the outcome is that of
/// [`flip_qname_case`].
pub fn randomize_qname_case(query_data: &[u8]) -> (r: Option<(Vec<u8>, String, String)>)
    ensures
        match r {
            Some((sent, before, after)) => exists|flips: Seq<bool>|
                flips.len() == query_data@.len() && #[trigger] case_flipped(query_data@, flips)
                    == Some((sent@, before@, after@)),
            None => query_data@.len() < 13 || qname_text(
                query_data@.subrange(12, query_data@.len() as int),
            ) is None,
        },
{
    let flips = coin_flips(query_data.len());
    let r = flip_qname_case(query_data, flips.as_slice());
    proof {
        if query_data@.len() >= 13 {
            law_case_flips_keep_the_name(query_data@, flips@);
        }
    }
    r
}

// ---------------------------------------------------------------------------
// Laws
// ---------------------------------------------------------------------------
proof fn lemma_lower_toggled(b: u8)
    ensures
        lower_byte(toggled(b)) == lower_byte(b),
{
}

/// Octets that differ from others in the case of letters inside runs alone.
pub open spec fn differs_in_case(a: Seq<u8>, b: Seq<u8>) -> bool {
    a.len() == b.len() && forall|k: int|
        0 <= k < b.len() ==> #[trigger] a[k] == b[k] || (in_run(b, k) && a[k] == toggled(b[k]))
}

proof fn lemma_runs_in_case(a: Seq<u8>, b: Seq<u8>)
    requires
        differs_in_case(a, b),
    ensures
        runs_at(a) is Some <==> runs_at(b) is Some,
        runs_at(b) is Some ==> runs_at(a)->0.len() == runs_at(b)->0.len() && forall|i: int|
            0 <= i < runs_at(b)->0.len() ==> lower_bytes(#[trigger] runs_at(a)->0[i])
                == lower_bytes(runs_at(b)->0[i]),
    decreases b.len(),
{
    if b.len() == 0 {
        return;
    }
    assert(!in_run(b, 0));
    assert(a[0] == b[0]);
    let n = b[0] as int;
    if n == 0 || n + 1 > b.len() {
        return;
    }
    let ta = a.subrange(n + 1, a.len() as int);
    let tb = b.subrange(n + 1, b.len() as int);
    assert(differs_in_case(ta, tb)) by {
        assert forall|k: int| 0 <= k < tb.len() implies #[trigger] ta[k] == tb[k] || (in_run(tb, k)
            && ta[k] == toggled(tb[k])) by {
            assert(a[k + n + 1] == b[k + n + 1] || (in_run(b, k + n + 1) && a[k + n + 1] == toggled(
                b[k + n + 1],
            )));
        }
    }
    lemma_runs_in_case(ta, tb);
    if runs_at(b) is Some {
        let ra = a.subrange(1, n + 1);
        let rb = b.subrange(1, n + 1);
        assert(lower_bytes(ra) =~= lower_bytes(rb)) by {
            assert forall|k: int| 0 <= k < n implies lower_bytes(ra)[k] == lower_bytes(rb)[k] by {
                assert(a[k + 1] == b[k + 1] || a[k + 1] == toggled(b[k + 1]));
                lemma_lower_toggled(b[k + 1]);
            }
        }
        assert forall|i: int| 0 <= i < runs_at(b)->0.len() implies lower_bytes(
            #[trigger] runs_at(a)->0[i],
        ) == lower_bytes(runs_at(b)->0[i]) by {
            if i > 0 {
                assert(runs_at(a)->0[i] == runs_at(ta)->0[i - 1]);
                assert(runs_at(b)->0[i] == runs_at(tb)->0[i - 1]);
            }
        }
    }
}

/// Changing the case of a query's name changes nothing else: the query keeps its length,
/// its header and all that follows the name, and the name is the same name, only spelled
/// otherwise. The name can be read afterwards if it could be read before.
pub proof fn law_case_flips_keep_the_name(query: Seq<u8>, flips: Seq<bool>)
    requires
        query.len() >= 13,
    ensures
        flipped(query, flips).len() == query.len(),
        flipped(query, flips).subrange(0, 12) == query.subrange(0, 12),
        lower_bytes(flipped(query, flips)) == lower_bytes(query),
        ({
            let a = runs_at(flipped(query, flips).subrange(12, query.len() as int));
            let b = runs_at(query.subrange(12, query.len() as int));
            &&& a is Some <==> b is Some
            &&& b is Some ==> a->0.len() == b->0.len() && forall|i: int|
                0 <= i < b->0.len() ==> lower_bytes(#[trigger] a->0[i]) == lower_bytes(b->0[i])
        }),
{
    let sent = flipped(query, flips);
    assert(sent.subrange(0, 12) =~= query.subrange(0, 12));
    assert(lower_bytes(sent) =~= lower_bytes(query)) by {
        assert forall|k: int| 0 <= k < query.len() implies lower_bytes(sent)[k] == lower_bytes(
            query,
        )[k] by {
            lemma_lower_toggled(query[k]);
        }
    }
    let a = sent.subrange(12, sent.len() as int);
    let b = query.subrange(12, query.len() as int);
    assert(differs_in_case(a, b)) by {
        assert forall|k: int| 0 <= k < b.len() implies #[trigger] a[k] == b[k] || (in_run(b, k)
            && a[k] == toggled(b[k])) by {
            assert(a[k] == flipped_octet(query, flips, k + 12));
        }
    }
    lemma_runs_in_case(a, b);
}

/// Without a choice to change, a query stays as it is.
pub proof fn law_no_flips_no_change(query: Seq<u8>, flips: Seq<bool>)
    requires
        forall|k: int| 0 <= k < flips.len() ==> !flips[k],
    ensures
        flipped(query, flips) == query,
{
    assert(flipped(query, flips) =~= query);
}

} // verus!
