//! What validation concludes about a response.
use vstd::prelude::*;

verus! {

/// What validation concluded about a response.
#[derive(Debug, Clone, PartialEq, Eq)]
pub enum Verdict {
    /// Signed, and the signatures chain to the trust anchor.
    Secure,
    /// Provably unsigned: an insecure delegation was proven on the way down.
    Insecure,
    /// Claims to be signed, but the claim does not hold. Never served.
    Bogus(String),
    /// No verdict could be reached.
    Indeterminate(String),
}

/// The position of a verdict among the labels that are counted.
pub open spec fn verdict_index(v: Verdict) -> usize {
    match v {
        Verdict::Secure => 0,
        Verdict::Insecure => 1,
        Verdict::Bogus(_) => 2,
        Verdict::Indeterminate(_) => 3,
    }
}

/// The label that a verdict is counted under.
pub open spec fn verdict_label(v: Verdict) -> Seq<char> {
    match v {
        Verdict::Secure => "secure"@,
        Verdict::Insecure => "insecure"@,
        Verdict::Bogus(_) => "bogus"@,
        Verdict::Indeterminate(_) => "indeterminate"@,
    }
}

/// How bad a verdict is.
pub open spec fn verdict_rank(v: Verdict) -> u8 {
    match v {
        Verdict::Secure => 0,
        Verdict::Insecure => 1,
        Verdict::Indeterminate(_) => 2,
        Verdict::Bogus(_) => 3,
    }
}

/// The worse of two verdicts, the first where they are equally bad.
pub open spec fn worse(a: Verdict, b: Verdict) -> Verdict {
    if verdict_rank(b) > verdict_rank(a) {
        b
    } else {
        a
    }
}

/// Whether a verdict keeps an answer from being served.
pub open spec fn withheld(v: Verdict) -> bool {
    v is Bogus || v is Indeterminate
}

impl Verdict {
    /// The label for this verdict.
    pub fn label(&self) -> (r: &'static str)
        ensures
            r@ == verdict_label(*self),
    {
        match self {
            Verdict::Secure => "secure",
            Verdict::Insecure => "insecure",
            Verdict::Bogus(_) => "bogus",
            Verdict::Indeterminate(_) => "indeterminate",
        }
    }

    /// The position of this verdict among the labels.
    pub fn index(&self) -> (r: usize)
        ensures
            r == verdict_index(*self),
    {
        match self {
            Verdict::Secure => 0,
            Verdict::Insecure => 1,
            Verdict::Bogus(_) => 2,
            Verdict::Indeterminate(_) => 3,
        }
    }

    /// Whether this verdict must not be served to a client.
    pub fn withholds_answer(&self) -> (r: bool)
        ensures
            r == withheld(*self),
    {
        match self {
            Verdict::Bogus(_) | Verdict::Indeterminate(_) => true,
            _ => false,
        }
    }

    /// The human-readable reason.
    pub fn reason(&self) -> (r: Option<&str>)
        ensures
            match *self {
                Verdict::Bogus(s) | Verdict::Indeterminate(s) => r is Some && r->0@ == s@,
                _ => r is None,
            },
    {
        match self {
            Verdict::Bogus(s) => Some(s.as_str()),
            Verdict::Indeterminate(s) => Some(s.as_str()),
            _ => None,
        }
    }

    fn rank(&self) -> (r: u8)
        ensures
            r == verdict_rank(*self),
    {
        match self {
            Verdict::Secure => 0,
            Verdict::Insecure => 1,
            Verdict::Indeterminate(_) => 2,
            Verdict::Bogus(_) => 3,
        }
    }

    /// The weaker of two verdicts, with `Bogus` dominating everything.
    pub fn merge(self, other: Verdict) -> (r: Verdict)
        ensures
            r == worse(self, other),
    {
        if other.rank() > self.rank() {
            other
        } else {
            self
        }
    }
}

/// A response is only as good as its worst part: merging takes the worse rank, does not
/// depend on grouping, and keeps a verdict merged with itself.
pub proof fn law_merge_takes_the_worst(a: Verdict, b: Verdict, c: Verdict)
    ensures
        verdict_rank(worse(a, b)) >= verdict_rank(a),
        verdict_rank(worse(a, b)) >= verdict_rank(b),
        worse(a, b) == a || worse(a, b) == b,
        worse(worse(a, b), c) == worse(a, worse(b, c)),
        worse(a, a) == a,
{
}

/// Merging is bogus exactly where a part is, and withholds the answer exactly where a
/// part does.
pub proof fn law_bogus_dominates(a: Verdict, b: Verdict)
    ensures
        worse(a, b) is Bogus == (a is Bogus || b is Bogus),
        withheld(worse(a, b)) == (withheld(a) || withheld(b)),
        worse(a, b) is Secure == (a is Secure && b is Secure),
{
}

/// RFC 1982 section 3.2 "less than" for 32-bit serial numbers: `b` lies less than half
/// the number space ahead of `a`.
pub open spec fn serial_before(a: u32, b: u32) -> bool {
    a != b && (b - a) % 0x1_0000_0000 < 0x8000_0000
}

/// RFC 1982 section 3.2 "less than" for the 32-bit space of RRSIG timestamps.
pub fn serial_lt(a: u32, b: u32) -> (r: bool)
    ensures
        r == serial_before(a, b),
{
    a != b && b.wrapping_sub(a) < 0x8000_0000
}

/// No serial number is before itself, two are never before each other, and a number is
/// before every number less than half the space ahead of it, across the wrap too.
pub proof fn law_serial_comparison_wraps(a: u32, b: u32, step: u32)
    ensures
        !serial_before(a, a),
        !(serial_before(a, b) && serial_before(b, a)),
        0 < step < 0x8000_0000 ==> serial_before(a, ((a + step) % 0x1_0000_0000) as u32),
{
    let far = (a + step) % 0x1_0000_0000;
    if 0 < step < 0x8000_0000 {
        if a + step < 0x1_0000_0000 {
            assert(far == a + step);
            assert((far - a) % 0x1_0000_0000 == step);
        } else {
            assert(far == a + step - 0x1_0000_0000);
            assert((far - a) % 0x1_0000_0000 == step);
        }
    }
}

} // verus!
