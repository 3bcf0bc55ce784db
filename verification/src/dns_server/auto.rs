//! The fallback chain of upstreams: which tier a query starts at, and when the chain
//! settles on another one.
use vstd::prelude::*;

verus! {

/// Upstream resolution strategy for queries not satisfied locally.
#[derive(Debug, Clone, Copy, PartialEq, Eq, Structural)]
pub enum ResolutionMode {
    /// Resolve iteratively starting at the root servers.
    Recursive,
    /// Forward to the configured upstream resolvers.
    Forward,
    /// The fallback chain: roots, encrypted upstreams, local forwarders, public resolvers.
    Auto,
}

/// The root servers.
pub const TIER_ROOTS: usize = 0;

/// Encrypted upstreams.
pub const TIER_SECURE: usize = 1;

/// Local forwarders.
pub const TIER_LOCAL: usize = 2;

/// Public resolvers.
pub const TIER_PUBLIC: usize = 3;

/// The number of tiers. A lower tier is preferred to a higher one.
pub const TIER_COUNT: usize = 4;

/// Where the fallback chain stands.
#[derive(Debug, Clone, Copy, PartialEq, Eq, Structural)]
pub struct AutoState {
    /// The tier that the chain has settled on.
    pub active_tier: usize,
    /// How many queries in a row a less preferred tier has answered.
    pub deviation_streak: usize,
    /// When the chain was last tried from its top, in seconds since the epoch.
    pub last_probe: u64,
    /// How many such queries it takes to settle on a less preferred tier.
    pub switch_grace_failures: u32,
    /// How often the chain is tried from its top, in seconds.
    pub recovery_probe_secs: u64,
}

/// A change of the tier that the chain has settled on.
#[derive(Debug, Clone, Copy, PartialEq, Eq, Structural)]
pub enum TierSwitch {
    /// To a more preferred tier.
    Recover,
    /// To a less preferred tier.
    Degrade,
}

/// What follows an attempt at a tier.
#[derive(Debug, Clone, Copy, PartialEq, Eq, Structural)]
pub enum TierStep {
    /// The tier's answer is the answer.
    Answer,
    /// Try this tier next.
    Try(usize),
    /// No tier is left.
    Exhausted,
}

/// How many deviations the chain needs to settle on a less preferred tier; at least one.
pub open spec fn grace(s: AutoState) -> int {
    if s.switch_grace_failures > 1 {
        s.switch_grace_failures as int
    } else {
        1
    }
}

/// The chain after a query that started at some time, and the tier that it started at.
pub open spec fn started(s: AutoState, now: u64) -> (AutoState, usize) {
    if s.active_tier == TIER_ROOTS {
        (s, TIER_ROOTS)
    } else if now - s.last_probe >= s.recovery_probe_secs || (now < s.last_probe
        && s.recovery_probe_secs == 0) {
        (AutoState { last_probe: now, ..s }, TIER_ROOTS)
    } else {
        (s, s.active_tier)
    }
}

/// The chain after a query that some tier answered, and the change of tier that this makes.
pub open spec fn noted(s: AutoState, winner: usize) -> (AutoState, Option<TierSwitch>) {
    if winner == s.active_tier {
        (AutoState { deviation_streak: 0, ..s }, None)
    } else if winner < s.active_tier {
        (AutoState { active_tier: winner, deviation_streak: 0, ..s }, Some(TierSwitch::Recover))
    } else if s.deviation_streak + 1 >= grace(s) {
        (AutoState { active_tier: winner, deviation_streak: 0, ..s }, Some(TierSwitch::Degrade))
    } else {
        (AutoState { deviation_streak: (s.deviation_streak + 1) as usize, ..s }, None)
    }
}

impl Default for AutoState {
    fn default() -> (r: AutoState)
        ensures
            r == (AutoState {
                active_tier: TIER_ROOTS,
                deviation_streak: 0,
                last_probe: 0,
                switch_grace_failures: 3,
                recovery_probe_secs: 60,
            }),
    {
        AutoState {
            active_tier: TIER_ROOTS,
            deviation_streak: 0,
            last_probe: 0,
            switch_grace_failures: 3,
            recovery_probe_secs: 60,
        }
    }
}

impl AutoState {
    /// The tier that a query starts at: the one that the chain has settled on, but from
    /// time to time the top, to see whether a preferred tier has come back.
    pub fn auto_start_tier(&mut self, now: u64) -> (r: usize)
        ensures
            (*final(self), r) == started(*old(self), now),
    {
        if self.active_tier == TIER_ROOTS {
            return TIER_ROOTS;
        }
        let since: u64 = if now > self.last_probe {
            now - self.last_probe
        } else {
            0
        };
        if since >= self.recovery_probe_secs {
            self.last_probe = now;
            TIER_ROOTS
        } else {
            self.active_tier
        }
    }

    /// Records which tier answered. The chain settles on a more preferred tier at once,
    /// and on a less preferred one after the grace. What was learned from the tier before
    /// is then forgotten by the server's function of this name.
    pub fn note_auto_winner(&mut self, winner: usize) -> (r: Option<TierSwitch>)
        ensures
            (*final(self), r) == noted(*old(self), winner),
            r is Some <==> final(self).active_tier != old(self).active_tier,
    {
        if winner == self.active_tier {
            self.deviation_streak = 0;
            None
        } else if winner < self.active_tier {
            self.active_tier = winner;
            self.deviation_streak = 0;
            Some(TierSwitch::Recover)
        } else {
            let needed: u32 = if self.switch_grace_failures > 1 {
                self.switch_grace_failures
            } else {
                1
            };
            if self.deviation_streak as u64 >= (needed - 1) as u64 {
                self.active_tier = winner;
                self.deviation_streak = 0;
                Some(TierSwitch::Degrade)
            } else {
                self.deviation_streak = self.deviation_streak + 1;
                None
            }
        }
    }

    /// How often the chain is tried before the first client's query: often enough to
    /// settle on a less preferred tier, and once more.
    pub fn prewarm_attempts(&self) -> (r: u32)
        ensures
            r == if grace(*self) < u32::MAX {
                grace(*self) + 1
            } else {
                u32::MAX as int
            },
    {
        let needed: u32 = if self.switch_grace_failures > 1 {
            self.switch_grace_failures
        } else {
            1
        };
        if needed < u32::MAX {
            needed + 1
        } else {
            u32::MAX
        }
    }
}

/// What follows an attempt at a tier.
pub fn after_tier(tier: usize, answered: bool) -> (r: TierStep)
    requires
        tier < TIER_COUNT,
    ensures
        r == if answered {
            TierStep::Answer
        } else if tier + 1 < TIER_COUNT {
            TierStep::Try((tier + 1) as usize)
        } else {
            TierStep::Exhausted
        },
{
    if answered {
        TierStep::Answer
    } else if tier + 1 < TIER_COUNT {
        TierStep::Try(tier + 1)
    } else {
        TierStep::Exhausted
    }
}

// ---------------------------------------------------------------------------
// Targets
// ---------------------------------------------------------------------------
/// What came of sending a query to a target.
#[derive(Debug, Clone, Copy, PartialEq, Eq, Structural)]
pub enum Attempt {
    /// No reply.
    Failed,
    /// A reply that settles the question.
    Definitive,
    /// A reply that does not.
    Unsettled,
}

/// What follows an attempt at a target.
#[derive(Debug, Clone, Copy, PartialEq, Eq, Structural)]
pub enum TargetStep {
    /// The reply is the answer.
    Accept,
    /// Try the target at this position next.
    Try(usize),
    /// No target is left.
    Exhausted,
}

/// Whether an attempt ends the search for an answer.
pub open spec fn acceptable(attempt: Attempt, any_reply: bool) -> bool {
    attempt == Attempt::Definitive || (any_reply && attempt == Attempt::Unsettled)
}

/// What follows an attempt at the target at position `i` of `n`. Any reply will do, or only
/// one that settles the question.
pub fn after_target(i: usize, n: usize, attempt: Attempt, any_reply: bool) -> (r: TargetStep)
    ensures
        r == if acceptable(attempt, any_reply) {
            TargetStep::Accept
        } else if i + 1 < n {
            TargetStep::Try((i + 1) as usize)
        } else {
            TargetStep::Exhausted
        },
{
    let accept = match attempt {
        Attempt::Definitive => true,
        Attempt::Unsettled => any_reply,
        Attempt::Failed => false,
    };
    if accept {
        TargetStep::Accept
    } else if n > 0 && i < n - 1 {
        TargetStep::Try(i + 1)
    } else {
        TargetStep::Exhausted
    }
}

// ---------------------------------------------------------------------------
// Laws
// ---------------------------------------------------------------------------
/// The chain after the same tier has answered `n` queries in a row.
pub open spec fn noted_times(s: AutoState, winner: usize, n: nat) -> AutoState
    decreases n,
{
    if n == 0 {
        s
    } else {
        noted(noted_times(s, winner, (n - 1) as nat), winner).0
    }
}

proof fn lemma_streak(s: AutoState, winner: usize, n: nat)
    requires
        winner > s.active_tier,
        s.deviation_streak == 0,
        n < grace(s),
        grace(s) <= usize::MAX,
    ensures
        noted_times(s, winner, n) == (AutoState { deviation_streak: n as usize, ..s }),
    decreases n,
{
    if n > 0 {
        lemma_streak(s, winner, (n - 1) as nat);
    }
}

/// The chain does not settle on a less preferred tier before it has answered as many
/// queries in a row as the grace says, and does so with the last of them.
pub proof fn law_degrading_takes_the_grace(s: AutoState, winner: usize, n: nat)
    requires
        winner > s.active_tier,
        s.deviation_streak == 0,
        grace(s) <= usize::MAX,
    ensures
        n < grace(s) ==> noted_times(s, winner, n).active_tier == s.active_tier,
        n == grace(s) ==> noted_times(s, winner, n).active_tier == winner && noted(
            noted_times(s, winner, (n - 1) as nat),
            winner,
        ).1 == Some(TierSwitch::Degrade),
{
    if n < grace(s) {
        lemma_streak(s, winner, n);
    } else if n == grace(s) {
        lemma_streak(s, winner, (n - 1) as nat);
    }
}

/// A more preferred tier is settled on as soon as it answers.
pub proof fn law_recovery_is_immediate(s: AutoState, winner: usize)
    requires
        winner < s.active_tier,
    ensures
        noted(s, winner).0.active_tier == winner,
        noted(s, winner).1 == Some(TierSwitch::Recover),
{
}

/// One answer from the tier that the chain has settled on, and the count towards another
/// starts over.
pub proof fn law_a_flap_starts_over(s: AutoState)
    ensures
        noted(s, s.active_tier).0.deviation_streak == 0,
        noted(s, s.active_tier).0.active_tier == s.active_tier,
        noted(s, s.active_tier).1 is None,
{
}

/// While time goes on, the chain is tried from its top at most once in every interval.
pub proof fn law_one_probe_per_interval(s: AutoState, now: u64, later: u64)
    requires
        s.active_tier != TIER_ROOTS,
        started(s, now).1 == TIER_ROOTS,
        now <= later < now + s.recovery_probe_secs,
    ensures
        started(started(s, now).0, later).1 == s.active_tier,
{
}

} // verus!
