//! The retry policy for calls to the remote content service.
//!
//! The caller makes the request and reports how it went; the policy says
//! whether to stop, or to wait and try again. Ordinary failures are retried
//! at most `MAX_RETRIES` times with a growing delay. A rate-limit answer is a
//! transient case of its own: it gets a longer delay and does not use up the
//! retry budget, but has a budget of its own, so that a service that keeps
//! refusing cannot keep the caller busy forever.
//!
//! Downloads follow `next_step`. The remote catalog call follows
//! `catalog_next_step`, which waits out rate limits the same way but stops
//! at the first ordinary failure.
use vstd::prelude::*;

verus! {

/// How many times an ordinary failure is retried.
pub const MAX_RETRIES: u32 = 3;

/// How many rate-limit answers are waited out before giving up.
pub const MAX_RATE_LIMITED: u32 = 5;

/// The delay after the first ordinary failure; the `n`th waits `n` times as
/// long.
pub const RETRY_BASE_DELAY_MS: u64 = 500;

/// The delay after the first rate-limit answer; the `n`th waits `n` times as
/// long.
pub const RATE_LIMIT_BASE_DELAY_MS: u64 = 2000;

/// How one request went.
pub enum Outcome {
    Success,
    /// The service answered that requests come too fast (HTTP 429).
    RateLimited,
    /// Any other failure.
    Failed,
}

/// What to do after a request.
pub enum Step {
    /// The request succeeded.
    Done,
    /// Wait `delay_ms` milliseconds, then send the request again.
    Retry { delay_ms: u64 },
    /// Stop for good. A download that ends here must remove whatever it
    /// wrote, so that no partial file is taken for a finished one.
    GiveUp,
}

/// The counts of one logical request's failures so far.
pub struct RetryState {
    failures: u32,
    rate_limited: u32,
}

/// The policy for downloads, on abstract counts: the counts after an
/// outcome, and the step.
pub open spec fn next_step(failures: nat, rate_limited: nat, o: Outcome) -> (nat, nat, Step) {
    match o {
        Outcome::Success => (failures, rate_limited, Step::Done),
        Outcome::RateLimited => rate_limit_step(failures, rate_limited),
        Outcome::Failed => if failures + 1 > MAX_RETRIES {
            (failures + 1, rate_limited, Step::GiveUp)
        } else {
            (
                failures + 1,
                rate_limited,
                Step::Retry { delay_ms: (RETRY_BASE_DELAY_MS * (failures + 1)) as u64 },
            )
        },
    }
}

/// What a rate-limit answer does, under either policy.
pub open spec fn rate_limit_step(failures: nat, rate_limited: nat) -> (nat, nat, Step) {
    if rate_limited + 1 > MAX_RATE_LIMITED {
        (failures, rate_limited + 1, Step::GiveUp)
    } else {
        (
            failures,
            rate_limited + 1,
            Step::Retry { delay_ms: (RATE_LIMIT_BASE_DELAY_MS * (rate_limited + 1)) as u64 },
        )
    }
}

/// The policy for the remote catalog call: a rate-limit answer is waited
/// out as for a download, but any other failure ends the call at once. The
/// caller's refresh then stops, and the cooldown keeps it from being tried
/// again soon.
pub open spec fn catalog_next_step(failures: nat, rate_limited: nat, o: Outcome) -> (nat, nat, Step) {
    match o {
        Outcome::Success => (failures, rate_limited, Step::Done),
        Outcome::RateLimited => rate_limit_step(failures, rate_limited),
        Outcome::Failed => (failures + 1, rate_limited, Step::GiveUp),
    }
}

/// How many retries the policy asks for when the requests of one logical
/// request go as `outs` says, from counts `failures` and `rate_limited`; the
/// count ends at the first step that is not a retry.
pub open spec fn retries(failures: nat, rate_limited: nat, outs: Seq<Outcome>) -> nat
    decreases outs.len(),
{
    if outs.len() == 0 {
        0
    } else {
        let (f, r, step) = next_step(failures, rate_limited, outs[0]);
        match step {
            Step::Retry { .. } => 1 + retries(f, r, outs.drop_first()),
            _ => 0,
        }
    }
}

/// The step at which the policy stops, if it stops within `outs`.
pub open spec fn final_step(failures: nat, rate_limited: nat, outs: Seq<Outcome>) -> Option<Step>
    decreases outs.len(),
{
    if outs.len() == 0 {
        None
    } else {
        let (f, r, step) = next_step(failures, rate_limited, outs[0]);
        match step {
            Step::Retry { .. } => final_step(f, r, outs.drop_first()),
            _ => Some(step),
        }
    }
}

impl RetryState {
    /// How many ordinary failures were recorded.
    pub closed spec fn failure_count(&self) -> nat {
        self.failures as nat
    }

    /// How many rate-limit answers were recorded.
    pub closed spec fn rate_limit_count(&self) -> nat {
        self.rate_limited as nat
    }

    /// Both counts are within their budgets, so that the request may still
    /// be sent.
    pub open spec fn wf(&self) -> bool {
        self.failure_count() <= MAX_RETRIES && self.rate_limit_count() <= MAX_RATE_LIMITED
    }

    /// The counts of a request not yet sent.
    pub fn new() -> (r: RetryState)
        ensures
            r.wf(),
            r.failure_count() == 0,
            r.rate_limit_count() == 0,
    {
        RetryState { failures: 0, rate_limited: 0 }
    }

    pub fn failures(&self) -> (r: u32)
        ensures
            r == self.failure_count(),
    {
        self.failures
    }

    pub fn rate_limited(&self) -> (r: u32)
        ensures
            r == self.rate_limit_count(),
    {
        self.rate_limited
    }

    fn on_rate_limit(&mut self) -> (r: Step)
        requires
            old(self).wf(),
        ensures
            rate_limit_step(old(self).failure_count(), old(self).rate_limit_count()) == (
                final(self).failure_count(),
                final(self).rate_limit_count(),
                r,
            ),
    {
        self.rate_limited = self.rate_limited + 1;
        if self.rate_limited > MAX_RATE_LIMITED {
            Step::GiveUp
        } else {
            Step::Retry { delay_ms: RATE_LIMIT_BASE_DELAY_MS * self.rate_limited as u64 }
        }
    }

    /// Records how a download request went and says what to do next (see
    /// `next_step`).
    pub fn on_outcome(&mut self, o: Outcome) -> (r: Step)
        requires
            old(self).wf(),
        ensures
            next_step(old(self).failure_count(), old(self).rate_limit_count(), o) == (
                final(self).failure_count(),
                final(self).rate_limit_count(),
                r,
            ),
            r is Retry ==> final(self).wf(),
    {
        match o {
            Outcome::Success => Step::Done,
            Outcome::RateLimited => self.on_rate_limit(),
            Outcome::Failed => {
                self.failures = self.failures + 1;
                if self.failures > MAX_RETRIES {
                    Step::GiveUp
                } else {
                    Step::Retry { delay_ms: RETRY_BASE_DELAY_MS * self.failures as u64 }
                }
            },
        }
    }

    /// Records how a remote catalog request went and says what to do next
    /// (see `catalog_next_step`): only a rate-limit answer is retried.
    pub fn on_catalog_outcome(&mut self, o: Outcome) -> (r: Step)
        requires
            old(self).wf(),
        ensures
            catalog_next_step(old(self).failure_count(), old(self).rate_limit_count(), o) == (
                final(self).failure_count(),
                final(self).rate_limit_count(),
                r,
            ),
            r is Retry ==> final(self).wf(),
    {
        match o {
            Outcome::Success => Step::Done,
            Outcome::RateLimited => self.on_rate_limit(),
            Outcome::Failed => {
                self.failures = self.failures + 1;
                Step::GiveUp
            },
        }
    }
}

/// Retry bound: whatever the requests' outcomes, a logical request that
/// starts afresh is retried at most `MAX_RETRIES` times for ordinary
/// failures plus `MAX_RATE_LIMITED` times for rate limiting. Where every
/// request fails, it is retried at most `MAX_RETRIES` times, and once more
/// than that many requests have failed the policy has given up.
pub proof fn lemma_retry_bound(outs: Seq<Outcome>)
    ensures
        retries(0, 0, outs) <= MAX_RETRIES + MAX_RATE_LIMITED,
        (forall|i: int| 0 <= i < outs.len() ==> #[trigger] outs[i] == Outcome::Failed) ==> {
            &&& retries(0, 0, outs) <= MAX_RETRIES
            &&& outs.len() > MAX_RETRIES ==> final_step(0, 0, outs) == Some(Step::GiveUp)
        },
{
    lemma_retries_from(0, 0, outs);
    if forall|i: int| 0 <= i < outs.len() ==> #[trigger] outs[i] == Outcome::Failed {
        lemma_failures_from(0, outs);
    }
}

proof fn lemma_retries_from(f: nat, r: nat, outs: Seq<Outcome>)
    requires
        f <= MAX_RETRIES,
        r <= MAX_RATE_LIMITED,
    ensures
        retries(f, r, outs) + f + r <= MAX_RETRIES + MAX_RATE_LIMITED,
    decreases outs.len(),
{
    if outs.len() > 0 {
        let (f1, r1, step) = next_step(f, r, outs[0]);
        if step is Retry {
            lemma_retries_from(f1, r1, outs.drop_first());
        }
    }
}

proof fn lemma_failures_from(f: nat, outs: Seq<Outcome>)
    requires
        f <= MAX_RETRIES,
        forall|i: int| 0 <= i < outs.len() ==> #[trigger] outs[i] == Outcome::Failed,
    ensures
        retries(f, 0, outs) + f <= MAX_RETRIES,
        outs.len() + f > MAX_RETRIES ==> final_step(f, 0, outs) == Some(Step::GiveUp),
    decreases outs.len(),
{
    if outs.len() > 0 {
        assert(outs[0] == Outcome::Failed);
        let rest = outs.drop_first();
        assert forall|i: int| 0 <= i < rest.len() implies #[trigger] rest[i] == Outcome::Failed by {
            assert(rest[i] == outs[i + 1]);
        }
        if f + 1 <= MAX_RETRIES {
            lemma_failures_from(f + 1, rest);
        }
    }
}

} // verus!
