//! Retry policy of messaging requests.
use vstd::prelude::*;
use vstd::arithmetic::power2::{pow2, lemma_pow2_unfold, lemma_pow2_pos};
use crate::messaging::error::MessagingError;

verus! {

/// How often, and with what pauses, a failed request is tried again.
#[derive(Debug, Clone, Copy)]
pub struct RetryPolicy {
    pub max_attempts: usize,
    pub backoff_initial_ms: u64,
    pub backoff_max_ms: u64,
}

impl RetryPolicy {
    /// One attempt, 50 ms initial pause, 250 ms longest pause.
    pub fn default_policy() -> (r: RetryPolicy)
        ensures
            r.max_attempts == 1,
            r.backoff_initial_ms == 50,
            r.backoff_max_ms == 250,
    {
        RetryPolicy { max_attempts: 1, backoff_initial_ms: 50, backoff_max_ms: 250 }
    }

    pub open spec fn spec_should_retry(&self, attempt: usize, error: &MessagingError) -> bool {
        attempt < self.max_attempts && (error is Timeout || error is Request || error is Closed)
    }

    /// Whether a failed attempt number `attempt` is tried again: only timeouts,
    /// request failures and a closed client are, while attempts remain.
    pub fn should_retry(&self, attempt: usize, error: &MessagingError) -> (r: bool)
        ensures
            r == self.spec_should_retry(attempt, error),
    {
        if attempt >= self.max_attempts {
            return false;
        }
        match error {
            MessagingError::Timeout { .. } | MessagingError::Request(_) | MessagingError::Closed => true,
            _ => false,
        }
    }

    /// Pause before retrying after attempt `attempt`: the initial pause doubled for
    /// each attempt after the first (at most 16 doublings), kept within
    /// `[initial, max]`.
    pub open spec fn spec_backoff_delay(&self, attempt: usize) -> u64 {
        if attempt == 0 {
            self.backoff_initial_ms
        } else {
            let doublings = if attempt - 1 < 16 { (attempt - 1) as nat } else { 16nat };
            let raw = self.backoff_initial_ms as int * pow2(doublings) as int;
            let sat = if raw > u64::MAX { u64::MAX as int } else { raw };
            if sat < self.backoff_initial_ms {
                self.backoff_initial_ms
            } else if sat > self.backoff_max_ms {
                self.backoff_max_ms
            } else {
                sat as u64
            }
        }
    }

    /// Pause, in milliseconds, before retrying after attempt `attempt`.
    /// The initial pause must not exceed the longest one (the bounds of the clamp).
    pub fn backoff_delay(&self, attempt: usize) -> (r: u64)
        requires
            self.backoff_initial_ms <= self.backoff_max_ms,
        ensures
            r == self.spec_backoff_delay(attempt),
            attempt > 0 ==> self.backoff_initial_ms <= r <= self.backoff_max_ms,
    {
        if attempt == 0 {
            return self.backoff_initial_ms;
        }
        let capped: u32 = if attempt - 1 < 16 { (attempt - 1) as u32 } else { 16 };
        let mut multiplier: u64 = 1;
        let mut k: u32 = 0;
        proof { vstd::arithmetic::power2::lemma2_to64(); }
        while k < capped
            invariant
                k <= capped <= 16,
                multiplier as nat == pow2(k as nat),
            decreases capped - k,
        {
            proof {
                lemma_pow2_unfold((k + 1) as nat);
                vstd::arithmetic::power2::lemma_pow2_strictly_increases(k as nat, 16);
                vstd::arithmetic::power2::lemma2_to64();
            }
            multiplier = multiplier * 2;
            k = k + 1;
        }
        let min_delay = self.backoff_initial_ms;
        let max_delay = self.backoff_max_ms;
        let calc = match min_delay.checked_mul(multiplier) {
            Some(x) => x,
            None => u64::MAX,
        };
        proof {
            lemma_pow2_pos(capped as nat);
            assert(min_delay as int * multiplier as int >= min_delay as int) by (nonlinear_arith)
                requires multiplier >= 1;
        }
        if calc < min_delay {
            min_delay
        } else if calc > max_delay {
            max_delay
        } else {
            calc
        }
    }
}

/// Once the retries begin, the pauses never shrink: a later attempt waits at
/// least as long as an earlier one.
pub proof fn law_backoff_monotone(p: RetryPolicy, a: usize, b: usize)
    requires
        p.backoff_initial_ms <= p.backoff_max_ms,
        1 <= a <= b,
    ensures
        p.spec_backoff_delay(a) <= p.spec_backoff_delay(b),
{
    let da: nat = if a - 1 < 16 { (a - 1) as nat } else { 16nat };
    let db: nat = if b - 1 < 16 { (b - 1) as nat } else { 16nat };
    if da < db {
        vstd::arithmetic::power2::lemma_pow2_strictly_increases(da, db);
    }
    assert(p.backoff_initial_ms as int * pow2(da) as int <= p.backoff_initial_ms as int * pow2(db) as int) by (nonlinear_arith)
        requires pow2(da) <= pow2(db);
}

} // verus!
