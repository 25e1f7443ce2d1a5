//! The decisions of the messaging client between the attempts of a request.
use vstd::prelude::*;
use crate::messaging::error::MessagingError;
use crate::messaging::retry::RetryPolicy;
use crate::types::plugins::OverflowPolicy;

verus! {

/// What follows a failed attempt of a request.
pub enum RetryStep {
    /// Wait this many milliseconds, then try again.
    Retry { delay_ms: u64 },
    /// Give up with this error.
    Fail(MessagingError),
}

/// What follows the failure of attempt `attempt` (counted from 1) with `error`:
/// another attempt after the back-off when the policy retries it, else the error.
pub fn after_failed_attempt(policy: &RetryPolicy, attempt: usize, error: MessagingError) -> (r: RetryStep)
    requires
        policy.backoff_initial_ms <= policy.backoff_max_ms,
    ensures
        policy.spec_should_retry(attempt, &error) ==> r == (RetryStep::Retry { delay_ms: policy.spec_backoff_delay(attempt) }),
        !policy.spec_should_retry(attempt, &error) ==> r == RetryStep::Fail(error),
{
    if policy.should_retry(attempt, &error) {
        RetryStep::Retry { delay_ms: policy.backoff_delay(attempt) }
    } else {
        RetryStep::Fail(error)
    }
}

/// How a request gets its place among those in flight.
pub enum PermitStep {
    /// Wait until a place is free.
    Wait,
    /// Take a free place, or fail with this error when there is none.
    TakeOrFail(MessagingError),
}

/// Queueing waits for a place; rejecting and shedding fail at once when none is free.
pub fn permit_step(policy: OverflowPolicy) -> (r: PermitStep)
    ensures
        policy == OverflowPolicy::Queue ==> (r is Wait),
        policy != OverflowPolicy::Queue ==> r == PermitStep::TakeOrFail((MessagingError::Overflow { policy })),
{
    match policy {
        OverflowPolicy::Queue => PermitStep::Wait,
        _ => PermitStep::TakeOrFail(MessagingError::Overflow { policy }),
    }
}

} // verus!
