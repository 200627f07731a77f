//! Support for the chain-event ingestion loop, which feeds confirmed
//! blocks to a caller-supplied callback. The loop itself performs I/O and
//! lives outside the library; what is here is its decision core: the
//! labels it logs, the classification a callback error receives, and the
//! retry policy that says whether to try again and after how long.

use vstd::prelude::*;

verus! {

/// Labels for events the ingestion sink reports.
#[derive(Clone, Copy, Debug, PartialEq, Eq, Structural)]
pub enum Events {
    EventHandlerFailure,
}

impl Events {
    /// The label's text, as the sink logs it.
    pub fn label(&self) -> (r: String)
        ensures
            r@ == "EventHandlerFailure"@,
    {
        "EventHandlerFailure".to_owned()
    }
}

/// What the error-classification function decides for one callback error.
#[derive(Clone, Copy, Debug, PartialEq, Eq, Structural)]
pub enum ErrorPolicy {
    /// Try the same event again after a backoff.
    Retry,
    /// Drop the event and go on with the next one.
    Skip,
    /// Stop the ingestion loop.
    Exit,
}

/// A backoff/retry policy for a fallible operation.
#[derive(Clone, Copy, Debug)]
pub struct RetryPolicy {
    /// Most retries for one operation before giving up.
    pub max_retries: u32,
    /// The first backoff, in milliseconds.
    pub initial_backoff_ms: u64,
    /// Each further backoff is the previous one times this factor.
    pub backoff_factor: u64,
    /// No backoff grows beyond this, in milliseconds.
    pub max_backoff_ms: u64,
}

/// Whether the loop retries one more time: only an error classified as
/// retryable, and only while attempts remain.
pub fn should_retry(policy: &RetryPolicy, attempt: u32, classification: ErrorPolicy) -> (r: bool)
    ensures
        r == (classification == ErrorPolicy::Retry && attempt < policy.max_retries),
{
    classification == ErrorPolicy::Retry && attempt < policy.max_retries
}

/// The backoff that follows `current_ms`: the current one scaled by the
/// policy's factor, never beyond the policy's cap.
pub fn next_backoff(policy: &RetryPolicy, current_ms: u64) -> (r: u64)
    ensures
        r == (if current_ms * policy.backoff_factor <= policy.max_backoff_ms {
            current_ms * policy.backoff_factor
        } else {
            policy.max_backoff_ms as int
        }),
{
    match current_ms.checked_mul(policy.backoff_factor) {
        Some(next) => {
            if next <= policy.max_backoff_ms {
                next
            } else {
                policy.max_backoff_ms
            }
        },
        None => policy.max_backoff_ms,
    }
}

} // verus!
