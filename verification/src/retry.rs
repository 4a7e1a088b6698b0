//! Retry policy and hop protection: error categories, attempt accounting,
//! backoff scheduling against a remaining deadline, and the proxy-chain
//! hop cap.
//!
//! The backoff delay itself is `initialIntervalMs * coeff^(attempt-1)`,
//! computed by the caller (the coefficient is fractional); every decision
//! about whether an attempt may proceed is made here, for any delay value.

use crate::text::{strings_contain, view_strings};
use vstd::prelude::*;

verus! {

/// A request is refused when its hop counter has reached this bound.
pub const MAX_HOPS: u32 = 8;

/// Whether a request at this hop depth may be dispatched upstream.
///
/// No outbound dispatch happens at or beyond `MAX_HOPS`: the router
/// refuses the request instead, breaking proxy loops.
pub fn may_dispatch(hop: u32) -> (r: bool)
    ensures
        r == (hop < MAX_HOPS),
{
    hop < MAX_HOPS
}

/// The retryable categories of an upstream failure.
#[derive(Debug, Clone, Copy, PartialEq, Eq, Structural)]
pub enum ErrorCategory {
    /// The caller's own attempt budget ran out.
    Timeout,
    /// Connect, EOF, IO or channel failure.
    Transport,
    /// An upstream HTTP 5xx response.
    Upstream5xx,
    /// An invalid JSON-RPC payload from upstream.
    Deserialize,
}

impl ErrorCategory {
    /// The category name used in `nonRetryableErrorTypes` lists.
    pub fn as_str(self) -> (r: &'static str)
        ensures
            r@ == match self {
                ErrorCategory::Timeout => "timeout"@,
                ErrorCategory::Transport => "transport"@,
                ErrorCategory::Upstream5xx => "upstream_5xx"@,
                ErrorCategory::Deserialize => "deserialize"@,
            },
    {
        match self {
            ErrorCategory::Timeout => "timeout",
            ErrorCategory::Transport => "transport",
            ErrorCategory::Upstream5xx => "upstream_5xx",
            ErrorCategory::Deserialize => "deserialize",
        }
    }
}

/// A per-tool retry policy. The backoff coefficient is fractional and lives
/// with the delay computation at the call site; the policy here carries
/// everything the retry decisions depend on.
#[derive(Debug)]
pub struct RetryPolicy {
    /// Maximum number of attempts, including the first (1 means no retry).
    pub maximum_attempts: u32,
    /// Backoff before the first retry, in milliseconds.
    pub initial_interval_ms: u64,
    /// Optional cap on the backoff interval, in milliseconds.
    pub maximum_interval_ms: Option<u64>,
    /// Category names that must not be retried.
    pub non_retryable_error_types: Vec<String>,
}

impl RetryPolicy {
    /// Whether this policy forbids retrying the category.
    pub fn disallows(&self, category: ErrorCategory) -> (r: bool)
        ensures
            r == view_strings(self.non_retryable_error_types@).contains(
                match category {
                    ErrorCategory::Timeout => "timeout"@,
                    ErrorCategory::Transport => "transport"@,
                    ErrorCategory::Upstream5xx => "upstream_5xx"@,
                    ErrorCategory::Deserialize => "deserialize"@,
                },
            ),
    {
        strings_contain(&self.non_retryable_error_types, category.as_str())
    }

    /// The attempt bound this policy grants: at least one attempt.
    pub fn max_attempts(&self) -> (r: u32)
        ensures
            r == if self.maximum_attempts >= 1 {
                self.maximum_attempts
            } else {
                1
            },
            r >= 1,
    {
        if self.maximum_attempts >= 1 {
            self.maximum_attempts
        } else {
            1
        }
    }
}

/// Whether a failed attempt of the given category may be retried at all:
/// uncategorized errors never retry, and a policy's non-retryable list
/// blocks its categories. Without a policy there is no retry.
pub fn should_retry_category(policy: Option<&RetryPolicy>, category: Option<ErrorCategory>) -> (r:
    bool)
    ensures
        category is None ==> r == false,
        policy is None ==> r == false,
        (policy is Some && category is Some) ==> r == !view_strings(
            policy.unwrap().non_retryable_error_types@,
        ).contains(
            match category.unwrap() {
                ErrorCategory::Timeout => "timeout"@,
                ErrorCategory::Transport => "transport"@,
                ErrorCategory::Upstream5xx => "upstream_5xx"@,
                ErrorCategory::Deserialize => "deserialize"@,
            },
        ),
{
    match (policy, category) {
        (Some(p), Some(c)) => !p.disallows(c),
        _ => false,
    }
}

/// What the retry loop does between a failed attempt and the next one.
#[derive(Debug, Clone, Copy, PartialEq, Eq, Structural)]
pub enum RetrySchedule {
    /// Sleep this many milliseconds, then attempt again.
    WaitThenRetry(u64),
    /// The remaining budget cannot cover the backoff: fail as a timeout,
    /// making no further attempt.
    FailTimeout,
}

/// Schedule the next attempt against the remaining deadline.
///
/// When the remaining budget is at most the scheduled backoff, the call
/// fails with a timeout and no further attempt is made; a zero backoff
/// retries immediately while any budget remains.
pub fn schedule_backoff(delay_ms: u64, remaining_ms: u64) -> (r: RetrySchedule)
    ensures
        r == if remaining_ms <= delay_ms {
            RetrySchedule::FailTimeout
        } else {
            RetrySchedule::WaitThenRetry(delay_ms)
        },
        remaining_ms <= delay_ms ==> r is FailTimeout,
{
    if remaining_ms <= delay_ms {
        RetrySchedule::FailTimeout
    } else {
        RetrySchedule::WaitThenRetry(delay_ms)
    }
}

/// Clamp a computed backoff delay to the policy's maximum interval.
pub fn clamp_delay(policy: &RetryPolicy, delay_ms: u64) -> (r: u64)
    ensures
        r == match policy.maximum_interval_ms {
            Some(max) => if delay_ms <= max {
                delay_ms
            } else {
                max
            },
            None => delay_ms,
        },
{
    match policy.maximum_interval_ms {
        Some(max) => if delay_ms <= max {
            delay_ms
        } else {
            max
        },
        None => delay_ms,
    }
}

/// The decision after a failed attempt.
#[derive(Debug, Clone, Copy, PartialEq, Eq, Structural)]
pub enum RetryDecision {
    /// Surface the attempt's own error.
    FailWithError,
    /// Fail as a timeout without attempting again.
    FailTimeout,
    /// Sleep, then make another attempt.
    WaitThenRetry(u64),
}

/// Decide what follows a failed attempt: give up when the category blocks
/// retrying or the attempt budget is spent, otherwise schedule the next
/// attempt, failing as a timeout when the deadline cannot cover the backoff.
pub fn after_failed_attempt(
    policy: Option<&RetryPolicy>,
    category: Option<ErrorCategory>,
    attempt: u32,
    max_attempts: u32,
    delay_ms: u64,
    remaining_ms: u64,
) -> (r: RetryDecision)
    ensures
        (category is None || policy is None || attempt >= max_attempts) ==> r
            is FailWithError,
        (policy is Some && category is Some && view_strings(
            policy.unwrap().non_retryable_error_types@,
        ).contains(
            match category.unwrap() {
                ErrorCategory::Timeout => "timeout"@,
                ErrorCategory::Transport => "transport"@,
                ErrorCategory::Upstream5xx => "upstream_5xx"@,
                ErrorCategory::Deserialize => "deserialize"@,
            },
        )) ==> r is FailWithError,
        r is WaitThenRetry ==> attempt < max_attempts && remaining_ms > delay_ms && policy is Some
            && category is Some,
        r is FailTimeout ==> remaining_ms <= delay_ms,
        (policy is Some && category is Some && attempt < max_attempts && !view_strings(
            policy.unwrap().non_retryable_error_types@,
        ).contains(
            match category.unwrap() {
                ErrorCategory::Timeout => "timeout"@,
                ErrorCategory::Transport => "transport"@,
                ErrorCategory::Upstream5xx => "upstream_5xx"@,
                ErrorCategory::Deserialize => "deserialize"@,
            },
        )) ==> r == if remaining_ms <= delay_ms {
            RetryDecision::FailTimeout
        } else {
            RetryDecision::WaitThenRetry(delay_ms)
        },
{
    if !should_retry_category(policy, category) {
        return RetryDecision::FailWithError;
    }
    if attempt >= max_attempts {
        return RetryDecision::FailWithError;
    }
    match schedule_backoff(delay_ms, remaining_ms) {
        RetrySchedule::FailTimeout => RetryDecision::FailTimeout,
        RetrySchedule::WaitThenRetry(d) => RetryDecision::WaitThenRetry(d),
    }
}

} // verus!
