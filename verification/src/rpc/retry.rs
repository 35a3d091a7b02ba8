//! Repeating a call after a failure that may pass.
use vstd::prelude::*;

use crate::rpc::endpoint::RpcEndpoint;
use crate::rpc::errors::rpc_error::NodeStatus;
use crate::text::{number_of, parse_number};

verus! {

/// How often a call is repeated at most, unless it is set otherwise.
pub const DEFAULT_MAX_RETRIES: u32 = 4;

/// The delay in milliseconds before a call is repeated, unless it is set otherwise or the node asks
/// for another one.
pub const DEFAULT_RETRY_INTERVAL_MS: u64 = 100;

/// The status code of a request that was refused because of a rate limit.
pub const RESOURCE_EXHAUSTED: i32 = 8;

/// The status code of a node that cannot be reached.
pub const UNAVAILABLE: i32 = 14;

/// The call may be repeated after this status.
///
/// A rate limit refuses a request before it is processed, so repeating it does no work twice. If the
/// node cannot be reached, it may have processed the request and the answer was lost, so only a call
/// that changes nothing is repeated.
pub open spec fn retryable(endpoint: RpcEndpoint, code: i32) -> bool {
    code == RESOURCE_EXHAUSTED || code == UNAVAILABLE && !endpoint.changes_state()
}

/// Returns true if the call may be repeated after this status.
pub fn is_retryable(endpoint: RpcEndpoint, status: &NodeStatus) -> (retry: bool)
    ensures
        retry == retryable(endpoint, status.code),
{
    if status.code == RESOURCE_EXHAUSTED {
        true
    } else if status.code == UNAVAILABLE {
        endpoint.is_idempotent()
    } else {
        false
    }
}

/// The delay in seconds that a node asks for, if it does.
pub open spec fn retry_after_of(status: NodeStatus) -> Option<u64> {
    match status.retry_after {
        Some(text) => number_of(text@),
        None => None,
    }
}

/// The delay in milliseconds before the call is repeated: what the node asks for if that is not
/// zero, and the fallback otherwise.
pub open spec fn delay_of(status: NodeStatus, fallback_ms: u64) -> u128 {
    match retry_after_of(status) {
        Some(seconds) => if seconds != 0 {
            (seconds * 1000) as u128
        } else {
            fallback_ms as u128
        },
        None => fallback_ms as u128,
    }
}

/// Returns the delay in seconds that a node asks for, if it does.
fn extract_retry_after(status: &NodeStatus) -> (seconds: Option<u64>)
    ensures
        seconds == retry_after_of(*status),
{
    match &status.retry_after {
        Some(text) => parse_number(text.as_str()),
        None => None,
    }
}

/// Returns the delay in milliseconds before the call is repeated.
pub fn retry_delay(status: &NodeStatus, fallback_ms: u64) -> (delay_ms: u128)
    ensures
        delay_ms == delay_of(*status, fallback_ms),
{
    match extract_retry_after(status) {
        Some(seconds) => if seconds != 0 {
            seconds as u128 * 1000
        } else {
            fallback_ms as u128
        },
        None => fallback_ms as u128,
    }
}

/// How often a call was repeated.
#[derive(Clone, Copy, Debug, PartialEq, Eq, Structural)]
pub struct RetryState {
    pub endpoint: RpcEndpoint,
    pub attempt: u32,
    pub max_retries: u32,
    pub retry_interval_ms: u64,
}

impl RetryState {
    /// The call was not repeated more often than allowed.
    pub open spec fn wf(self) -> bool {
        self.attempt <= self.max_retries
    }

    /// Returns the state of a new call.
    pub fn new(endpoint: RpcEndpoint, max_retries: u32, retry_interval_ms: u64) -> (state: Self)
        ensures
            state.wf(),
            state == (RetryState { endpoint, attempt: 0, max_retries, retry_interval_ms }),
    {
        RetryState { endpoint, attempt: 0, max_retries, retry_interval_ms }
    }

    /// Decides about a status: the call is repeated after the returned delay in milliseconds, or not
    /// at all.
    pub fn should_retry(&mut self, status: &NodeStatus) -> (delay_ms: Option<u128>)
        ensures
            old(self).wf() ==> final(self).wf(),
            if old(self).attempt < old(self).max_retries && retryable(
                old(self).endpoint,
                status.code,
            ) {
                &&& delay_ms == Some(delay_of(*status, old(self).retry_interval_ms))
                &&& *final(self) == (RetryState {
                    attempt: (old(self).attempt + 1) as u32,
                    ..*old(self)
                })
            } else {
                &&& delay_ms is None
                &&& *final(self) == *old(self)
            },
    {
        if self.attempt >= self.max_retries || !is_retryable(self.endpoint, status) {
            return None;
        }
        let delay_ms: u128 = retry_delay(status, self.retry_interval_ms);
        self.attempt = self.attempt + 1;
        Some(delay_ms)
    }
}

/// The states a call goes through: at each status it is repeated, or the state stays.
pub open spec fn retries_after(state: RetryState, codes: Seq<i32>) -> RetryState
    decreases codes.len(),
{
    if codes.len() == 0 {
        state
    } else {
        let now = retries_after(state, codes.drop_last());
        if now.attempt < now.max_retries && retryable(now.endpoint, codes.last()) {
            RetryState { attempt: (now.attempt + 1) as u32, ..now }
        } else {
            now
        }
    }
}

/// However often a call fails, it is not repeated more often than allowed.
pub proof fn law_retries_are_bounded(state: RetryState, codes: Seq<i32>)
    requires
        state.wf(),
    ensures
        retries_after(state, codes).attempt <= state.max_retries,
        retries_after(state, codes).wf(),
        retries_after(state, codes).max_retries == state.max_retries,
        retries_after(state, codes).endpoint == state.endpoint,
    decreases codes.len(),
{
    if codes.len() > 0 {
        law_retries_are_bounded(state, codes.drop_last());
    }
}

/// A call that changes the state of the node is never repeated because the node was not reached.
pub proof fn law_lost_answers_are_not_repeated(endpoint: RpcEndpoint)
    requires
        endpoint.changes_state(),
    ensures
        !retryable(endpoint, UNAVAILABLE),
{
}

} // verus!
