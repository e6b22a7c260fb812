//! Bounded retry with a doubling, capped wait. The policy decides; the
//! caller attempts, sleeps and reports each failure.

use vstd::prelude::*;

use crate::error::{Error, ErrorKind};

verus! {

/// The fixed polling interval of the default and constant policies, in milliseconds.
pub const POLL_INTERVAL_MS: u64 = 100;

/// The number of attempts of the default policy (30 s of 100 ms polls).
pub const DEFAULT_ATTEMPTS: u32 = 300;

/// A bounded retry policy with a doubling wait, capped at `maximum_wait_ms`.
///
/// The policy only decides: the caller performs each attempt and each sleep,
/// and reports every failure with `record_failure`.
#[derive(Debug, Clone, Copy)]
pub struct Backoff {
    pub attempts: u32,
    pub maximum_attempts: u32,
    pub wait_ms: u64,
    pub initial_wait_ms: u64,
    pub maximum_wait_ms: u64,
}

/// What to do after a failed attempt. Both steps sleep `sleep_ms` first.
#[derive(Debug, Clone)]
pub enum RetryStep {
    /// Sleep, then try again.
    Retry { sleep_ms: u64 },
    /// Sleep, then give up with `error`.
    GiveUp { sleep_ms: u64, error: Error },
}

/// The wait that follows `wait`: doubled, but never above `maximum`.
pub open spec fn next_wait(wait: u64, maximum: u64) -> int {
    if 2 * wait > maximum {
        maximum as int
    } else {
        2 * wait
    }
}

pub open spec fn timeout_text(cause: Seq<char>) -> Seq<char> {
    seq!['B', 'a', 'c', 'k', 'o', 'f', 'f', ' ', 't', 'i', 'm', 'e', 'o', 'u', 't', ':', ' '] + cause
}

impl Backoff {
    /// The wait never exceeds its cap, and neither does the wait a reset restores.
    pub open spec fn wf(&self) -> bool {
        &&& self.wait_ms <= self.maximum_wait_ms
        &&& self.initial_wait_ms <= self.maximum_wait_ms
    }

    pub fn new(maximum_attempts: u32, initial_wait_ms: u64, maximum_wait_ms: u64) -> (r: Backoff)
        requires
            initial_wait_ms <= maximum_wait_ms,
        ensures
            r.wf(),
            r.attempts == 0,
            r.maximum_attempts == maximum_attempts,
            r.wait_ms == initial_wait_ms,
            r.initial_wait_ms == initial_wait_ms,
            r.maximum_wait_ms == maximum_wait_ms,
    {
        Backoff {
            attempts: 0,
            maximum_attempts,
            wait_ms: initial_wait_ms,
            initial_wait_ms,
            maximum_wait_ms,
        }
    }

    /// A flat 100 ms polling policy whose attempts add up to `milliseconds`.
    pub fn constant(milliseconds: u128) -> (r: Backoff)
        ensures
            r.wf(),
            r.attempts == 0,
            r.maximum_attempts == (milliseconds / 100) as u32,
            r.wait_ms == POLL_INTERVAL_MS,
            r.initial_wait_ms == POLL_INTERVAL_MS,
            r.maximum_wait_ms == POLL_INTERVAL_MS,
    {
        let attempts = milliseconds / 100;
        Self::new(attempts as u32, POLL_INTERVAL_MS, POLL_INTERVAL_MS)
    }

    /// Starts a new polling operation: no attempt made, initial wait.
    pub fn reset(&mut self)
        requires
            old(self).wf(),
        ensures
            final(self).wf(),
            *final(self) == (Backoff {
                attempts: 0,
                wait_ms: old(self).initial_wait_ms,
                ..*old(self)
            }),
    {
        self.attempts = 0;
        self.wait_ms = self.initial_wait_ms;
    }

    /// Records a failed attempt that ended with `cause`. The caller sleeps for
    /// the current wait; the wait doubles up to its cap and the attempt is
    /// counted. Once `maximum_attempts` attempts have failed the policy gives
    /// up with a timeout that carries the last cause's description.
    pub fn record_failure(&mut self, cause: Error) -> (step: RetryStep)
        requires
            old(self).wf(),
            old(self).attempts < u32::MAX,
        ensures
            final(self).wf(),
            final(self).attempts == old(self).attempts + 1,
            final(self).wait_ms == next_wait(old(self).wait_ms, old(self).maximum_wait_ms),
            final(self).maximum_attempts == old(self).maximum_attempts,
            final(self).initial_wait_ms == old(self).initial_wait_ms,
            final(self).maximum_wait_ms == old(self).maximum_wait_ms,
            match step {
                RetryStep::Retry { sleep_ms } => {
                    &&& sleep_ms == old(self).wait_ms
                    &&& final(self).attempts < final(self).maximum_attempts
                },
                RetryStep::GiveUp { sleep_ms, error } => {
                    &&& sleep_ms == old(self).wait_ms
                    &&& final(self).attempts >= final(self).maximum_attempts
                    &&& error.kind == ErrorKind::Timeout
                    &&& error.description@ == timeout_text(cause.description@)
                },
            },
    {
        let sleep_ms = self.wait_ms;
        if self.wait_ms > self.maximum_wait_ms / 2 {
            self.wait_ms = self.maximum_wait_ms;
        } else {
            self.wait_ms = self.wait_ms * 2;
        }
        self.attempts = self.attempts + 1;
        if self.attempts < self.maximum_attempts {
            RetryStep::Retry { sleep_ms }
        } else {
            let mut description = String::from_str("Backoff timeout: ");
            proof {
                reveal_strlit("Backoff timeout: ");
            }
            description.append(cause.description.as_str());
            RetryStep::GiveUp { sleep_ms, error: Error::new(ErrorKind::Timeout, description) }
        }
    }
}

impl Default for Backoff {
    /// 300 attempts at a flat 100 ms: 30 s in all.
    fn default() -> (r: Backoff)
        ensures
            r.wf(),
            r.attempts == 0,
            r.maximum_attempts == DEFAULT_ATTEMPTS,
            r.wait_ms == POLL_INTERVAL_MS,
            r.initial_wait_ms == POLL_INTERVAL_MS,
            r.maximum_wait_ms == POLL_INTERVAL_MS,
    {
        Backoff::new(DEFAULT_ATTEMPTS, POLL_INTERVAL_MS, POLL_INTERVAL_MS)
    }
}

} // verus!
