//! The bounded wait for the cache's lock: what to do after each attempt to
//! take it without blocking. The caller makes the attempts, sleeps between
//! them, and measures the time.

use vstd::prelude::*;

verus! {

/// Longest total wait for the lock, in milliseconds.
pub const LOCK_TIMEOUT_MS: u64 = 100;

/// Most attempts made to take the lock.
pub const MAX_LOCK_ATTEMPTS: u32 = 100;

/// Pause between two attempts, in milliseconds.
pub const LOCK_RETRY_PAUSE_MS: u64 = 1;

/// What one non-blocking attempt to take the lock found.
#[derive(Debug, Clone, Copy, PartialEq, Eq, Structural)]
pub enum LockAttempt {
    Acquired,
    /// Another holder has it.
    Busy,
    /// A holder panicked while holding it.
    Poisoned,
}

/// What to do next.
#[derive(Debug, Clone, Copy, PartialEq, Eq, Structural)]
pub enum LockDecision {
    /// Use the lock that was taken.
    Proceed,
    /// Pause `LOCK_RETRY_PAUSE_MS`, then try again.
    Retry,
    /// Stop trying; the operation degrades to its empty or no-op result.
    GiveUp,
}

/// The decision after an attempt, given how many attempts were made in all
/// (this one included) and the milliseconds since the first.
pub open spec fn lock_decision_spec(attempt: LockAttempt, attempts: u32, elapsed_ms: u64) -> LockDecision {
    match attempt {
        LockAttempt::Acquired => LockDecision::Proceed,
        LockAttempt::Poisoned => LockDecision::GiveUp,
        LockAttempt::Busy => if elapsed_ms > LOCK_TIMEOUT_MS || attempts >= MAX_LOCK_ATTEMPTS {
            LockDecision::GiveUp
        } else {
            LockDecision::Retry
        },
    }
}

/// Decides what follows an attempt to take the lock: proceed once it is
/// taken, give up on a poisoned lock, and retry a busy one until either the
/// time or the attempt budget is spent.
pub fn lock_decision(attempt: LockAttempt, attempts: u32, elapsed_ms: u64) -> (r: LockDecision)
    ensures
        r == lock_decision_spec(attempt, attempts, elapsed_ms),
{
    match attempt {
        LockAttempt::Acquired => LockDecision::Proceed,
        LockAttempt::Poisoned => LockDecision::GiveUp,
        LockAttempt::Busy => {
            if elapsed_ms > LOCK_TIMEOUT_MS || attempts >= MAX_LOCK_ATTEMPTS {
                LockDecision::GiveUp
            } else {
                LockDecision::Retry
            }
        },
    }
}

} // verus!
