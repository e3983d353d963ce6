//! Exponential backoff with saturation, kept per backend.
use vstd::prelude::*;

verus! {

/// First wait after a failure, in nanoseconds (one second).
pub const BACKOFF_BASE: u64 = 1_000_000_000;

/// Longest wait between two attempts, in nanoseconds (64 seconds).
pub const BACKOFF_MAX: u64 = 64_000_000_000;

/// Whether a new attempt may be made now.
#[derive(Debug, Clone, Copy, PartialEq, Eq, Structural)]
pub enum RetryAction {
    /// an attempt may be made
    OKAY,
    /// the next attempt may be made after this many nanoseconds
    Wait(u64),
    /// the policy gave up: no attempt until a success resets it
    GiveUp,
}

/// Retry state of one backend. Instants are monotonic nanoseconds.
#[derive(Debug, Clone, Copy, PartialEq, Eq, Structural)]
pub struct ExponentialBackoffPolicy {
    pub max_tries: usize,
    pub current_tries: usize,
    /// instant of the last failure or success
    pub last_try: u64,
    /// time to wait after `last_try` before the next attempt
    pub wait: u64,
}

/// The wait that follows a failure: one base interval after a success,
/// then twice the previous wait, saturating at `BACKOFF_MAX`.
pub open spec fn next_wait(wait: u64) -> u64 {
    if wait == 0 {
        BACKOFF_BASE
    } else if wait >= BACKOFF_MAX / 2 {
        BACKOFF_MAX
    } else {
        (2 * wait) as u64
    }
}

impl ExponentialBackoffPolicy {
    pub open spec fn wf(self) -> bool {
        &&& self.current_tries <= self.max_tries
        &&& self.wait <= BACKOFF_MAX
    }

    /// What `can_try` answers at instant `now`.
    pub open spec fn action_at(self, now: u64) -> RetryAction {
        if self.current_tries >= self.max_tries {
            RetryAction::GiveUp
        } else if now >= self.last_try && now - self.last_try >= self.wait {
            RetryAction::OKAY
        } else if now < self.last_try {
            RetryAction::Wait(self.wait)
        } else {
            RetryAction::Wait((self.last_try + self.wait - now) as u64)
        }
    }

    /// The policy after a failed attempt at `now`: one more try, counted up
    /// to `max_tries`, and a wait that doubles.
    pub open spec fn after_fail(self, now: u64) -> ExponentialBackoffPolicy {
        ExponentialBackoffPolicy {
            current_tries: if self.current_tries < self.max_tries {
                (self.current_tries + 1) as usize
            } else {
                self.current_tries
            },
            wait: next_wait(self.wait),
            last_try: now,
            ..self
        }
    }

    /// The policy after a success at `now`: it starts afresh.
    pub open spec fn after_success(self, now: u64) -> ExponentialBackoffPolicy {
        ExponentialBackoffPolicy { current_tries: 0, wait: 0, last_try: now, ..self }
    }

    pub fn new(max_tries: usize) -> (r: ExponentialBackoffPolicy)
        ensures
            r.wf(),
            r.max_tries == max_tries,
            r.current_tries == 0,
            r.last_try == 0,
            r.wait == 0,
    {
        ExponentialBackoffPolicy { max_tries, current_tries: 0, last_try: 0, wait: 0 }
    }

    /// Records a failed attempt at `now`: one more try, and a wait that doubles.
    pub fn fail(&mut self, now: u64)
        requires
            old(self).wf(),
        ensures
            final(self).wf(),
            *final(self) == old(self).after_fail(now),
    {
        if self.current_tries < self.max_tries {
            self.current_tries = self.current_tries + 1;
        }
        self.wait = if self.wait == 0 {
            BACKOFF_BASE
        } else if self.wait >= BACKOFF_MAX / 2 {
            BACKOFF_MAX
        } else {
            2 * self.wait
        };
        self.last_try = now;
    }

    /// Records a successful exchange at `now`: the policy starts afresh.
    pub fn succeed(&mut self, now: u64)
        requires
            old(self).wf(),
        ensures
            final(self).wf(),
            *final(self) == old(self).after_success(now),
    {
        self.current_tries = 0;
        self.wait = 0;
        self.last_try = now;
    }

    /// Whether an attempt may be made at `now`, and if not, for how long to wait.
    pub fn can_try(&self, now: u64) -> (r: RetryAction)
        ensures
            r == self.action_at(now),
    {
        if self.current_tries >= self.max_tries {
            RetryAction::GiveUp
        } else if now >= self.last_try && now - self.last_try >= self.wait {
            RetryAction::OKAY
        } else if now < self.last_try {
            RetryAction::Wait(self.wait)
        } else {
            RetryAction::Wait(self.wait - (now - self.last_try))
        }
    }

    /// The policy gave up on the backend.
    pub fn is_down(&self) -> (r: bool)
        ensures
            r == (self.current_tries >= self.max_tries),
    {
        self.current_tries >= self.max_tries
    }
}

} // verus!
