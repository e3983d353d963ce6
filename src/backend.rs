//! A backend server of a cluster: health, connection counters, retry state
//! and round-trip estimate.
use vstd::prelude::*;
use crate::peak_ewma::{PeakEWMA, WEIGHT_ONE, DEFAULT_DECAY, DEFAULT_RTT, observed_rtt, ewma_cost};
use crate::retry::{ExponentialBackoffPolicy, RetryAction};

verus! {

/// Connection attempts a backend gets before its retry policy gives up.
pub const MAX_TRIES: usize = 6;

#[derive(Debug, Clone, Copy, PartialEq, Eq, Structural)]
pub enum BackendStatus {
    Normal,
    Closing,
    Closed,
}

/// A status change that the lifecycle `Normal -> Closing -> Closed` allows,
/// staying put included.
pub open spec fn status_step(a: BackendStatus, b: BackendStatus) -> bool {
    ||| a == b
    ||| (a is Normal && b is Closing)
    ||| (a is Closing && b is Closed)
}

#[derive(Debug, Clone, Copy, PartialEq, Eq, Structural)]
pub struct LoadBalancingParams {
    pub weight: i32,
}

#[derive(Debug, Clone, Copy, PartialEq, Eq, Structural)]
pub enum BackendError {
    /// the backend is closing or closed
    NotNormal,
    /// the connection attempt failed
    ConnectFailed,
    /// no such backend
    Unknown,
    /// the connection counter is at its limit
    TooManyConnections,
}

/// What the worker reports to the configuration plane.
#[derive(Debug, Clone, Copy, PartialEq, Eq, Structural)]
pub enum EventKind {
    BackendDown,
    BackendUp,
    NoAvailableBackends,
    RemovedBackendHasNoConnections,
}

#[derive(Debug, Clone)]
pub struct Event {
    pub kind: EventKind,
    pub backend_id: Option<String>,
    pub address: Option<String>,
    pub cluster_id: Option<String>,
}

#[derive(Debug, Clone)]
pub struct Backend {
    pub sticky_id: Option<String>,
    pub backend_id: String,
    pub address: String,
    pub status: BackendStatus,
    pub retry_policy: ExponentialBackoffPolicy,
    pub active_connections: usize,
    pub active_requests: usize,
    pub failures: usize,
    pub load_balancing_parameters: Option<LoadBalancingParams>,
    pub backup: bool,
    pub connection_time: PeakEWMA,
}

impl Backend {
    pub open spec fn wf(self) -> bool {
        self.retry_policy.wf()
    }

    /// The backend may be given a new connection at `now`.
    pub open spec fn can_open_at(self, now: u64) -> bool {
        self.status is Normal && self.retry_policy.action_at(now) is OKAY
    }

    /// The backend after `set_closing`.
    pub open spec fn closing(self) -> Backend {
        Backend {
            status: if self.status is Normal {
                BackendStatus::Closing
            } else {
                self.status
            },
            ..self
        }
    }

    /// The backend after `dec_connections`.
    pub open spec fn released(self) -> Backend {
        let n: usize = if self.status is Closed || self.active_connections == 0 {
            self.active_connections
        } else {
            (self.active_connections - 1) as usize
        };
        Backend {
            active_connections: n,
            status: if self.status is Closing && n == 0 {
                BackendStatus::Closed
            } else {
                self.status
            },
            ..self
        }
    }

    pub fn new(
        backend_id: &str,
        address: String,
        sticky_id: Option<String>,
        load_balancing_parameters: Option<LoadBalancingParams>,
        backup: Option<bool>,
        now: u64,
    ) -> (r: Backend)
        ensures
            r.wf(),
            r.backend_id@ == backend_id@,
            r.address@ == address@,
            r.sticky_id == sticky_id,
            r.status is Normal,
            r.retry_policy == (ExponentialBackoffPolicy {
                max_tries: MAX_TRIES,
                current_tries: 0,
                last_try: 0,
                wait: 0,
            }),
            r.active_connections == 0,
            r.active_requests == 0,
            r.failures == 0,
            r.load_balancing_parameters == load_balancing_parameters,
            r.backup == match backup {
                Some(b) => b,
                None => false,
            },
            r.connection_time == (PeakEWMA { decay: DEFAULT_DECAY, rtt: DEFAULT_RTT, last_event: now }),
    {
        let backup = match backup {
            Some(b) => b,
            None => false,
        };
        Backend {
            sticky_id,
            backend_id: String::from_str(backend_id),
            address,
            status: BackendStatus::Normal,
            retry_policy: ExponentialBackoffPolicy::new(MAX_TRIES),
            active_connections: 0,
            active_requests: 0,
            failures: 0,
            load_balancing_parameters,
            backup,
            connection_time: PeakEWMA::new(now),
        }
    }

    /// Takes a `Normal` backend out of rotation; it closes once its last
    /// connection is released.
    pub fn set_closing(&mut self)
        ensures
            final(self).status == if old(self).status is Normal {
                BackendStatus::Closing
            } else {
                old(self).status
            },
            *final(self) == old(self).closing(),
    {
        if self.status == BackendStatus::Normal {
            self.status = BackendStatus::Closing;
        }
    }

    pub fn retry_policy(&mut self) -> (r: &mut ExponentialBackoffPolicy)
        ensures
            *r == old(self).retry_policy,
            *final(self) == (Backend { retry_policy: *final(r), ..*old(self) }),
    {
        &mut self.retry_policy
    }

    /// The backend is `Normal` and its retry policy allows an attempt at `now`.
    pub fn can_open(&self, now: u64) -> (r: bool)
        ensures
            r == self.can_open_at(now),
    {
        match self.retry_policy.can_try(now) {
            RetryAction::OKAY => self.status == BackendStatus::Normal,
            _ => false,
        }
    }

    /// Counts a new connection to a `Normal` backend and returns the new count;
    /// a backend in any other status takes none.
    pub fn inc_connections(&mut self) -> (r: Option<usize>)
        requires
            old(self).active_connections < usize::MAX,
        ensures
            old(self).status is Normal ==> final(self).active_connections
                == old(self).active_connections + 1 && r == Some(final(self).active_connections),
            !(old(self).status is Normal) ==> *final(self) == *old(self) && r is None,
            *final(self) == (Backend { active_connections: final(self).active_connections, ..*old(self) }),
    {
        if self.status == BackendStatus::Normal {
            self.active_connections = self.active_connections + 1;
            Some(self.active_connections)
        } else {
            None
        }
    }

    /// Releases one connection. A `Closing` backend whose last connection goes
    /// becomes `Closed` and answers `None`, as does a `Closed` one; otherwise
    /// the remaining count is returned.
    pub fn dec_connections(&mut self) -> (r: Option<usize>)
        ensures
            final(self).active_connections == if old(self).status is Closed
                || old(self).active_connections == 0 {
                old(self).active_connections as int
            } else {
                old(self).active_connections - 1
            },
            final(self).status == if old(self).status is Closing
                && final(self).active_connections == 0 {
                BackendStatus::Closed
            } else {
                old(self).status
            },
            r == if final(self).status is Closed {
                None
            } else {
                Some(final(self).active_connections)
            },
            *final(self) == old(self).released(),
    {
        match self.status {
            BackendStatus::Normal => {
                if self.active_connections > 0 {
                    self.active_connections = self.active_connections - 1;
                }
                Some(self.active_connections)
            },
            BackendStatus::Closed => None,
            BackendStatus::Closing => {
                if self.active_connections > 0 {
                    self.active_connections = self.active_connections - 1;
                }
                if self.active_connections == 0 {
                    self.status = BackendStatus::Closed;
                    None
                } else {
                    Some(self.active_connections)
                }
            },
        }
    }

    /// Folds a connection time measured at `now` into the round-trip estimate;
    /// `weight` is the decay weight of the time elapsed since its last update.
    pub fn set_connection_time(&mut self, duration: u64, now: u64, weight: u64)
        requires
            weight <= WEIGHT_ONE,
        ensures
            final(self).connection_time.rtt == observed_rtt(
                old(self).connection_time,
                duration,
                now,
                weight,
            ),
            final(self).connection_time.last_event == now,
            *final(self) == (Backend { connection_time: final(self).connection_time, ..*old(self) }),
    {
        self.connection_time.observe(duration, now, weight);
    }

    /// The load-balancing cost `(active_requests + 1) * rtt`, after ageing the
    /// estimate to `now`.
    pub fn peak_ewma_connection(&mut self, now: u64, weight: u64) -> (r: u128)
        requires
            weight <= WEIGHT_ONE,
        ensures
            final(self).connection_time.rtt == observed_rtt(old(self).connection_time, 0, now, weight),
            final(self).connection_time.last_event == now,
            *final(self) == (Backend { connection_time: final(self).connection_time, ..*old(self) }),
            r == ewma_cost(final(self).connection_time.rtt, old(self).active_requests),
    {
        self.connection_time.get(self.active_requests, now, weight)
    }

    /// Records a fully successful exchange at `now`: the failure count and the
    /// retry policy start afresh.
    pub fn mark_success(&mut self, now: u64)
        requires
            old(self).wf(),
        ensures
            final(self).wf(),
            final(self).failures == 0,
            final(self).retry_policy == old(self).retry_policy.after_success(now),
            *final(self) == (Backend { failures: 0, retry_policy: final(self).retry_policy, ..*old(self) }),
    {
        self.retry_policy.succeed(now);
        self.failures = 0;
    }

    /// Records the outcome of a connection attempt made at `now`. A backend that
    /// is not `Normal` takes no attempt; a success counts a connection (or is
    /// refused with `TooManyConnections` when the counter is at its limit), a
    /// failure is counted against the backend.
    pub fn try_connect(&mut self, connected: bool, now: u64) -> (r: Result<usize, BackendError>)
        requires
            old(self).wf(),
        ensures
            final(self).wf(),
            !(old(self).status is Normal) ==> r == Err::<usize, BackendError>(BackendError::NotNormal)
                && *final(self) == *old(self),
            old(self).status is Normal && connected && old(self).active_connections == usize::MAX ==> r
                == Err::<usize, BackendError>(BackendError::TooManyConnections) && *final(self) == *old(self),
            old(self).status is Normal && connected && old(self).active_connections < usize::MAX ==> r == Ok::<usize, BackendError>(
                (old(self).active_connections + 1) as usize,
            ) && *final(self) == (Backend {
                active_connections: (old(self).active_connections + 1) as usize,
                ..*old(self)
            }),
            old(self).status is Normal && !connected ==> r == Err::<usize, BackendError>(
                BackendError::ConnectFailed,
            ) && final(self).retry_policy == old(self).retry_policy.after_fail(now)
                && final(self).failures == (if old(self).failures < usize::MAX {
                old(self).failures + 1
            } else {
                old(self).failures as int
            }) && *final(self) == (Backend {
                failures: final(self).failures,
                retry_policy: final(self).retry_policy,
                ..*old(self)
            }),
    {
        if self.status != BackendStatus::Normal {
            return Err(BackendError::NotNormal);
        }
        if connected {
            if self.active_connections == usize::MAX {
                return Err(BackendError::TooManyConnections);
            }
            match self.inc_connections() {
                Some(n) => Ok(n),
                None => Err(BackendError::NotNormal),
            }
        } else {
            self.mark_failure(now);
            Err(BackendError::ConnectFailed)
        }
    }

    /// Records a failed connection attempt at `now`.
    pub fn mark_failure(&mut self, now: u64)
        requires
            old(self).wf(),
        ensures
            final(self).wf(),
            final(self).failures == if old(self).failures < usize::MAX {
                old(self).failures + 1
            } else {
                old(self).failures as int
            },
            final(self).retry_policy == old(self).retry_policy.after_fail(now),
            *final(self) == (Backend {
                failures: final(self).failures,
                retry_policy: final(self).retry_policy,
                ..*old(self)
            }),
    {
        self.retry_policy.fail(now);
        if self.failures < usize::MAX {
            self.failures = self.failures + 1;
        }
    }
}

/// A backend only moves forward along `Normal -> Closing -> Closed`: closing
/// it and releasing a connection never go back, a failed or successful
/// attempt leaves the status alone, and a `Closed` backend can never be
/// opened, so no strategy ever picks it.
pub proof fn lemma_backend_lifecycle(b: Backend, now: u64)
    requires
        b.wf(),
    ensures
        status_step(b.status, b.closing().status),
        status_step(b.status, b.released().status),
        b.status is Closing ==> b.closing().status is Closing,
        b.status is Closed ==> b.closing() == b && b.released() == b,
        b.status is Closed ==> !b.can_open_at(now),
        b.status is Closing ==> !b.can_open_at(now),
        b.released().active_connections <= b.active_connections,
{
}

} // verus!
