//! Sessions and the token registry: each accepted connection, the tokens
//! that resolve to it, and the buffers it holds from the pool.
use vstd::prelude::*;
use crate::{AcceptError, BackendConnectionStatus, Protocol, SessionResult, StateResult};
use crate::metrics::SessionMetrics;
use crate::pool::{Buffer, Pool};
use crate::ready::{Ready, Readiness, WRITABLE};
use crate::state::{HttpPhase, SessionState, StateMarker, lifted, legal_upgrade, marker_of};

verus! {

/// One accepted frontend connection and at most one backend connection.
pub struct Session {
    pub frontend_token: usize,
    pub backend_token: Option<usize>,
    pub protocol: Protocol,
    pub state: SessionState,
    pub frontend_readiness: Readiness,
    pub backend_readiness: Readiness,
    pub backend_status: BackendConnectionStatus,
    pub metrics: SessionMetrics,
    pub front_buffer: Buffer,
    pub back_buffer: Buffer,
    /// last instant the session got an event
    pub last_event: u64,
}

impl Session {
    /// Records events the kernel reported for `token` at `now`: on the
    /// frontend readiness for the frontend token, on the backend readiness
    /// for the backend token. Answers whether the token is the session's.
    pub fn update_readiness(&mut self, token: usize, events: Ready, now: u64) -> (r: bool)
        ensures
            r == owns(*old(self), token),
            !r ==> *final(self) == *old(self),
            r && token == old(self).frontend_token ==> *final(self) == (Session {
                frontend_readiness: Readiness {
                    event: Ready { bits: old(self).frontend_readiness.event.bits | events.bits },
                    ..old(self).frontend_readiness
                },
                last_event: now,
                ..*old(self)
            }),
            r && token != old(self).frontend_token ==> *final(self) == (Session {
                backend_readiness: Readiness {
                    event: Ready { bits: old(self).backend_readiness.event.bits | events.bits },
                    ..old(self).backend_readiness
                },
                last_event: now,
                ..*old(self)
            }),
    {
        if token == self.frontend_token {
            self.frontend_readiness.event.insert(events);
            self.last_event = now;
            true
        } else if self.backend_token == Some(token) {
            self.backend_readiness.event.insert(events);
            self.last_event = now;
            true
        } else {
            false
        }
    }

    /// Acts on a protocol's result and tells the event loop what follows.
    /// `CloseBackend` forgets the backend connection, whose token stops
    /// resolving; the other results leave the session as it is.
    pub fn apply(&mut self, result: StateResult) -> (r: SessionResult)
        ensures
            r == lifted(result),
            result is CloseBackend ==> *final(self) == (Session {
                backend_token: None,
                backend_status: BackendConnectionStatus::NotConnected,
                backend_readiness: Readiness {
                    event: Ready { bits: 0 },
                    interest: Ready { bits: 0 },
                },
                ..*old(self)
            }),
            !(result is CloseBackend) ==> *final(self) == *old(self),
    {
        if let StateResult::CloseBackend = result {
            self.backend_token = None;
            self.backend_status = BackendConnectionStatus::NotConnected;
            self.backend_readiness.reset();
        }
        crate::state::lift(result)
    }

    /// Upgrades the protocol in place, keeping the sockets, readiness and
    /// buffers. A legal upgrade continues; an illegal one leaves a failed
    /// upgrade that keeps the last marker, and the session closes.
    pub fn upgrade(&mut self, next: SessionState) -> (r: SessionResult)
        ensures
            r == if legal_upgrade(old(self).state, next) {
                SessionResult::Continue
            } else {
                SessionResult::Close
            },
            final(self).state == if legal_upgrade(old(self).state, next) {
                next
            } else {
                SessionState::FailedUpgrade(marker_of(old(self).state))
            },
            *final(self) == (Session { state: final(self).state, ..*old(self) }),
    {
        if self.state.upgrade(next) {
            SessionResult::Continue
        } else {
            SessionResult::Close
        }
    }

    /// A backend connection starts at `now`: the session waits for the socket
    /// to become writable.
    pub fn connect_backend(&mut self, now: u64)
        ensures
            *final(self) == (Session {
                backend_status: BackendConnectionStatus::Connecting(now),
                backend_readiness: Readiness {
                    event: Ready { bits: 0 },
                    interest: Ready { bits: WRITABLE },
                },
                metrics: SessionMetrics { backend_start: Some(now), ..old(self).metrics },
                ..*old(self)
            }),
    {
        self.backend_status = BackendConnectionStatus::Connecting(now);
        self.backend_readiness.reset();
        self.backend_readiness.interest = Ready::writable();
        self.metrics.backend_start(now);
    }

    /// The backend socket became writable without error at `now`: the session
    /// is connected, and answers how long connecting took.
    pub fn backend_connected(&mut self, now: u64) -> (r: Option<u64>)
        ensures
            *final(self) == (Session {
                backend_status: BackendConnectionStatus::Connected,
                metrics: SessionMetrics { backend_connected: Some(now), ..old(self).metrics },
                ..*old(self)
            }),
            r == match old(self).backend_status {
                BackendConnectionStatus::Connecting(start) => Some(crate::metrics::elapsed(start, now)),
                _ => None::<u64>,
            },
    {
        let r = match self.backend_status {
            BackendConnectionStatus::Connecting(start) => Some(if now >= start {
                now - start
            } else {
                0
            }),
            _ => None,
        };
        self.backend_status = BackendConnectionStatus::Connected;
        self.metrics.backend_connected(now);
        r
    }

    /// What the last valid protocol state was.
    pub fn marker(&self) -> (r: StateMarker)
        ensures
            r == marker_of(self.state),
    {
        self.state.marker()
    }
}

/// Token `t` resolves to session `s`.
pub open spec fn owns(s: Session, t: usize) -> bool {
    s.frontend_token == t || s.backend_token == Some(t)
}

/// The state a session of a listener's protocol starts in.
pub open spec fn initial_state(p: Protocol) -> SessionState {
    match p {
        Protocol::HTTP => SessionState::Http(HttpPhase::Request),
        Protocol::HTTPS => SessionState::TlsHandshake,
        Protocol::TCP => SessionState::Tcp,
        _ => SessionState::Expect,
    }
}

/// `after` is `before` with one more session, of token `t`, fresh, for a
/// listener of `protocol`, holding two more buffers.
pub open spec fn accepted(before: SessionManager, after: SessionManager, t: usize, protocol: Protocol) -> bool {
    &&& t == before.next_token
    &&& !before.has_token(t)
    &&& after.next_token == t + 1
    &&& after.sessions@.len() == before.sessions@.len() + 1
    &&& after.sessions@.drop_last() == before.sessions@
    &&& after.sessions@.last().frontend_token == t
    &&& after.sessions@.last().backend_token is None
    &&& after.sessions@.last().protocol == protocol
    &&& after.sessions@.last().state == initial_state(protocol)
    &&& after.pool.in_use == before.pool.in_use + 2
}

/// `after` is `before` without the session of frontend token `t`: none of
/// its tokens resolves any more and its two buffers are back in the pool.
pub open spec fn closed(before: SessionManager, after: SessionManager, t: usize) -> bool {
    &&& exists|i: int|
        0 <= i < before.sessions@.len() && (#[trigger] before.sessions@[i]).frontend_token == t
            && after.sessions@ == before.sessions@.remove(i) && forall|u: usize|
            owns(before.sessions@[i], u) ==> !after.has_token(u)
    &&& after.pool.in_use == before.pool.in_use - 2
    &&& !after.has_token(t)
}

pub struct SessionManager {
    pub sessions: Vec<Session>,
    /// the next token to hand out; tokens are issued in increasing order
    pub next_token: usize,
    pub max_connections: usize,
    /// false once a soft stop began
    pub can_accept: bool,
    pub pool: Pool,
}

impl SessionManager {
    pub open spec fn wf(self) -> bool {
        &&& self.pool.wf()
        &&& self.pool.in_use == 2 * self.sessions@.len()
        &&& forall|i: int, t: usize|
            0 <= i < self.sessions@.len() && #[trigger] owns(self.sessions@[i], t) ==> t < self.next_token
        &&& forall|i: int, j: int, t: usize|
            0 <= i < self.sessions@.len() && 0 <= j < self.sessions@.len() && i != j && #[trigger] owns(self.sessions@[i], t) ==> !(#[trigger] owns(self.sessions@[j], t))
        &&& forall|i: int|
            0 <= i < self.sessions@.len() ==> (#[trigger] self.sessions@[i]).backend_token != Some(
                self.sessions@[i].frontend_token,
            )
        &&& forall|i: int|
            0 <= i < self.sessions@.len() ==> (#[trigger] self.sessions@[i]).front_buffer.data@.len()
                == self.pool.buffer_size && self.sessions@[i].back_buffer.data@.len() == self.pool.buffer_size
    }

    /// Some session answers to token `t`.
    pub open spec fn has_token(self, t: usize) -> bool {
        exists|i: int| 0 <= i < self.sessions@.len() && #[trigger] owns(self.sessions@[i], t)
    }

    pub fn new(max_connections: usize, max_buffers: usize, buffer_size: usize) -> (r: SessionManager)
        ensures
            r.wf(),
            r.sessions@.len() == 0,
            r.next_token == 0,
            r.max_connections == max_connections,
            r.can_accept,
            r.pool.max_buffers == max_buffers,
            r.pool.buffer_size == buffer_size,
            r.pool.in_use == 0,
    {
        SessionManager {
            sessions: Vec::new(),
            next_token: 0,
            max_connections,
            can_accept: true,
            pool: Pool::with_capacity(max_buffers, buffer_size),
        }
    }

    /// Accepts a connection for a listener of `protocol` at `now`: a fresh
    /// token and two buffers from the pool. Refused with `TooManySessions`
    /// while stopping, at `max_connections` sessions, when tokens run out, or
    /// when the pool has fewer than the two buffers a session needs.
    pub fn accept(&mut self, protocol: Protocol, wait_time: Option<u64>, now: u64) -> (r: Result<
        usize,
        AcceptError,
    >)
        requires
            old(self).wf(),
        ensures
            final(self).wf(),
            final(self).max_connections == old(self).max_connections,
            final(self).can_accept == old(self).can_accept,
            final(self).pool.max_buffers == old(self).pool.max_buffers,
            final(self).pool.buffer_size == old(self).pool.buffer_size,
            r is Err <==> (!old(self).can_accept || old(self).sessions@.len() >= old(self).max_connections
                || old(self).next_token == usize::MAX || old(self).pool.available() < 2),
            r is Err ==> r == Err::<usize, AcceptError>(AcceptError::TooManySessions),
            r is Err ==> final(self).sessions@ == old(self).sessions@ && final(self).next_token == old(self).next_token
                && final(self).pool.in_use == old(self).pool.in_use,
            r matches Ok(t) ==> accepted(*old(self), *final(self), t, protocol),
    {
        if !self.can_accept || self.sessions.len() >= self.max_connections || self.next_token == usize::MAX
            || self.pool.available_buffers() < 2 {
            return Err(AcceptError::TooManySessions);
        }
        let front_buffer = match self.pool.checkout() {
            Ok(b) => b,
            Err(e) => {
                return Err(e);
            },
        };
        let back_buffer = match self.pool.checkout() {
            Ok(b) => b,
            Err(e) => {
                return Err(e);
            },
        };
        let token = self.next_token;
        let state = match protocol {
            Protocol::HTTP => SessionState::Http(HttpPhase::Request),
            Protocol::HTTPS => SessionState::TlsHandshake,
            Protocol::TCP => SessionState::Tcp,
            _ => SessionState::Expect,
        };
        let session = Session {
            frontend_token: token,
            backend_token: None,
            protocol,
            state,
            frontend_readiness: Readiness::new(),
            backend_readiness: Readiness::new(),
            backend_status: BackendConnectionStatus::NotConnected,
            metrics: SessionMetrics::new(wait_time, now),
            front_buffer,
            back_buffer,
            last_event: now,
        };
        let ghost before = self.sessions@;
        self.sessions.push(session);
        self.next_token = token + 1;
        proof {
            assert(self.sessions@.drop_last() =~= before);
            assert forall|i: int, t: usize|
                0 <= i < self.sessions@.len() && #[trigger] owns(self.sessions@[i], t) implies t
                < self.next_token by {
                if i < before.len() {
                    assert(self.sessions@[i] == before[i]);
                }
            }
            assert forall|i: int, j: int, t: usize|
                0 <= i < self.sessions@.len() && 0 <= j < self.sessions@.len() && i != j && #[trigger] owns(self.sessions@[i], t) implies !(#[trigger] owns(self.sessions@[j], t)) by {
                if i < before.len() && j < before.len() {
                    assert(self.sessions@[i] == before[i]);
                    assert(self.sessions@[j] == before[j]);
                } else if i < before.len() {
                    assert(self.sessions@[i] == before[i]);
                } else {
                    assert(self.sessions@[j] == before[j]);
                }
            }
            assert forall|t2: usize| old(self).has_token(t2) implies t2 < token by {
                let i = choose|i: int| 0 <= i < old(self).sessions@.len() && #[trigger] owns(old(self).sessions@[i], t2);
            }
        }
        Ok(token)
    }

    /// Position of the session that token `t` resolves to.
    pub fn get(&self, t: usize) -> (r: Option<usize>)
        requires
            self.wf(),
        ensures
            r is None <==> !self.has_token(t),
            r matches Some(i) ==> i < self.sessions@.len() && owns(self.sessions@[i as int], t),
    {
        let mut i: usize = 0;
        while i < self.sessions.len()
            invariant
                i <= self.sessions@.len(),
                forall|j: int| 0 <= j < i ==> !(#[trigger] owns(self.sessions@[j], t)),
            decreases self.sessions.len() - i,
        {
            if self.sessions[i].frontend_token == t || self.sessions[i].backend_token == Some(t) {
                assert(owns(self.sessions@[i as int], t));
                return Some(i);
            }
            i = i + 1;
        }
        None
    }

    /// Closes the session whose frontend token is `t`: its tokens no longer
    /// resolve and its two buffers go back to the pool. Answers whether there
    /// was such a session.
    pub fn close(&mut self, t: usize) -> (r: bool)
        requires
            old(self).wf(),
        ensures
            final(self).wf(),
            final(self).next_token == old(self).next_token,
            final(self).max_connections == old(self).max_connections,
            final(self).can_accept == old(self).can_accept,
            final(self).pool.max_buffers == old(self).pool.max_buffers,
            final(self).pool.buffer_size == old(self).pool.buffer_size,
            r == exists|i: int|
                0 <= i < old(self).sessions@.len() && (#[trigger] old(self).sessions@[i]).frontend_token == t,
            !r ==> final(self).sessions@ == old(self).sessions@ && final(self).pool.in_use == old(self).pool.in_use,
            r ==> closed(*old(self), *final(self), t),
            forall|u: usize| final(self).has_token(u) ==> old(self).has_token(u),
    {
        let mut i: usize = 0;
        while i < self.sessions.len()
            invariant
                self.wf(),
                *self == *old(self),
                i <= self.sessions@.len(),
                forall|j: int| 0 <= j < i ==> (#[trigger] self.sessions@[j]).frontend_token != t,
            decreases self.sessions.len() - i,
        {
            if self.sessions[i].frontend_token == t {
                let ghost before = self.sessions@;
                assert(owns(before[i as int], t));
                let session = self.sessions.remove(i);
                proof {
                    assert forall|u: usize| owns(before[i as int], u) implies !self.has_token(u) by {
                        if self.has_token(u) {
                            let k = choose|k: int| 0 <= k < self.sessions@.len() && #[trigger] owns(self.sessions@[k], u);
                            if k < i {
                                assert(self.sessions@[k] == before[k]);
                            } else {
                                assert(self.sessions@[k] == before[k + 1]);
                            }
                        }
                    }
                    self.lemma_removed_wf(*old(self), i as int);
                }
                let Session { front_buffer, back_buffer, .. } = session;
                self.pool.checkin(front_buffer);
                self.pool.checkin(back_buffer);
                proof {
                    assert forall|u: usize| self.has_token(u) implies old(self).has_token(u) by {
                        let k = choose|k: int| 0 <= k < self.sessions@.len() && #[trigger] owns(self.sessions@[k], u);
                        if k < i {
                            assert(self.sessions@[k] == before[k]);
                        } else {
                            assert(self.sessions@[k] == before[k + 1]);
                        }
                    }
                }
                return true;
            }
            i = i + 1;
        }
        false
    }

    /// After removing session `i` (its buffers not yet returned), the
    /// invariant holds but for the pool count.
    proof fn lemma_removed_wf(self, before: SessionManager, i: int)
        requires
            before.wf(),
            0 <= i < before.sessions@.len(),
            self.sessions@ == before.sessions@.remove(i),
            self.pool == before.pool,
            self.next_token == before.next_token,
        ensures
            forall|k: int, t: usize|
                0 <= k < self.sessions@.len() && #[trigger] owns(self.sessions@[k], t) ==> t < self.next_token,
            forall|a: int, b: int, t: usize|
                0 <= a < self.sessions@.len() && 0 <= b < self.sessions@.len() && a != b && #[trigger] owns(self.sessions@[a], t) ==> !(#[trigger] owns(self.sessions@[b], t)),
            forall|k: int|
                0 <= k < self.sessions@.len() ==> (#[trigger] self.sessions@[k]).backend_token != Some(
                    self.sessions@[k].frontend_token,
                ),
            forall|k: int|
                0 <= k < self.sessions@.len() ==> (#[trigger] self.sessions@[k]).front_buffer.data@.len()
                    == self.pool.buffer_size && self.sessions@[k].back_buffer.data@.len() == self.pool.buffer_size,
    {
        assert forall|k: int| 0 <= k < self.sessions@.len() implies #[trigger] self.sessions@[k] == before.sessions@[
            if k < i {
                k
            } else {
                k + 1
            }
        ] by {}
        assert forall|a: int, b: int, t: usize|
            0 <= a < self.sessions@.len() && 0 <= b < self.sessions@.len() && a != b && #[trigger] owns(self.sessions@[a], t) implies !(#[trigger] owns(self.sessions@[b], t)) by {
            let a2 = if a < i {
                a
            } else {
                a + 1
            };
            let b2 = if b < i {
                b
            } else {
                b + 1
            };
            assert(self.sessions@[a] == before.sessions@[a2]);
            assert(self.sessions@[b] == before.sessions@[b2]);
        }
    }

    /// Gives the session of frontend token `frontend` a fresh token for a new
    /// backend connection; a previous backend token stops resolving, as a
    /// session has at most one backend socket. `None` when there is no such
    /// session or tokens run out.
    pub fn register_backend(&mut self, frontend: usize) -> (r: Option<usize>)
        requires
            old(self).wf(),
        ensures
            final(self).wf(),
            final(self).pool == old(self).pool,
            final(self).can_accept == old(self).can_accept,
            final(self).max_connections == old(self).max_connections,
            r is None ==> final(self).sessions@ == old(self).sessions@ && final(self).next_token == old(self).next_token,
            r is None <==> (old(self).next_token == usize::MAX || forall|i: int|
                0 <= i < old(self).sessions@.len() ==> (#[trigger] old(self).sessions@[i]).frontend_token
                    != frontend),
            r matches Some(b) ==> {
                &&& b == old(self).next_token
                &&& final(self).next_token == b + 1
                &&& exists|i: int|
                    0 <= i < old(self).sessions@.len() && (#[trigger] old(self).sessions@[i]).frontend_token
                        == frontend && final(self).sessions@ == old(self).sessions@.update(
                        i,
                        Session { backend_token: Some(b), ..old(self).sessions@[i] },
                    )
            },
    {
        if self.next_token == usize::MAX {
            return None;
        }
        let mut i: usize = 0;
        while i < self.sessions.len()
            invariant
                self.wf(),
                *self == *old(self),
                self.next_token < usize::MAX,
                i <= self.sessions@.len(),
                forall|j: int| 0 <= j < i ==> (#[trigger] self.sessions@[j]).frontend_token != frontend,
            decreases self.sessions.len() - i,
        {
            if self.sessions[i].frontend_token == frontend {
                let b = self.next_token;
                let ghost before = self.sessions@;
                self.sessions[i].backend_token = Some(b);
                self.next_token = b + 1;
                proof {
                    assert(self.sessions@ == before.update(
                        i as int,
                        Session { backend_token: Some(b), ..before[i as int] },
                    ));
                    assert forall|k: int, t: usize|
                        0 <= k < self.sessions@.len() && #[trigger] owns(self.sessions@[k], t) implies t
                        < self.next_token by {
                        if k != i {
                            assert(self.sessions@[k] == before[k]);
                        } else if t != b {
                            assert(owns(before[k], t));
                        }
                    }
                    assert forall|x: int, y: int, t: usize|
                        0 <= x < self.sessions@.len() && 0 <= y < self.sessions@.len() && x != y
                            && #[trigger] owns(self.sessions@[x], t) implies !(#[trigger] owns(
                        self.sessions@[y],
                        t,
                    )) by {
                        if x != i && y != i {
                            assert(self.sessions@[x] == before[x]);
                            assert(self.sessions@[y] == before[y]);
                            assert(owns(before[x], t));
                        } else if x == i {
                            assert(self.sessions@[y] == before[y]);
                            if t == b {
                                if owns(before[y], t) {
                                    assert(t < old(self).next_token);
                                }
                            } else {
                                assert(owns(before[x], t));
                            }
                        } else {
                            assert(self.sessions@[x] == before[x]);
                            assert(owns(before[x], t));
                            assert(t < old(self).next_token);
                            assert(!owns(before[y], t));
                        }
                    }
                    assert(owns(before[i as int], before[i as int].frontend_token));
                    assert(before[i as int].frontend_token < old(self).next_token);
                }
                return Some(b);
            }
            i = i + 1;
        }
        None
    }

    /// Hands events reported for token `t` at `now` to the session it resolves
    /// to, and answers that session's position; `None` for a token that no
    /// session owns.
    pub fn update_readiness(&mut self, t: usize, events: Ready, now: u64) -> (r: Option<usize>)
        requires
            old(self).wf(),
        ensures
            final(self).wf(),
            final(self).next_token == old(self).next_token,
            final(self).pool == old(self).pool,
            final(self).can_accept == old(self).can_accept,
            final(self).max_connections == old(self).max_connections,
            r is None <==> !old(self).has_token(t),
            r is None ==> final(self).sessions@ == old(self).sessions@,
            r matches Some(i) ==> i < old(self).sessions@.len() && owns(old(self).sessions@[i as int], t)
                && final(self).sessions@.len() == old(self).sessions@.len() && (forall|j: int|
                0 <= j < old(self).sessions@.len() && j != i ==> final(self).sessions@[j] == old(
                    self,
                ).sessions@[j]) && final(self).sessions@[i as int].frontend_token == old(self).sessions@[i as int].frontend_token
                && final(self).sessions@[i as int].backend_token == old(self).sessions@[i as int].backend_token
                && final(self).sessions@[i as int].last_event == now,
    {
        match self.get(t) {
            None => None,
            Some(i) => {
                let ghost before = self.sessions@;
                self.sessions[i].update_readiness(t, events, now);
                proof {
                    assert forall|k: int| 0 <= k < self.sessions@.len() implies (forall|u: usize|
                        owns(#[trigger] self.sessions@[k], u) == owns(before[k], u))
                        && self.sessions@[k].front_buffer == before[k].front_buffer
                        && self.sessions@[k].back_buffer == before[k].back_buffer
                        && self.sessions@[k].frontend_token == before[k].frontend_token
                        && self.sessions@[k].backend_token == before[k].backend_token by {
                        if k != i {
                            assert(self.sessions@[k] == before[k]);
                        }
                    }
                    assert forall|a: int, b: int, u: usize|
                        0 <= a < self.sessions@.len() && 0 <= b < self.sessions@.len() && a != b
                            && #[trigger] owns(self.sessions@[a], u) implies !(#[trigger] owns(self.sessions@[b], u)) by {
                        assert(self.sessions@[a].frontend_token == before[a].frontend_token);
                        assert(self.sessions@[a].backend_token == before[a].backend_token);
                        assert(self.sessions@[b].frontend_token == before[b].frontend_token);
                        assert(self.sessions@[b].backend_token == before[b].backend_token);
                        assert(owns(before[a], u));
                        assert(!owns(before[b], u));
                    }
                    assert forall|a: int, u: usize|
                        0 <= a < self.sessions@.len() && #[trigger] owns(self.sessions@[a], u) implies u
                        < self.next_token by {
                        assert(owns(before[a], u));
                    }
                }
                Some(i)
            },
        }
    }

    /// Stops accepting new sessions; the current ones drain.
    pub fn soft_stop(&mut self)
        ensures
            final(self).sessions == old(self).sessions,
            final(self).pool == old(self).pool,
            final(self).next_token == old(self).next_token,
            final(self).max_connections == old(self).max_connections,
            !final(self).can_accept,
    {
        self.can_accept = false;
    }

    /// Stops accepting and closes every session at once.
    pub fn hard_stop(&mut self)
        requires
            old(self).wf(),
        ensures
            final(self).wf(),
            final(self).sessions@.len() == 0,
            final(self).pool.in_use == 0,
            !final(self).can_accept,
            forall|u: usize| !final(self).has_token(u),
    {
        self.can_accept = false;
        while self.sessions.len() > 0
            invariant
                self.wf(),
                !self.can_accept,
            decreases self.sessions.len(),
        {
            let t = self.sessions[0].frontend_token;
            assert(self.sessions@[0].frontend_token == t);
            let closed = self.close(t);
            assert(closed);
        }
    }
}

/// A session that is accepted and then closed leaves no trace: its token no
/// longer resolves, and the pool has as many buffers out as before it.
pub proof fn lemma_session_leaves_no_trace(
    m0: SessionManager,
    m1: SessionManager,
    m2: SessionManager,
    t: usize,
    protocol: Protocol,
)
    requires
        accepted(m0, m1, t, protocol),
        closed(m1, m2, t),
    ensures
        !m2.has_token(t),
        m2.pool.in_use == m0.pool.in_use,
        m2.sessions@.len() == m0.sessions@.len(),
{
}

} // verus!
