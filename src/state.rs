//! The protocol state of a session: a tagged union that is upgraded in place.
use vstd::prelude::*;
use crate::{SessionResult, StateResult};

verus! {

/// Where an HTTP exchange stands.
#[derive(Debug, Clone, Copy, PartialEq, Eq, Structural)]
pub enum HttpPhase {
    Request,
    Response,
    KeepAlive,
}

/// A summary of a state, kept when an upgrade fails.
#[derive(Debug, Clone, Copy, PartialEq, Eq, Structural)]
pub enum StateMarker {
    Expect,
    Tcp,
    Http,
    WebSocket,
    TlsHandshake,
    Https,
}

#[derive(Debug, Clone, Copy, PartialEq, Eq, Structural)]
pub enum SessionState {
    /// waiting for a PROXY protocol preface
    Expect,
    Tcp,
    Http(HttpPhase),
    WebSocket,
    TlsHandshake,
    /// HTTP over an established TLS session
    Https(HttpPhase),
    /// an upgrade failed; the marker of the last valid state is kept
    FailedUpgrade(StateMarker),
}

pub open spec fn marker_of(s: SessionState) -> StateMarker {
    match s {
        SessionState::Expect => StateMarker::Expect,
        SessionState::Tcp => StateMarker::Tcp,
        SessionState::Http(_) => StateMarker::Http,
        SessionState::WebSocket => StateMarker::WebSocket,
        SessionState::TlsHandshake => StateMarker::TlsHandshake,
        SessionState::Https(_) => StateMarker::Https,
        SessionState::FailedUpgrade(m) => m,
    }
}

/// The upgrades a session may go through.
pub open spec fn legal_upgrade(from: SessionState, to: SessionState) -> bool {
    match (from, to) {
        (SessionState::Expect, SessionState::Tcp) => true,
        (SessionState::Expect, SessionState::Http(HttpPhase::Request)) => true,
        (SessionState::Expect, SessionState::TlsHandshake) => true,
        (SessionState::TlsHandshake, SessionState::Https(HttpPhase::Request)) => true,
        (SessionState::Http(HttpPhase::Response), SessionState::WebSocket) => true,
        (SessionState::Https(HttpPhase::Response), SessionState::WebSocket) => true,
        _ => false,
    }
}

/// The next phase of an HTTP exchange: request, response, keep-alive, and a
/// pipelined request again.
pub open spec fn next_phase(p: HttpPhase) -> HttpPhase {
    match p {
        HttpPhase::Request => HttpPhase::Response,
        HttpPhase::Response => HttpPhase::KeepAlive,
        HttpPhase::KeepAlive => HttpPhase::Request,
    }
}

/// How the session shell answers the event loop for a protocol's result.
pub open spec fn lifted(r: StateResult) -> SessionResult {
    match r {
        StateResult::CloseSession => SessionResult::Close,
        StateResult::Upgrade => SessionResult::Upgrade,
        _ => SessionResult::Continue,
    }
}

impl SessionState {
    /// The summary of this state; a failed upgrade answers the one it kept.
    pub fn marker(&self) -> (r: StateMarker)
        ensures
            r == marker_of(*self),
    {
        match self {
            SessionState::Expect => StateMarker::Expect,
            SessionState::Tcp => StateMarker::Tcp,
            SessionState::Http(_) => StateMarker::Http,
            SessionState::WebSocket => StateMarker::WebSocket,
            SessionState::TlsHandshake => StateMarker::TlsHandshake,
            SessionState::Https(_) => StateMarker::Https,
            SessionState::FailedUpgrade(m) => *m,
        }
    }

    pub fn failed(&self) -> (r: bool)
        ensures
            r == (*self is FailedUpgrade),
    {
        match self {
            SessionState::FailedUpgrade(_) => true,
            _ => false,
        }
    }

    /// Gives back this state, leaving a failed upgrade with its marker in place.
    pub fn take(&mut self) -> (r: SessionState)
        ensures
            r == *old(self),
            *final(self) == SessionState::FailedUpgrade(marker_of(*old(self))),
    {
        let owned = *self;
        *self = SessionState::FailedUpgrade(self.marker());
        owned
    }

    /// Replaces the state by `next` when the upgrade is legal and answers
    /// true; otherwise the state becomes a failed upgrade that keeps the
    /// marker of the current one, and the session is to be closed.
    pub fn upgrade(&mut self, next: SessionState) -> (r: bool)
        ensures
            r == legal_upgrade(*old(self), next),
            r ==> *final(self) == next,
            !r ==> *final(self) == SessionState::FailedUpgrade(marker_of(*old(self))),
    {
        let current = self.take();
        let legal = match (current, next) {
            (SessionState::Expect, SessionState::Tcp) => true,
            (SessionState::Expect, SessionState::Http(HttpPhase::Request)) => true,
            (SessionState::Expect, SessionState::TlsHandshake) => true,
            (SessionState::TlsHandshake, SessionState::Https(HttpPhase::Request)) => true,
            (SessionState::Http(HttpPhase::Response), SessionState::WebSocket) => true,
            (SessionState::Https(HttpPhase::Response), SessionState::WebSocket) => true,
            _ => false,
        };
        if legal {
            *self = next;
        }
        legal
    }

    /// Moves an HTTP or HTTPS exchange to its next phase; other states stay.
    pub fn advance(&mut self)
        ensures
            *final(self) == match *old(self) {
                SessionState::Http(p) => SessionState::Http(next_phase(p)),
                SessionState::Https(p) => SessionState::Https(next_phase(p)),
                s => s,
            },
    {
        *self = match *self {
            SessionState::Http(p) => SessionState::Http(phase_after(p)),
            SessionState::Https(p) => SessionState::Https(phase_after(p)),
            s => s,
        };
    }
}

fn phase_after(p: HttpPhase) -> (r: HttpPhase)
    ensures
        r == next_phase(p),
{
    match p {
        HttpPhase::Request => HttpPhase::Response,
        HttpPhase::Response => HttpPhase::KeepAlive,
        HttpPhase::KeepAlive => HttpPhase::Request,
    }
}

/// What the event loop does with a protocol's result: close the session,
/// upgrade its protocol, or keep it running.
pub fn lift(r: StateResult) -> (s: SessionResult)
    ensures
        s == lifted(r),
{
    match r {
        StateResult::CloseSession => SessionResult::Close,
        StateResult::Upgrade => SessionResult::Upgrade,
        _ => SessionResult::Continue,
    }
}

/// An upgrade never leaves the failed state, and a failed upgrade keeps the
/// marker of the state it came from, whatever was asked.
pub proof fn lemma_failed_is_terminal(s: SessionState, next: SessionState)
    ensures
        s is FailedUpgrade ==> !legal_upgrade(s, next),
        marker_of(SessionState::FailedUpgrade(marker_of(s))) == marker_of(s),
        legal_upgrade(s, next) ==> !(next is FailedUpgrade),
{
}

} // verus!
