//! Core of a multi-protocol reverse proxy worker: readiness bookkeeping,
//! backends with health and retry state, load balancing, routing, the
//! per-session protocol state machine and the configuration plane that
//! mutates them between event-loop iterations.
use vstd::prelude::*;

pub mod backend;
pub mod backends;
pub mod command;
pub mod config;
pub mod dump;
pub mod event_loop;
pub mod framing;
pub mod handoff;
pub mod http_head;
pub mod listener;
pub mod load_balancing;
pub mod metrics;
pub mod peak_ewma;
pub mod pool;
pub mod ready;
pub mod retry;
pub mod router;
pub mod session;
pub mod state;
pub mod text;

verus! {

/// Anything that can be registered for kernel events.
#[derive(Debug, Clone, Copy, PartialEq, Eq, Structural)]
pub enum Protocol {
    HTTP,
    HTTPS,
    TCP,
    HTTPListen,
    HTTPSListen,
    TCPListen,
    Channel,
    Metrics,
    Timer,
}

/// Interest a protocol state has in the frontend and backend sockets.
#[derive(Debug, Clone, Copy, PartialEq, Eq, Structural)]
pub enum RequiredEvents {
    FrontReadBackNone,
    FrontWriteBackNone,
    FrontReadWriteBackNone,
    FrontNoneBackNone,
    FrontReadBackRead,
    FrontWriteBackRead,
    FrontReadWriteBackRead,
    FrontNoneBackRead,
    FrontReadBackWrite,
    FrontWriteBackWrite,
    FrontReadWriteBackWrite,
    FrontNoneBackWrite,
    FrontReadBackReadWrite,
    FrontWriteBackReadWrite,
    FrontReadWriteBackReadWrite,
    FrontNoneBackReadWrite,
}

/// What a `RequiredEvents` value asks of each side.
pub enum SideInterest {
    Idle,
    Read,
    Write,
    ReadWrite,
}

impl RequiredEvents {
    /// Interest in the frontend socket, as the variant's name spells it.
    pub open spec fn front(self) -> SideInterest {
        match self {
            RequiredEvents::FrontReadBackNone | RequiredEvents::FrontReadBackRead
            | RequiredEvents::FrontReadBackWrite | RequiredEvents::FrontReadBackReadWrite => SideInterest::Read,
            RequiredEvents::FrontWriteBackNone | RequiredEvents::FrontWriteBackRead
            | RequiredEvents::FrontWriteBackWrite | RequiredEvents::FrontWriteBackReadWrite => SideInterest::Write,
            RequiredEvents::FrontReadWriteBackNone | RequiredEvents::FrontReadWriteBackRead
            | RequiredEvents::FrontReadWriteBackWrite
            | RequiredEvents::FrontReadWriteBackReadWrite => SideInterest::ReadWrite,
            _ => SideInterest::Idle,
        }
    }

    /// Interest in the backend socket, as the variant's name spells it.
    pub open spec fn back(self) -> SideInterest {
        match self {
            RequiredEvents::FrontReadBackRead | RequiredEvents::FrontWriteBackRead
            | RequiredEvents::FrontReadWriteBackRead | RequiredEvents::FrontNoneBackRead => SideInterest::Read,
            RequiredEvents::FrontReadBackWrite | RequiredEvents::FrontWriteBackWrite
            | RequiredEvents::FrontReadWriteBackWrite | RequiredEvents::FrontNoneBackWrite => SideInterest::Write,
            RequiredEvents::FrontReadBackReadWrite | RequiredEvents::FrontWriteBackReadWrite
            | RequiredEvents::FrontReadWriteBackReadWrite
            | RequiredEvents::FrontNoneBackReadWrite => SideInterest::ReadWrite,
            _ => SideInterest::Idle,
        }
    }

    pub fn front_readable(&self) -> (r: bool)
        ensures
            r == (self.front() is Read || self.front() is ReadWrite),
    {
        match *self {
            RequiredEvents::FrontReadBackNone | RequiredEvents::FrontReadWriteBackNone
            | RequiredEvents::FrontReadBackRead | RequiredEvents::FrontReadWriteBackRead
            | RequiredEvents::FrontReadBackWrite | RequiredEvents::FrontReadWriteBackWrite
            | RequiredEvents::FrontReadBackReadWrite
            | RequiredEvents::FrontReadWriteBackReadWrite => true,
            _ => false,
        }
    }

    pub fn front_writable(&self) -> (r: bool)
        ensures
            r == (self.front() is Write || self.front() is ReadWrite),
    {
        match *self {
            RequiredEvents::FrontWriteBackNone | RequiredEvents::FrontReadWriteBackNone
            | RequiredEvents::FrontWriteBackRead | RequiredEvents::FrontReadWriteBackRead
            | RequiredEvents::FrontWriteBackWrite | RequiredEvents::FrontReadWriteBackWrite
            | RequiredEvents::FrontWriteBackReadWrite
            | RequiredEvents::FrontReadWriteBackReadWrite => true,
            _ => false,
        }
    }

    pub fn back_readable(&self) -> (r: bool)
        ensures
            r == (self.back() is Read || self.back() is ReadWrite),
    {
        match *self {
            RequiredEvents::FrontReadBackRead | RequiredEvents::FrontWriteBackRead
            | RequiredEvents::FrontReadWriteBackRead | RequiredEvents::FrontNoneBackRead
            | RequiredEvents::FrontReadBackReadWrite | RequiredEvents::FrontWriteBackReadWrite
            | RequiredEvents::FrontReadWriteBackReadWrite
            | RequiredEvents::FrontNoneBackReadWrite => true,
            _ => false,
        }
    }

    pub fn back_writable(&self) -> (r: bool)
        ensures
            r == (self.back() is Write || self.back() is ReadWrite),
    {
        match *self {
            RequiredEvents::FrontReadBackWrite | RequiredEvents::FrontWriteBackWrite
            | RequiredEvents::FrontReadWriteBackWrite | RequiredEvents::FrontNoneBackWrite
            | RequiredEvents::FrontReadBackReadWrite | RequiredEvents::FrontWriteBackReadWrite
            | RequiredEvents::FrontReadWriteBackReadWrite
            | RequiredEvents::FrontNoneBackReadWrite => true,
            _ => false,
        }
    }
}

/// Signals transitions between states of a given protocol.
#[derive(Debug, Clone, Copy, PartialEq, Eq, Structural)]
pub enum StateResult {
    /// the protocol closes its backend
    CloseBackend,
    /// the parent session closes itself
    CloseSession,
    /// the protocol connects to a backend
    ConnectBackend,
    /// the protocol continues
    Continue,
    /// the parent session upgrades to the next protocol
    Upgrade,
}

/// Signals transitions between states of a given session.
#[derive(Debug, Clone, Copy, PartialEq, Eq, Structural)]
pub enum SessionResult {
    Close,
    Continue,
    Upgrade,
}

#[derive(Debug, Clone, Copy, PartialEq, Eq, Structural)]
pub enum SocketType {
    Listener,
    FrontClient,
}

/// How a session obtains its backend connection.
#[derive(Debug, Clone, Copy, PartialEq, Eq, Structural)]
pub enum BackendConnectAction {
    New,
    Reuse,
    Replace,
}

/// Why a pending connection could not become a session.
#[derive(Debug, Clone, Copy, PartialEq, Eq, Structural)]
pub enum AcceptError {
    IoError,
    TooManySessions,
    WouldBlock,
    RegisterError,
    WrongSocketAddress,
    BufferCapacityReached,
}

/// State of a session's backend socket; instants are monotonic nanoseconds.
#[derive(Debug, Clone, Copy, PartialEq, Eq, Structural)]
pub enum BackendConnectionStatus {
    NotConnected,
    Connecting(u64),
    Connected,
}

impl BackendConnectionStatus {
    pub fn is_connecting(&self) -> (r: bool)
        ensures
            r == (*self is Connecting),
    {
        match self {
            BackendConnectionStatus::Connecting(_) => true,
            _ => false,
        }
    }
}

} // verus!
