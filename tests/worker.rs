use sozu_core::backend::EventKind;
use sozu_core::backends::SelectError;
use sozu_core::command::{
    classify_answer, generate_id, AddBackend, AnswerAction, Cluster, HttpFrontend, PendingRequests,
    RemoveBackend, RequestType, ResponseStatus, WorkerRequest, WorkerResponse,
};
use sozu_core::config::ProxyState;
use sozu_core::load_balancing::LoadBalancingAlgorithms;
use sozu_core::router::{Method, PathRule, Route, RulePosition};
use sozu_core::session::SessionManager;
use sozu_core::state::{lift, HttpPhase, SessionState, StateMarker};
use sozu_core::pool::Pool;
use sozu_core::ready::Ready;
use sozu_core::{AcceptError, BackendConnectionStatus, Protocol, SessionResult, StateResult};

fn request(id: &str, content: RequestType) -> WorkerRequest {
    WorkerRequest { id: id.to_string(), content }
}

fn response(id: &str, status: ResponseStatus) -> WorkerResponse {
    WorkerResponse { id: id.to_string(), status, message: String::new() }
}

fn cluster(id: &str) -> Cluster {
    Cluster {
        cluster_id: id.to_string(),
        sticky_session: false,
        https_redirect: false,
        load_balancing: LoadBalancingAlgorithms::RoundRobin,
        answer_503: Some("no backend".to_string()),
    }
}

fn frontend(cluster: &str) -> HttpFrontend {
    HttpFrontend {
        cluster_id: Some(cluster.to_string()),
        address: "127.0.0.1:8080".to_string(),
        hostname: "example.com".to_string(),
        path: PathRule::Prefix("/".to_string()),
        method: None,
        position: RulePosition::Tree,
    }
}

fn add_backend(cluster: &str, id: &str, address: &str, sticky: Option<&str>) -> RequestType {
    RequestType::AddBackend(AddBackend {
        cluster_id: cluster.to_string(),
        backend_id: id.to_string(),
        address: address.to_string(),
        sticky_id: sticky.map(|s| s.to_string()),
        load_balancing_parameters: None,
        backup: None,
    })
}

fn worker() -> ProxyState {
    let mut state = ProxyState::new(10, 20, 16384);
    let r = state.notify(
        request("l", RequestType::AddHttpListener("127.0.0.1:8080".to_string(), "SOZUBALANCEID".to_string(), 3)),
        0,
    );
    assert_eq!(r.status, ResponseStatus::Success);
    state
}

#[test]
fn basic_http_round_trip_routing() {
    let mut state = worker();
    for (id, content) in [
        ("1", RequestType::AddCluster(cluster("c1"))),
        ("2", RequestType::AddHttpFrontend(frontend("c1"))),
        ("3", add_backend("c1", "b1", "127.0.0.1:9000", None)),
    ] {
        let r = state.notify(request(id, content), 0);
        assert_eq!(r.id, id);
        assert_eq!(r.status, ResponseStatus::Success);
    }
    let route = state.listeners[0].route_request("example.com", "/", &Method::Get);
    assert!(matches!(route, Ok(Route::ClusterId(ref c)) if c == "c1"));
    let i = state.select_backend("c1", None, 0).unwrap();
    assert_eq!(state.backends.clusters[0].list.backends[i].address, "127.0.0.1:9000");
}

#[test]
fn no_backend_gives_no_backend_available() {
    let mut state = worker();
    state.notify(request("1", RequestType::AddCluster(cluster("c1"))), 0);
    state.notify(request("2", RequestType::AddHttpFrontend(frontend("c1"))), 0);
    assert_eq!(state.select_backend("c1", None, 0), Err(SelectError::NoBackendAvailable));
    assert_eq!(state.clusters[0].answer_503.as_deref(), Some("no backend"));
    assert_eq!(state.events.len(), 1);
    assert_eq!(state.events[0].kind, EventKind::NoAvailableBackends);
    assert_eq!(state.events[0].cluster_id.as_deref(), Some("c1"));
    assert_eq!(state.select_backend("nope", None, 0), Err(SelectError::NoCluster));
    assert_eq!(state.events.len(), 1);
}

#[test]
fn each_request_gets_one_terminal_answer_with_its_id() {
    let mut state = worker();
    let requests = vec![
        request("a", RequestType::Status),
        request("b", RequestType::ActivateListener("127.0.0.1:8080".to_string())),
        request("c", RequestType::ActivateListener("10.0.0.1:1".to_string())),
        request("d", RequestType::RemoveBackend(RemoveBackend { cluster_id: "x".to_string(), backend_id: "y".to_string() })),
        request("e", RequestType::AddHttpFrontend(HttpFrontend { address: "nowhere".to_string(), ..frontend("c") })),
        request("f", RequestType::RemoveHttpFrontend(frontend("c"))),
        request("g", RequestType::AddHttpListener("127.0.0.1:8080".to_string(), String::new(), 1)),
        request("h", RequestType::SoftStop),
        request("i", RequestType::SaveState("/tmp/state".to_string())),
        request("j", RequestType::DumpState),
    ];
    let expected = [
        ResponseStatus::Success,
        ResponseStatus::Success,
        ResponseStatus::Error,
        ResponseStatus::Error,
        ResponseStatus::Error,
        ResponseStatus::Error,
        ResponseStatus::Error,
        ResponseStatus::Success,
        ResponseStatus::Error,
        ResponseStatus::Success,
    ];
    for (req, status) in requests.into_iter().zip(expected) {
        let id = req.id.clone();
        let r = state.notify(req, 0);
        assert_eq!(r.id, id);
        assert_eq!(r.status, status);
    }
    assert!(!state.sessions.can_accept);
}

#[test]
fn remove_backend_emits_event_when_idle() {
    let mut state = worker();
    state.notify(request("1", add_backend("c1", "b1", "a", None)), 0);
    let r = state.notify(
        request("2", RequestType::RemoveBackend(RemoveBackend { cluster_id: "c1".to_string(), backend_id: "b1".to_string() })),
        0,
    );
    assert_eq!(r.status, ResponseStatus::Success);
    assert_eq!(state.events.len(), 1);
    assert_eq!(state.events[0].kind, EventKind::RemovedBackendHasNoConnections);
}

#[test]
fn remove_cluster_drops_its_frontends() {
    let mut state = worker();
    state.notify(request("1", RequestType::AddCluster(cluster("c1"))), 0);
    state.notify(request("2", RequestType::AddHttpFrontend(frontend("c1"))), 0);
    let r = state.notify(request("3", RequestType::RemoveCluster("c1".to_string())), 0);
    assert_eq!(r.status, ResponseStatus::Success);
    assert!(state.clusters.is_empty());
    assert!(state.listeners[0].route_request("example.com", "/", &Method::Get).is_err());
    let r = state.notify(request("4", RequestType::RemoveHttpFrontend(frontend("c1"))), 0);
    assert_eq!(r.status, ResponseStatus::Error);
}

#[test]
fn wildcard_frontend_and_removal() {
    let mut state = worker();
    let f = HttpFrontend { hostname: "*.example.com".to_string(), ..frontend("c1") };
    assert_eq!(state.notify(request("1", RequestType::AddHttpFrontend(f.clone())), 0).status, ResponseStatus::Success);
    assert!(state.listeners[0].route_request("api.example.com", "/", &Method::Get).is_ok());
    assert_eq!(state.notify(request("2", RequestType::RemoveHttpFrontend(f)), 0).status, ResponseStatus::Success);
    assert!(state.listeners[0].route_request("api.example.com", "/", &Method::Get).is_err());
}

#[test]
fn sticky_session_scenario() {
    let mut state = worker();
    let mut c = cluster("c1");
    c.sticky_session = true;
    state.notify(request("1", RequestType::AddCluster(c)), 0);
    state.notify(request("2", add_backend("c1", "b0", "127.0.0.1:9000", Some("B0"))), 0);
    state.notify(request("3", add_backend("c1", "b1", "127.0.0.1:9001", Some("B1"))), 0);
    for _ in 0..4 {
        assert_eq!(state.backends.backend_from_cluster_id("c1", Some("B1"), 0), Ok(1));
    }
}

#[test]
fn return_listen_sockets_and_hard_stop() {
    let mut state = worker();
    state.notify(request("1", RequestType::ActivateListener("127.0.0.1:8080".to_string())), 0);
    assert!(state.listeners[0].active);
    state.sessions.accept(Protocol::HTTP, None, 0).unwrap();
    let r = state.notify(request("2", RequestType::ReturnListenSockets), 0);
    assert_eq!(r.status, ResponseStatus::Success);
    assert!(!state.listeners[0].active);
    let r = state.notify(request("3", RequestType::HardStop), 0);
    assert_eq!(r.id, "3");
    assert!(state.sessions.sessions.is_empty());
    assert_eq!(state.sessions.pool.in_use, 0);
}

#[test]
fn classify_answer_checks_the_id() {
    assert_eq!(classify_answer("ID-1", &response("ID-2", ResponseStatus::Success)), AnswerAction::WrongId);
    assert_eq!(classify_answer("ID-1", &response("ID-1", ResponseStatus::Processing)), AnswerAction::KeepWaiting);
    assert_eq!(classify_answer("ID-1", &response("ID-1", ResponseStatus::Error)), AnswerAction::Failed);
    assert_eq!(classify_answer("ID-1", &response("ID-1", ResponseStatus::Success)), AnswerAction::Done);
}

#[test]
fn pending_requests_complete_once() {
    let mut p = PendingRequests::new();
    assert!(p.is_empty());
    p.insert("a".to_string());
    p.insert("b".to_string());
    p.insert("a".to_string());
    assert_eq!(p.ids.len(), 2);
    assert!(!p.on_response(&response("a", ResponseStatus::Processing)));
    assert!(p.on_response(&response("a", ResponseStatus::Success)));
    assert!(!p.on_response(&response("a", ResponseStatus::Error)));
    assert!(!p.on_response(&response("zz", ResponseStatus::Success)));
    assert!(!p.is_empty());
    assert!(p.on_response(&response("b", ResponseStatus::Error)));
    assert!(p.is_empty());
}

#[test]
fn generated_ids_have_the_expected_shape() {
    let a = generate_id();
    let b = generate_id();
    for id in [&a, &b] {
        assert_eq!(id.len(), 9);
        assert!(id.starts_with("ID-"));
        assert!(id[3..].chars().all(|c| c.is_ascii_alphanumeric()));
    }
    assert_ne!(a, b);
}

#[test]
fn session_close_restores_pool_and_tokens() {
    let mut m = SessionManager::new(10, 6, 64);
    let before = m.pool.in_use;
    let t = m.accept(Protocol::HTTP, None, 0).unwrap();
    assert_eq!(m.pool.in_use, before + 2);
    let b = m.register_backend(t).unwrap();
    assert_eq!(m.get(b), Some(0));
    assert_eq!(m.get(t), Some(0));
    assert_eq!(m.sessions[0].state, SessionState::Http(HttpPhase::Request));
    assert!(m.close(t));
    assert_eq!(m.pool.in_use, before);
    assert_eq!(m.get(t), None);
    assert_eq!(m.get(b), None);
    assert!(!m.close(t));
}

#[test]
fn accept_refusals() {
    let mut m = SessionManager::new(2, 3, 8);
    let t0 = m.accept(Protocol::TCP, None, 0).unwrap();
    // one buffer left: not enough for a session
    assert_eq!(m.accept(Protocol::TCP, None, 0), Err(AcceptError::TooManySessions));
    let mut m2 = SessionManager::new(1, 10, 8);
    m2.accept(Protocol::HTTPS, None, 0).unwrap();
    assert_eq!(m2.accept(Protocol::HTTPS, None, 0), Err(AcceptError::TooManySessions));
    m.soft_stop();
    assert!(m.close(t0));
    assert_eq!(m.accept(Protocol::TCP, None, 0), Err(AcceptError::TooManySessions));
    // returned buffers are reused
    assert_eq!(m.pool.in_use, 0);
    assert_eq!(m.pool.created, 2);
}

#[test]
fn pool_checkout_fails_when_exhausted() {
    let mut p = Pool::with_capacity(1, 32);
    let b = p.checkout().unwrap();
    assert_eq!(b.data.len(), 32);
    assert_eq!(p.available_buffers(), 0);
    assert!(matches!(p.checkout(), Err(AcceptError::BufferCapacityReached)));
    p.checkin(b);
    assert_eq!(p.in_use, 0);
    let again = p.checkout().unwrap();
    assert_eq!((again.start, again.end), (0, 0));
    assert_eq!(p.created, 1);
}

#[test]
fn tokens_are_issued_in_increasing_order() {
    let mut m = SessionManager::new(10, 20, 8);
    let a = m.accept(Protocol::HTTP, None, 0).unwrap();
    let b = m.accept(Protocol::HTTP, None, 0).unwrap();
    assert!(m.close(a));
    let c = m.accept(Protocol::HTTP, None, 0).unwrap();
    assert_eq!((a, b, c), (0, 1, 2));
}

#[test]
fn legal_upgrades_and_failed_upgrade() {
    let mut s = SessionState::Expect;
    assert!(s.upgrade(SessionState::TlsHandshake));
    assert!(s.upgrade(SessionState::Https(HttpPhase::Request)));
    s.advance();
    assert_eq!(s, SessionState::Https(HttpPhase::Response));
    assert!(s.upgrade(SessionState::WebSocket));
    assert!(!s.upgrade(SessionState::Tcp));
    assert_eq!(s, SessionState::FailedUpgrade(StateMarker::WebSocket));
    assert!(s.failed());
    assert_eq!(s.marker(), StateMarker::WebSocket);
    assert!(!s.upgrade(SessionState::Tcp));
    assert_eq!(s.marker(), StateMarker::WebSocket);
}

#[test]
fn http_phases_cycle() {
    let mut s = SessionState::Http(HttpPhase::Request);
    s.advance();
    s.advance();
    assert_eq!(s, SessionState::Http(HttpPhase::KeepAlive));
    s.advance();
    assert_eq!(s, SessionState::Http(HttpPhase::Request));
    let mut t = SessionState::Tcp;
    t.advance();
    assert_eq!(t, SessionState::Tcp);
    assert_eq!(t.take(), SessionState::Tcp);
    assert_eq!(t, SessionState::FailedUpgrade(StateMarker::Tcp));
}

#[test]
fn lifting_state_results() {
    assert_eq!(lift(StateResult::CloseSession), SessionResult::Close);
    assert_eq!(lift(StateResult::Upgrade), SessionResult::Upgrade);
    assert_eq!(lift(StateResult::CloseBackend), SessionResult::Continue);
    assert_eq!(lift(StateResult::ConnectBackend), SessionResult::Continue);
    assert_eq!(lift(StateResult::Continue), SessionResult::Continue);
}

#[test]
fn session_readiness_and_backend_lifecycle() {
    let mut m = SessionManager::new(4, 8, 16);
    let front = m.accept(Protocol::HTTP, None, 0).unwrap();
    let back = m.register_backend(front).unwrap();
    assert_eq!(m.update_readiness(front, Ready::readable(), 10), Some(0));
    assert_eq!(m.update_readiness(back, Ready::writable(), 11), Some(0));
    assert_eq!(m.update_readiness(999, Ready::readable(), 12), None);
    let s = &mut m.sessions[0];
    assert_eq!(s.frontend_readiness.event, Ready::readable());
    assert_eq!(s.backend_readiness.event, Ready::writable());
    assert_eq!(s.last_event, 11);
    s.connect_backend(100);
    assert!(s.backend_status.is_connecting());
    assert_eq!(s.backend_readiness.interest, Ready::writable());
    assert_eq!(s.backend_connected(130), Some(30));
    assert_eq!(s.backend_status, BackendConnectionStatus::Connected);
    assert_eq!(s.metrics.backend_connection_time(), Some(30));
    assert_eq!(s.apply(StateResult::Continue), SessionResult::Continue);
    assert_eq!(s.apply(StateResult::CloseBackend), SessionResult::Continue);
    assert_eq!(s.backend_token, None);
    assert_eq!(s.backend_status, BackendConnectionStatus::NotConnected);
    assert_eq!(s.apply(StateResult::CloseSession), SessionResult::Close);
    assert_eq!(m.get(back), None);
}

#[test]
fn session_upgrade_keeps_the_session() {
    let mut m = SessionManager::new(4, 8, 16);
    let front = m.accept(Protocol::TCP, None, 0).unwrap();
    let s = &mut m.sessions[0];
    assert_eq!(s.marker(), StateMarker::Tcp);
    assert_eq!(s.upgrade(SessionState::WebSocket), SessionResult::Close);
    assert_eq!(s.state, SessionState::FailedUpgrade(StateMarker::Tcp));
    assert_eq!(s.frontend_token, front);
    let mut m2 = SessionManager::new(4, 8, 16);
    m2.accept(Protocol::HTTP, None, 0).unwrap();
    let s2 = &mut m2.sessions[0];
    s2.state.advance();
    assert_eq!(s2.upgrade(SessionState::WebSocket), SessionResult::Continue);
    assert_eq!(s2.state, SessionState::WebSocket);
}

#[test]
fn select_backend_picks_sticky_then_round_robin() {
    let mut state = worker();
    state.notify(request("1", RequestType::AddCluster(cluster("c1"))), 0);
    state.notify(request("2", add_backend("c1", "b0", "127.0.0.1:9000", None)), 0);
    state.notify(request("3", add_backend("c1", "b1", "127.0.0.1:9001", Some("B1"))), 0);
    assert_eq!(state.select_backend("c1", Some("B1"), 0), Ok(1));
    assert_eq!(state.select_backend("c1", None, 0), Ok(0));
    assert_eq!(state.select_backend("c1", None, 0), Ok(1));
    assert_eq!(state.select_backend("c1", Some("nope"), 0), Ok(0));
    assert!(state.events.is_empty());
}
