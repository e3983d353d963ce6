use sozu_core::command::{
    AddBackend, Cluster, HttpFrontend, RemoveBackend, RequestType, ResponseStatus, WorkerRequest,
};
use sozu_core::config::ProxyState;
use sozu_core::handoff::{handoff_next, HandoffAction, HandoffEvent, HandoffStep};
use sozu_core::load_balancing::LoadBalancingAlgorithms;
use sozu_core::router::{Method, PathRule, Route, RulePosition};

fn apply(state: &mut ProxyState, n: &mut usize, content: RequestType) -> ResponseStatus {
    *n += 1;
    state.notify(WorkerRequest { id: format!("r{n}"), content }, 0).status
}

fn configured() -> ProxyState {
    let mut s = ProxyState::new(10, 20, 64);
    let mut n = 0;
    let steps = vec![
        RequestType::AddHttpListener("127.0.0.1:8080".to_string(), "SOZUBALANCEID".to_string(), 3),
        RequestType::AddHttpListener("127.0.0.1:8443".to_string(), "STICKY".to_string(), 5),
        RequestType::AddCluster(Cluster {
            cluster_id: "c1".to_string(),
            sticky_session: true,
            https_redirect: false,
            load_balancing: LoadBalancingAlgorithms::LeastLoaded,
            answer_503: Some("busy".to_string()),
        }),
        RequestType::AddHttpFrontend(HttpFrontend {
            cluster_id: Some("c1".to_string()),
            address: "127.0.0.1:8080".to_string(),
            hostname: "*.example.com".to_string(),
            path: PathRule::Prefix("/api".to_string()),
            method: Some(Method::Get),
            position: RulePosition::Tree,
        }),
        RequestType::AddHttpFrontend(HttpFrontend {
            cluster_id: None,
            address: "127.0.0.1:8080".to_string(),
            hostname: "".to_string(),
            path: PathRule::Equals("/admin".to_string()),
            method: None,
            position: RulePosition::Pre,
        }),
        RequestType::AddBackend(AddBackend {
            cluster_id: "c1".to_string(),
            backend_id: "b1".to_string(),
            address: "127.0.0.1:9000".to_string(),
            sticky_id: Some("B1".to_string()),
            load_balancing_parameters: None,
            backup: Some(true),
        }),
        RequestType::AddBackend(AddBackend {
            cluster_id: "c1".to_string(),
            backend_id: "b2".to_string(),
            address: "127.0.0.1:9001".to_string(),
            sticky_id: None,
            load_balancing_parameters: None,
            backup: None,
        }),
        RequestType::ActivateListener("127.0.0.1:8080".to_string()),
    ];
    for content in steps {
        assert_eq!(apply(&mut s, &mut n, content), ResponseStatus::Success);
    }
    s
}

#[test]
fn replaying_activation_rebuilds_the_configuration() {
    let old = configured();
    let requests = old.activation_requests();
    let mut fresh = ProxyState::new(10, 20, 64);
    let mut n = 0;
    for content in requests {
        assert_eq!(apply(&mut fresh, &mut n, content), ResponseStatus::Success);
    }
    assert_eq!(fresh.dump_state(), old.dump_state());
    assert!(fresh.listeners[0].active && !fresh.listeners[1].active);
    assert!(matches!(
        fresh.listeners[0].route_request("a.example.com:8080", "/api/x", &Method::Get),
        Ok(Route::ClusterId(ref c)) if c == "c1"
    ));
    assert!(matches!(fresh.listeners[0].route_request("h", "/admin", &Method::Get), Ok(Route::Deny)));
    assert_eq!(fresh.clusters[0].answer_503.as_deref(), Some("busy"));
    assert!(fresh.backends.clusters[0].list.backends[0].backup);
    assert_eq!(fresh.backends.clusters[0].list.load_balancing, LoadBalancingAlgorithms::LeastLoaded);
}

#[test]
fn removed_backends_are_not_replayed() {
    let mut old = configured();
    let mut n = 100;
    let r = apply(
        &mut old,
        &mut n,
        RequestType::RemoveBackend(RemoveBackend { cluster_id: "c1".to_string(), backend_id: "b1".to_string() }),
    );
    assert_eq!(r, ResponseStatus::Success);
    let requests = old.activation_requests();
    let backends = requests.iter().filter(|q| matches!(q, RequestType::AddBackend(_))).count();
    assert_eq!(backends, 1);
}

#[test]
fn dump_state_renders_the_configuration() {
    let s = configured();
    let mut s2 = configured();
    let r = s2.notify(WorkerRequest { id: "dump".to_string(), content: RequestType::DumpState }, 0);
    assert_eq!(r.status, ResponseStatus::Success);
    assert_eq!(r.message, s.dump_state());
    assert_eq!(
        s.dump_state(),
        "cluster c1\n\
         listener 127.0.0.1:8080 active rules 1 1 0\n\
         listener 127.0.0.1:8443 inactive rules 0 0 0\n\
         backend c1 b1 127.0.0.1:9000 normal\n\
         backend c1 b2 127.0.0.1:9001 normal\n"
    );
}

#[test]
fn handoff_steps_in_order() {
    let mut step = HandoffStep::Idle;
    let mut actions = Vec::new();
    for event in [
        HandoffEvent::Start,
        HandoffEvent::SocketsReturned,
        HandoffEvent::SuccessorStarted,
        HandoffEvent::SocketsSent,
        HandoffEvent::ReplaySent,
        HandoffEvent::LastAnswer,
        HandoffEvent::PredecessorStopped,
    ] {
        let (next, action) = handoff_next(step, event);
        step = next;
        actions.push(action);
    }
    assert_eq!(step, HandoffStep::Done);
    assert_eq!(
        actions,
        vec![
            HandoffAction::SendReturnListenSockets,
            HandoffAction::StartSuccessor,
            HandoffAction::SendSockets,
            HandoffAction::ReplayActivation,
            HandoffAction::ReadReplayAnswers,
            HandoffAction::SoftStopPredecessor,
            HandoffAction::Finish,
        ]
    );
}

#[test]
fn handoff_refusal_and_out_of_order_events() {
    assert_eq!(
        handoff_next(HandoffStep::AwaitingSockets, HandoffEvent::SocketsRefused),
        (HandoffStep::Failed, HandoffAction::Abort)
    );
    assert_eq!(
        handoff_next(HandoffStep::Replaying, HandoffEvent::PredecessorStopped),
        (HandoffStep::Replaying, HandoffAction::Ignore)
    );
    assert_eq!(handoff_next(HandoffStep::Idle, HandoffEvent::LastAnswer), (HandoffStep::Idle, HandoffAction::Ignore));
}
