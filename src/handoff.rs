//! Handing a worker's listening sockets and configuration to a successor:
//! the requests that rebuild the configuration, and the order of the steps.
use vstd::prelude::*;
use crate::backend::{Backend, BackendStatus};
use crate::backends::ClusterBackends;
use crate::command::{AddBackend, Cluster, HttpFrontend, RequestType};
use crate::config::ProxyState;
use crate::listener::HttpListener;
use crate::router::{DomainRule, MethodRule, PathRule, Route, Rule, RulePosition};

verus! {

fn duplicate_string_option(s: &Option<String>) -> (r: Option<String>)
    ensures
        r == *s,
{
    match s {
        Some(x) => Some(x.clone()),
        None => None,
    }
}

impl Cluster {
    pub fn duplicate(&self) -> (r: Cluster)
        ensures
            r == *self,
    {
        Cluster {
            cluster_id: self.cluster_id.clone(),
            sticky_session: self.sticky_session,
            https_redirect: self.https_redirect,
            load_balancing: self.load_balancing,
            answer_503: duplicate_string_option(&self.answer_503),
        }
    }
}

/// The host name a frontend gives to stand for a host condition: empty for
/// any host, the name itself, or `*` before a wildcard's suffix.
pub open spec fn host_text(d: DomainRule) -> Seq<char> {
    match d {
        DomainRule::Any => Seq::empty(),
        DomainRule::Exact(h) => h@,
        DomainRule::Wildcard(s) => seq!['*'] + s@,
    }
}

/// Frontend `f` asks, at `address` and `position`, for the rule `x`.
pub open spec fn frontend_describes(f: HttpFrontend, x: Rule, address: String, position: RulePosition) -> bool {
    &&& f.address == address
    &&& f.position == position
    &&& f.hostname@ == host_text(x.domain)
    &&& f.path == x.path
    &&& match (x.method, f.method) {
        (MethodRule::Any, None) => true,
        (MethodRule::Is(m), Some(n)) => m == n,
        _ => false,
    }
    &&& match (x.route, f.cluster_id) {
        (Route::ClusterId(a), Some(b)) => a == b,
        (Route::Deny, None) => true,
        _ => false,
    }
}

/// Request `q` adds, at `address` and `position`, the rule `x`.
pub open spec fn adds_rule(q: RequestType, x: Rule, address: String, position: RulePosition) -> bool {
    q matches RequestType::AddHttpFrontend(f) && frontend_describes(f, x, address, position)
}

/// Request `q` adds backend `b` to cluster `cid`, with its configuration.
pub open spec fn adds_backend(q: RequestType, cid: String, b: Backend) -> bool {
    q matches RequestType::AddBackend(a) && {
        &&& a.cluster_id == cid
        &&& a.backend_id == b.backend_id
        &&& a.address == b.address
        &&& a.sticky_id == b.sticky_id
        &&& a.load_balancing_parameters == b.load_balancing_parameters
        &&& a.backup == Some(b.backup)
    }
}

pub open spec fn is_normal(b: Backend) -> bool {
    b.status is Normal
}

pub open spec fn is_active(l: HttpListener) -> bool {
    l.active
}

/// The frontend requests of one listener: its `Pre`, then `Tree`, then
/// `Post` rules, each in order.
pub open spec fn frontend_section(qs: Seq<RequestType>, l: HttpListener) -> bool {
    let (a, b, c) = (l.router.pre@, l.router.tree@, l.router.post@);
    &&& qs.len() == a.len() + b.len() + c.len()
    &&& forall|k: int| 0 <= k < a.len() ==> adds_rule(#[trigger] qs[k], a[k], l.address, RulePosition::Pre)
    &&& forall|k: int|
        0 <= k < b.len() ==> adds_rule(#[trigger] qs[a.len() + k], b[k], l.address, RulePosition::Tree)
    &&& forall|k: int|
        0 <= k < c.len() ==> adds_rule(
            #[trigger] qs[a.len() + b.len() + k],
            c[k],
            l.address,
            RulePosition::Post,
        )
}

/// The backend requests of one cluster: one per `Normal` backend, in order.
pub open spec fn backend_section(qs: Seq<RequestType>, e: ClusterBackends) -> bool {
    let normal = e.list.backends@.filter(|b: Backend| is_normal(b));
    &&& qs.len() == normal.len()
    &&& forall|k: int| 0 <= k < normal.len() ==> adds_backend(#[trigger] qs[k], e.cluster_id, normal[k])
}

pub open spec fn flatten(s: Seq<Seq<RequestType>>) -> Seq<RequestType>
    decreases s.len(),
{
    if s.len() == 0 {
        Seq::empty()
    } else {
        flatten(s.drop_last()) + s.last()
    }
}

/// The requests that rebuild a worker's configuration on a fresh worker,
/// section by section.
pub struct Activation {
    /// one `AddHttpListener` per listener
    pub listeners: Vec<RequestType>,
    /// one `AddCluster` per cluster
    pub clusters: Vec<RequestType>,
    /// per listener, its frontend requests
    pub frontends: Vec<Vec<RequestType>>,
    /// per cluster of the registry, its backend requests
    pub backends: Vec<Vec<RequestType>>,
    /// one `ActivateListener` per active listener
    pub activations: Vec<RequestType>,
}

/// `a` rebuilds `s`: listeners with their settings, clusters, every rule of
/// every listener, every `Normal` backend, then the activation of the
/// listeners that accept.
pub open spec fn rebuilds(a: Activation, s: ProxyState) -> bool {
    let ls = s.listeners@;
    let active = ls.filter(|l: HttpListener| is_active(l));
    &&& a.listeners@.len() == ls.len()
    &&& forall|i: int|
        0 <= i < ls.len() ==> #[trigger] a.listeners@[i] == RequestType::AddHttpListener(
            ls[i].address,
            ls[i].sticky_name,
            ls[i].connect_timeout,
        )
    &&& a.clusters@.len() == s.clusters@.len()
    &&& forall|i: int| 0 <= i < s.clusters@.len() ==> #[trigger] a.clusters@[i] == RequestType::AddCluster(s.clusters@[i])
    &&& a.frontends@.len() == ls.len()
    &&& forall|i: int| 0 <= i < ls.len() ==> frontend_section(#[trigger] a.frontends@[i]@, ls[i])
    &&& a.backends@.len() == s.backends.clusters@.len()
    &&& forall|i: int|
        0 <= i < s.backends.clusters@.len() ==> backend_section(#[trigger] a.backends@[i]@, s.backends.clusters@[i])
    &&& a.activations@.len() == active.len()
    &&& forall|i: int| 0 <= i < active.len() ==> #[trigger] a.activations@[i] == RequestType::ActivateListener(active[i].address)
}

fn duplicate_path(p: &PathRule) -> (r: PathRule)
    ensures
        r == *p,
{
    match p {
        PathRule::Prefix(x) => PathRule::Prefix(x.clone()),
        PathRule::Regex(x) => PathRule::Regex(x.clone()),
        PathRule::Equals(x) => PathRule::Equals(x.clone()),
    }
}

/// The frontend that asks for rule `x` at `address` and `position`.
pub fn frontend_of(x: &Rule, address: &String, position: RulePosition) -> (f: HttpFrontend)
    ensures
        frontend_describes(f, *x, *address, position),
{
    let hostname = match &x.domain {
        DomainRule::Any => String::new(),
        DomainRule::Exact(h) => h.clone(),
        DomainRule::Wildcard(s) => {
            let mut h = String::from_str("*");
            proof {
                reveal_strlit("*");
            }
            h.append(s.as_str());
            assert(h@ =~= seq!['*'] + s@);
            h
        },
    };
    let method = match &x.method {
        MethodRule::Any => None,
        MethodRule::Is(m) => Some(m.duplicate()),
    };
    let cluster_id = match &x.route {
        Route::ClusterId(id) => Some(id.clone()),
        Route::Deny => None,
    };
    HttpFrontend { cluster_id, address: address.clone(), hostname, path: duplicate_path(&x.path), method, position }
}

fn push_frontends(out: &mut Vec<RequestType>, rules: &Vec<Rule>, address: &String, position: RulePosition)
    ensures
        final(out)@.len() == old(out)@.len() + rules@.len(),
        forall|k: int| 0 <= k < old(out)@.len() ==> #[trigger] final(out)@[k] == old(out)@[k],
        forall|k: int|
            0 <= k < rules@.len() ==> adds_rule(#[trigger] final(out)@[old(out)@.len() + k], rules@[k], *address, position),
{
    let mut i: usize = 0;
    while i < rules.len()
        invariant
            i <= rules@.len(),
            out@.len() == old(out)@.len() + i,
            forall|k: int| 0 <= k < old(out)@.len() ==> #[trigger] out@[k] == old(out)@[k],
            forall|k: int| 0 <= k < i ==> adds_rule(#[trigger] out@[old(out)@.len() + k], rules@[k], *address, position),
        decreases rules.len() - i,
    {
        let f = frontend_of(&rules[i], address, position);
        out.push(RequestType::AddHttpFrontend(f));
        i = i + 1;
    }
}

fn listener_frontends(l: &HttpListener) -> (r: Vec<RequestType>)
    ensures
        frontend_section(r@, *l),
{
    let mut out: Vec<RequestType> = Vec::new();
    push_frontends(&mut out, &l.router.pre, &l.address, RulePosition::Pre);
    let ghost a = out@;
    push_frontends(&mut out, &l.router.tree, &l.address, RulePosition::Tree);
    let ghost b = out@;
    push_frontends(&mut out, &l.router.post, &l.address, RulePosition::Post);
    proof {
        let n = l.router.pre@.len();
        assert forall|k: int| 0 <= k < n implies adds_rule(#[trigger] out@[k], l.router.pre@[k], l.address, RulePosition::Pre) by {
            assert(out@[k] == b[k]);
            assert(b[k] == a[k]);
            assert(a[0 + k] == a[k]);
        }
        assert forall|k: int| 0 <= k < l.router.tree@.len() implies adds_rule(
            #[trigger] out@[n + k],
            l.router.tree@[k],
            l.address,
            RulePosition::Tree,
        ) by {
            assert(out@[n + k] == b[n + k]);
        }
    }
    out
}

fn cluster_backends(e: &ClusterBackends) -> (r: Vec<RequestType>)
    ensures
        backend_section(r@, *e),
{
    let bs = &e.list.backends;
    let mut out: Vec<RequestType> = Vec::new();
    let mut i: usize = 0;
    while i < bs.len()
        invariant
            i <= bs@.len(),
            out@.len() == bs@.subrange(0, i as int).filter(|b: Backend| is_normal(b)).len(),
            forall|k: int|
                0 <= k < out@.len() ==> adds_backend(
                    #[trigger] out@[k],
                    e.cluster_id,
                    bs@.subrange(0, i as int).filter(|b: Backend| is_normal(b))[k],
                ),
        decreases bs.len() - i,
    {
        proof {
            assert(bs@.subrange(0, i + 1) =~= bs@.subrange(0, i as int).push(bs@[i as int]));
            bs@.subrange(0, i as int).lemma_filter_push(bs@[i as int], |b: Backend| is_normal(b));
        }
        if bs[i].status == BackendStatus::Normal {
            let b = &bs[i];
            let q = RequestType::AddBackend(
                AddBackend {
                    cluster_id: e.cluster_id.clone(),
                    backend_id: b.backend_id.clone(),
                    address: b.address.clone(),
                    sticky_id: duplicate_string_option(&b.sticky_id),
                    load_balancing_parameters: b.load_balancing_parameters,
                    backup: Some(b.backup),
                },
            );
            out.push(q);
        }
        i = i + 1;
    }
    assert(bs@.subrange(0, bs@.len() as int) =~= bs@);
    out
}

impl ProxyState {
    /// The requests that rebuild this worker's configuration on a successor.
    pub fn activation(&self) -> (r: Activation)
        ensures
            rebuilds(r, *self),
    {
        let ls = &self.listeners;
        let mut listeners: Vec<RequestType> = Vec::new();
        let mut frontends: Vec<Vec<RequestType>> = Vec::new();
        let mut activations: Vec<RequestType> = Vec::new();
        let mut i: usize = 0;
        while i < ls.len()
            invariant
                i <= ls@.len(),
                listeners@.len() == i,
                frontends@.len() == i,
                forall|k: int|
                    0 <= k < i ==> #[trigger] listeners@[k] == RequestType::AddHttpListener(
                        ls@[k].address,
                        ls@[k].sticky_name,
                        ls@[k].connect_timeout,
                    ),
                forall|k: int| 0 <= k < i ==> frontend_section(#[trigger] frontends@[k]@, ls@[k]),
                activations@.len() == ls@.subrange(0, i as int).filter(|l: HttpListener| is_active(l)).len(),
                forall|k: int|
                    0 <= k < activations@.len() ==> #[trigger] activations@[k] == RequestType::ActivateListener(
                        ls@.subrange(0, i as int).filter(|l: HttpListener| is_active(l))[k].address,
                    ),
            decreases ls.len() - i,
        {
            let l = &ls[i];
            listeners.push(
                RequestType::AddHttpListener(l.address.clone(), l.sticky_name.clone(), l.connect_timeout),
            );
            frontends.push(listener_frontends(l));
            proof {
                assert(ls@.subrange(0, i + 1) =~= ls@.subrange(0, i as int).push(ls@[i as int]));
                ls@.subrange(0, i as int).lemma_filter_push(ls@[i as int], |l: HttpListener| is_active(l));
            }
            if l.active {
                activations.push(RequestType::ActivateListener(l.address.clone()));
            }
            i = i + 1;
        }
        assert(ls@.subrange(0, ls@.len() as int) =~= ls@);
        let mut clusters: Vec<RequestType> = Vec::new();
        let mut j: usize = 0;
        while j < self.clusters.len()
            invariant
                j <= self.clusters@.len(),
                clusters@.len() == j,
                forall|k: int| 0 <= k < j ==> #[trigger] clusters@[k] == RequestType::AddCluster(self.clusters@[k]),
            decreases self.clusters.len() - j,
        {
            clusters.push(RequestType::AddCluster(self.clusters[j].duplicate()));
            j = j + 1;
        }
        let es = &self.backends.clusters;
        let mut backends: Vec<Vec<RequestType>> = Vec::new();
        let mut m: usize = 0;
        while m < es.len()
            invariant
                m <= es@.len(),
                backends@.len() == m,
                forall|k: int| 0 <= k < m ==> backend_section(#[trigger] backends@[k]@, es@[k]),
            decreases es.len() - m,
        {
            backends.push(cluster_backends(&es[m]));
            m = m + 1;
        }
        Activation { listeners, clusters, frontends, backends, activations }
    }
}

/// All the requests of `a`, in the order they are to be replayed: listeners,
/// clusters, frontends, backends, then activations.
pub open spec fn requests_of(a: Activation) -> Seq<RequestType> {
    a.listeners@ + a.clusters@ + flatten(a.frontends@.map_values(|v: Vec<RequestType>| v@)) + flatten(
        a.backends@.map_values(|v: Vec<RequestType>| v@),
    ) + a.activations@
}

impl ProxyState {
    /// The requests to replay on a successor, in order; see `rebuilds`.
    pub fn activation_requests(&self) -> (r: Vec<RequestType>)
        ensures
            exists|a: Activation| rebuilds(a, *self) && r@ == requests_of(a),
    {
        let a = self.activation();
        let ghost g = a;
        let r = a.into_requests();
        assert(rebuilds(g, *self) && r@ == requests_of(g));
        r
    }
}

impl Activation {
    /// All the requests, in replay order.
    pub fn into_requests(self) -> (r: Vec<RequestType>)
        ensures
            r@ == requests_of(self),
    {
        let Activation { listeners, clusters, frontends, backends, activations } = self;
        let ghost fv = frontends@.map_values(|v: Vec<RequestType>| v@);
        let ghost bv = backends@.map_values(|v: Vec<RequestType>| v@);
        let mut out = listeners;
        let mut clusters = clusters;
        out.append(&mut clusters);
        append_all(&mut out, frontends);
        append_all(&mut out, backends);
        let mut activations = activations;
        out.append(&mut activations);
        out
    }
}

fn append_all(out: &mut Vec<RequestType>, parts: Vec<Vec<RequestType>>)
    ensures
        final(out)@ == old(out)@ + flatten(parts@.map_values(|v: Vec<RequestType>| v@)),
{
    let mut parts = parts;
    let ghost all = parts@.map_values(|v: Vec<RequestType>| v@);
    let mut rev: Vec<Vec<RequestType>> = Vec::new();
    let mut i: usize = 0;
    let n = parts.len();
    while i < n
        invariant
            i <= n,
            n == all.len(),
            out@ == old(out)@ + flatten(all.subrange(0, i as int)),
            parts@.len() == n - i,
            forall|k: int| 0 <= k < n - i ==> (#[trigger] parts@[k])@ == all[i + k],
        decreases n - i,
    {
        let mut p = parts.remove(0);
        proof {
            assert(all.subrange(0, i + 1).drop_last() =~= all.subrange(0, i as int));
            assert(all.subrange(0, i + 1).last() == p@);
        }
        out.append(&mut p);
        assert(out@ =~= old(out)@ + flatten(all.subrange(0, i + 1)));
        i = i + 1;
    }
    assert(all.subrange(0, n as int) =~= all);
}

/// Where a hand-over of the listening sockets stands.
#[derive(Debug, Clone, Copy, PartialEq, Eq, Structural)]
pub enum HandoffStep {
    Idle,
    /// `ReturnListenSockets` sent to the predecessor
    AwaitingSockets,
    /// sockets received; the successor is being started
    StartingSuccessor,
    /// the successor runs; the sockets are being passed to it
    HandingOver,
    /// the successor holds the sockets; its configuration is being replayed
    Replaying,
    /// replay sent; waiting for the answer to its last request
    AwaitingReplay,
    /// the successor accepts; the predecessor drains under a soft stop
    Draining,
    Done,
    Failed,
}

#[derive(Debug, Clone, Copy, PartialEq, Eq, Structural)]
pub enum HandoffEvent {
    Start,
    /// the predecessor answered `ReturnListenSockets` and sent its sockets
    SocketsReturned,
    /// the predecessor refused, or the sockets could not be received
    SocketsRefused,
    SuccessorStarted,
    SocketsSent,
    ReplaySent,
    /// the successor answered the last replayed request
    LastAnswer,
    PredecessorStopped,
}

#[derive(Debug, Clone, Copy, PartialEq, Eq, Structural)]
pub enum HandoffAction {
    SendReturnListenSockets,
    StartSuccessor,
    SendSockets,
    ReplayActivation,
    ReadReplayAnswers,
    SoftStopPredecessor,
    Finish,
    Abort,
    /// the event does not belong to this step: nothing to do
    Ignore,
}

/// The order of a hand-over: ask for the sockets, wait for them, start the
/// successor, hand the sockets over, replay the configuration, wait for the
/// last answer, then soft-stop the predecessor.
pub open spec fn handoff_spec(step: HandoffStep, event: HandoffEvent) -> (HandoffStep, HandoffAction) {
    match (step, event) {
        (HandoffStep::Idle, HandoffEvent::Start) => (HandoffStep::AwaitingSockets, HandoffAction::SendReturnListenSockets),
        (HandoffStep::AwaitingSockets, HandoffEvent::SocketsReturned) => (
            HandoffStep::StartingSuccessor,
            HandoffAction::StartSuccessor,
        ),
        (HandoffStep::AwaitingSockets, HandoffEvent::SocketsRefused) => (HandoffStep::Failed, HandoffAction::Abort),
        (HandoffStep::StartingSuccessor, HandoffEvent::SuccessorStarted) => (
            HandoffStep::HandingOver,
            HandoffAction::SendSockets,
        ),
        (HandoffStep::HandingOver, HandoffEvent::SocketsSent) => (HandoffStep::Replaying, HandoffAction::ReplayActivation),
        (HandoffStep::Replaying, HandoffEvent::ReplaySent) => (
            HandoffStep::AwaitingReplay,
            HandoffAction::ReadReplayAnswers,
        ),
        (HandoffStep::AwaitingReplay, HandoffEvent::LastAnswer) => (
            HandoffStep::Draining,
            HandoffAction::SoftStopPredecessor,
        ),
        (HandoffStep::Draining, HandoffEvent::PredecessorStopped) => (HandoffStep::Done, HandoffAction::Finish),
        _ => (step, HandoffAction::Ignore),
    }
}

pub fn handoff_next(step: HandoffStep, event: HandoffEvent) -> (r: (HandoffStep, HandoffAction))
    ensures
        r == handoff_spec(step, event),
{
    match (step, event) {
        (HandoffStep::Idle, HandoffEvent::Start) => (HandoffStep::AwaitingSockets, HandoffAction::SendReturnListenSockets),
        (HandoffStep::AwaitingSockets, HandoffEvent::SocketsReturned) => (
            HandoffStep::StartingSuccessor,
            HandoffAction::StartSuccessor,
        ),
        (HandoffStep::AwaitingSockets, HandoffEvent::SocketsRefused) => (HandoffStep::Failed, HandoffAction::Abort),
        (HandoffStep::StartingSuccessor, HandoffEvent::SuccessorStarted) => (
            HandoffStep::HandingOver,
            HandoffAction::SendSockets,
        ),
        (HandoffStep::HandingOver, HandoffEvent::SocketsSent) => (HandoffStep::Replaying, HandoffAction::ReplayActivation),
        (HandoffStep::Replaying, HandoffEvent::ReplaySent) => (
            HandoffStep::AwaitingReplay,
            HandoffAction::ReadReplayAnswers,
        ),
        (HandoffStep::AwaitingReplay, HandoffEvent::LastAnswer) => (
            HandoffStep::Draining,
            HandoffAction::SoftStopPredecessor,
        ),
        (HandoffStep::Draining, HandoffEvent::PredecessorStopped) => (HandoffStep::Done, HandoffAction::Finish),
        _ => (step, HandoffAction::Ignore),
    }
}

/// Which process holds the listening sockets at a step: the predecessor
/// until it has handed them over, the successor from then on.
pub open spec fn held_by_successor(step: HandoffStep) -> bool {
    match step {
        HandoffStep::Replaying | HandoffStep::AwaitingReplay | HandoffStep::Draining | HandoffStep::Done => true,
        _ => false,
    }
}

/// The sockets are never closed during a hand-over: at every step exactly
/// one process holds them, they move from the predecessor to the successor
/// only when they are sent, never back, and the predecessor is soft-stopped
/// only once the successor holds them and answered the replay.
pub proof fn lemma_sockets_never_dropped(step: HandoffStep, event: HandoffEvent)
    ensures
        held_by_successor(step) ==> held_by_successor(handoff_spec(step, event).0),
        !held_by_successor(step) && held_by_successor(handoff_spec(step, event).0) ==> step is HandingOver
            && event is SocketsSent,
        handoff_spec(step, event).1 is SoftStopPredecessor ==> step is AwaitingReplay && held_by_successor(
            handoff_spec(step, event).0,
        ),
{
}

} // verus!
