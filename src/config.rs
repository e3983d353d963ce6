//! The configuration plane of a worker: requests from the administration
//! channel applied between two iterations of the event loop, each answered
//! once with the request's id and a terminal status.
use vstd::prelude::*;
use crate::backend::{Backend, Event, EventKind};
use crate::backends::{BackendMap, SelectError, has_cluster};
use crate::command::{Cluster, HttpFrontend, RequestType, ResponseStatus, WorkerRequest, WorkerResponse};
use crate::listener::HttpListener;
use crate::load_balancing::{Removal, removal_event, same_backend, any_selectable, sticky_hit, sticky_view, strategy_pick};
use crate::router::{DomainRule, MethodRule, PathRule, Route, Rule, RulePosition, routes_to, same_conditions, same_method, removed_first};
use crate::dump::dump_text;
use crate::session::SessionManager;
use crate::text::{is_prefix_of, starts_with, str_eq};

verus! {

/// Everything a worker routes with, and its sessions.
pub struct ProxyState {
    pub clusters: Vec<Cluster>,
    pub backends: BackendMap,
    pub listeners: Vec<HttpListener>,
    /// events waiting to be sent to the configuration plane
    pub events: Vec<Event>,
    pub sessions: SessionManager,
}

/// `r` is the rule that frontend `f` describes: its host condition (`*.`
/// names a wildcard, an empty name any host), path, method and route.
pub open spec fn rule_of(r: Rule, f: HttpFrontend) -> bool {
    &&& match r.domain {
        DomainRule::Any => f.hostname@.len() == 0,
        DomainRule::Wildcard(s) => is_prefix_of(seq!['*', '.'], f.hostname@) && s@ == f.hostname@.subrange(
            1,
            f.hostname@.len() as int,
        ),
        DomainRule::Exact(h) => f.hostname@.len() > 0 && !is_prefix_of(seq!['*', '.'], f.hostname@) && h@
            == f.hostname@,
    }
    &&& r.path == f.path
    &&& match (r.method, f.method) {
        (MethodRule::Any, None) => true,
        (MethodRule::Is(m), Some(n)) => m == n,
        _ => false,
    }
    &&& match (r.route, f.cluster_id) {
        (Route::ClusterId(a), Some(b)) => a@ == b@,
        (Route::Deny, None) => true,
        _ => false,
    }
}

/// Rule `x` has the host, path and method conditions that frontend `f` describes.
pub open spec fn matches_frontend(x: Rule, f: HttpFrontend) -> bool {
    &&& match x.domain {
        DomainRule::Any => f.hostname@.len() == 0,
        DomainRule::Wildcard(s) => is_prefix_of(seq!['*', '.'], f.hostname@) && s@ == f.hostname@.subrange(
            1,
            f.hostname@.len() as int,
        ),
        DomainRule::Exact(h) => f.hostname@.len() > 0 && !is_prefix_of(seq!['*', '.'], f.hostname@) && h@
            == f.hostname@,
    }
    &&& match (x.path, f.path) {
        (PathRule::Prefix(a), PathRule::Prefix(b)) => a@ == b@,
        (PathRule::Regex(a), PathRule::Regex(b)) => a@ == b@,
        (PathRule::Equals(a), PathRule::Equals(b)) => a@ == b@,
        _ => false,
    }
    &&& match (x.method, f.method) {
        (MethodRule::Any, None) => true,
        (MethodRule::Is(m), Some(n)) => same_method(m, n),
        _ => false,
    }
}

proof fn lemma_rule_of_conditions(x: Rule, r: Rule, f: HttpFrontend)
    requires
        rule_of(r, f),
    ensures
        same_conditions(x, r) == matches_frontend(x, f),
{
}

/// The rule that frontend `f` describes.
pub fn frontend_rule(f: &HttpFrontend) -> (r: Rule)
    ensures
        rule_of(r, *f),
{
    let star = "*.";
    proof {
        reveal_strlit("*.");
        assert(star@ =~= seq!['*', '.']);
    }
    let n = f.hostname.as_str().unicode_len();
    let domain = if n == 0 {
        DomainRule::Any
    } else if starts_with(f.hostname.as_str(), star) {
        DomainRule::Wildcard(String::from_str(f.hostname.as_str().substring_char(1, n)))
    } else {
        DomainRule::Exact(f.hostname.clone())
    };
    let path = match &f.path {
        crate::router::PathRule::Prefix(x) => crate::router::PathRule::Prefix(x.clone()),
        crate::router::PathRule::Regex(x) => crate::router::PathRule::Regex(x.clone()),
        crate::router::PathRule::Equals(x) => crate::router::PathRule::Equals(x.clone()),
    };
    let method = match &f.method {
        None => MethodRule::Any,
        Some(m) => MethodRule::Is(m.duplicate()),
    };
    let route = match &f.cluster_id {
        Some(id) => Route::ClusterId(id.clone()),
        None => Route::Deny,
    };
    Rule { domain, path, method, route }
}

pub open spec fn has_listener(ls: Seq<HttpListener>, address: Seq<char>) -> bool {
    exists|i: int| 0 <= i < ls.len() && (#[trigger] ls[i]).address@ == address
}

/// Position of the listener at `address`.
pub fn find_listener(ls: &Vec<HttpListener>, address: &str) -> (r: Option<usize>)
    ensures
        r is None <==> !has_listener(ls@, address@),
        r matches Some(i) ==> i < ls@.len() && ls@[i as int].address@ == address@ && forall|j: int|
            0 <= j < i ==> (#[trigger] ls@[j]).address@ != address@,
{
    let mut i: usize = 0;
    while i < ls.len()
        invariant
            i <= ls@.len(),
            forall|j: int| 0 <= j < i ==> (#[trigger] ls@[j]).address@ != address@,
        decreases ls.len() - i,
    {
        if str_eq(ls[i].address.as_str(), address) {
            return Some(i);
        }
        i = i + 1;
    }
    None
}

pub open spec fn has_cluster_config(cs: Seq<Cluster>, id: Seq<char>) -> bool {
    exists|i: int| 0 <= i < cs.len() && (#[trigger] cs[i]).cluster_id@ == id
}

/// Whether a request of this kind can fail: the others are always answered
/// with success.
pub open spec fn fails(s: ProxyState, content: RequestType) -> bool {
    match content {
        RequestType::AddHttpListener(a, _, _) => has_listener(s.listeners@, a@),
        RequestType::AddHttpFrontend(f) => !has_listener(s.listeners@, f.address@),
        RequestType::RemoveHttpFrontend(f) => !has_listener(s.listeners@, f.address@) || forall|i: int, k: int|
            0 <= i < s.listeners@.len() && s.listeners@[i].address@ == f.address@ && 0 <= k < s.listeners@[
                i
            ].router.rules_at(f.position).len() ==> !matches_frontend(
                #[trigger] s.listeners@[i].router.rules_at(f.position)[k],
                f,
            ),
        RequestType::RemoveBackend(b) => forall|k: int|
            0 <= k < s.backends.backends_of(b.cluster_id@).len() ==> !(
            #[trigger] s.backends.backends_of(b.cluster_id@)[k].status is Normal
                && s.backends.backends_of(b.cluster_id@)[k].backend_id@ == b.backend_id@),
        RequestType::ActivateListener(a) => !has_listener(s.listeners@, a@),
        RequestType::DeactivateListener(a) => !has_listener(s.listeners@, a@),
        RequestType::SaveState(_) => true,
        RequestType::LoadState(_) => true,
        _ => false,
    }
}

fn answer(id: &String, ok: bool, message: &str) -> (r: WorkerResponse)
    ensures
        r.id@ == id@,
        r.status == if ok {
            ResponseStatus::Success
        } else {
            ResponseStatus::Error
        },
        r.message@ == message@,
{
    WorkerResponse {
        id: id.clone(),
        status: if ok {
            ResponseStatus::Success
        } else {
            ResponseStatus::Error
        },
        message: String::from_str(message),
    }
}

impl ProxyState {
    pub open spec fn wf(self) -> bool {
        &&& self.backends.wf()
        &&& self.sessions.wf()
        &&& forall|i: int, j: int|
            0 <= i < j < self.listeners@.len() ==> (#[trigger] self.listeners@[i]).address@
                != (#[trigger] self.listeners@[j]).address@
    }

    pub fn new(max_connections: usize, max_buffers: usize, buffer_size: usize) -> (r: ProxyState)
        ensures
            r.wf(),
            r.clusters@.len() == 0,
            r.listeners@.len() == 0,
            r.events@.len() == 0,
            r.sessions.sessions@.len() == 0,
            r.sessions.can_accept,
    {
        ProxyState {
            clusters: Vec::new(),
            backends: BackendMap::new(),
            listeners: Vec::new(),
            events: Vec::new(),
            sessions: SessionManager::new(max_connections, max_buffers, buffer_size),
        }
    }

    /// Applies a configuration request at `now` and answers it once, with its
    /// id and a terminal status: `Error` exactly on the inputs `fails` names.
    pub fn notify(&mut self, request: WorkerRequest, now: u64) -> (r: WorkerResponse)
        requires
            old(self).wf(),
        ensures
            final(self).wf(),
            r.id@ == request.id@,
            r.status is Success || r.status is Error,
            r.status is Error <==> fails(*old(self), request.content),
            request.content matches RequestType::AddCluster(c) ==> has_cluster_config(
                final(self).clusters@,
                c.cluster_id@,
            ),
            request.content matches RequestType::RemoveCluster(id) ==> !has_cluster_config(
                final(self).clusters@,
                id@,
            ) && forall|i: int, p: RulePosition, k: int|
                0 <= i < final(self).listeners@.len() && 0 <= k < final(self).listeners@[i].router.rules_at(p).len()
                    ==> !routes_to(#[trigger] final(self).listeners@[i].router.rules_at(p)[k], id@),
            request.content matches RequestType::AddHttpListener(a, _, _) ==> has_listener(final(self).listeners@, a@),
            request.content matches RequestType::AddBackend(b) ==> has_cluster(
                final(self).backends.clusters@,
                b.cluster_id@,
            ),
            match request.content {
                RequestType::AddHttpFrontend(f) => forall|i: int|
                    0 <= i < old(self).listeners@.len() && #[trigger] old(self).listeners@[i].address@ == f.address@ ==> {
                        let after = final(self).listeners@[i].router.rules_at(f.position);
                        &&& after.len() > 0
                        &&& rule_of(after.last(), f)
                        &&& after.drop_last() == old(self).listeners@[i].router.rules_at(f.position)
                    },
                RequestType::AddBackend(b) => {
                    let before = old(self).backends.backends_of(b.cluster_id@);
                    let after = final(self).backends.backends_of(b.cluster_id@);
                    ||| {
                        &&& after.len() == before.len() + 1
                        &&& after.drop_last() == before
                        &&& after.last().backend_id@ == b.backend_id@
                        &&& after.last().address@ == b.address@
                        &&& after.last().sticky_id == b.sticky_id
                        &&& after.last().status is Normal
                        &&& after.last().active_connections == 0
                        &&& after.last().failures == 0
                    }
                    ||| exists|k: int|
                        0 <= k < before.len() && (#[trigger] before[k]).status is Normal && before[k].backend_id@
                            == b.backend_id@ && before[k].address@ == b.address@ && after == before.update(
                            k,
                            Backend {
                                sticky_id: b.sticky_id,
                                load_balancing_parameters: b.load_balancing_parameters,
                                backup: match b.backup {
                                    Some(x) => x,
                                    None => false,
                                },
                                ..before[k]
                            },
                        )
                },
                RequestType::RemoveBackend(b) => {
                    let before = old(self).backends.backends_of(b.cluster_id@);
                    let after = final(self).backends.backends_of(b.cluster_id@);
                    &&& fails(*old(self), request.content) ==> after == before && final(self).events == old(self).events
                    &&& !fails(*old(self), request.content) ==> exists|k: int|
                        0 <= k < before.len() && {
                            let x = #[trigger] before[k];
                            &&& x.status is Normal && x.backend_id@ == b.backend_id@
                            &&& after == before.update(
                                k,
                                if x.active_connections == 0 {
                                    x.closing().released()
                                } else {
                                    x.closing()
                                },
                            )
                            &&& x.active_connections == 0 ==> final(self).events@.drop_last() == old(self).events@
                                && removal_event(final(self).events@.last(), x)
                            &&& x.active_connections > 0 ==> final(self).events == old(self).events
                        }
                },
                RequestType::RemoveHttpFrontend(f) => forall|i: int|
                    0 <= i < old(self).listeners@.len() && #[trigger] old(self).listeners@[i].address@ == f.address@
                        ==> exists|x: Rule|
                        #[trigger] rule_of(x, f) && removed_first(
                            old(self).listeners@[i].router.rules_at(f.position),
                            final(self).listeners@[i].router.rules_at(f.position),
                            x,
                            !fails(*old(self), request.content),
                        ),
                RequestType::DumpState => r.message@ == dump_text(*old(self)),
                RequestType::ActivateListener(a) => forall|i: int|
                    0 <= i < final(self).listeners@.len() && #[trigger] final(self).listeners@[i].address@ == a@
                        ==> final(self).listeners@[i].active,
                RequestType::DeactivateListener(a) => forall|i: int|
                    0 <= i < final(self).listeners@.len() && #[trigger] final(self).listeners@[i].address@ == a@
                        ==> !final(self).listeners@[i].active,
                _ => true,
            },
            request.content is SoftStop ==> !final(self).sessions.can_accept,
            request.content is HardStop ==> !final(self).sessions.can_accept
                && final(self).sessions.sessions@.len() == 0,
            request.content is ReturnListenSockets ==> forall|i: int|
                0 <= i < final(self).listeners@.len() ==> !(#[trigger] final(self).listeners@[i]).active,
    {
        let WorkerRequest { id, content } = request;
        match content {
            RequestType::AddCluster(c) => {
                self.add_cluster(c);
                answer(&id, true, "")
            },
            RequestType::RemoveCluster(cluster_id) => {
                self.remove_cluster(cluster_id.as_str());
                answer(&id, true, "")
            },
            RequestType::AddHttpListener(address, sticky_name, connect_timeout) => {
                if find_listener(&self.listeners, address.as_str()).is_some() {
                    return answer(&id, false, "a listener already exists at this address");
                }
                let ghost a = address@;
                self.listeners.push(HttpListener::new(address, sticky_name, connect_timeout));
                assert(self.listeners@[self.listeners@.len() - 1].address@ == a);
                answer(&id, true, "")
            },
            RequestType::AddHttpFrontend(f) => {
                match find_listener(&self.listeners, f.address.as_str()) {
                    None => answer(&id, false, "no listener at this address"),
                    Some(i) => {
                        let rule = frontend_rule(&f);
                        let ghost x = rule;
                        self.listeners[i].router.add_rule(f.position, rule);
                        assert(self.listeners@[i as int].router.rules_at(f.position) == old(
                            self,
                        ).listeners@[i as int].router.rules_at(f.position).push(x));
                        proof {
                            assert(self.listeners@[i as int].router.rules_at(f.position).drop_last() =~= old(
                                self,
                            ).listeners@[i as int].router.rules_at(f.position));
                            assert forall|j: int|
                                0 <= j < old(self).listeners@.len() && #[trigger] old(self).listeners@[j].address@
                                    == f.address@ implies j == i by {
                                if j < i {
                                    assert(old(self).listeners@[j].address@ != old(self).listeners@[i as int].address@);
                                } else if j > i {
                                    assert(old(self).listeners@[i as int].address@ != old(self).listeners@[j].address@);
                                }
                            }
                        }
                        answer(&id, true, "")
                    },
                }
            },
            RequestType::RemoveHttpFrontend(f) => {
                match find_listener(&self.listeners, f.address.as_str()) {
                    None => answer(&id, false, "no listener at this address"),
                    Some(i) => {
                        let rule = frontend_rule(&f);
                        let ghost rules = self.listeners@[i as int].router.rules_at(f.position);
                        let removed = self.listeners[i].router.remove_rule(f.position, &rule);
                        proof {
                            self.lemma_frontend_lookup(*old(self), f, i as int, rule, removed, rules);
                            assert(rule_of(rule, f));
                            assert forall|j: int|
                                0 <= j < old(self).listeners@.len() && #[trigger] old(self).listeners@[j].address@
                                    == f.address@ implies j == i by {
                                if j < i {
                                    assert(old(self).listeners@[j].address@ != old(self).listeners@[i as int].address@);
                                } else if j > i {
                                    assert(old(self).listeners@[i as int].address@ != old(self).listeners@[j].address@);
                                }
                            }
                        }
                        if removed {
                            answer(&id, true, "")
                        } else {
                            answer(&id, false, "no such frontend")
                        }
                    },
                }
            },
            RequestType::AddBackend(b) => {
                let backend = Backend::new(
                    b.backend_id.as_str(),
                    b.address,
                    b.sticky_id,
                    b.load_balancing_parameters,
                    b.backup,
                    now,
                );
                let ghost nb = backend;
                let updated = self.backends.add_backend(b.cluster_id.as_str(), backend);
                proof {
                    let cid = b.cluster_id@;
                    let before = old(self).backends.backends_of(cid);
                    let after = self.backends.backends_of(cid);
                    if let Some(k) = updated {
                        assert(same_backend(before[k as int], nb));
                        assert(before[k as int].status is Normal);
                    } else {
                        assert(after.drop_last() =~= before);
                    }
                }
                answer(&id, true, "")
            },
            RequestType::RemoveBackend(b) => {
                let ghost before = old(self).backends.backends_of(b.cluster_id@);
                match self.backends.remove_backend(b.cluster_id.as_str(), b.backend_id.as_str()) {
                    Removal::NotFound => answer(&id, false, "no such backend"),
                    Removal::Draining => answer(&id, true, ""),
                    Removal::Removed(e) => {
                        let ghost k = choose|k: int|
                            0 <= k < before.len() && {
                                let x = #[trigger] before[k];
                                &&& x.status is Normal && x.backend_id@ == b.backend_id@
                                &&& self.backends.backends_of(b.cluster_id@) == before.update(
                                    k,
                                    if x.active_connections == 0 {
                                        x.closing().released()
                                    } else {
                                        x.closing()
                                    },
                                )
                                &&& (x.active_connections == 0)
                                &&& removal_event(e, x)
                            };
                        self.events.push(e);
                        assert(self.events@.drop_last() =~= old(self).events@);
                        assert(removal_event(self.events@.last(), before[k]));
                        answer(&id, true, "")
                    },
                }
            },
            RequestType::ActivateListener(address) => {
                match find_listener(&self.listeners, address.as_str()) {
                    None => answer(&id, false, "no listener at this address"),
                    Some(i) => {
                        self.listeners[i].active = true;
                        answer(&id, true, "")
                    },
                }
            },
            RequestType::DeactivateListener(address) => {
                match find_listener(&self.listeners, address.as_str()) {
                    None => answer(&id, false, "no listener at this address"),
                    Some(i) => {
                        self.listeners[i].active = false;
                        answer(&id, true, "")
                    },
                }
            },
            RequestType::Status => answer(&id, true, ""),
            RequestType::SoftStop => {
                self.sessions.soft_stop();
                answer(&id, true, "")
            },
            RequestType::HardStop => {
                self.sessions.hard_stop();
                answer(&id, true, "")
            },
            RequestType::ReturnListenSockets => {
                self.deactivate_all();
                answer(&id, true, "")
            },
            RequestType::DumpState => {
                let text = self.dump_state();
                answer(&id, true, text.as_str())
            },
            RequestType::SaveState(_) => answer(&id, false, "the state is saved by the main process"),
            RequestType::LoadState(_) => answer(&id, false, "the state is loaded by the main process"),
        }
    }

    /// Picks the backend of cluster `cluster_id` for a new connection at
    /// `now`; see `BackendMap::backend_from_cluster_id`. When the cluster has
    /// no backend to offer, a `NoAvailableBackends` event naming it is queued.
    pub fn select_backend(&mut self, cluster_id: &str, sticky_id: Option<&str>, now: u64) -> (r: Result<
        usize,
        SelectError,
    >)
        requires
            old(self).wf(),
        ensures
            final(self).wf(),
            forall|id2: Seq<char>| #[trigger] final(self).backends.backends_of(id2) == old(self).backends.backends_of(id2),
            r == Err::<usize, SelectError>(SelectError::NoCluster) <==> !has_cluster(old(self).backends.clusters@, cluster_id@),
            r == Err::<usize, SelectError>(SelectError::NoBackendAvailable) <==> (has_cluster(
                old(self).backends.clusters@,
                cluster_id@,
            ) && !any_selectable(old(self).backends.backends_of(cluster_id@), now) && !sticky_hit(
                old(self).backends.backends_of(cluster_id@),
                sticky_view(sticky_id),
                now,
            )),
            r matches Ok(k) ==> k < old(self).backends.backends_of(cluster_id@).len()
                && old(self).backends.backends_of(cluster_id@)[k as int].can_open_at(now),
            has_cluster(old(self).backends.clusters@, cluster_id@) ==> strategy_pick(
                old(self).backends.list_of(cluster_id@),
                final(self).backends.list_of(cluster_id@),
                sticky_view(sticky_id),
                now,
                match r {
                    Ok(k) => Some(k),
                    Err(_) => None,
                },
            ),
            r == Err::<usize, SelectError>(SelectError::NoBackendAvailable) ==> {
                &&& final(self).events@.len() == old(self).events@.len() + 1
                &&& final(self).events@.last().kind is NoAvailableBackends
                &&& final(self).events@.last().cluster_id matches Some(c) && c@ == cluster_id@
            },
            r != Err::<usize, SelectError>(SelectError::NoBackendAvailable) ==> final(self).events == old(self).events,
    {
        let r = self.backends.backend_from_cluster_id(cluster_id, sticky_id, now);
        let none_available = match r {
            Err(SelectError::NoBackendAvailable) => true,
            _ => false,
        };
        if none_available {
            self.events.push(
                Event {
                    kind: EventKind::NoAvailableBackends,
                    backend_id: None,
                    address: None,
                    cluster_id: Some(String::from_str(cluster_id)),
                },
            );
        }
        r
    }

    /// Adds cluster `c`, or replaces the cluster of the same identifier; its
    /// backends follow its load-balancing algorithm.
    pub fn add_cluster(&mut self, c: Cluster)
        requires
            old(self).wf(),
        ensures
            final(self).wf(),
            has_cluster_config(final(self).clusters@, c.cluster_id@),
            final(self).listeners == old(self).listeners,
            final(self).sessions == old(self).sessions,
    {
        let ghost cid = c.cluster_id@;
        self.backends.set_load_balancing(c.cluster_id.as_str(), c.load_balancing);
        let ghost mid = *self;
        let mut i: usize = 0;
        while i < self.clusters.len()
            invariant
                i <= self.clusters@.len(),
                *self == mid,
                mid.wf(),
                mid.listeners == old(self).listeners,
                mid.sessions == old(self).sessions,
                cid == c.cluster_id@,
            decreases self.clusters.len() - i,
        {
            if str_eq(self.clusters[i].cluster_id.as_str(), c.cluster_id.as_str()) {
                self.clusters[i] = c;
                assert(self.clusters@[i as int].cluster_id@ == cid);
                return;
            }
            i = i + 1;
        }
        self.clusters.push(c);
        assert(self.clusters@[self.clusters@.len() - 1].cluster_id@ == cid);
    }

    /// Removes cluster `cluster_id` and every frontend rule that routes to it.
    pub fn remove_cluster(&mut self, cluster_id: &str)
        requires
            old(self).wf(),
        ensures
            final(self).wf(),
            !has_cluster_config(final(self).clusters@, cluster_id@),
            final(self).listeners@.len() == old(self).listeners@.len(),
            forall|i: int, p: RulePosition, k: int|
                0 <= i < final(self).listeners@.len() && 0 <= k < final(self).listeners@[i].router.rules_at(p).len()
                    ==> !routes_to(#[trigger] final(self).listeners@[i].router.rules_at(p)[k], cluster_id@),
    {
        let mut i: usize = 0;
        while i < self.clusters.len()
            invariant
                i <= self.clusters@.len(),
                self.listeners == old(self).listeners,
                self.backends == old(self).backends,
                self.sessions == old(self).sessions,
                forall|j: int| 0 <= j < i ==> (#[trigger] self.clusters@[j]).cluster_id@ != cluster_id@,
            decreases self.clusters.len() - i,
        {
            if str_eq(self.clusters[i].cluster_id.as_str(), cluster_id) {
                let ghost before = self.clusters@;
                self.clusters.remove(i);
                assert forall|j: int| 0 <= j < i implies (#[trigger] self.clusters@[j]).cluster_id@ != cluster_id@ by {
                    assert(self.clusters@[j] == before[j]);
                }
            } else {
                i = i + 1;
            }
        }
        let n = self.listeners.len();
        let mut i: usize = 0;
        while i < n
            invariant
                n == self.listeners@.len(),
                i <= n,
                self.backends == old(self).backends,
                self.sessions == old(self).sessions,
                forall|j: int| 0 <= j < n ==> (#[trigger] self.listeners@[j]).address == old(self).listeners@[j].address,
                forall|j: int| i <= j < n ==> (#[trigger] self.listeners@[j]) == old(self).listeners@[j],
                forall|j: int, p: RulePosition, k: int|
                    0 <= j < i && 0 <= k < self.listeners@[j].router.rules_at(p).len() ==> !routes_to(
                        #[trigger] self.listeners@[j].router.rules_at(p)[k],
                        cluster_id@,
                    ),
                !has_cluster_config(self.clusters@, cluster_id@),
            decreases n - i,
        {
            self.listeners[i].router.remove_cluster_rules(cluster_id);
            proof {
                assert forall|p: RulePosition, k: int|
                    0 <= k < self.listeners@[i as int].router.rules_at(p).len() implies !routes_to(
                    #[trigger] self.listeners@[i as int].router.rules_at(p)[k],
                    cluster_id@,
                ) by {
                    let rules = old(self).listeners@[i as int].router.rules_at(p);
                    let f = |x: Rule| !routes_to(x, cluster_id@);
                    assert(self.listeners@[i as int].router.rules_at(p) == rules.filter(f));
                    rules.lemma_filter_pred(f, k);
                }
            }
            i = i + 1;
        }
        proof {
            assert forall|a: int, b: int|
                0 <= a < b < self.listeners@.len() implies (#[trigger] self.listeners@[a]).address@
                != (#[trigger] self.listeners@[b]).address@ by {
                assert(old(self).listeners@[a].address@ != old(self).listeners@[b].address@);
            }
        }
    }

    /// Suspends accepting on every listener, as when their sockets are handed
    /// to a successor worker.
    pub fn deactivate_all(&mut self)
        requires
            old(self).wf(),
        ensures
            final(self).wf(),
            final(self).listeners@.len() == old(self).listeners@.len(),
            forall|i: int| 0 <= i < final(self).listeners@.len() ==> !(#[trigger] final(self).listeners@[i]).active,
    {
        let n = self.listeners.len();
        let mut i: usize = 0;
        while i < n
            invariant
                n == self.listeners@.len(),
                i <= n,
                self.backends == old(self).backends,
                self.sessions == old(self).sessions,
                forall|j: int| 0 <= j < n ==> (#[trigger] self.listeners@[j]).address == old(self).listeners@[j].address,
                forall|j: int| 0 <= j < i ==> !(#[trigger] self.listeners@[j]).active,
            decreases n - i,
        {
            self.listeners[i].active = false;
            i = i + 1;
        }
        proof {
            assert forall|a: int, b: int|
                0 <= a < b < self.listeners@.len() implies (#[trigger] self.listeners@[a]).address@
                != (#[trigger] self.listeners@[b]).address@ by {
                assert(old(self).listeners@[a].address@ != old(self).listeners@[b].address@);
            }
        }
    }

    proof fn lemma_frontend_lookup(
        self,
        before: ProxyState,
        f: HttpFrontend,
        i: int,
        rule: Rule,
        removed: bool,
        rules: Seq<Rule>,
    )
        requires
            before.wf(),
            0 <= i < before.listeners@.len(),
            before.listeners@[i].address@ == f.address@,
            rules == before.listeners@[i].router.rules_at(f.position),
            rule_of(rule, f),
            removed_first(rules, self.listeners@[i].router.rules_at(f.position), rule, removed),
        ensures
            removed <==> !fails(before, RequestType::RemoveHttpFrontend(f)),
    {
        assert(has_listener(before.listeners@, f.address@));
        if removed {
            let k = choose|k: int|
                0 <= k < rules.len() && same_conditions(#[trigger] rules[k], rule) && (forall|j: int|
                    0 <= j < k ==> !same_conditions(#[trigger] rules[j], rule)) && self.listeners@[i].router.rules_at(
                    f.position,
                ) == rules.remove(k);
            lemma_rule_of_conditions(rules[k], rule, f);
            assert(matches_frontend(before.listeners@[i].router.rules_at(f.position)[k], f));
        } else {
            assert forall|a: int, k: int|
                0 <= a < before.listeners@.len() && before.listeners@[a].address@ == f.address@ && 0 <= k
                    < before.listeners@[a].router.rules_at(f.position).len() implies !matches_frontend(
                #[trigger] before.listeners@[a].router.rules_at(f.position)[k],
                f,
            ) by {
                if a != i {
                    if a < i {
                        assert(before.listeners@[a].address@ != before.listeners@[i].address@);
                    } else {
                        assert(before.listeners@[i].address@ != before.listeners@[a].address@);
                    }
                }
                lemma_rule_of_conditions(rules[k], rule, f);
            }
        }
    }
}

} // verus!
