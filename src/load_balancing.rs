//! The backends of one cluster and the strategies that pick one of them.
use rand::Rng;
use vstd::prelude::*;
use crate::backend::{Backend, BackendStatus, Event, EventKind};
use crate::peak_ewma::ewma_cost;
use crate::text::{id_less, lex_less, str_eq};

verus! {

#[derive(Debug, Clone, Copy, PartialEq, Eq, Structural)]
pub enum LoadBalancingAlgorithms {
    RoundRobin,
    Random,
    LeastLoaded,
}

/// Backend `i` is one the strategies may pick at `now`: it can be opened,
/// and it is a primary if any primary can be opened, a backup otherwise.
pub open spec fn selectable(bs: Seq<Backend>, i: int, now: u64) -> bool {
    &&& 0 <= i < bs.len()
    &&& bs[i].can_open_at(now)
    &&& bs[i].backup == !any_primary_open(bs, now)
}

pub open spec fn any_primary_open(bs: Seq<Backend>, now: u64) -> bool {
    exists|i: int| 0 <= i < bs.len() && #[trigger] bs[i].can_open_at(now) && !bs[i].backup
}

pub open spec fn any_selectable(bs: Seq<Backend>, now: u64) -> bool {
    exists|i: int| selectable(bs, i, now)
}

/// Distance from `from` to `to` going forward around a ring of `n` slots.
pub open spec fn ring_offset(from: int, to: int, n: int) -> int {
    if to >= from {
        to - from
    } else {
        to + n - from
    }
}

/// One round-robin pick: from cursor `c`, backend `i` is the first selectable
/// one going around the list, and the cursor moves to `c2`, just past it.
pub open spec fn rr_step(bs: Seq<Backend>, now: u64, c: int, i: int, c2: int) -> bool {
    &&& 0 <= c < bs.len()
    &&& selectable(bs, i, now)
    &&& forall|j: int|
        0 <= j < bs.len() && ring_offset(c, j, bs.len() as int) < ring_offset(c, i, bs.len() as int)
            ==> !selectable(bs, j, now)
    &&& c2 == if i + 1 < bs.len() {
        i + 1
    } else {
        0
    }
}

/// Selection cost of a backend: `(active_requests + 1) * rtt`.
pub open spec fn backend_cost(b: Backend) -> int {
    ewma_cost(b.connection_time.rtt, b.active_requests)
}

/// `a` is strictly preferred to `b` by the least-loaded strategy: a lower
/// cost, or the same cost and a smaller identifier.
pub open spec fn preferred(a: Backend, b: Backend) -> bool {
    ||| backend_cost(a) < backend_cost(b)
    ||| (backend_cost(a) == backend_cost(b) && id_less(a.backend_id@, b.backend_id@))
}

/// Number of selectable backends among the first `m`.
pub open spec fn count_selectable(bs: Seq<Backend>, m: int, now: u64) -> nat
    decreases m,
{
    if m <= 0 {
        0
    } else {
        count_selectable(bs, m - 1, now) + if selectable(bs, m - 1, now) {
            1nat
        } else {
            0nat
        }
    }
}

proof fn lemma_count_monotone(bs: Seq<Backend>, a: int, b: int, now: u64)
    requires
        0 <= a <= b,
    ensures
        count_selectable(bs, a, now) <= count_selectable(bs, b, now),
    decreases b - a,
{
    if a < b {
        lemma_count_monotone(bs, a, b - 1, now);
    }
}

proof fn lemma_count_zero(bs: Seq<Backend>, m: int, now: u64)
    requires
        0 <= m,
        count_selectable(bs, m, now) == 0,
    ensures
        forall|j: int| 0 <= j < m ==> !selectable(bs, j, now),
    decreases m,
{
    if m > 0 {
        lemma_count_zero(bs, m - 1, now);
    }
}

/// Relies on `rand::Rng::gen_range` over `rand::thread_rng`: a value below `bound`.
#[verifier::external_body]
fn random_below(bound: usize) -> (r: usize)
    requires
        bound > 0,
    ensures
        r < bound,
{
    rand::thread_rng().gen_range(0..bound)
}

/// The cost `(active_requests + 1) * rtt` of a backend.
pub fn cost(b: &Backend) -> (r: u128)
    ensures
        r == backend_cost(*b),
{
    proof {
        crate::peak_ewma::lemma_cost_fits(b.connection_time.rtt, b.active_requests);
    }
    (b.active_requests as u128 + 1) * (b.connection_time.rtt as u128)
}

/// Backend `b` carries the sticky identifier `id` and can be opened at `now`.
pub open spec fn sticky_match(b: Backend, id: Seq<char>, now: u64) -> bool {
    &&& b.sticky_id matches Some(s) && s@ == id
    &&& b.can_open_at(now)
}

proof fn lemma_id_less_irreflexive(a: Seq<char>)
    ensures
        !id_less(a, a),
    decreases a.len(),
{
    if a.len() > 0 {
        lemma_id_less_irreflexive(a.drop_first());
    }
}

proof fn lemma_id_less_transitive(a: Seq<char>, b: Seq<char>, c: Seq<char>)
    requires
        id_less(a, b),
        id_less(b, c),
    ensures
        id_less(a, c),
    decreases a.len(),
{
    if a.len() > 0 && b.len() > 0 && c.len() > 0 && a[0] == b[0] && b[0] == c[0] {
        lemma_id_less_transitive(a.drop_first(), b.drop_first(), c.drop_first());
    }
}

proof fn lemma_preferred_irreflexive(a: Backend)
    ensures
        !preferred(a, a),
{
    lemma_id_less_irreflexive(a.backend_id@);
}

/// If `a` is preferred to `c` and `c` to `b`, then `a` is preferred to `b`; so
/// if nothing is preferred to `b` and `c` is preferred to `b`, nothing is
/// preferred to `c`.
proof fn lemma_preferred_transitive(a: Backend, c: Backend, b: Backend)
    requires
        !preferred(a, b),
        preferred(c, b),
    ensures
        !preferred(a, c),
{
    if preferred(a, c) {
        if backend_cost(a) == backend_cost(c) && backend_cost(c) == backend_cost(b) {
            lemma_id_less_transitive(a.backend_id@, c.backend_id@, b.backend_id@);
        }
    }
}

/// `b` is the live entry for the backend `n` describes: same identifier and
/// address, and still `Normal`.
pub open spec fn same_backend(b: Backend, n: Backend) -> bool {
    &&& b.status is Normal
    &&& b.backend_id@ == n.backend_id@
    &&& b.address@ == n.address@
}

/// `e` announces that the backend `b` was removed and holds no connection.
pub open spec fn removal_event(e: Event, b: Backend) -> bool {
    &&& e.kind is RemovedBackendHasNoConnections
    &&& e.backend_id == Some(b.backend_id)
    &&& e.address == Some(b.address)
    &&& e.cluster_id is None
}

/// What removing a backend did.
#[derive(Debug, Clone)]
pub enum Removal {
    /// no `Normal` backend has that identifier
    NotFound,
    /// the backend is closing and waits for its connections to end
    Draining,
    /// the backend had no connection left and is closed
    Removed(Event),
}

/// `sticky` names an eligible backend of `bs`.
pub open spec fn sticky_hit(bs: Seq<Backend>, sticky: Option<Seq<char>>, now: u64) -> bool {
    match sticky {
        Some(s) => exists|j: int| 0 <= j < bs.len() && sticky_match(#[trigger] bs[j], s, now),
        None => false,
    }
}

pub open spec fn sticky_view(sticky: Option<&str>) -> Option<Seq<char>> {
    match sticky {
        Some(s) => Some(s@),
        None => None,
    }
}

/// `r` is what a list in state `before` hands out at `now` for a request
/// carrying `sticky`, and `after` the list once it did: the eligible backend
/// the sticky identifier names (the first of them); otherwise the pick of the
/// cluster's strategy. Only round-robin moves its cursor.
pub open spec fn strategy_pick(
    before: BackendList,
    after: BackendList,
    sticky: Option<Seq<char>>,
    now: u64,
    r: Option<usize>,
) -> bool {
    let bs = before.backends@;
    &&& after.backends == before.backends
    &&& after.load_balancing == before.load_balancing
    &&& (r is None <==> (!any_selectable(bs, now) && !sticky_hit(bs, sticky, now)))
    &&& (r matches Some(i) ==> i < bs.len() && bs[i as int].can_open_at(now))
    &&& (sticky_hit(bs, sticky, now) ==> {
        &&& r is Some
        &&& sticky_match(bs[r->0 as int], sticky->0, now)
        &&& forall|j: int| 0 <= j < r->0 ==> !sticky_match(#[trigger] bs[j], sticky->0, now)
        &&& after.next_backend == before.next_backend
    })
    &&& (!sticky_hit(bs, sticky, now) ==> match before.load_balancing {
        LoadBalancingAlgorithms::RoundRobin => {
            &&& (r matches Some(i) ==> rr_step(bs, now, before.next_backend as int, i as int, after.next_backend as int))
            &&& (r is None ==> after.next_backend == before.next_backend)
        },
        LoadBalancingAlgorithms::Random => {
            &&& (r matches Some(i) ==> selectable(bs, i as int, now))
            &&& after.next_backend == before.next_backend
        },
        LoadBalancingAlgorithms::LeastLoaded => {
            &&& (r matches Some(i) ==> selectable(bs, i as int, now) && forall|j: int|
                selectable(bs, j, now) ==> !preferred(#[trigger] bs[j], bs[i as int]))
            &&& after.next_backend == before.next_backend
        },
    })
}

/// The backends of a cluster, in insertion order, with the cursor of the
/// round-robin strategy.
pub struct BackendList {
    pub backends: Vec<Backend>,
    pub next_backend: usize,
    pub load_balancing: LoadBalancingAlgorithms,
}

impl BackendList {
    pub open spec fn wf(self) -> bool {
        &&& self.next_backend == 0 || self.next_backend < self.backends.len()
        &&& forall|i: int| 0 <= i < self.backends.len() ==> (#[trigger] self.backends@[i]).wf()
    }

    pub fn new(load_balancing: LoadBalancingAlgorithms) -> (r: BackendList)
        ensures
            r.wf(),
            r.backends@.len() == 0,
            r.next_backend == 0,
            r.load_balancing == load_balancing,
    {
        BackendList { backends: Vec::new(), next_backend: 0, load_balancing }
    }

    /// Adds a backend. Where a `Normal` backend with the same identifier and
    /// address is there, its configuration is updated in place and its
    /// connection and retry state kept; otherwise the backend is appended.
    pub fn add_backend(&mut self, backend: Backend) -> (r: Option<usize>)
        requires
            old(self).wf(),
            backend.wf(),
        ensures
            final(self).wf(),
            final(self).load_balancing == old(self).load_balancing,
            r is None ==> (forall|k: int|
                0 <= k < old(self).backends.len() ==> !same_backend(#[trigger] old(self).backends@[k], backend))
                && final(self).backends@ == old(self).backends@.push(backend),
            r matches Some(k) ==> k < old(self).backends.len() && same_backend(old(self).backends@[k as int], backend)
                && final(self).backends@ == old(self).backends@.update(
                k as int,
                Backend {
                    sticky_id: backend.sticky_id,
                    load_balancing_parameters: backend.load_balancing_parameters,
                    backup: backend.backup,
                    ..old(self).backends@[k as int]
                },
            ),
    {
        let n = self.backends.len();
        let mut k: usize = 0;
        while k < n
            invariant
                n == self.backends.len(),
                k <= n,
                *self == *old(self),
                self.wf(),
                forall|j: int| 0 <= j < k ==> !same_backend(#[trigger] self.backends@[j], backend),
            decreases n - k,
        {
            if self.backends[k].status == BackendStatus::Normal && str_eq(
                self.backends[k].backend_id.as_str(),
                backend.backend_id.as_str(),
            ) && str_eq(self.backends[k].address.as_str(), backend.address.as_str()) {
                let Backend { sticky_id, load_balancing_parameters, backup, .. } = backend;
                self.backends[k].sticky_id = sticky_id;
                self.backends[k].load_balancing_parameters = load_balancing_parameters;
                self.backends[k].backup = backup;
                return Some(k);
            }
            k = k + 1;
        }
        self.backends.push(backend);
        None
    }

    /// Takes the `Normal` backend `backend_id` out of rotation. With no
    /// connection left it is closed at once and its removal announced.
    pub fn remove_backend(&mut self, backend_id: &str) -> (r: Removal)
        requires
            old(self).wf(),
        ensures
            final(self).wf(),
            final(self).load_balancing == old(self).load_balancing,
            final(self).next_backend == old(self).next_backend,
            r is NotFound <==> forall|k: int|
                0 <= k < old(self).backends.len() ==> !(#[trigger] old(self).backends@[k].status is Normal
                    && old(self).backends@[k].backend_id@ == backend_id@),
            r is NotFound ==> final(self).backends@ == old(self).backends@,
            !(r is NotFound) ==> exists|k: int|
                0 <= k < old(self).backends.len() && {
                    let b = #[trigger] old(self).backends@[k];
                    &&& b.status is Normal && b.backend_id@ == backend_id@
                    &&& final(self).backends@ == old(self).backends@.update(
                        k,
                        if b.active_connections == 0 {
                            b.closing().released()
                        } else {
                            b.closing()
                        },
                    )
                    &&& (r is Draining <==> b.active_connections > 0)
                    &&& (r matches Removal::Removed(e) ==> removal_event(e, b))
                },
    {
        let n = self.backends.len();
        let mut k: usize = 0;
        while k < n
            invariant
                n == self.backends.len(),
                k <= n,
                *self == *old(self),
                self.wf(),
                forall|j: int|
                    0 <= j < k ==> !(#[trigger] self.backends@[j].status is Normal
                        && self.backends@[j].backend_id@ == backend_id@),
            decreases n - k,
        {
            if self.backends[k].status == BackendStatus::Normal && str_eq(
                self.backends[k].backend_id.as_str(),
                backend_id,
            ) {
                let ghost b = self.backends@[k as int];
                self.backends[k].set_closing();
                assert(self.backends@ == old(self).backends@.update(k as int, b.closing()));
                if self.backends[k].active_connections == 0 {
                    self.backends[k].dec_connections();
                    assert(self.backends@ == old(self).backends@.update(k as int, b.closing().released()));
                    assert(self.backends@[k as int].wf());
                    let e = Event {
                        kind: EventKind::RemovedBackendHasNoConnections,
                        backend_id: Some(self.backends[k].backend_id.clone()),
                        address: Some(self.backends[k].address.clone()),
                        cluster_id: None,
                    };
                    assert(removal_event(e, b));
                    return Removal::Removed(e);
                }
                assert(self.backends@[k as int].wf());
                return Removal::Draining;
            }
            k = k + 1;
        }
        Removal::NotFound
    }

    /// Releases a connection of backend `index`. When that was the last
    /// connection of a closing backend, it closes and its removal is announced;
    /// this happens once, as a closed backend stays closed.
    pub fn release(&mut self, index: usize) -> (r: Option<Event>)
        requires
            old(self).wf(),
            index < old(self).backends.len(),
        ensures
            final(self).wf(),
            final(self).load_balancing == old(self).load_balancing,
            final(self).next_backend == old(self).next_backend,
            final(self).backends@ == old(self).backends@.update(
                index as int,
                old(self).backends@[index as int].released(),
            ),
            r is Some <==> (old(self).backends@[index as int].status is Closing
                && old(self).backends@[index as int].released().status is Closed),
            r matches Some(e) ==> removal_event(e, old(self).backends@[index as int]),
    {
        let was_closing = self.backends[index].status == BackendStatus::Closing;
        self.backends[index].dec_connections();
        if was_closing && self.backends[index].status == BackendStatus::Closed {
            Some(Event {
                kind: EventKind::RemovedBackendHasNoConnections,
                backend_id: Some(self.backends[index].backend_id.clone()),
                address: Some(self.backends[index].address.clone()),
                cluster_id: None,
            })
        } else {
            None
        }
    }

    /// Whether some primary backend can be opened at `now`.
    fn has_open_primary(&self, now: u64) -> (r: bool)
        ensures
            r == any_primary_open(self.backends@, now),
    {
        let mut i: usize = 0;
        while i < self.backends.len()
            invariant
                i <= self.backends.len(),
                forall|j: int| 0 <= j < i ==> !(#[trigger] self.backends@[j].can_open_at(now) && !self.backends@[j].backup),
            decreases self.backends.len() - i,
        {
            if self.backends[i].can_open(now) && !self.backends[i].backup {
                return true;
            }
            i = i + 1;
        }
        false
    }

    /// Round-robin: the first selectable backend at or after the cursor,
    /// going around the list; the cursor then moves just past it, so that no
    /// selectable backend is passed over and none comes twice in one turn.
    pub fn next_round_robin(&mut self, now: u64) -> (r: Option<usize>)
        requires
            old(self).wf(),
        ensures
            final(self).wf(),
            final(self).backends == old(self).backends,
            final(self).load_balancing == old(self).load_balancing,
            r is None <==> !any_selectable(old(self).backends@, now),
            r is None ==> final(self).next_backend == old(self).next_backend,
            r matches Some(i) ==> rr_step(
                old(self).backends@,
                now,
                old(self).next_backend as int,
                i as int,
                final(self).next_backend as int,
            ),
    {
        let n = self.backends.len();
        if n == 0 {
            return None;
        }
        let primary = self.has_open_primary(now);
        let start = self.next_backend;
        let mut k: usize = 0;
        while k < n
            invariant
                n == self.backends.len(),
                self.backends == old(self).backends,
                self.load_balancing == old(self).load_balancing,
                start == self.next_backend,
                start == old(self).next_backend,
                start < n,
                k <= n,
                self.wf(),
                primary == any_primary_open(self.backends@, now),
                forall|j: int|
                    0 <= j < n && ring_offset(start as int, j, n as int) < k ==> !selectable(
                        self.backends@,
                        j,
                        now,
                    ),
            decreases n - k,
        {
            let idx = if k < n - start {
                start + k
            } else {
                k - (n - start)
            };
            assert(ring_offset(start as int, idx as int, n as int) == k);
            if self.backends[idx].can_open(now) && self.backends[idx].backup == !primary {
                assert(selectable(self.backends@, idx as int, now));
                self.next_backend = if idx + 1 < n {
                    idx + 1
                } else {
                    0
                };
                return Some(idx);
            }
            k = k + 1;
        }
        assert forall|j: int| !selectable(self.backends@, j, now) by {
            if 0 <= j < n {
                assert(ring_offset(start as int, j, n as int) < n);
            }
        }
        None
    }

    /// Number of selectable backends at `now`.
    pub fn selectable_count(&self, now: u64) -> (r: usize)
        ensures
            r == count_selectable(self.backends@, self.backends@.len() as int, now),
    {
        let n = self.backends.len();
        let primary = self.has_open_primary(now);
        let mut count: usize = 0;
        let mut i: usize = 0;
        while i < n
            invariant
                n == self.backends.len(),
                i <= n,
                count <= i,
                count == count_selectable(self.backends@, i as int, now),
                primary == any_primary_open(self.backends@, now),
            decreases n - i,
        {
            if self.backends[i].can_open(now) && self.backends[i].backup == !primary {
                count = count + 1;
            }
            i = i + 1;
        }
        count
    }

    /// The `k`-th selectable backend (counting from zero, in list order), if
    /// there are more than `k`.
    pub fn nth_selectable(&self, k: usize, now: u64) -> (r: Option<usize>)
        ensures
            r is None <==> k >= count_selectable(self.backends@, self.backends@.len() as int, now),
            r matches Some(i) ==> i < self.backends@.len() && selectable(self.backends@, i as int, now)
                && count_selectable(self.backends@, i as int, now) == k,
    {
        let n = self.backends.len();
        let primary = self.has_open_primary(now);
        let mut seen: usize = 0;
        let mut i: usize = 0;
        while i < n
            invariant
                n == self.backends.len(),
                i <= n,
                seen == count_selectable(self.backends@, i as int, now),
                seen <= k,
                primary == any_primary_open(self.backends@, now),
            decreases n - i,
        {
            if self.backends[i].can_open(now) && self.backends[i].backup == !primary {
                if seen == k {
                    assert(selectable(self.backends@, i as int, now));
                    proof {
                        lemma_count_monotone(self.backends@, i + 1, n as int, now);
                    }
                    return Some(i);
                }
                seen = seen + 1;
            }
            i = i + 1;
        }
        None
    }

    /// Random: a selectable backend drawn uniformly among the selectable ones.
    pub fn next_random(&self, now: u64) -> (r: Option<usize>)
        requires
            self.wf(),
        ensures
            r is None <==> !any_selectable(self.backends@, now),
            r matches Some(i) ==> selectable(self.backends@, i as int, now),
    {
        let count = self.selectable_count(now);
        if count == 0 {
            proof {
                lemma_count_zero(self.backends@, self.backends@.len() as int, now);
            }
            return None;
        }
        let k = random_below(count);
        self.nth_selectable(k, now)
    }

    /// Least loaded: the selectable backend of lowest cost
    /// `(active_requests + 1) * rtt`, the smallest identifier among equals.
    pub fn next_least_loaded(&self, now: u64) -> (r: Option<usize>)
        requires
            self.wf(),
        ensures
            r is None <==> !any_selectable(self.backends@, now),
            r matches Some(i) ==> selectable(self.backends@, i as int, now) && forall|j: int|
                selectable(self.backends@, j, now) ==> !preferred(
                    #[trigger] self.backends@[j],
                    self.backends@[i as int],
                ),
    {
        let n = self.backends.len();
        let primary = self.has_open_primary(now);
        let mut best: Option<usize> = None;
        let mut best_cost: u128 = 0;
        let mut i: usize = 0;
        while i < n
            invariant
                n == self.backends.len(),
                i <= n,
                primary == any_primary_open(self.backends@, now),
                best is None ==> forall|j: int| 0 <= j < i ==> !selectable(self.backends@, j, now),
                best matches Some(b) ==> {
                    &&& b < i
                    &&& selectable(self.backends@, b as int, now)
                    &&& best_cost == backend_cost(self.backends@[b as int])
                    &&& forall|j: int|
                        0 <= j < i && selectable(self.backends@, j, now) ==> !preferred(
                            #[trigger] self.backends@[j],
                            self.backends@[b as int],
                        )
                },
            decreases n - i,
        {
            if self.backends[i].can_open(now) && self.backends[i].backup == !primary {
                let c = cost(&self.backends[i]);
                match best {
                    None => {
                        proof {
                            lemma_preferred_irreflexive(self.backends@[i as int]);
                        }
                        best = Some(i);
                        best_cost = c;
                    },
                    Some(b) => {
                        if c < best_cost || (c == best_cost && lex_less(
                            self.backends[i].backend_id.as_str(),
                            self.backends[b].backend_id.as_str(),
                        )) {
                            proof {
                                assert forall|j: int|
                                    0 <= j <= i && selectable(self.backends@, j, now) implies !preferred(
                                    #[trigger] self.backends@[j],
                                    self.backends@[i as int],
                                ) by {
                                    if j < i {
                                        lemma_preferred_transitive(
                                            self.backends@[j],
                                            self.backends@[i as int],
                                            self.backends@[b as int],
                                        );
                                    } else {
                                        lemma_preferred_irreflexive(self.backends@[j]);
                                    }
                                }
                            }
                            best = Some(i);
                            best_cost = c;
                        }
                    },
                }
            }
            i = i + 1;
        }
        best
    }

    /// The first backend that can be opened at `now` and carries `sticky_id`.
    pub fn find_sticky(&self, sticky_id: &str, now: u64) -> (r: Option<usize>)
        ensures
            r is None ==> forall|j: int|
                0 <= j < self.backends.len() ==> !sticky_match(#[trigger] self.backends@[j], sticky_id@, now),
            r matches Some(i) ==> i < self.backends.len() && sticky_match(self.backends@[i as int], sticky_id@, now)
                && forall|j: int| 0 <= j < i ==> !sticky_match(#[trigger] self.backends@[j], sticky_id@, now),
    {
        let n = self.backends.len();
        let mut i: usize = 0;
        while i < n
            invariant
                n == self.backends.len(),
                i <= n,
                forall|j: int| 0 <= j < i ==> !sticky_match(#[trigger] self.backends@[j], sticky_id@, now),
            decreases n - i,
        {
            let b = &self.backends[i];
            let hit = match &b.sticky_id {
                Some(s) => str_eq(s.as_str(), sticky_id),
                None => false,
            };
            if hit && b.can_open(now) {
                return Some(i);
            }
            i = i + 1;
        }
        None
    }

    /// The backend for a new connection at `now`: the eligible backend that the
    /// sticky identifier names, if any; otherwise the pick of the cluster's
    /// strategy.
    pub fn next_available_backend(&mut self, sticky_id: Option<&str>, now: u64) -> (r: Option<usize>)
        requires
            old(self).wf(),
        ensures
            final(self).wf(),
            strategy_pick(*old(self), *final(self), sticky_view(sticky_id), now, r),
    {
        if let Some(s) = sticky_id {
            if let Some(i) = self.find_sticky(s, now) {
                assert(sticky_match(self.backends@[i as int], s@, now));
                return Some(i);
            }
        }
        match self.load_balancing {
            LoadBalancingAlgorithms::RoundRobin => self.next_round_robin(now),
            LoadBalancingAlgorithms::Random => self.next_random(now),
            LoadBalancingAlgorithms::LeastLoaded => self.next_least_loaded(now),
        }
    }
}

/// Offsets from `c0` after a pick of `p`: the cursor moves to `c`, just past
/// `p`, and offsets from `c` are those from `c0` shifted past `p`.
proof fn lemma_offset_after_pick(c0: int, p: int, c: int, x: int, n: int)
    requires
        0 <= c0 < n,
        0 <= p < n,
        0 <= x < n,
        c == if p + 1 < n {
            p + 1
        } else {
            0
        },
    ensures
        ring_offset(c0, x, n) > ring_offset(c0, p, n) ==> ring_offset(c, x, n) == ring_offset(c0, x, n)
            - ring_offset(c0, p, n) - 1,
        ring_offset(c0, x, n) <= ring_offset(c0, p, n) ==> ring_offset(c, x, n) == n - 1 - ring_offset(
            c0,
            p,
            n,
        ) + ring_offset(c0, x, n),
        0 <= ring_offset(c0, x, n) < n,
        ring_offset(c0, x, n) == ring_offset(c0, p, n) ==> x == p,
{
}

/// A pick `q` made from just past `p`, further along from `c0` than `p`:
/// nothing selectable lies between them.
proof fn lemma_nothing_skipped(bs: Seq<Backend>, now: u64, c0: int, p: int, c: int, q: int, c2: int, j: int)
    requires
        0 <= c0 < bs.len(),
        0 <= p < bs.len(),
        c == if p + 1 < bs.len() {
            p + 1
        } else {
            0
        },
        rr_step(bs, now, c, q, c2),
        selectable(bs, j, now),
        ring_offset(c0, p, bs.len() as int) < ring_offset(c0, j, bs.len() as int),
        ring_offset(c0, j, bs.len() as int) <= ring_offset(c0, q, bs.len() as int),
    ensures
        j == q,
{
    let n = bs.len() as int;
    lemma_offset_after_pick(c0, p, c, j, n);
    lemma_offset_after_pick(c0, p, c, q, n);
    let cq = if q + 1 < n {
        q + 1
    } else {
        0
    };
    lemma_offset_after_pick(c0, q, cq, j, n);
    if ring_offset(c0, j, n) < ring_offset(c0, q, n) {
        assert(ring_offset(c, j, n) < ring_offset(c, q, n));
    }
}

/// A pick `q` made from just past `p` that is not further along from `c0`
/// than `p`: nothing selectable lies beyond `p`, and `q` is the first pick
/// `p0` from `c0` again.
proof fn lemma_turn_ends(bs: Seq<Backend>, now: u64, c0: int, p0: int, c1: int, p: int, c: int, q: int, c2: int)
    requires
        rr_step(bs, now, c0, p0, c1),
        0 <= p < bs.len(),
        c == if p + 1 < bs.len() {
            p + 1
        } else {
            0
        },
        rr_step(bs, now, c, q, c2),
        ring_offset(c0, q, bs.len() as int) <= ring_offset(c0, p, bs.len() as int),
        ring_offset(c0, p0, bs.len() as int) <= ring_offset(c0, p, bs.len() as int),
    ensures
        forall|j: int| selectable(bs, j, now) ==> ring_offset(c0, j, bs.len() as int) <= ring_offset(c0, p, bs.len() as int),
        q == p0,
{
    let n = bs.len() as int;
    lemma_offset_after_pick(c0, p, c, q, n);
    assert forall|j: int| selectable(bs, j, now) implies ring_offset(c0, j, n) <= ring_offset(c0, p, n) by {
        lemma_offset_after_pick(c0, p, c, j, n);
        if ring_offset(c0, j, n) > ring_offset(c0, p, n) {
            assert(ring_offset(c, j, n) < ring_offset(c, q, n));
        }
    }
    lemma_offset_after_pick(c0, p, c, p0, n);
    lemma_offset_after_pick(c0, p0, c1, q, n);
    lemma_offset_after_pick(c0, p0, c1, p0, n);
    assert(!(ring_offset(c, p0, n) < ring_offset(c, q, n)));
    assert(!(ring_offset(c0, q, n) < ring_offset(c0, p0, n)));
}

/// Round-robin visits every selectable backend once per turn. Take picks
/// made one after the other while the selectable backends stay the same,
/// from a first cursor `c0`. As long as the picks go forward around the
/// list from `c0`, they are distinct and no selectable backend up to the
/// last pick was passed over; and the first pick that does not go forward
/// comes once every selectable backend was picked, and starts the next turn
/// with the first pick again.
#[verifier::spinoff_prover]
pub proof fn lemma_round_robin_cycle(bs: Seq<Backend>, now: u64, cursors: Seq<int>, picks: Seq<int>, k: int)
    requires
        0 <= k < picks.len(),
        cursors.len() == picks.len() + 1,
        forall|t: int| 0 <= t < picks.len() ==> #[trigger] rr_step(bs, now, cursors[t], picks[t], cursors[t + 1]),
        forall|t: int|
            0 <= t < k ==> ring_offset(cursors[0], #[trigger] picks[t], bs.len() as int) < ring_offset(
                cursors[0],
                picks[t + 1],
                bs.len() as int,
            ),
    ensures
        forall|a: int, b: int| 0 <= a < b <= k ==> picks[a] != picks[b],
        forall|j: int|
            selectable(bs, j, now) && ring_offset(cursors[0], j, bs.len() as int) <= ring_offset(
                cursors[0],
                picks[k],
                bs.len() as int,
            ) ==> exists|t: int| 0 <= t <= k && picks[t] == j,
        k + 1 < picks.len() && ring_offset(cursors[0], picks[k + 1], bs.len() as int) <= ring_offset(
            cursors[0],
            picks[k],
            bs.len() as int,
        ) ==> (forall|j: int| selectable(bs, j, now) ==> exists|t: int| 0 <= t <= k && picks[t] == j)
            && picks[k + 1] == picks[0],
    decreases k,
{
    let n = bs.len() as int;
    let c0 = cursors[0];
    let t0: int = 0;
    assert(rr_step(bs, now, cursors[t0], picks[t0], cursors[t0 + 1]));
    assert(rr_step(bs, now, cursors[k], picks[k], cursors[k + 1]));
    assert forall|a: int, b: int| 0 <= a < b <= k implies picks[a] != picks[b] by {
        lemma_increasing(bs, now, cursors, picks, a, b);
    }
    if k > 0 {
        lemma_round_robin_cycle(bs, now, cursors, picks, k - 1);
        let tp = k - 1;
        assert(rr_step(bs, now, cursors[tp], picks[tp], cursors[tp + 1]));
        assert forall|j: int|
            selectable(bs, j, now) && ring_offset(c0, j, n) <= ring_offset(c0, picks[k], n) implies exists|t: int|
            0 <= t <= k && picks[t] == j by {
            if ring_offset(c0, j, n) <= ring_offset(c0, picks[k - 1], n) {
                let t = choose|t: int| 0 <= t <= k - 1 && picks[t] == j;
                assert(0 <= t <= k && picks[t] == j);
            } else {
                lemma_nothing_skipped(bs, now, c0, picks[k - 1], cursors[k], picks[k], cursors[k + 1], j);
                assert(picks[k] == j);
            }
        }
    } else {
        assert forall|j: int|
            selectable(bs, j, now) && ring_offset(c0, j, n) <= ring_offset(c0, picks[0], n) implies exists|t: int|
            0 <= t <= 0 && picks[t] == j by {
            lemma_offset_after_pick(c0, picks[0], cursors[1], j, n);
            assert(picks[0] == j);
        }
    }
    if k + 1 < picks.len() && ring_offset(c0, picks[k + 1], n) <= ring_offset(c0, picks[k], n) {
        let t = k + 1;
        assert(rr_step(bs, now, cursors[t], picks[t], cursors[t + 1]));
        if k > 0 {
            lemma_increasing(bs, now, cursors, picks, 0, k);
        }
        lemma_turn_ends(bs, now, c0, picks[0], cursors[1], picks[k], cursors[k + 1], picks[t], cursors[t + 1]);
    }
}

proof fn lemma_increasing(bs: Seq<Backend>, now: u64, cursors: Seq<int>, picks: Seq<int>, a: int, b: int)
    requires
        0 <= a < b < picks.len(),
        cursors.len() == picks.len() + 1,
        forall|t: int| 0 <= t < picks.len() ==> #[trigger] rr_step(bs, now, cursors[t], picks[t], cursors[t + 1]),
        forall|t: int|
            0 <= t < b ==> ring_offset(cursors[0], #[trigger] picks[t], bs.len() as int) < ring_offset(
                cursors[0],
                picks[t + 1],
                bs.len() as int,
            ),
    ensures
        ring_offset(cursors[0], picks[a], bs.len() as int) < ring_offset(cursors[0], picks[b], bs.len() as int),
        picks[a] != picks[b],
    decreases b - a,
{
    assert(ring_offset(cursors[0], picks[b - 1], bs.len() as int) < ring_offset(cursors[0], picks[b], bs.len() as int));
    if a < b - 1 {
        lemma_increasing(bs, now, cursors, picks, a, b - 1);
    }
}

} // verus!
