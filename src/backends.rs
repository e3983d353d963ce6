//! The backend registry: each cluster's backends, selection, and the events
//! of the backends' lifecycle.
use vstd::prelude::*;
use crate::backend::{Backend, BackendError, Event};
use crate::load_balancing::{BackendList, LoadBalancingAlgorithms, Removal, any_selectable, sticky_match, same_backend, removal_event, strategy_pick, sticky_view};
use crate::text::str_eq;

verus! {

pub struct ClusterBackends {
    pub cluster_id: String,
    pub list: BackendList,
}

/// Why no backend could be handed out.
#[derive(Debug, Clone, Copy, PartialEq, Eq, Structural)]
pub enum SelectError {
    /// the registry knows no such cluster
    NoCluster,
    /// no backend of the cluster can be opened now
    NoBackendAvailable,
}

/// Backends of every cluster, keyed by cluster identifier.
pub struct BackendMap {
    pub clusters: Vec<ClusterBackends>,
}

/// Index of the entry for `id` among `cs`, if one is there.
pub open spec fn has_cluster(cs: Seq<ClusterBackends>, id: Seq<char>) -> bool {
    exists|i: int| 0 <= i < cs.len() && (#[trigger] cs[i]).cluster_id@ == id
}

impl BackendMap {
    pub open spec fn wf(self) -> bool {
        &&& forall|i: int| 0 <= i < self.clusters.len() ==> (#[trigger] self.clusters@[i]).list.wf()
        &&& forall|i: int, j: int|
            0 <= i < j < self.clusters.len() ==> (#[trigger] self.clusters@[i]).cluster_id@
                != (#[trigger] self.clusters@[j]).cluster_id@
    }

    /// The list of the cluster `id`, where there is one.
    pub open spec fn list_of(self, id: Seq<char>) -> BackendList {
        let i = choose|i: int| 0 <= i < self.clusters.len() && (#[trigger] self.clusters@[i]).cluster_id@ == id;
        self.clusters@[i].list
    }

    /// The backends of the cluster `id`, empty where there is none.
    pub open spec fn backends_of(self, id: Seq<char>) -> Seq<Backend> {
        if has_cluster(self.clusters@, id) {
            let i = choose|i: int| 0 <= i < self.clusters.len() && (#[trigger] self.clusters@[i]).cluster_id@ == id;
            self.clusters@[i].list.backends@
        } else {
            Seq::empty()
        }
    }

    /// `self` has the cluster identifiers of `other`, in the same places, and
    /// well-formed lists: then it is well formed.
    proof fn lemma_same_ids(self, other: BackendMap)
        requires
            other.wf(),
            self.clusters.len() == other.clusters.len(),
            forall|j: int| 0 <= j < self.clusters.len() ==> (#[trigger] self.clusters@[j]).cluster_id == other.clusters@[j].cluster_id,
            forall|j: int| 0 <= j < self.clusters.len() ==> (#[trigger] self.clusters@[j]).list.wf(),
        ensures
            self.wf(),
    {
        assert forall|a: int, b: int|
            0 <= a < b < self.clusters.len() implies (#[trigger] self.clusters@[a]).cluster_id@
            != (#[trigger] self.clusters@[b]).cluster_id@ by {
            assert(other.clusters@[a].cluster_id@ != other.clusters@[b].cluster_id@);
        }
    }

    pub fn new() -> (r: BackendMap)
        ensures
            r.wf(),
            r.clusters@.len() == 0,
    {
        BackendMap { clusters: Vec::new() }
    }

    /// Adds a backend to cluster `cluster_id`, creating the cluster's list if
    /// needed; see `BackendList::add_backend` for a backend that is already there.
    pub fn add_backend(&mut self, cluster_id: &str, backend: Backend) -> (r: Option<usize>)
        requires
            old(self).wf(),
            backend.wf(),
        ensures
            final(self).wf(),
            has_cluster(final(self).clusters@, cluster_id@),
            forall|id2: Seq<char>| id2 != cluster_id@ ==> final(self).backends_of(id2) == old(self).backends_of(id2),
            r is None ==> (forall|k: int|
                0 <= k < old(self).backends_of(cluster_id@).len() ==> !same_backend(
                    #[trigger] old(self).backends_of(cluster_id@)[k],
                    backend,
                )) && final(self).backends_of(cluster_id@) == old(self).backends_of(cluster_id@).push(backend),
            r matches Some(k) ==> k < old(self).backends_of(cluster_id@).len() && same_backend(
                old(self).backends_of(cluster_id@)[k as int],
                backend,
            ) && final(self).backends_of(cluster_id@) == old(self).backends_of(cluster_id@).update(
                k as int,
                Backend {
                    sticky_id: backend.sticky_id,
                    load_balancing_parameters: backend.load_balancing_parameters,
                    backup: backend.backup,
                    ..old(self).backends_of(cluster_id@)[k as int]
                },
            ),
    {
        let i = match self.find_cluster(cluster_id) {
            Some(i) => i,
            None => {
                self.clusters.push(
                    ClusterBackends {
                        cluster_id: String::from_str(cluster_id),
                        list: BackendList::new(LoadBalancingAlgorithms::RoundRobin),
                    },
                );
                assert forall|a: int, b: int|
                    0 <= a < b < self.clusters.len() implies (#[trigger] self.clusters@[a]).cluster_id@
                    != (#[trigger] self.clusters@[b]).cluster_id@ by {
                    if b == self.clusters.len() - 1 {
                        assert(old(self).clusters@[a] == self.clusters@[a]);
                    } else {
                        assert(old(self).clusters@[a] == self.clusters@[a]);
                        assert(old(self).clusters@[b] == self.clusters@[b]);
                    }
                }
                self.clusters.len() - 1
            },
        };
        let ghost mid = *self;
        proof {
            lemma_backends_of_at(mid, i as int);
        }
        let r = self.clusters[i].list.add_backend(backend);
        proof {
            assert forall|a: int, b: int|
                0 <= a < b < self.clusters.len() implies (#[trigger] self.clusters@[a]).cluster_id@
                != (#[trigger] self.clusters@[b]).cluster_id@ by {
                assert(self.clusters@[a].cluster_id == mid.clusters@[a].cluster_id);
                assert(self.clusters@[b].cluster_id == mid.clusters@[b].cluster_id);
            }
            lemma_backends_of_at(*self, i as int);
            lemma_backends_of_frame(*old(self), mid, i as int, cluster_id@);
            lemma_backends_of_frame(mid, *self, i as int, cluster_id@);
        }
        r
    }

    /// Sets the load-balancing algorithm of cluster `cluster_id`, creating its
    /// empty list if needed; the backends stay as they are.
    pub fn set_load_balancing(&mut self, cluster_id: &str, algorithm: LoadBalancingAlgorithms)
        requires
            old(self).wf(),
        ensures
            final(self).wf(),
            has_cluster(final(self).clusters@, cluster_id@),
            forall|id2: Seq<char>| #[trigger] final(self).backends_of(id2) == old(self).backends_of(id2),
    {
        match self.find_cluster(cluster_id) {
            Some(i) => {
                proof {
                    lemma_backends_of_at(*self, i as int);
                }
                self.clusters[i].list.load_balancing = algorithm;
                proof {
                    self.lemma_same_ids(*old(self));
                    lemma_backends_of_at(*self, i as int);
                    lemma_backends_of_frame(*old(self), *self, i as int, cluster_id@);
                }
            },
            None => {
                self.clusters.push(
                    ClusterBackends { cluster_id: String::from_str(cluster_id), list: BackendList::new(algorithm) },
                );
                proof {
                    assert forall|a: int, b: int|
                        0 <= a < b < self.clusters.len() implies (#[trigger] self.clusters@[a]).cluster_id@
                        != (#[trigger] self.clusters@[b]).cluster_id@ by {
                        assert(old(self).clusters@[a] == self.clusters@[a]);
                        if b < self.clusters.len() - 1 {
                            assert(old(self).clusters@[b] == self.clusters@[b]);
                        }
                    }
                    let i = self.clusters.len() - 1;
                    lemma_backends_of_at(*self, i as int);
                    lemma_backends_of_frame(*old(self), *self, i as int, cluster_id@);
                }
            },
        }
    }

    /// Takes the `Normal` backend `backend_id` of cluster `cluster_id` out of
    /// rotation; see `BackendList::remove_backend`.
    pub fn remove_backend(&mut self, cluster_id: &str, backend_id: &str) -> (r: Removal)
        requires
            old(self).wf(),
        ensures
            final(self).wf(),
            final(self).clusters.len() == old(self).clusters.len(),
            forall|id2: Seq<char>| id2 != cluster_id@ ==> final(self).backends_of(id2) == old(self).backends_of(id2),
            r is NotFound <==> forall|k: int|
                0 <= k < old(self).backends_of(cluster_id@).len() ==> !(
                #[trigger] old(self).backends_of(cluster_id@)[k].status is Normal
                    && old(self).backends_of(cluster_id@)[k].backend_id@ == backend_id@),
            r is NotFound ==> final(self).backends_of(cluster_id@) == old(self).backends_of(cluster_id@),
            !(r is NotFound) ==> exists|k: int|
                0 <= k < old(self).backends_of(cluster_id@).len() && {
                    let b = #[trigger] old(self).backends_of(cluster_id@)[k];
                    &&& b.status is Normal && b.backend_id@ == backend_id@
                    &&& final(self).backends_of(cluster_id@) == old(self).backends_of(cluster_id@).update(
                        k,
                        if b.active_connections == 0 {
                            b.closing().released()
                        } else {
                            b.closing()
                        },
                    )
                    &&& (r is Draining <==> b.active_connections > 0)
                    &&& (r matches Removal::Removed(e) ==> removal_event(e, b))
                },
    {
        let i = match self.find_cluster(cluster_id) {
            Some(i) => i,
            None => {
                return Removal::NotFound;
            },
        };
        proof {
            lemma_backends_of_at(*self, i as int);
        }
        let r = self.clusters[i].list.remove_backend(backend_id);
        proof {
            self.lemma_same_ids(*old(self));
            lemma_backends_of_at(*self, i as int);
            lemma_backends_of_frame(*old(self), *self, i as int, cluster_id@);
        }
        r
    }

    /// Picks the backend of cluster `cluster_id` for a new connection at `now`;
    /// see `BackendList::next_available_backend`. Only the cluster's
    /// round-robin cursor changes.
    pub fn backend_from_cluster_id(&mut self, cluster_id: &str, sticky_id: Option<&str>, now: u64) -> (r:
        Result<usize, SelectError>)
        requires
            old(self).wf(),
        ensures
            final(self).wf(),
            final(self).clusters.len() == old(self).clusters.len(),
            forall|id2: Seq<char>| #[trigger] final(self).backends_of(id2) == old(self).backends_of(id2),
            r == Err::<usize, SelectError>(SelectError::NoCluster) <==> !has_cluster(old(self).clusters@, cluster_id@),
            r == Err::<usize, SelectError>(SelectError::NoBackendAvailable) <==> (has_cluster(
                old(self).clusters@,
                cluster_id@,
            ) && !any_selectable(old(self).backends_of(cluster_id@), now) && match sticky_id {
                Some(s) => forall|j: int|
                    0 <= j < old(self).backends_of(cluster_id@).len() ==> !sticky_match(
                        #[trigger] old(self).backends_of(cluster_id@)[j],
                        s@,
                        now,
                    ),
                None => true,
            }),
            r matches Ok(k) ==> k < old(self).backends_of(cluster_id@).len() && old(self).backends_of(
                cluster_id@,
            )[k as int].can_open_at(now),
            has_cluster(old(self).clusters@, cluster_id@) ==> strategy_pick(
                old(self).list_of(cluster_id@),
                final(self).list_of(cluster_id@),
                sticky_view(sticky_id),
                now,
                match r {
                    Ok(k) => Some(k),
                    Err(_) => None,
                },
            ),
    {
        let i = match self.find_cluster(cluster_id) {
            Some(i) => i,
            None => {
                return Err(SelectError::NoCluster);
            },
        };
        proof {
            lemma_backends_of_at(*self, i as int);
        }
        let r = self.clusters[i].list.next_available_backend(sticky_id, now);
        proof {
            self.lemma_same_ids(*old(self));
            lemma_backends_of_at(*self, i as int);
            lemma_backends_of_frame(*old(self), *self, i as int, cluster_id@);
        }
        match r {
            Some(k) => Ok(k),
            None => Err(SelectError::NoBackendAvailable),
        }
    }

    /// Records the outcome of a connection attempt to backend `index` of
    /// cluster `cluster_id` at `now`; see `Backend::try_connect`.
    pub fn record_connect(&mut self, cluster_id: &str, index: usize, connected: bool, now: u64) -> (r:
        Result<usize, BackendError>)
        requires
            old(self).wf(),
        ensures
            final(self).wf(),
            final(self).clusters.len() == old(self).clusters.len(),
            forall|id2: Seq<char>| id2 != cluster_id@ ==> final(self).backends_of(id2) == old(self).backends_of(id2),
            r == Err::<usize, BackendError>(BackendError::Unknown) <==> index >= old(self).backends_of(cluster_id@).len(),
            r == Err::<usize, BackendError>(BackendError::TooManyConnections) <==> (index < old(self).backends_of(
                cluster_id@,
            ).len() && old(self).backends_of(cluster_id@)[index as int].active_connections == usize::MAX),
            index < old(self).backends_of(cluster_id@).len() && old(self).backends_of(cluster_id@)[index as int].active_connections
                < usize::MAX ==> {
                let b = old(self).backends_of(cluster_id@)[index as int];
                let nb = final(self).backends_of(cluster_id@)[index as int];
                &&& final(self).backends_of(cluster_id@) == old(self).backends_of(cluster_id@).update(index as int, nb)
                &&& !(b.status is Normal) ==> r == Err::<usize, BackendError>(BackendError::NotNormal) && nb == b
                &&& b.status is Normal && connected ==> r == Ok::<usize, BackendError>(
                    (b.active_connections + 1) as usize,
                ) && nb == (Backend { active_connections: (b.active_connections + 1) as usize, ..b })
                &&& b.status is Normal && !connected ==> r == Err::<usize, BackendError>(BackendError::ConnectFailed)
                    && nb.retry_policy == b.retry_policy.after_fail(now) && nb == (Backend {
                    failures: nb.failures,
                    retry_policy: nb.retry_policy,
                    ..b
                }) && nb.failures == (if b.failures < usize::MAX {
                    b.failures + 1
                } else {
                    b.failures as int
                })
            },
            r is Err && index >= old(self).backends_of(cluster_id@).len() ==> final(self).backends_of(cluster_id@) == old(self).backends_of(cluster_id@),
    {
        let i = match self.find_cluster(cluster_id) {
            Some(i) => i,
            None => {
                return Err(BackendError::Unknown);
            },
        };
        proof {
            lemma_backends_of_at(*self, i as int);
        }
        if index >= self.clusters[i].list.backends.len() {
            return Err(BackendError::Unknown);
        }
        if self.clusters[i].list.backends[index].active_connections == usize::MAX {
            return Err(BackendError::TooManyConnections);
        }
        let r = self.clusters[i].list.backends[index].try_connect(connected, now);
        proof {
            self.lemma_same_ids(*old(self));
            assert(self.clusters@[i as int].list.wf()) by {
                assert forall|k: int| 0 <= k < self.clusters@[i as int].list.backends.len()
                    implies (#[trigger] self.clusters@[i as int].list.backends@[k]).wf() by {
                    if k != index {
                        assert(self.clusters@[i as int].list.backends@[k] == old(self).clusters@[i as int].list.backends@[k]);
                    }
                }
            }
            lemma_backends_of_at(*self, i as int);
            lemma_backends_of_frame(*old(self), *self, i as int, cluster_id@);
            assert(self.clusters@[i as int].list.backends@ =~= old(self).clusters@[i as int].list.backends@.update(
                index as int,
                self.clusters@[i as int].list.backends@[index as int],
            ));
        }
        r
    }

    /// Releases a connection of backend `index` of cluster `cluster_id`; see
    /// `BackendList::release`. An unknown backend changes nothing.
    pub fn release_connection(&mut self, cluster_id: &str, index: usize) -> (r: Option<Event>)
        requires
            old(self).wf(),
        ensures
            final(self).wf(),
            final(self).clusters.len() == old(self).clusters.len(),
            forall|id2: Seq<char>| id2 != cluster_id@ ==> final(self).backends_of(id2) == old(self).backends_of(id2),
            index >= old(self).backends_of(cluster_id@).len() ==> r is None && final(self).backends_of(cluster_id@)
                == old(self).backends_of(cluster_id@),
            index < old(self).backends_of(cluster_id@).len() ==> {
                let b = old(self).backends_of(cluster_id@)[index as int];
                &&& final(self).backends_of(cluster_id@) == old(self).backends_of(cluster_id@).update(
                    index as int,
                    b.released(),
                )
                &&& (r is Some <==> (b.status is Closing && b.released().status is Closed))
                &&& (r matches Some(e) ==> removal_event(e, b))
            },
    {
        let i = match self.find_cluster(cluster_id) {
            Some(i) => i,
            None => {
                return None;
            },
        };
        proof {
            lemma_backends_of_at(*self, i as int);
        }
        if index >= self.clusters[i].list.backends.len() {
            return None;
        }
        let r = self.clusters[i].list.release(index);
        proof {
            self.lemma_same_ids(*old(self));
            lemma_backends_of_at(*self, i as int);
            lemma_backends_of_frame(*old(self), *self, i as int, cluster_id@);
        }
        r
    }

    /// Records a fully successful exchange with backend `index` of cluster
    /// `cluster_id` at `now`; see `Backend::mark_success`. Answers whether the
    /// backend exists.
    pub fn mark_success(&mut self, cluster_id: &str, index: usize, now: u64) -> (r: bool)
        requires
            old(self).wf(),
        ensures
            final(self).wf(),
            final(self).clusters.len() == old(self).clusters.len(),
            forall|id2: Seq<char>| id2 != cluster_id@ ==> final(self).backends_of(id2) == old(self).backends_of(id2),
            r == (index < old(self).backends_of(cluster_id@).len()),
            !r ==> final(self).backends_of(cluster_id@) == old(self).backends_of(cluster_id@),
            r ==> {
                let b = old(self).backends_of(cluster_id@)[index as int];
                final(self).backends_of(cluster_id@) == old(self).backends_of(cluster_id@).update(
                    index as int,
                    Backend { failures: 0, retry_policy: b.retry_policy.after_success(now), ..b },
                )
            },
    {
        let i = match self.find_cluster(cluster_id) {
            Some(i) => i,
            None => {
                return false;
            },
        };
        proof {
            lemma_backends_of_at(*self, i as int);
        }
        if index >= self.clusters[i].list.backends.len() {
            return false;
        }
        self.clusters[i].list.backends[index].mark_success(now);
        proof {
            self.lemma_same_ids(*old(self));
            assert(self.clusters@[i as int].list.wf()) by {
                assert forall|k: int| 0 <= k < self.clusters@[i as int].list.backends.len()
                    implies (#[trigger] self.clusters@[i as int].list.backends@[k]).wf() by {
                    if k != index {
                        assert(self.clusters@[i as int].list.backends@[k] == old(self).clusters@[i as int].list.backends@[k]);
                    }
                }
            }
            lemma_backends_of_at(*self, i as int);
            lemma_backends_of_frame(*old(self), *self, i as int, cluster_id@);
            assert(self.clusters@[i as int].list.backends@ =~= old(self).clusters@[i as int].list.backends@.update(
                index as int,
                self.clusters@[i as int].list.backends@[index as int],
            ));
        }
        true
    }

    /// Position of the cluster `id`.
    pub fn find_cluster(&self, id: &str) -> (r: Option<usize>)
        requires
            self.wf(),
        ensures
            r is None <==> !has_cluster(self.clusters@, id@),
            r matches Some(i) ==> i < self.clusters.len() && self.clusters@[i as int].cluster_id@ == id@
                && self.backends_of(id@) == self.clusters@[i as int].list.backends@,
    {
        let mut i: usize = 0;
        while i < self.clusters.len()
            invariant
                self.wf(),
                i <= self.clusters.len(),
                forall|j: int| 0 <= j < i ==> (#[trigger] self.clusters@[j]).cluster_id@ != id@,
            decreases self.clusters.len() - i,
        {
            if str_eq(self.clusters[i].cluster_id.as_str(), id) {
                proof {
                    let k = choose|k: int| 0 <= k < self.clusters.len() && (#[trigger] self.clusters@[k]).cluster_id@ == id@;
                    assert(k == i) by {
                        if k < i {
                        } else if k > i {
                            assert(self.clusters@[i as int].cluster_id@ != self.clusters@[k].cluster_id@);
                        }
                    }
                }
                return Some(i);
            }
            i = i + 1;
        }
        None
    }
}

proof fn lemma_backends_of_at(m: BackendMap, i: int)
    requires
        m.wf(),
        0 <= i < m.clusters.len(),
    ensures
        has_cluster(m.clusters@, m.clusters@[i].cluster_id@),
        m.backends_of(m.clusters@[i].cluster_id@) == m.clusters@[i].list.backends@,
        m.list_of(m.clusters@[i].cluster_id@) == m.clusters@[i].list,
{
    let id = m.clusters@[i].cluster_id@;
    assert(has_cluster(m.clusters@, id));
    let k = choose|k: int| 0 <= k < m.clusters.len() && (#[trigger] m.clusters@[k]).cluster_id@ == id;
    if k != i {
        if k < i {
            assert(m.clusters@[k].cluster_id@ != m.clusters@[i].cluster_id@);
        } else {
            assert(m.clusters@[i].cluster_id@ != m.clusters@[k].cluster_id@);
        }
    }
}

/// `b` differs from `a` only at entry `i`, which holds cluster `id` in both
/// or was appended to `a`: every other cluster keeps its backends.
proof fn lemma_backends_of_frame(a: BackendMap, b: BackendMap, i: int, id: Seq<char>)
    requires
        a.wf(),
        b.wf(),
        0 <= i < b.clusters.len(),
        b.clusters@[i].cluster_id@ == id,
        b.clusters.len() == a.clusters.len() || (b.clusters.len() == a.clusters.len() + 1 && i
            == a.clusters.len()),
        i < a.clusters.len() ==> a.clusters@[i].cluster_id@ == id,
        forall|j: int| 0 <= j < b.clusters.len() && j != i ==> b.clusters@[j] == a.clusters@[j],
    ensures
        forall|id2: Seq<char>| id2 != id ==> b.backends_of(id2) == a.backends_of(id2),
{
    assert forall|id2: Seq<char>| id2 != id implies b.backends_of(id2) == a.backends_of(id2) by {
        if has_cluster(a.clusters@, id2) {
            let j = choose|j: int| 0 <= j < a.clusters.len() && (#[trigger] a.clusters@[j]).cluster_id@ == id2;
            assert(j != i);
            assert(b.clusters@[j] == a.clusters@[j]);
            lemma_backends_of_at(a, j);
            lemma_backends_of_at(b, j);
        } else if has_cluster(b.clusters@, id2) {
            let j = choose|j: int| 0 <= j < b.clusters.len() && (#[trigger] b.clusters@[j]).cluster_id@ == id2;
            assert(j != i);
            assert(b.clusters@[j] == a.clusters@[j]);
            assert(has_cluster(a.clusters@, id2));
        }
    }
}

} // verus!
