use sozu_core::backend::{Backend, BackendError, BackendStatus, EventKind, MAX_TRIES};
use sozu_core::backends::{BackendMap, SelectError};
use sozu_core::load_balancing::{BackendList, LoadBalancingAlgorithms, Removal};
use sozu_core::peak_ewma::{PeakEWMA, DEFAULT_DECAY, DEFAULT_RTT, WEIGHT_ONE};
use sozu_core::retry::{ExponentialBackoffPolicy, RetryAction, BACKOFF_BASE, BACKOFF_MAX};

fn backend(id: &str, address: &str) -> Backend {
    Backend::new(id, address.to_string(), None, None, None, 0)
}

#[test]
fn new_backend_is_normal_and_empty() {
    let b = backend("b1", "127.0.0.1:9000");
    assert_eq!(b.status, BackendStatus::Normal);
    assert_eq!(b.active_connections, 0);
    assert_eq!(b.failures, 0);
    assert!(!b.backup);
    assert_eq!(b.retry_policy.max_tries, MAX_TRIES);
    assert_eq!(b.connection_time.rtt, DEFAULT_RTT);
    assert_eq!(b.connection_time.decay, DEFAULT_DECAY);
    assert!(b.can_open(0));
}

#[test]
fn lifecycle_normal_closing_closed() {
    let mut b = backend("b1", "a");
    assert_eq!(b.inc_connections(), Some(1));
    assert_eq!(b.inc_connections(), Some(2));
    b.set_closing();
    assert_eq!(b.status, BackendStatus::Closing);
    assert!(!b.can_open(0));
    assert_eq!(b.inc_connections(), None);
    assert_eq!(b.dec_connections(), Some(1));
    assert_eq!(b.dec_connections(), None);
    assert_eq!(b.status, BackendStatus::Closed);
    // a closed backend stays closed
    b.set_closing();
    assert_eq!(b.status, BackendStatus::Closed);
    assert_eq!(b.dec_connections(), None);
    assert_eq!(b.active_connections, 0);
    assert!(!b.can_open(0));
}

#[test]
fn dec_connections_never_goes_below_zero() {
    let mut b = backend("b1", "a");
    assert_eq!(b.dec_connections(), Some(0));
    assert_eq!(b.active_connections, 0);
}

#[test]
fn backoff_doubles_and_saturates() {
    let mut p = ExponentialBackoffPolicy::new(100);
    p.fail(0);
    assert_eq!(p.wait, BACKOFF_BASE);
    p.fail(0);
    assert_eq!(p.wait, 2 * BACKOFF_BASE);
    for _ in 0..20 {
        p.fail(0);
    }
    assert_eq!(p.wait, BACKOFF_MAX);
    p.succeed(5);
    assert_eq!(p.wait, 0);
    assert_eq!(p.current_tries, 0);
    assert_eq!(p.can_try(5), RetryAction::OKAY);
}

#[test]
fn backoff_gives_up_after_max_tries() {
    let mut p = ExponentialBackoffPolicy::new(2);
    p.fail(0);
    p.fail(0);
    assert!(p.is_down());
    assert_eq!(p.can_try(u64::MAX), RetryAction::GiveUp);
}

#[test]
fn retry_backoff_scenario() {
    // the backend refuses three consecutive connections
    let mut b = backend("b1", "127.0.0.1:9000");
    let s = 1_000_000_000u64;
    assert_eq!(b.try_connect(false, 10 * s), Err(BackendError::ConnectFailed));
    assert_eq!(b.try_connect(false, 11 * s), Err(BackendError::ConnectFailed));
    assert_eq!(b.try_connect(false, 12 * s), Err(BackendError::ConnectFailed));
    assert_eq!(b.failures, 3);
    assert_eq!(b.retry_policy.wait, 4 * s);
    assert_eq!(b.retry_policy.can_try(13 * s), RetryAction::Wait(3 * s));
    assert!(!b.can_open(13 * s));
    // selection skips it
    let mut list = BackendList::new(LoadBalancingAlgorithms::RoundRobin);
    list.add_backend(b);
    assert_eq!(list.next_round_robin(13 * s), None);
    // after the wait a probe succeeds; failures stay until a full success
    assert!(list.backends[0].can_open(16 * s));
    assert_eq!(list.next_round_robin(16 * s), Some(0));
    assert_eq!(list.backends[0].try_connect(true, 16 * s), Ok(1));
    assert_eq!(list.backends[0].failures, 3);
    list.backends[0].mark_success(17 * s);
    assert_eq!(list.backends[0].failures, 0);
    assert_eq!(list.backends[0].retry_policy.can_try(17 * s), RetryAction::OKAY);
}

#[test]
fn try_connect_on_closing_backend_is_refused() {
    let mut b = backend("b1", "a");
    b.set_closing();
    assert_eq!(b.try_connect(true, 0), Err(BackendError::NotNormal));
    assert_eq!(b.active_connections, 0);
}

#[test]
fn peak_ewma_burst_raises_at_once() {
    let mut e = PeakEWMA::new(0);
    e.observe(DEFAULT_RTT * 3, 10, WEIGHT_ONE / 2);
    assert_eq!(e.rtt, DEFAULT_RTT * 3);
    assert_eq!(e.last_event, 10);
}

#[test]
fn peak_ewma_no_elapsed_time_keeps_estimate() {
    let mut e = PeakEWMA::new(100);
    e.observe(0, 100, 0);
    assert_eq!(e.rtt, DEFAULT_RTT);
    e.observe(0, 100, 0);
    assert_eq!(e.rtt, DEFAULT_RTT);
}

#[test]
fn peak_ewma_blends_lower_samples() {
    let mut e = PeakEWMA { decay: DEFAULT_DECAY, rtt: 1000, last_event: 0 };
    // half weight: (1000 + 0) / 2
    e.observe(0, 1, WEIGHT_ONE / 2);
    assert_eq!(e.rtt, 500);
    // a quarter weight: 500/4 + 100*3/4 = 200
    e.observe(100, 2, WEIGHT_ONE / 4);
    assert_eq!(e.rtt, 200);
}

#[test]
fn peak_ewma_cost_counts_requests() {
    let mut e = PeakEWMA { decay: DEFAULT_DECAY, rtt: 1000, last_event: 5 };
    assert_eq!(e.get(2, 5, 0), 3000);
    let mut b = backend("b", "a");
    b.active_requests = 1;
    assert_eq!(b.peak_ewma_connection(0, WEIGHT_ONE), 2 * DEFAULT_RTT as u128);
}

#[test]
fn round_robin_visits_each_once_per_cycle() {
    let mut list = BackendList::new(LoadBalancingAlgorithms::RoundRobin);
    for id in ["a", "b", "c"] {
        list.add_backend(backend(id, id));
    }
    let picks: Vec<usize> = (0..6).map(|_| list.next_round_robin(0).unwrap()).collect();
    assert_eq!(picks, vec![0, 1, 2, 0, 1, 2]);
}

#[test]
fn round_robin_skips_ineligible_backend() {
    let mut list = BackendList::new(LoadBalancingAlgorithms::RoundRobin);
    for id in ["a", "b", "c"] {
        list.add_backend(backend(id, id));
    }
    assert_eq!(list.next_round_robin(0), Some(0));
    list.backends[1].set_closing();
    assert_eq!(list.next_round_robin(0), Some(2));
    assert_eq!(list.next_round_robin(0), Some(0));
    assert_eq!(list.next_round_robin(0), Some(2));
}

#[test]
fn backups_only_when_no_primary() {
    let mut list = BackendList::new(LoadBalancingAlgorithms::RoundRobin);
    list.add_backend(Backend::new("p", "p".to_string(), None, None, None, 0));
    list.add_backend(Backend::new("s", "s".to_string(), None, None, Some(true), 0));
    assert_eq!(list.next_round_robin(0), Some(0));
    assert_eq!(list.next_round_robin(0), Some(0));
    list.backends[0].set_closing();
    assert_eq!(list.next_round_robin(0), Some(1));
}

#[test]
fn least_loaded_picks_lowest_cost_then_smallest_id() {
    let mut list = BackendList::new(LoadBalancingAlgorithms::LeastLoaded);
    list.add_backend(backend("zeta", "1"));
    list.add_backend(backend("alpha", "2"));
    list.add_backend(backend("mid", "3"));
    // equal costs: smallest identifier
    assert_eq!(list.next_least_loaded(0), Some(1));
    list.backends[1].active_requests = 4;
    // now zeta and mid cost the same, mid < zeta
    assert_eq!(list.next_least_loaded(0), Some(2));
    list.backends[0].connection_time.rtt = 1;
    assert_eq!(list.next_least_loaded(0), Some(0));
}

#[test]
fn random_picks_an_eligible_backend() {
    let mut list = BackendList::new(LoadBalancingAlgorithms::Random);
    for id in ["a", "b", "c", "d"] {
        list.add_backend(backend(id, id));
    }
    list.backends[0].set_closing();
    list.backends[2].set_closing();
    let mut seen = [false; 4];
    for _ in 0..200 {
        let i = list.next_random(0).unwrap();
        assert!(i == 1 || i == 3);
        seen[i] = true;
    }
    assert!(seen[1] && seen[3]);
    list.backends[1].set_closing();
    list.backends[3].set_closing();
    assert_eq!(list.next_random(0), None);
}

#[test]
fn sticky_session_goes_to_matching_backend() {
    let mut list = BackendList::new(LoadBalancingAlgorithms::RoundRobin);
    list.add_backend(Backend::new("b0", "x".to_string(), Some("B0".to_string()), None, None, 0));
    list.add_backend(Backend::new("b1", "y".to_string(), Some("B1".to_string()), None, None, 0));
    for _ in 0..3 {
        assert_eq!(list.next_available_backend(Some("B1"), 0), Some(1));
    }
    // while it is not eligible, the cluster's strategy picks
    list.backends[1].set_closing();
    assert_eq!(list.next_available_backend(Some("B1"), 0), Some(0));
    assert_eq!(list.next_available_backend(Some("unknown"), 0), Some(0));
}

#[test]
fn add_backend_updates_existing_entry() {
    let mut list = BackendList::new(LoadBalancingAlgorithms::RoundRobin);
    assert_eq!(list.add_backend(backend("b", "addr")), None);
    list.backends[0].inc_connections();
    let updated = Backend::new("b", "addr".to_string(), Some("S".to_string()), None, Some(true), 0);
    assert_eq!(list.add_backend(updated), Some(0));
    assert_eq!(list.backends.len(), 1);
    assert_eq!(list.backends[0].sticky_id.as_deref(), Some("S"));
    assert!(list.backends[0].backup);
    assert_eq!(list.backends[0].active_connections, 1);
    assert_eq!(list.add_backend(backend("b", "other")), None);
    assert_eq!(list.backends.len(), 2);
}

#[test]
fn removal_with_inflight_request_announces_once() {
    let mut map = BackendMap::new();
    map.add_backend("c1", backend("b1", "127.0.0.1:9000"));
    assert_eq!(map.backend_from_cluster_id("c1", None, 0), Ok(0));
    assert_eq!(map.record_connect("c1", 0, true, 0), Ok(1));
    match map.remove_backend("c1", "b1") {
        Removal::Draining => {}
        other => panic!("unexpected {:?}", other),
    }
    // later requests find no backend
    assert_eq!(map.backend_from_cluster_id("c1", None, 0), Err(SelectError::NoBackendAvailable));
    // the in-flight request completes: the removal is announced once
    let e = map.release_connection("c1", 0).expect("event");
    assert_eq!(e.kind, EventKind::RemovedBackendHasNoConnections);
    assert_eq!(e.backend_id.as_deref(), Some("b1"));
    assert_eq!(e.address.as_deref(), Some("127.0.0.1:9000"));
    assert!(map.release_connection("c1", 0).is_none());
    assert!(map.release_connection("c1", 0).is_none());
}

#[test]
fn removal_without_connections_is_immediate() {
    let mut map = BackendMap::new();
    map.add_backend("c1", backend("b1", "a"));
    match map.remove_backend("c1", "b1") {
        Removal::Removed(e) => assert_eq!(e.kind, EventKind::RemovedBackendHasNoConnections),
        other => panic!("unexpected {:?}", other),
    }
    match map.remove_backend("c1", "b1") {
        Removal::NotFound => {}
        other => panic!("unexpected {:?}", other),
    }
    match map.remove_backend("nope", "b1") {
        Removal::NotFound => {}
        other => panic!("unexpected {:?}", other),
    }
}

#[test]
fn selection_errors() {
    let mut map = BackendMap::new();
    assert_eq!(map.backend_from_cluster_id("c1", None, 0), Err(SelectError::NoCluster));
    map.set_load_balancing("c1", LoadBalancingAlgorithms::RoundRobin);
    assert_eq!(map.backend_from_cluster_id("c1", None, 0), Err(SelectError::NoBackendAvailable));
    assert_eq!(map.record_connect("c1", 3, true, 0), Err(BackendError::Unknown));
    assert!(!map.mark_success("c1", 0, 0));
}

#[test]
fn record_connect_limits_and_failures() {
    let mut map = BackendMap::new();
    map.add_backend("c1", backend("b1", "a"));
    assert_eq!(map.record_connect("c1", 0, false, 0), Err(BackendError::ConnectFailed));
    assert_eq!(map.clusters[0].list.backends[0].failures, 1);
    assert!(map.mark_success("c1", 0, 1));
    assert_eq!(map.clusters[0].list.backends[0].failures, 0);
    map.clusters[0].list.backends[0].active_connections = usize::MAX;
    assert_eq!(map.record_connect("c1", 0, true, 2), Err(BackendError::TooManyConnections));
}


#[test]
fn retry_policy_accessor_gives_the_backend_policy() {
    let mut b = backend("b1", "a");
    *b.retry_policy() = ExponentialBackoffPolicy::new(1);
    b.retry_policy().fail(0);
    assert_eq!(b.retry_policy.max_tries, 1);
    assert!(b.retry_policy.is_down());
    assert!(!b.can_open(u64::MAX));
}

#[test]
fn try_connect_at_counter_limit_is_refused() {
    let mut b = backend("b1", "a");
    b.active_connections = usize::MAX;
    assert_eq!(b.try_connect(true, 0), Err(BackendError::TooManyConnections));
    assert_eq!(b.active_connections, usize::MAX);
    assert_eq!(b.failures, 0);
    assert_eq!(b.try_connect(false, 0), Err(BackendError::ConnectFailed));
    assert_eq!(b.failures, 1);
}

#[test]
fn nth_selectable_counts_in_list_order() {
    let mut list = BackendList::new(LoadBalancingAlgorithms::Random);
    for id in ["a", "b", "c", "d"] {
        list.add_backend(backend(id, id));
    }
    list.backends[1].set_closing();
    assert_eq!(list.selectable_count(0), 3);
    assert_eq!(list.nth_selectable(0, 0), Some(0));
    assert_eq!(list.nth_selectable(1, 0), Some(2));
    assert_eq!(list.nth_selectable(2, 0), Some(3));
    assert_eq!(list.nth_selectable(3, 0), None);
}

#[test]
fn registry_selection_follows_the_strategy() {
    let mut map = BackendMap::new();
    map.set_load_balancing("c1", LoadBalancingAlgorithms::RoundRobin);
    for id in ["a", "b", "c"] {
        map.add_backend("c1", backend(id, id));
    }
    let picks: Vec<usize> = (0..4).map(|_| map.backend_from_cluster_id("c1", None, 0).unwrap()).collect();
    assert_eq!(picks, vec![0, 1, 2, 0]);
}
