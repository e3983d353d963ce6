use sozu_core::event_loop::{poll_timeout, soft_stop_complete, ReadyQueue};

#[test]
fn ready_queue_is_fifo_and_bounded() {
    let mut q = ReadyQueue::new();
    for t in [5, 3, 5, 9, 1, 3] {
        q.push(t);
    }
    assert_eq!(q.tokens, vec![5, 3, 9, 1]);
    assert_eq!(q.take_batch(3), vec![5, 3, 9]);
    assert_eq!(q.tokens, vec![1]);
    q.push(5);
    assert_eq!(q.take_batch(10), vec![1, 5]);
    assert!(q.tokens.is_empty());
    assert!(q.take_batch(4).is_empty());
}

#[test]
fn poll_timeout_follows_nearest_deadline() {
    assert_eq!(poll_timeout(&vec![], 100, 1000), 1000);
    assert_eq!(poll_timeout(&vec![400, 250, 5000], 100, 1000), 150);
    assert_eq!(poll_timeout(&vec![400, 90], 100, 1000), 0);
    assert_eq!(poll_timeout(&vec![5000], 100, 1000), 1000);
}

#[test]
fn soft_stop_ends_with_last_session() {
    assert!(!soft_stop_complete(true, 2));
    assert!(soft_stop_complete(true, 0));
    assert!(!soft_stop_complete(false, 0));
}
