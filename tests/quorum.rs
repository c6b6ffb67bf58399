use kek::quorum::QuorumTracker;

#[test]
fn quorum_of_five_reached_on_third_ack() {
    let mut q = QuorumTracker::new(5);
    let results: Vec<bool> = (0..5).map(|r| q.record_ack(0, 1, r)).collect();
    assert_eq!(results, vec![false, false, true, false, false]);
}

#[test]
fn repeated_ack_counts_once() {
    let mut q = QuorumTracker::new(5);
    assert!(!q.record_ack(0, 1, 4));
    assert!(!q.record_ack(0, 1, 4));
    assert!(!q.record_ack(0, 1, 2));
    assert!(!q.record_ack(0, 1, 2));
    assert!(q.record_ack(0, 1, 0));
    assert!(!q.record_ack(0, 1, 0));
    assert!(!q.record_ack(0, 1, 1));
}

#[test]
fn keys_are_counted_apart() {
    let mut q = QuorumTracker::new(3);
    assert!(!q.record_ack(0, 1, 0));
    assert!(!q.record_ack(0, 2, 0));
    assert!(!q.record_ack(1, 1, 1));
    assert!(q.record_ack(0, 2, 1));
    assert!(q.record_ack(0, 1, 2));
    assert!(!q.record_ack(0, 1, 1));
}

#[test]
fn single_replica_quorum_is_one() {
    let mut q = QuorumTracker::new(1);
    assert!(q.record_ack(0, 1, 0));
    assert!(!q.record_ack(0, 1, 0));
}
