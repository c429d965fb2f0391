use xsk_engine::RingQueue;

#[test]
fn produce_accepts_up_to_free_slots() {
    let mut ring = RingQueue::new(4);
    let n = ring.produce(&vec![10, 20, 30]);
    assert_eq!(n, 3);
    assert_eq!(ring.len(), 3);
    // Only one slot is left: partial acceptance, not an error.
    let n = ring.produce(&vec![40, 50]);
    assert_eq!(n, 1);
    assert_eq!(ring.len(), 4);
    // A full ring accepts nothing.
    let n = ring.produce(&vec![60]);
    assert_eq!(n, 0);
}

#[test]
fn consume_returns_oldest_first() {
    let mut ring = RingQueue::new(4);
    ring.produce(&vec![1, 2, 3]);
    let got = ring.consume(2);
    assert_eq!(got, vec![1, 2]);
    let got = ring.consume(10);
    assert_eq!(got, vec![3]);
    // An empty ring yields an empty batch, not an error.
    let got = ring.consume(10);
    assert!(got.is_empty());
}

#[test]
fn ring_wraps_around() {
    let mut ring = RingQueue::new(3);
    ring.produce(&vec![1, 2, 3]);
    assert_eq!(ring.consume(2), vec![1, 2]);
    // The producer index wraps past the buffer end.
    assert_eq!(ring.produce(&vec![4, 5]), 2);
    assert_eq!(ring.consume(10), vec![3, 4, 5]);
    for round in 0..10u64 {
        assert_eq!(ring.produce(&vec![round, round + 1]), 2);
        assert_eq!(ring.consume(10), vec![round, round + 1]);
    }
}

#[test]
fn wakeup_protocol() {
    let mut ring = RingQueue::new(2);
    assert!(!ring.needs_wakeup());
    ring.set_needs_wakeup(true);
    assert!(ring.needs_wakeup());
    ring.wakeup();
    assert!(!ring.needs_wakeup());
}

#[test]
fn try_push_and_pop_front() {
    let mut ring = RingQueue::new(2);
    assert!(ring.try_push(7));
    assert!(ring.try_push(8));
    assert!(!ring.try_push(9));
    assert_eq!(ring.pop_front(), Some(7));
    assert_eq!(ring.pop_front(), Some(8));
    assert_eq!(ring.pop_front(), None);
}
