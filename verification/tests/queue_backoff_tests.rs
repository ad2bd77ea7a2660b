use krpc::backoff::Backoff;
use krpc::queue_map::QueueMap;

#[test]
fn queue_map_pop_follows_insertion_order() {
    let mut q: QueueMap<&'static str> = QueueMap::new();
    q.insert(10, "a");
    q.insert(11, "b");
    q.insert(12, "c");
    assert_eq!(q.len(), 3);
    assert_eq!(q.pop(), Some((10, "a")));
    assert_eq!(q.pop(), Some((11, "b")));
    assert_eq!(q.pop(), Some((12, "c")));
    assert_eq!(q.pop(), None);
}

#[test]
fn queue_map_order_survives_middle_removal() {
    let mut q: QueueMap<u32> = QueueMap::new();
    q.insert(0, 100);
    q.insert(1, 101);
    q.insert(2, 102);
    q.insert(3, 103);
    assert_eq!(q.remove(1), Some(101));
    assert_eq!(q.remove(1), None);
    assert!(!q.contains_id(1));
    assert!(q.contains_id(2));
    assert_eq!(q.pop(), Some((0, 100)));
    assert_eq!(q.pop(), Some((2, 102)));
    assert_eq!(q.pop(), Some((3, 103)));
    assert_eq!(q.pop(), None);
}

#[test]
fn queue_map_interleaved_ops_drain_in_order() {
    let mut q: QueueMap<u32> = QueueMap::new();
    q.insert(0, 0);
    q.insert(1, 1);
    assert_eq!(q.pop(), Some((0, 0)));
    q.insert(2, 2);
    q.insert(3, 3);
    assert_eq!(q.remove(2), Some(2));
    q.insert(4, 4);
    let drained = q.drain();
    assert_eq!(drained, vec![(1, 1), (3, 3), (4, 4)]);
    assert_eq!(q.len(), 0);
    assert!(q.is_empty());
}

#[test]
fn backoff_grows_and_is_bounded() {
    let mut backoff = Backoff::with_duration_range(10, 30000);
    let mut previous: u64 = 0;
    let mut period: u64 = 10;
    for _ in 0..13 {
        let delay = backoff.next_backoff_ms();
        // Each delay carries at most half its period of jitter.
        assert!(delay >= period);
        assert!(delay < period + period / 2 + 1);
        // Delays do not shrink while the period still doubles freely.
        if period * 2 <= 30000 {
            assert!(delay >= previous);
        }
        previous = delay;
        period = if period * 2 <= 30000 { period * 2 } else { 30000 };
    }
    assert_eq!(backoff.current_ms, 30000);
}

#[test]
fn backoff_reset_restores_initial_period() {
    let mut backoff = Backoff::with_duration_range(10, 30000);
    for _ in 0..6 {
        backoff.next_backoff_ms();
    }
    assert!(backoff.current_ms > 10);
    backoff.reset();
    assert_eq!(backoff.current_ms, 10);
    let delay = backoff.next_backoff_ms();
    assert!(delay >= 10 && delay < 15);
}
