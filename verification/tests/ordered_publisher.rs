//! The ordered publisher: in-order forwarding, gap buffering, gap
//! filling and late-duplicate dropping.

use indexer_core::queue::{flatten_groups_ascending, OrderedChannel};

#[test]
fn in_order_stream_forwards_immediately() {
    // P6: batches 5, 6, 7 with initial index 5 leave at once, in order
    let mut ch: OrderedChannel<&str> = OrderedChannel::new();
    assert_eq!(ch.on_batch(5, vec!["a"]), vec!["a"]);
    assert_eq!(ch.on_batch(6, vec!["b"]), vec!["b"]);
    assert_eq!(ch.on_batch(7, vec!["c"]), vec!["c"]);
    assert_eq!(ch.next_expected(), Some(8));
    assert_eq!(ch.pending_batch_count(), 0);
}

#[test]
fn gap_is_buffered_then_filled() {
    // P7: 5, 7, 6, 8 yields a, b, c, d; nothing leaves while the gap is open
    let mut ch: OrderedChannel<&str> = OrderedChannel::new();
    assert_eq!(ch.on_batch(5, vec!["a"]), vec!["a"]);
    assert_eq!(ch.on_batch(7, vec!["c"]), Vec::<&str>::new());
    assert_eq!(ch.pending_batch_count(), 1);
    assert_eq!(ch.on_batch(6, vec!["b"]), vec!["b", "c"]);
    assert_eq!(ch.on_batch(8, vec!["d"]), vec!["d"]);
    assert_eq!(ch.next_expected(), Some(9));
    assert_eq!(ch.pending_batch_count(), 0);
}

#[test]
fn late_duplicate_is_dropped() {
    // P8: after forwarding through 6, a batch for 5 is silently discarded
    let mut ch: OrderedChannel<&str> = OrderedChannel::new();
    assert_eq!(ch.on_batch(5, vec!["a"]), vec!["a"]);
    assert_eq!(ch.on_batch(6, vec!["b"]), vec!["b"]);
    assert_eq!(ch.on_batch(5, vec!["stale"]), Vec::<&str>::new());
    assert_eq!(ch.next_expected(), Some(7));
    assert_eq!(ch.pending_batch_count(), 0);
}

#[test]
fn uninitialized_channel_reorders_from_first_batch() {
    // S4: inputs (100, [m1]), (102, [m3]), (101, [m2]); emission m1, m2, m3
    let mut ch: OrderedChannel<u32> = OrderedChannel::new();
    assert_eq!(ch.next_expected(), None);
    let mut emitted: Vec<u32> = Vec::new();
    emitted.extend(ch.on_batch(100, vec![1]));
    emitted.extend(ch.on_batch(102, vec![3]));
    emitted.extend(ch.on_batch(101, vec![2]));
    assert_eq!(emitted, vec![1, 2, 3]);
    assert_eq!(ch.next_expected(), Some(103));
}

#[test]
fn batches_for_the_same_gap_sequence_merge() {
    let mut ch: OrderedChannel<u32> = OrderedChannel::new();
    assert_eq!(ch.on_batch(1, vec![10]), vec![10]);
    assert_eq!(ch.on_batch(3, vec![31]), Vec::<u32>::new());
    assert_eq!(ch.on_batch(3, vec![32]), Vec::<u32>::new());
    assert_eq!(ch.pending_batch_count(), 1);
    assert_eq!(ch.on_batch(2, vec![20]), vec![20, 31, 32]);
    assert_eq!(ch.next_expected(), Some(4));
}

#[test]
fn long_consecutive_run_drains_in_order() {
    let mut ch: OrderedChannel<u64> = OrderedChannel::new();
    assert_eq!(ch.on_batch(10, vec![0]), vec![0]);
    for seq in [14u64, 12, 13, 15].iter() {
        assert_eq!(ch.on_batch(*seq, vec![*seq]), Vec::<u64>::new());
    }
    assert_eq!(ch.pending_batch_count(), 4);
    assert_eq!(ch.on_batch(11, vec![11]), vec![11, 12, 13, 14, 15]);
    assert_eq!(ch.next_expected(), Some(16));
    assert_eq!(ch.pending_batch_count(), 0);
}

#[test]
fn notification_groups_flatten_by_ascending_inner_key() {
    let groups = vec![
        (2u64, vec!["b".to_string()]),
        (1, vec!["a".to_string()]),
        (2, vec!["c".to_string()]),
        (3, vec!["d".to_string()]),
    ];
    let flat = flatten_groups_ascending(groups);
    assert_eq!(flat, vec!["a", "b", "c", "d"]);
}
