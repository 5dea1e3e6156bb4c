use raft_core::raft_types::LogId;
use raft_core::raft_types::LogIdOptionExt;
use raft_core::raft_types::LogIndexOptionExt;
use raft_core::raft_types::SnapshotSegmentId;
use raft_core::raft_types::Update;

#[test]
fn log_id_new_keeps_term_and_index() {
    let id = LogId::new(3, 7);
    assert_eq!(id.term, 3);
    assert_eq!(id.index, 7);
}

#[test]
fn log_id_sentinel_is_zero_zero() {
    let id = LogId::new(0, 0);
    assert_eq!(id, LogId::default());
}

#[test]
fn log_id_orders_lexicographically() {
    assert!(LogId::new(1, 9) < LogId::new(2, 1));
    assert!(LogId::new(2, 1) < LogId::new(2, 2));
}

#[test]
fn log_id_display_string() {
    assert_eq!(LogId::new(7, 42).display_string(), "7-42");
    assert_eq!(LogId::new(0, 0).display_string(), "0-0");
}

#[test]
fn option_log_id_index_and_next() {
    let none: Option<LogId> = None;
    assert_eq!(none.index(), None);
    assert_eq!(none.next_index(), 0);
    let some = Some(LogId::new(2, 5));
    assert_eq!(some.index(), Some(5));
    assert_eq!(some.next_index(), 6);
}

#[test]
fn option_index_next_prev_add() {
    let none: Option<u64> = None;
    assert_eq!(none.next_index(), 0);
    assert_eq!(Some(4u64).next_index(), 5);
    assert_eq!(Some(0u64).prev_index(), None);
    assert_eq!(Some(5u64).prev_index(), Some(4));
    assert_eq!(none.add(0), None);
    assert_eq!(none.add(3), Some(2));
    assert_eq!(Some(5u64).add(3), Some(8));
}

#[test]
fn snapshot_segment_id_from_pair() {
    let seg = SnapshotSegmentId::from(("snap".to_string(), 3));
    assert_eq!(seg.id, "snap");
    assert_eq!(seg.offset, 3);
    assert_eq!(seg.display_string(), "snap+3");
}

#[test]
fn update_compares_by_payload() {
    assert_eq!(Update::Update(3u64), Update::Update(3u64));
    assert_ne!(Update::Update(3u64), Update::AsIs);
    let u = Update::Update("x".to_string());
    assert_eq!(u.clone(), u);
}

#[test]
fn log_id_from_pair() {
    let id = LogId::from((4u64, 9u64));
    assert_eq!(id, LogId::new(4, 9));
}
