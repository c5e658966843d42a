use sealring::chain::anchor::{Anchor, NoAnchor};
use sealring::chain::checkpoint::{CheckpointRing, Slot};
use sealring::chain::position::{BlockRef, Position};
use sealring::chain::source::ReplayHorizon;

#[test]
fn position_order_is_block_then_log_index() {
    let mut positions = [
        Position::new(2, 0),
        Position::new(1, 5),
        Position::new(1, 1),
        Position::new(2, 3),
    ];
    positions.sort();
    assert_eq!(
        positions,
        [
            Position::new(1, 1),
            Position::new(1, 5),
            Position::new(2, 0),
            Position::new(2, 3),
        ]
    );
}

#[test]
fn partial_cmp_agrees_with_ord() {
    let a = Position::new(3, 9);
    let b = Position::new(4, 0);
    assert!(a < b);
    assert_eq!(a.partial_cmp(&b), Some(a.cmp(&b)));
    assert_eq!(b.partial_cmp(&a), Some(std::cmp::Ordering::Greater));
    assert_eq!(a.partial_cmp(&a), Some(std::cmp::Ordering::Equal));
    assert!(Position::new(4, 1) > Position::new(4, 0));
}

fn slot(tag: u32, cursor: Option<u64>) -> Slot<u32> {
    Slot { fold: tag, cursor: cursor.map(|b| Position::new(b, 0)) }
}

#[test]
fn new_ring_is_empty() {
    let ring = CheckpointRing::<u32>::new(3);
    assert_eq!(ring.count(), 0);
    assert!(ring.oldest().is_none());
    assert!(ring.best_at_or_below(u64::MAX).is_none());
}

#[test]
fn store_overwrites_oldest_when_full() {
    let mut ring = CheckpointRing::<u32>::new(2);
    ring.store(slot(1, Some(10)));
    ring.store(slot(2, Some(20)));
    assert_eq!(ring.count(), 2);
    assert_eq!(ring.oldest().unwrap().fold, 1);
    ring.store(slot(3, Some(30)));
    assert_eq!(ring.count(), 2);
    assert_eq!(ring.oldest().unwrap().fold, 2);
    assert_eq!(ring.best_at_or_below(u64::MAX).unwrap().fold, 3);
}

#[test]
fn best_at_or_below_is_newest_qualifying() {
    let mut ring = CheckpointRing::<u32>::new(4);
    ring.store(slot(1, Some(10)));
    ring.store(slot(2, Some(20)));
    ring.store(slot(3, Some(30)));
    assert_eq!(ring.best_at_or_below(25).unwrap().fold, 2);
    assert_eq!(ring.best_at_or_below(30).unwrap().fold, 3);
    assert_eq!(ring.best_at_or_below(10).unwrap().fold, 1);
    assert!(ring.best_at_or_below(9).is_none());
}

#[test]
fn empty_cursor_slots_always_qualify() {
    let mut ring = CheckpointRing::<u32>::new(3);
    ring.store(slot(1, None));
    ring.store(slot(2, Some(50)));
    assert_eq!(ring.best_at_or_below(0).unwrap().fold, 1);
}

#[test]
fn drop_above_removes_only_later_cursors() {
    let mut ring = CheckpointRing::<u32>::new(4);
    ring.store(slot(1, Some(10)));
    ring.store(slot(2, None));
    ring.store(slot(3, Some(30)));
    ring.drop_above(15);
    assert_eq!(ring.count(), 2);
    assert_eq!(ring.best_at_or_below(15).unwrap().fold, 2);
    assert_eq!(ring.oldest().unwrap().fold, 1);
}

#[test]
fn clear_empties_every_slot() {
    let mut ring = CheckpointRing::<u32>::new(3);
    ring.store(slot(1, Some(1)));
    ring.store(slot(2, Some(2)));
    ring.clear();
    assert_eq!(ring.count(), 0);
    assert!(ring.oldest().is_none());
    ring.store(slot(7, Some(7)));
    assert_eq!(ring.oldest().unwrap().fold, 7);
}

#[test]
fn zero_slot_ring_stores_nothing() {
    let mut ring = CheckpointRing::<u32>::new(0);
    ring.store(slot(1, Some(1)));
    assert_eq!(ring.count(), 0);
    assert!(ring.oldest().is_none());
    assert!(ring.best_at_or_below(5).is_none());
}

#[test]
fn oldest_wraps_past_dropped_slots() {
    let mut ring = CheckpointRing::<u32>::new(3);
    ring.store(slot(1, Some(50)));
    ring.store(slot(2, Some(5)));
    ring.store(slot(3, Some(6)));
    ring.store(slot(4, Some(7)));
    // slots now hold 4 (oldest overwritten), 2, 3; the next write goes to index 1.
    ring.drop_above(5);
    assert_eq!(ring.oldest().unwrap().fold, 2);
    assert_eq!(ring.count(), 1);
}

#[test]
fn no_anchor_has_no_expectation() {
    let anchor = NoAnchor::<u64>::default();
    let at = BlockRef { number: 7, hash: [0u8; 32] };
    assert_eq!(anchor.expected(&at), None);
}

#[test]
fn replay_horizon_variants_compare() {
    assert_eq!(ReplayHorizon::FromBlock(5), ReplayHorizon::FromBlock(5));
    assert_ne!(ReplayHorizon::Genesis, ReplayHorizon::FromBlock(0));
}

#[test]
fn count_after_stores_is_min_of_stores_and_slots() {
    let mut ring = CheckpointRing::<u32>::new(3);
    for n in 1..=5u32 {
        ring.store(slot(n, Some(n as u64)));
        assert_eq!(ring.count(), (n as usize).min(3));
    }
    assert_eq!(ring.oldest().unwrap().fold, 3);
}

#[test]
fn drop_above_keeps_best_and_is_idempotent() {
    let mut ring = CheckpointRing::<u32>::new(4);
    ring.store(slot(1, Some(10)));
    ring.store(slot(2, Some(40)));
    ring.store(slot(3, Some(20)));
    ring.store(slot(4, Some(50)));
    let before = ring.best_at_or_below(25).unwrap().fold;
    ring.drop_above(25);
    assert_eq!(ring.best_at_or_below(25).unwrap().fold, before);
    assert_eq!(before, 3);
    let count = ring.count();
    ring.drop_above(25);
    assert_eq!(ring.count(), count);
    assert_eq!(count, 2);
}
