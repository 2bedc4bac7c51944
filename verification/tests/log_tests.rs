use spx::models::LogPosition;
use spx::roles::leader::FollowerState;
use spx::sort::sort_desc;
use spx::wal::{LogEntry, WriteAheadLog};

fn entry(term: u32, slot: u32, text: &str) -> LogEntry {
    LogEntry { term, slot, entry: text.to_string(), timestamp: 100 * slot as i64 }
}

fn wal_of(entries: &[(u32, u32)]) -> WriteAheadLog {
    let mut wal = WriteAheadLog::new();
    for (term, slot) in entries {
        wal.append(entry(*term, *slot, "x"));
    }
    wal
}

#[test]
fn append_then_get_reads_back_the_entry() {
    let mut wal = WriteAheadLog::new();
    wal.append(entry(1, 3, "c"));
    wal.append(entry(1, 1, "a"));
    wal.append(entry(2, 2, "b"));
    assert_eq!(wal.len(), 3);
    let read = wal.get(2).expect("slot 2 was written");
    assert_eq!(read.entry, "b");
    assert_eq!(read.term, 2);
    assert_eq!(read.timestamp, 200);
    assert!(wal.has_entry(1));
    assert!(!wal.has_entry(4));
    assert_eq!(wal.get_term(3), Some(1));
    assert_eq!(wal.get_term(7), None);
}

#[test]
fn append_at_a_written_slot_replaces_the_entry() {
    let mut wal = WriteAheadLog::new();
    wal.append(entry(1, 5, "old"));
    wal.append(entry(4, 5, "new"));
    assert_eq!(wal.len(), 1);
    assert_eq!(wal.get(5).unwrap().entry, "new");
    assert_eq!(wal.get_term(5), Some(4));
}

#[test]
fn entries_from_a_slot_come_in_slot_order() {
    let wal = wal_of(&[(1, 4), (1, 1), (2, 9), (2, 6)]);
    let slots: Vec<u32> = wal.get_entries_from(4).iter().map(|e| e.slot).collect();
    assert_eq!(slots, vec![4, 6, 9]);
    assert!(wal.get_entries_from(10).is_empty());
    assert_eq!(wal.get_entries_from(0).len(), 4);
}

#[test]
fn truncate_keeps_only_the_slots_below() {
    let mut wal = wal_of(&[(1, 1), (1, 2), (2, 3), (2, 4)]);
    wal.truncate_from(3);
    assert_eq!(wal.len(), 2);
    assert!(wal.has_entry(1));
    assert!(wal.has_entry(2));
    assert!(!wal.has_entry(3));
    assert!(!wal.has_entry(4));
    wal.truncate_from(0);
    assert_eq!(wal.len(), 0);
}

#[test]
fn highest_and_lowest_slot_of_a_term() {
    let wal = wal_of(&[(1, 1), (2, 2), (2, 3), (2, 5), (3, 6)]);
    assert_eq!(wal.find_highest_slot_for_term(2), Some(5));
    assert_eq!(wal.find_lowest_slot_for_term(2), Some(2));
    assert_eq!(wal.find_highest_slot_for_term(4), None);
    assert_eq!(wal.find_lowest_slot_for_term(0), None);
}

#[test]
fn highest_anchor_steps_down_to_a_term_with_entries() {
    let wal = wal_of(&[(1, 1), (1, 2), (3, 3)]);
    assert_eq!(wal.find_highest_anchor(3), Some((3, 3)));
    assert_eq!(wal.find_highest_anchor(2), Some((1, 2)));
    assert_eq!(wal.find_highest_anchor(0), None);
    assert_eq!(WriteAheadLog::new().find_highest_anchor(5), None);
}

#[test]
fn log_position_from_match_slot() {
    let position = LogPosition::from_match_slot(7);
    assert_eq!(position.get_match_slot(), 7);
    assert_eq!(position.get_next_slot(), 8);
    let fresh = LogPosition::new();
    assert_eq!(fresh.get_match_slot(), 0);
    assert_eq!(fresh.get_next_slot(), 0);
}

#[test]
fn sort_desc_orders_from_the_highest() {
    assert_eq!(sort_desc(&vec![3, -1, 7, 3, 0]), vec![7, 3, 3, 0, -1]);
    assert_eq!(sort_desc(&vec![]), Vec::<i64>::new());
}

#[test]
fn acknowledging_a_slot_clears_every_batch_at_or_below_it() {
    let mut follower = FollowerState::new(LogPosition::new());
    follower.push_batch(5, 10);
    follower.push_batch(3, 20);
    follower.push_batch(8, 30);
    follower.ack_batches_up_to(4);
    let left: Vec<u32> = follower.in_flight_batches.iter().map(|b| b.highest_slot).collect();
    assert_eq!(left, vec![5, 8]);
    follower.ack_batches_up_to(8);
    assert!(follower.in_flight_batches.is_empty());
}

#[test]
fn a_truncated_tail_reads_as_empty() {
    let mut wal = wal_of(&[(1, 1), (1, 2), (2, 3)]);
    wal.truncate_from(2);
    assert!(wal.get_entries_from(2).is_empty());
    assert_eq!(wal.get_term(1), Some(1));
    assert_eq!(wal.get_term(2), None);
    wal.truncate_from(2);
    assert_eq!(wal.len(), 1);
}
