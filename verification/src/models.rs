//! Log entries held in memory until committed, and a member's replication position.
use crate::slot_log::SlotEntry;
use vstd::prelude::*;

verus! {

/// A log entry that has been persisted but not yet committed.
pub struct LogEntry {
    /// The term number when the leader originally proposed this write.
    pub term: u32,
    /// The slot number of this entry in the append-only log.
    pub slot: u32,
    /// The actual database command or mutation.
    pub entry: String,
}

impl Clone for LogEntry {
    fn clone(&self) -> (r: Self)
        ensures
            r == *self,
    {
        LogEntry { term: self.term, slot: self.slot, entry: self.entry.clone() }
    }
}

impl SlotEntry for LogEntry {
    open spec fn slot_of(&self) -> u32 {
        self.slot
    }

    open spec fn term_of(&self) -> u32 {
        self.term
    }

    fn slot(&self) -> (r: u32) {
        self.slot
    }

    fn term(&self) -> (r: u32) {
        self.term
    }

    fn duplicate(&self) -> (r: Self) {
        self.clone()
    }
}

/// Tracks a group member's log positions as seen by the leader.
#[derive(Clone, Copy)]
pub struct LogPosition {
    /// The slot of the last log entry known to be persisted in the member's log.
    pub match_slot: u32,
    /// The slot of the next log entry to send to the member.
    pub next_slot: u32,
    /// The highest slot already sent to the member and not yet known to be persisted.
    pub sent_slot: u32,
}

impl LogPosition {
    /// A position at the start of the log.
    pub fn new() -> (r: Self)
        ensures
            r.match_slot == 0,
            r.next_slot == 0,
            r.sent_slot == 0,
    {
        LogPosition { match_slot: 0, next_slot: 0, sent_slot: 0 }
    }

    /// A position whose last persisted slot is `slot`; the next slot follows it.
    pub fn from_match_slot(slot: u32) -> (r: Self)
        requires
            slot < u32::MAX,
        ensures
            r.match_slot == slot,
            r.next_slot == slot + 1,
            r.sent_slot == slot,
    {
        LogPosition { match_slot: slot, next_slot: slot + 1, sent_slot: slot }
    }

    /// A position about which only the next slot to send is known.
    pub fn with_next_slot(next_slot: u32) -> (r: Self)
        ensures
            r.match_slot == 0,
            r.next_slot == next_slot,
            r.sent_slot == 0,
    {
        LogPosition { match_slot: 0, next_slot, sent_slot: 0 }
    }

    /// The slot of the last persisted entry.
    pub fn get_match_slot(&self) -> (r: u32)
        ensures
            r == self.match_slot,
    {
        self.match_slot
    }

    /// The slot of the next entry to send.
    pub fn get_next_slot(&self) -> (r: u32)
        ensures
            r == self.next_slot,
    {
        self.next_slot
    }
}

} // verus!
