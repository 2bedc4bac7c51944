//! The data of one replicated write.
use vstd::prelude::*;

verus! {

/// The data of one replicated write: its term and slot, the entry, when it was written,
/// and when the writer's lease expires (both in microseconds since the epoch).
#[derive(Clone)]
pub struct ReplicateWritePayload {
    pub term_number: u32,
    pub slot_number: u32,
    pub entry: String,
    pub write_time: i64,
    pub lease_expiry_time: i64,
}

impl ReplicateWritePayload {
    pub fn new(term_number: u32, slot_number: u32, entry: String, write_time: i64, lease_expiry_time: i64) -> (r: Self)
        ensures
            r.term_number == term_number,
            r.slot_number == slot_number,
            r.entry == entry,
            r.write_time == write_time,
            r.lease_expiry_time == lease_expiry_time,
    {
        ReplicateWritePayload { term_number, slot_number, entry, write_time, lease_expiry_time }
    }
}

} // verus!
