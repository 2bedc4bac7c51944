//! A follower's answer to a replicated write.
use crate::member_id::MemberId;
use vstd::prelude::*;

verus! {

/// A follower's answer to a replicated write: it persisted the entry at `slot_number` in
/// `term_number`.
#[derive(Clone, Copy)]
pub struct ReplicateWriteResponse {
    pub term_number: u32,
    pub slot_number: u32,
    pub follower_id: MemberId,
}

} // verus!
