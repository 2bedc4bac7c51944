//! Counting a follower's answer to a replicated write towards the write's quorum.
use crate::member_id::MemberId;
use crate::states::{matched_members, LeaderState, LeaderStateView, LogPosition};
use vstd::prelude::*;

verus! {

/// Why a follower's answer to a replicated write was refused.
#[derive(Clone, Copy, PartialEq, Eq, Structural, Debug)]
pub enum ReplicateWriteError {
    /// The answer is for a term older than the leader's.
    StaleTerm,
}

impl ReplicateWriteError {
    /// The error's message.
    pub fn message(&self) -> (r: &'static str)
        ensures
            r@ == "Follower response is for an older term"@,
    {
        "Follower response is for an older term"
    }
}

/// Counts followers' answers to replicated writes against the leader's bookkeeping.
pub struct ReplicateWriteProcessor {
    leader_state: LeaderState,
}

impl ReplicateWriteProcessor {
    /// A processor over `leader_state`.
    pub fn new(leader_state: LeaderState) -> (r: Self)
        ensures
            r@ == leader_state@,
    {
        ReplicateWriteProcessor { leader_state }
    }

    /// The leader's bookkeeping.
    pub closed spec fn view(&self) -> LeaderStateView {
        self.leader_state@
    }

    /// The leader's bookkeeping.
    pub fn get_leader_state(&self) -> (r: &LeaderState)
        ensures
            r@ == self@,
    {
        &self.leader_state
    }

    /// Records that `follower_id` persisted the entry at `slot` in `term`, and says whether
    /// that entry has reached a quorum: it has if it was already committed, or if more than
    /// half of the members have now persisted it. An answer for a term older than the
    /// leader's is refused and changes nothing.
    pub fn quorum_reached(&mut self, follower_id: MemberId, term: u32, slot: u32) -> (r: Result<bool, ReplicateWriteError>)
        ensures
            term < old(self)@.term_number ==> r == Err::<bool, ReplicateWriteError>(ReplicateWriteError::StaleTerm)
                && final(self)@ == old(self)@,
            term >= old(self)@.term_number ==> {
                let board = old(self)@.score_board;
                let before = if board.contains_key(follower_id) {
                    board[follower_id]
                } else {
                    LogPosition { match_index: 0, next_index: 0 }
                };
                let after = board.insert(follower_id, LogPosition { match_index: slot, ..before });
                &&& final(self)@ == (LeaderStateView { score_board: after, ..old(self)@ })
                &&& r == Ok::<bool, ReplicateWriteError>(slot <= old(self)@.commit_index
                    || matched_members(after, slot).len() >= after.len() / 2 + 1)
            },
    {
        if term < self.leader_state.get_term_number() {
            return Err(ReplicateWriteError::StaleTerm);
        }
        self.leader_state.update_match_index(slot, Some(follower_id));
        if self.leader_state.has_committed(slot) {
            return Ok(true);
        }
        if self.leader_state.has_quorum(slot) {
            return Ok(true);
        }
        Ok(false)
    }
}

} // verus!
