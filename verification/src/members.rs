//! A leader's view of its group: the log position it knows of each member, and the
//! commit index it has reached.
use crate::id_map::{distinct_keys, has_key, insert_pair, key_index, IdMap};
use crate::member_id::MemberId;
use vstd::prelude::*;

verus! {

/// What a leader knows of a member's log; `None` where it knows nothing yet.
#[derive(Clone, Copy, PartialEq, Eq, Structural, Debug)]
pub struct WalPosition {
    /// The slot of the last entry the member has persisted.
    pub match_index: Option<u32>,
    /// The slot of the next entry to persist on the member.
    pub next_index: Option<u32>,
}

/// The number of members of `board` whose persisted slot (0 when unknown) has reached
/// `slot`.
pub open spec fn matched_count(board: Seq<(MemberId, WalPosition)>, slot: u32) -> nat
    decreases board.len(),
{
    if board.len() == 0 {
        0
    } else {
        matched_count(board.drop_last(), slot) + if board.last().1.match_index.unwrap_or(0) >= slot {
            1nat
        } else {
            0nat
        }
    }
}

/// The abstract state of a group leader.
pub struct LeaderView {
    pub id: MemberId,
    pub term_number: u32,
    pub commit_index: Option<u32>,
    pub t_safe: i64,
    pub lease_expiry_time: i64,
    pub score_board: Seq<(MemberId, WalPosition)>,
}

/// A group leader: its identity and term, its commit index, its clock readings, and the
/// log position it knows of each member.
pub struct Leader {
    id: MemberId,
    term_number: u32,
    commit_index: Option<u32>,
    t_safe: i64,
    lease_expiry_time: i64,
    score_board: IdMap<WalPosition>,
}

impl View for Leader {
    type V = LeaderView;

    closed spec fn view(&self) -> LeaderView {
        LeaderView {
            id: self.id,
            term_number: self.term_number,
            commit_index: self.commit_index,
            t_safe: self.t_safe,
            lease_expiry_time: self.lease_expiry_time,
            score_board: self.score_board@,
        }
    }
}

/// The member that `member_id` names: itself, or the leader when `None`.
pub open spec fn member_or_leader(member_id: Option<MemberId>, leader: MemberId) -> MemberId {
    match member_id {
        Some(m) => m,
        None => leader,
    }
}

impl Leader {
    /// Each member appears once on the score board.
    pub open spec fn wf(&self) -> bool {
        distinct_keys(self@.score_board)
    }

    /// A leader of `term_number` over `members` (each once), knowing nothing yet of their
    /// logs, with no commit index.
    pub fn new(id: MemberId, term_number: u32, t_safe: i64, lease_expiry_time: i64, members: &Vec<MemberId>) -> (r: Self)
        requires
            members@.no_duplicates(),
        ensures
            r.wf(),
            r@.id == id,
            r@.term_number == term_number,
            r@.commit_index is None,
            r@.t_safe == t_safe,
            r@.lease_expiry_time == lease_expiry_time,
            r@.score_board == members@.map_values(|m: MemberId| (m, WalPosition { match_index: None, next_index: None })),
    {
        let mut score_board: IdMap<WalPosition> = IdMap::new();
        let unknown = WalPosition { match_index: None, next_index: None };
        let mut i: usize = 0;
        while i < members.len()
            invariant
                i <= members@.len(),
                members@.no_duplicates(),
                score_board.wf(),
                score_board@ == members@.subrange(0, i as int).map_values(|m: MemberId| (m, unknown)),
                unknown == (WalPosition { match_index: None, next_index: None }),
            decreases members@.len() - i,
        {
            let m = members[i];
            proof {
                assert(!has_key(score_board@, m)) by {
                    if has_key(score_board@, m) {
                        let j = key_index(score_board@, m);
                        assert(members@[j] == m);
                    }
                }
            }
            score_board.insert(m, unknown);
            assert(score_board@ =~= members@.subrange(0, i + 1).map_values(|m: MemberId| (m, unknown)));
            i = i + 1;
        }
        assert(members@.subrange(0, members@.len() as int) =~= members@);
        Leader { id, term_number, commit_index: None, t_safe, lease_expiry_time, score_board }
    }

    pub fn get_term_number(&self) -> (r: u32)
        ensures
            r == self@.term_number,
    {
        self.term_number
    }

    /// The commit index, 0 while none is set.
    pub fn get_commit_index(&self) -> (r: u32)
        ensures
            r == self@.commit_index.unwrap_or(0),
    {
        match self.commit_index {
            Some(index) => index,
            None => 0,
        }
    }

    pub fn get_lease_expiry_time(&self) -> (r: i64)
        ensures
            r == self@.lease_expiry_time,
    {
        self.lease_expiry_time
    }

    /// The next index of `member_id` (or of the leader itself), 0 while unknown. The member
    /// must be on the score board.
    pub fn get_next_index(&self, member_id: Option<MemberId>) -> (r: u32)
        requires
            self.wf(),
            has_key(self@.score_board, member_or_leader(member_id, self@.id)),
        ensures
            ({
                let member = member_or_leader(member_id, self@.id);
                r == self@.score_board[key_index(self@.score_board, member)].1.next_index.unwrap_or(0)
            }),
    {
        let member = match member_id {
            Some(m) => m,
            None => self.id,
        };
        let position = self.score_board.get(member).unwrap();
        match position.next_index {
            Some(index) => index,
            None => 0,
        }
    }

    /// True if more than half of the members on the score board have persisted
    /// `slot_number` (a member whose position is unknown counts as slot 0).
    pub fn has_quorum(&self, slot_number: u32) -> (r: bool)
        ensures
            r == (matched_count(self@.score_board, slot_number) >= self@.score_board.len() / 2 + 1),
    {
        let n = self.score_board.len();
        let mut num_matched: usize = 0;
        let mut i: usize = 0;
        while i < n
            invariant
                n == self@.score_board.len(),
                i <= n,
                num_matched == matched_count(self@.score_board.subrange(0, i as int), slot_number),
                num_matched <= i,
            decreases n - i,
        {
            assert(self@.score_board.subrange(0, i + 1).drop_last() =~= self@.score_board.subrange(0, i as int));
            let matched = match self.score_board.value_at(i).match_index {
                Some(index) => index,
                None => 0,
            };
            if matched >= slot_number {
                num_matched = num_matched + 1;
            }
            i = i + 1;
        }
        assert(self@.score_board.subrange(0, n as int) =~= self@.score_board);
        num_matched >= n / 2 + 1
    }

    /// True if `slot_number` is at or below the commit index (0 while none is set).
    pub fn has_committed(&self, slot_number: u32) -> (r: bool)
        ensures
            r == (slot_number <= self@.commit_index.unwrap_or(0)),
    {
        slot_number <= self.get_commit_index()
    }

    /// Sets the commit index.
    pub fn update_commit_index(&mut self, index: u32)
        ensures
            final(self)@ == (LeaderView { commit_index: Some(index), ..old(self)@ }),
    {
        self.commit_index = Some(index);
    }

    /// Adds one to the next index of `member_id` (or of the leader itself), counting an
    /// unknown next index as 0. The member must be on the score board.
    pub fn inc_next_index(&mut self, member_id: Option<MemberId>)
        requires
            old(self).wf(),
            has_key(old(self)@.score_board, member_or_leader(member_id, old(self)@.id)),
            old(self)@.score_board[key_index(
                old(self)@.score_board,
                member_or_leader(member_id, old(self)@.id),
            )].1.next_index.unwrap_or(0) < u32::MAX,
        ensures
            final(self).wf(),
            ({
                let member = member_or_leader(member_id, old(self)@.id);
                let before = old(self)@.score_board[key_index(old(self)@.score_board, member)].1;
                final(self)@ == (LeaderView {
                    score_board: insert_pair(
                        old(self)@.score_board,
                        member,
                        WalPosition { next_index: Some((before.next_index.unwrap_or(0) + 1) as u32), ..before },
                    ),
                    ..old(self)@
                })
            }),
    {
        let member = match member_id {
            Some(m) => m,
            None => self.id,
        };
        let position = *self.score_board.get(member).unwrap();
        let next = match position.next_index {
            Some(index) => index,
            None => 0,
        };
        self.score_board.insert(member, WalPosition { next_index: Some(next + 1), ..position });
    }

    /// Sets the match index of `member_id` (or of the leader itself). The member must be on
    /// the score board.
    pub fn update_match_index(&mut self, index: u32, member_id: Option<MemberId>)
        requires
            old(self).wf(),
            has_key(old(self)@.score_board, member_or_leader(member_id, old(self)@.id)),
        ensures
            final(self).wf(),
            ({
                let member = member_or_leader(member_id, old(self)@.id);
                let before = old(self)@.score_board[key_index(old(self)@.score_board, member)].1;
                final(self)@ == (LeaderView {
                    score_board: insert_pair(old(self)@.score_board, member, WalPosition { match_index: Some(index), ..before }),
                    ..old(self)@
                })
            }),
    {
        let member = match member_id {
            Some(m) => m,
            None => self.id,
        };
        let position = *self.score_board.get(member).unwrap();
        self.score_board.insert(member, WalPosition { match_index: Some(index), ..position });
    }
}

} // verus!
