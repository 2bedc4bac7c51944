//! A leader's bookkeeping in the shape of a concurrent map: each member's log position in
//! a `dashmap::DashMap`, with the leader's term, commit index and clock readings.
use crate::member_id::{new_member_id, MemberId};
use crate::time::{utc_now_micros, CLOCK_MAX_MICROS};
use dashmap::DashMap;
use vstd::prelude::*;

verus! {

#[verifier::external_type_specification]
#[verifier::external_body]
#[verifier::reject_recursive_types(K)]
#[verifier::reject_recursive_types(V)]
#[verifier::reject_recursive_types(S)]
pub struct ExDashMap<K, V, S>(DashMap<K, V, S>);

/// A member's log position, as the leader tracks it.
#[derive(Clone, Copy, PartialEq, Eq, Structural, Debug)]
pub struct LogPosition {
    /// The slot of the last entry the member has persisted.
    pub match_index: u32,
    /// The slot of the next entry to persist on the member.
    pub next_index: u32,
}

impl LogPosition {
    /// The position of a member nothing is known of: both indexes 0.
    pub fn new() -> (r: Self)
        ensures
            r == (LogPosition { match_index: 0, next_index: 0 }),
    {
        LogPosition { match_index: 0, next_index: 0 }
    }
}

/// The entries that a score board holds, by member.
pub uninterp spec fn score_board_entries(board: DashMap<MemberId, LogPosition>) -> Map<MemberId, LogPosition>;

/// A board with no member on it.
pub open spec fn empty_board() -> Map<MemberId, LogPosition> {
    Map::empty()
}

/// An empty map, made by `dashmap::DashMap::new()`.
#[verifier::external_body]
fn score_board_new() -> (r: DashMap<MemberId, LogPosition>)
    ensures
        score_board_entries(r) == empty_board(),
{
    DashMap::new()
}

/// The position stored under `member`, read through `dashmap::DashMap::get`.
#[verifier::external_body]
fn score_board_get(board: &DashMap<MemberId, LogPosition>, member: MemberId) -> (r: Option<LogPosition>)
    ensures
        r == (if score_board_entries(*board).contains_key(member) {
            Some(score_board_entries(*board)[member])
        } else {
            None
        }),
{
    board.get(&member).map(|entry| *entry.value())
}

/// Stores `position` under `member` through `dashmap::DashMap::insert`, which replaces a
/// stored position and returns it.
#[verifier::external_body]
fn score_board_insert(board: &mut DashMap<MemberId, LogPosition>, member: MemberId, position: LogPosition) -> (r: Option<LogPosition>)
    ensures
        score_board_entries(*final(board)) == score_board_entries(*old(board)).insert(member, position),
        r == (if score_board_entries(*old(board)).contains_key(member) {
            Some(score_board_entries(*old(board))[member])
        } else {
            None
        }),
{
    board.insert(member, position)
}

/// The number of members in the map, through `dashmap::DashMap::len`.
#[verifier::external_body]
fn score_board_len(board: &DashMap<MemberId, LogPosition>) -> (r: usize)
    ensures
        r == score_board_entries(*board).len(),
{
    board.len()
}

/// Every entry of the map, each once, in the order that `dashmap::DashMap::iter` walks
/// them (which the map's hashing decides, so no order is stated).
#[verifier::external_body]
fn score_board_list(board: &DashMap<MemberId, LogPosition>) -> (r: Vec<(MemberId, LogPosition)>)
    ensures
        score_board_entries(*board).dom() == member_keys(r@),
        forall|i: int, j: int| 0 <= i < j < r@.len() ==> r@[i].0 != r@[j].0,
        forall|i: int| #![trigger r@[i]] 0 <= i < r@.len() ==> score_board_entries(*board).contains_key(r@[i].0)
            && score_board_entries(*board)[r@[i].0] == r@[i].1,
{
    board.iter().map(|entry| (*entry.key(), *entry.value())).collect()
}

/// The members that a list of entries names.
pub open spec fn member_keys(entries: Seq<(MemberId, LogPosition)>) -> Set<MemberId> {
    entries.map_values(|e: (MemberId, LogPosition)| e.0).to_set()
}

/// The board with a fresh position for `member` if it had none.
pub open spec fn with_member(board: Map<MemberId, LogPosition>, member: MemberId) -> Map<MemberId, LogPosition> {
    if board.contains_key(member) {
        board
    } else {
        board.insert(member, LogPosition { match_index: 0, next_index: 0 })
    }
}

/// The members whose match index has reached `slot`.
pub open spec fn matched_members(board: Map<MemberId, LogPosition>, slot: u32) -> Set<MemberId> {
    board.dom().filter(|m: MemberId| board[m].match_index >= slot)
}

/// The number of listed entries whose match index has reached `slot`.
pub open spec fn count_matched(entries: Seq<(MemberId, LogPosition)>, slot: u32) -> nat
    decreases entries.len(),
{
    if entries.len() == 0 {
        0
    } else {
        count_matched(entries.drop_last(), slot) + if entries.last().1.match_index >= slot {
            1nat
        } else {
            0nat
        }
    }
}

/// A list of distinct members with their positions, that holds exactly the board.
pub open spec fn lists_board(entries: Seq<(MemberId, LogPosition)>, board: Map<MemberId, LogPosition>) -> bool {
    &&& board.dom().finite()
    &&& entries.len() == board.len()
    &&& forall|i: int, j: int| 0 <= i < j < entries.len() ==> entries[i].0 != entries[j].0
    &&& forall|i: int| #![trigger entries[i]] 0 <= i < entries.len() ==> board.contains_key(entries[i].0)
        && board[entries[i].0] == entries[i].1
}

/// A list of distinct entries that names exactly the board's members, with their
/// positions, lists the board.
proof fn lemma_lists_board(entries: Seq<(MemberId, LogPosition)>, board: Map<MemberId, LogPosition>)
    requires
        board.dom() == member_keys(entries),
        forall|i: int, j: int| 0 <= i < j < entries.len() ==> entries[i].0 != entries[j].0,
        forall|i: int| #![trigger entries[i]] 0 <= i < entries.len() ==> board.contains_key(entries[i].0)
            && board[entries[i].0] == entries[i].1,
    ensures
        lists_board(entries, board),
{
    let keys = entries.map_values(|e: (MemberId, LogPosition)| e.0);
    vstd::seq_lib::seq_to_set_is_finite(keys);
    assert(keys.no_duplicates()) by {
        assert forall|i: int, j: int| 0 <= i < keys.len() && 0 <= j < keys.len() && i != j implies keys[i] != keys[j] by {
            if i < j {
                assert(entries[i].0 != entries[j].0);
            } else {
                assert(entries[j].0 != entries[i].0);
            }
        }
    }
    keys.unique_seq_to_set();
}

/// Counting the matched entries of a list of the board counts the board's matched members.
proof fn lemma_count_matched(entries: Seq<(MemberId, LogPosition)>, board: Map<MemberId, LogPosition>, slot: u32)
    requires
        lists_board(entries, board),
    ensures
        count_matched(entries, slot) == matched_members(board, slot).len(),
    decreases entries.len(),
{
    if entries.len() == 0 {
        assert(board.dom() =~= Set::empty()) by {
            if exists|k: MemberId| board.dom().contains(k) {
                let k = choose|k: MemberId| board.dom().contains(k);
                vstd::set_lib::lemma_set_empty_equivalency_len(board.dom());
            }
        }
        assert(matched_members(board, slot) =~= Set::empty());
    } else {
        let last = entries.last();
        let rest = entries.drop_last();
        let smaller = board.remove(last.0);
        assert(board.contains_key(last.0) && board[last.0] == last.1) by {
            assert(entries[entries.len() - 1] == last);
        }
        assert(lists_board(rest, smaller)) by {
            assert forall|i: int| #![trigger rest[i]] 0 <= i < rest.len() implies smaller.contains_key(rest[i].0)
                && smaller[rest[i].0] == rest[i].1 by {
                assert(rest[i] == entries[i]);
                assert(entries[i].0 != entries[entries.len() - 1].0);
            }
        }
        lemma_count_matched(rest, smaller, slot);
        if last.1.match_index >= slot {
            assert(matched_members(smaller, slot) =~= matched_members(board, slot).remove(last.0));
        } else {
            assert(matched_members(smaller, slot) =~= matched_members(board, slot));
        }
    }
}

/// The abstract state of a leader's bookkeeping.
pub struct LeaderStateView {
    pub id: MemberId,
    pub term_number: u32,
    pub commit_index: u32,
    pub t_safe: i64,
    pub lease_expiry_time: i64,
    pub score_board: Map<MemberId, LogPosition>,
}

/// A leader's bookkeeping: its identity, term, commit index, clock readings, and the log
/// position of each member.
pub struct LeaderState {
    id: MemberId,
    term_number: u32,
    commit_index: u32,
    t_safe: i64,
    lease_expiry_time: i64,
    score_board: DashMap<MemberId, LogPosition>,
}

impl View for LeaderState {
    type V = LeaderStateView;

    closed spec fn view(&self) -> LeaderStateView {
        LeaderStateView {
            id: self.id,
            term_number: self.term_number,
            commit_index: self.commit_index,
            t_safe: self.t_safe,
            lease_expiry_time: self.lease_expiry_time,
            score_board: score_board_entries(self.score_board),
        }
    }
}

impl LeaderState {
    /// A leader with a fresh random identity, term 0, commit index 0, an empty score
    /// board, and a safe time and lease expiry both at the current clock reading.
    pub fn new() -> (r: Self)
        ensures
            r@.term_number == 0,
            r@.commit_index == 0,
            r@.t_safe == r@.lease_expiry_time,
            0 <= r@.t_safe <= CLOCK_MAX_MICROS,
            r@.score_board == Map::<MemberId, LogPosition>::empty(),
    {
        let now = utc_now_micros();
        LeaderState {
            id: new_member_id(),
            term_number: 0,
            commit_index: 0,
            t_safe: now,
            lease_expiry_time: now,
            score_board: score_board_new(),
        }
    }

    pub fn get_term_number(&self) -> (r: u32)
        ensures
            r == self@.term_number,
    {
        self.term_number
    }

    /// The leader's identifier.
    pub fn get_id(&self) -> (r: MemberId)
        ensures
            r == self@.id,
    {
        self.id
    }

    pub fn get_commit_index(&self) -> (r: u32)
        ensures
            r == self@.commit_index,
    {
        self.commit_index
    }

    pub fn get_lease_expiry_time(&self) -> (r: i64)
        ensures
            r == self@.lease_expiry_time,
    {
        self.lease_expiry_time
    }

    /// The position of `member`, stored fresh if the board had none for it.
    fn entry_or_insert(&mut self, member: MemberId) -> (r: LogPosition)
        ensures
            final(self)@ == (LeaderStateView { score_board: with_member(old(self)@.score_board, member), ..old(self)@ }),
            r == with_member(old(self)@.score_board, member)[member],
    {
        match score_board_get(&self.score_board, member) {
            Some(position) => position,
            None => {
                let fresh = LogPosition::new();
                score_board_insert(&mut self.score_board, member, fresh);
                fresh
            },
        }
    }

    /// The next index of `member_id`, or of the leader itself when `None`; a member the
    /// board does not know yet gets a fresh position first.
    pub fn get_next_index(&mut self, member_id: Option<MemberId>) -> (r: u32)
        ensures
            ({
                let member = match member_id {
                    Some(m) => m,
                    None => old(self)@.id,
                };
                &&& final(self)@ == (LeaderStateView { score_board: with_member(old(self)@.score_board, member), ..old(self)@ })
                &&& r == final(self)@.score_board[member].next_index
            }),
    {
        let member = match member_id {
            Some(m) => m,
            None => self.id,
        };
        self.entry_or_insert(member).next_index
    }

    /// True if more than half of the members on the board have persisted `slot_number`.
    pub fn has_quorum(&self, slot_number: u32) -> (r: bool)
        ensures
            self@.score_board.dom().finite(),
            r == (matched_members(self@.score_board, slot_number).len() >= self@.score_board.len() / 2 + 1),
    {
        let entries = score_board_list(&self.score_board);
        let ghost board = self@.score_board;
        proof {
            lemma_lists_board(entries@, board);
        }
        let mut num_matched: usize = 0;
        let mut i: usize = 0;
        while i < entries.len()
            invariant
                i <= entries@.len(),
                lists_board(entries@, board),
                num_matched == count_matched(entries@.subrange(0, i as int), slot_number),
                num_matched <= i,
            decreases entries@.len() - i,
        {
            assert(entries@.subrange(0, i + 1).drop_last() =~= entries@.subrange(0, i as int));
            if entries[i].1.match_index >= slot_number {
                num_matched = num_matched + 1;
            }
            i = i + 1;
        }
        proof {
            assert(entries@.subrange(0, entries@.len() as int) =~= entries@);
            lemma_count_matched(entries@, board, slot_number);
        }
        num_matched >= score_board_len(&self.score_board) / 2 + 1
    }

    /// True if `slot_number` is at or below the commit index.
    pub fn has_committed(&self, slot_number: u32) -> (r: bool)
        ensures
            r == (slot_number <= self@.commit_index),
    {
        slot_number <= self.get_commit_index()
    }

    /// Sets the commit index.
    pub fn update_commit_index(&mut self, index: u32)
        ensures
            final(self)@ == (LeaderStateView { commit_index: index, ..old(self)@ }),
    {
        self.commit_index = index;
    }

    /// Adds one to the next index of `member_id` (or of the leader itself), wrapping at
    /// `u32::MAX` as an atomic add does; an unknown member gets a fresh position first.
    pub fn inc_next_index(&mut self, member_id: Option<MemberId>)
        ensures
            ({
                let member = match member_id {
                    Some(m) => m,
                    None => old(self)@.id,
                };
                let before = with_member(old(self)@.score_board, member)[member];
                final(self)@ == (LeaderStateView {
                    score_board: old(self)@.score_board.insert(member, LogPosition {
                        next_index: if before.next_index == u32::MAX { 0 } else { (before.next_index + 1) as u32 },
                        ..before
                    }),
                    ..old(self)@
                })
            }),
    {
        let member = match member_id {
            Some(m) => m,
            None => self.id,
        };
        let position = self.entry_or_insert(member);
        let next = LogPosition { next_index: position.next_index.wrapping_add(1), ..position };
        score_board_insert(&mut self.score_board, member, next);
        assert(self@.score_board =~= old(self)@.score_board.insert(member, next));
    }

    /// Sets the match index of `member_id` (or of the leader itself) to `index`; an unknown
    /// member gets a fresh position first.
    pub fn update_match_index(&mut self, index: u32, member_id: Option<MemberId>)
        ensures
            ({
                let member = match member_id {
                    Some(m) => m,
                    None => old(self)@.id,
                };
                let before = with_member(old(self)@.score_board, member)[member];
                final(self)@ == (LeaderStateView {
                    score_board: old(self)@.score_board.insert(member, LogPosition { match_index: index, ..before }),
                    ..old(self)@
                })
            }),
    {
        let member = match member_id {
            Some(m) => m,
            None => self.id,
        };
        let position = self.entry_or_insert(member);
        let next = LogPosition { match_index: index, ..position };
        score_board_insert(&mut self.score_board, member, next);
        assert(self@.score_board =~= old(self)@.score_board.insert(member, next));
    }
}

impl Default for LeaderState {
    /// The same as `LeaderState::new()`.
    fn default() -> (r: Self)
        ensures
            r@.term_number == 0,
            r@.commit_index == 0,
            r@.t_safe == r@.lease_expiry_time,
            0 <= r@.t_safe <= CLOCK_MAX_MICROS,
            r@.score_board == Map::<MemberId, LogPosition>::empty(),
    {
        Self::new()
    }
}

} // verus!
