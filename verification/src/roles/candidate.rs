//! The candidate role: runs the real election for a new term.
use crate::context::{ContextView, PaxosSharedContext, LEASE_LENGTH_MICROS};
use crate::event::{PaxosAction, PaxosError, PaxosEvent};
use crate::id_map::{has_key, insert_pair, key_index, lemma_insert_pair, IdMap};
use crate::member_id::MemberId;
use crate::messages::{PreVoteResponse, VoteOutcome, VoteRejection, VoteRequest, VoteResponse};
use crate::models::{LogEntry, LogPosition};
use crate::roles::follower::{not_the_leader, Follower};
use crate::roles::leader::Leader;
use crate::roles::precandidate::{board_of_peers, empty_board};
use crate::roles::util::{handle_pre_vote_request, pre_vote_response_of};
use crate::slot_log::{entry_at, has_slot, insert_sorted, lemma_insert_sorted, slot_map, slots_increasing, SlotLog};
use crate::state_machine::PaxosState;
use crate::time::{valid_time, TimeInterval, TrueTime, CLOCK_MAX_MICROS};
use vstd::prelude::*;

verus! {

/// How long a vote campaign may take, in milliseconds.
pub const VOTE_CAMPAIGN_MS: u64 = 3000;

/// The state of a candidate.
pub struct Candidate {
    /// Each peer's vote response, once received.
    pub vote_board: IdMap<Option<VoteResponse>>,
    /// Each peer's log position as learnt from its vote; carried into leadership.
    pub score_board: IdMap<LogPosition>,
    /// The TrueTime earliest bound (microseconds) when the vote requests were sent: no
    /// later than any voter's receipt, so a safe base for the leader lease.
    pub vote_dispatch_time: Option<i64>,
    /// Uncommitted entries collected from granted votes; flushed into the context on winning.
    pub pending_uncommitted_logs: SlotLog<LogEntry>,
}

/// The number of granted votes on a board.
pub open spec fn granted_votes(board: Seq<(MemberId, Option<VoteResponse>)>) -> nat {
    board.filter(|p: (MemberId, Option<VoteResponse>)| p.1 matches Some(r) && r.outcome is Promise).len()
}

/// A quorum of the group granted the vote, counting this member's own vote.
pub open spec fn vote_quorum(board: Seq<(MemberId, Option<VoteResponse>)>) -> bool {
    granted_votes(board) + 1 >= (board.len() + 1) / 2 + 1
}

/// Every member on the board responded.
pub open spec fn all_votes_in(board: Seq<(MemberId, Option<VoteResponse>)>) -> bool {
    forall|i: int| 0 <= i < board.len() ==> board[i].1 is Some
}

/// The pending entries after merging `entries`: at each slot the entry of the highest term
/// seen is kept (the first one seen among equal terms).
pub open spec fn merged_entries(pending: Seq<LogEntry>, entries: Seq<LogEntry>) -> Seq<LogEntry>
    decreases entries.len(),
{
    if entries.len() == 0 {
        pending
    } else {
        let before = merged_entries(pending, entries.drop_last());
        let e = entries.last();
        if !has_slot(before, e.slot) || e.term > entry_at(before, e.slot).term {
            insert_sorted(before, e)
        } else {
            before
        }
    }
}

/// Merging keeps, at each slot, an entry of the highest term offered for it: after merging
/// `entries` into `pending` (a log in slot order), the result is in slot order; a slot
/// holds an entry exactly when `pending` or `entries` has one there; its term is at least
/// that of every entry offered for the slot; and it is one of the entries offered.
pub proof fn lemma_merge_keeps_highest_term(pending: Seq<LogEntry>, entries: Seq<LogEntry>)
    requires
        slots_increasing(pending),
    ensures
        slots_increasing(merged_entries(pending, entries)),
        forall|slot: u32| #[trigger] slot_map(merged_entries(pending, entries)).contains_key(slot)
            <==> (slot_map(pending).contains_key(slot) || has_slot(entries, slot)),
        forall|slot: u32| #[trigger] slot_map(pending).contains_key(slot)
            ==> slot_map(merged_entries(pending, entries))[slot].term >= slot_map(pending)[slot].term,
        forall|i: int| 0 <= i < entries.len()
            ==> slot_map(merged_entries(pending, entries))[#[trigger] entries[i].slot].term >= entries[i].term,
        forall|slot: u32| #[trigger] slot_map(merged_entries(pending, entries)).contains_key(slot) ==> {
            let m = slot_map(merged_entries(pending, entries));
            (slot_map(pending).contains_key(slot) && m[slot] == slot_map(pending)[slot])
                || exists|i: int| 0 <= i < entries.len() && entries[i] == m[slot]
        },
    decreases entries.len(),
{
    if entries.len() > 0 {
        let rest = entries.drop_last();
        let e = entries.last();
        lemma_merge_keeps_highest_term(pending, rest);
        let before = merged_entries(pending, rest);
        let mb = slot_map(before);
        let m = slot_map(merged_entries(pending, entries));
        let replaced = !has_slot(before, e.slot) || e.term > entry_at(before, e.slot).term;
        if replaced {
            lemma_insert_sorted(before, e);
            assert(m == mb.insert(e.slot, e));
        } else {
            assert(m == mb);
        }
        assert(entries[entries.len() - 1] == e);
        assert forall|slot: u32| has_slot(entries, slot) <==> (has_slot(rest, slot) || e.slot == slot) by {
            if has_slot(entries, slot) {
                let j = choose|j: int| 0 <= j < entries.len() && entries[j].slot == slot;
                if j < entries.len() - 1 {
                    assert(rest[j] == entries[j]);
                }
            }
            if has_slot(rest, slot) {
                let j = choose|j: int| 0 <= j < rest.len() && rest[j].slot == slot;
                assert(rest[j] == entries[j]);
            }
        }
        assert forall|slot: u32| #[trigger] slot_map(pending).contains_key(slot) implies m[slot].term >= slot_map(
            pending,
        )[slot].term by {
            assert(mb.contains_key(slot));
            assert(mb[slot].term >= slot_map(pending)[slot].term);
        }
        assert forall|i: int| 0 <= i < entries.len() implies m[#[trigger] entries[i].slot].term >= entries[i].term by {
            if i < entries.len() - 1 {
                assert(rest[i] == entries[i]);
                assert(mb[rest[i].slot].term >= rest[i].term);
            }
        }
        assert forall|slot: u32| #[trigger] m.contains_key(slot) implies (slot_map(pending).contains_key(slot) && m[slot]
            == slot_map(pending)[slot]) || exists|i: int| 0 <= i < entries.len() && entries[i] == m[slot] by {
            if replaced && slot == e.slot {
                assert(entries[entries.len() - 1] == m[slot]);
            } else if !(slot_map(pending).contains_key(slot) && mb[slot] == slot_map(pending)[slot]) {
                let j = choose|j: int| 0 <= j < rest.len() && rest[j] == mb[slot];
                assert(entries[j] == rest[j]);
            }
        }
    }
}

/// The uncommitted entries after flushing `pending` into `current`: the pending entries
/// above the committed slot replace the current ones at their slots when their term is
/// higher, or fill empty slots.
pub open spec fn flushed_entries(current: Seq<LogEntry>, pending: Seq<LogEntry>, committed: u32) -> Seq<LogEntry>
    decreases pending.len(),
{
    if pending.len() == 0 {
        current
    } else {
        let before = flushed_entries(current, pending.drop_last(), committed);
        let e = pending.last();
        if e.slot > committed && (!has_slot(before, e.slot) || e.term > entry_at(before, e.slot).term) {
            insert_sorted(before, e)
        } else {
            before
        }
    }
}

/// The positions of the peers at the start of a campaign: the next slot to send follows
/// this member's last slot.
pub open spec fn initial_positions(peers: Seq<MemberId>, next_slot: u32) -> Seq<(MemberId, LogPosition)> {
    peers.map_values(|id: MemberId| (id, LogPosition { match_slot: 0, next_slot, sent_slot: 0 }))
}

impl Candidate {
    /// A candidate just created for the group of `ctx`, before its votes were sent.
    pub open spec fn fresh(&self, ctx: ContextView) -> bool {
        &&& self.vote_board.wf()
        &&& self.vote_board@ == empty_board::<VoteResponse>(ctx.peer_ids)
        &&& self.score_board.wf()
        &&& self.score_board@ == initial_positions(ctx.peer_ids, (ctx.last_log_slot + 1) as u32)
        &&& self.pending_uncommitted_logs.wf()
        &&& self.pending_uncommitted_logs@ == Seq::<LogEntry>::empty()
    }

    /// The boards are maps and the pending entries are in slot order.
    pub open spec fn wf(&self) -> bool {
        &&& self.vote_board.wf()
        &&& self.score_board.wf()
        &&& self.pending_uncommitted_logs.wf()
    }

    /// The vote request that a member with context `ctx` sends.
    pub open spec fn vote_of(ctx: ContextView) -> VoteRequest {
        VoteRequest {
            member_id: ctx.member_id,
            term: ctx.term,
            last_log_term: ctx.last_log_term,
            last_log_slot: ctx.last_log_slot,
        }
    }

    /// A candidate for the group of `ctx`, with empty boards.
    pub fn new(ctx: &PaxosSharedContext) -> (r: Self)
        requires
            ctx.wf(),
            ctx@.last_log_slot < u32::MAX,
        ensures
            r.fresh(ctx@),
            r.vote_dispatch_time is None,
    {
        let next_slot = ctx.get_last_log_slot() + 1;
        let vote_board = board_of_peers(ctx);
        let peers = ctx.get_peer_ids();
        let n = peers.len();
        let mut score_board: IdMap<LogPosition> = IdMap::new();
        let mut i: usize = 0;
        while i < n
            invariant
                n == peers@.len(),
                peers@ == ctx@.peer_ids,
                peers@.no_duplicates(),
                0 <= i <= n,
                score_board.wf(),
                score_board@ == initial_positions(peers@.take(i as int), next_slot),
            decreases n - i,
        {
            let id = peers[i];
            proof {
                let before = peers@.take(i as int);
                assert(peers@.take(i + 1) == before.push(id));
                assert(initial_positions(peers@.take(i + 1), next_slot) == initial_positions(before, next_slot).push(
                    (id, LogPosition { match_slot: 0, next_slot, sent_slot: 0 }),
                ));
                assert forall|j: int| 0 <= j < score_board@.len() implies score_board@[j].0 != id by {
                    assert(score_board@[j].0 == peers@[j]);
                }
            }
            score_board.insert(id, LogPosition::with_next_slot(next_slot));
            i = i + 1;
        }
        proof {
            assert(peers@.take(n as int) == peers@);
        }
        Candidate {
            vote_board,
            score_board,
            vote_dispatch_time: None,
            pending_uncommitted_logs: SlotLog::new(),
        }
    }

    /// Starts the vote campaign: records the dispatch time, sends a vote request for the
    /// current term to every peer and starts the campaign countdown.
    pub fn dispatch_vote(&mut self, ctx: &PaxosSharedContext, now: &TimeInterval, actions: &mut Vec<PaxosAction>)
        ensures
            final(self).vote_dispatch_time == Some(now.earliest),
            final(self).vote_board == old(self).vote_board,
            final(self).score_board == old(self).score_board,
            final(self).pending_uncommitted_logs == old(self).pending_uncommitted_logs,
            final(actions)@ == old(actions)@.push(PaxosAction::DispatchVoteRequest(Self::vote_of(ctx@))).push(
                PaxosAction::StartVoteCountdown { ms: VOTE_CAMPAIGN_MS },
            ),
    {
        // Recorded before dispatch: no later than any voter's receipt of the request
        self.vote_dispatch_time = Some(now.earliest);
        let request = ctx.create_vote();
        actions.push(PaxosAction::DispatchVoteRequest(request));
        actions.push(PaxosAction::StartVoteCountdown { ms: VOTE_CAMPAIGN_MS });
    }

    /// A candidate already voted for itself in its term: every vote request is refused.
    pub fn handle_vote_request(&self, ctx: &PaxosSharedContext) -> (r: VoteResponse)
        ensures
            r == (VoteResponse {
                member_id: ctx@.member_id,
                term: ctx@.term,
                outcome: VoteOutcome::Rejection(
                    VoteRejection {
                        current_leader_id: None,
                        member_last_log_term: None,
                        member_last_log_slot: None,
                        voted_for_id: Some(ctx@.member_id),
                    },
                ),
            }),
    {
        VoteResponse {
            member_id: ctx.get_current_member_id(),
            term: ctx.get_current_term(),
            outcome: VoteOutcome::Rejection(
                VoteRejection {
                    current_leader_id: None,
                    member_last_log_term: None,
                    member_last_log_slot: None,
                    voted_for_id: Some(ctx.get_current_member_id()),
                },
            ),
        }
    }

    /// The leader lease that winning the election grants: one lease length after the vote
    /// dispatch time, which no voter's own lease precedes.
    pub fn compute_leader_lease_expiry(&self, ctx: &PaxosSharedContext) -> (r: i64)
        requires
            ctx.wf(),
            self.vote_dispatch_time matches Some(t) && -CLOCK_MAX_MICROS <= t <= CLOCK_MAX_MICROS,
        ensures
            r == self.vote_dispatch_time->0 + LEASE_LENGTH_MICROS,
    {
        self.vote_dispatch_time.unwrap() + ctx.get_lease_length()
    }

    /// True once every member on the board has responded.
    pub fn has_all_vote_responses(&self) -> (r: bool)
        ensures
            r == all_votes_in(self.vote_board@),
    {
        let n = self.vote_board.len();
        let mut i: usize = 0;
        while i < n
            invariant
                n == self.vote_board@.len(),
                0 <= i <= n,
                forall|j: int| 0 <= j < i ==> self.vote_board@[j].1 is Some,
            decreases n - i,
        {
            if self.vote_board.value_at(i).is_none() {
                return false;
            }
            i = i + 1;
        }
        true
    }

    /// True once a quorum of the group granted the vote; this member's own vote counts.
    pub fn has_vote_quorum(&self) -> (r: bool)
        requires
            self.vote_board@.len() < usize::MAX,
        ensures
            r == vote_quorum(self.vote_board@),
    {
        let ghost pred = |p: (MemberId, Option<VoteResponse>)| p.1 matches Some(r) && r.outcome is Promise;
        let n = self.vote_board.len();
        let mut count: usize = 0;
        let mut i: usize = 0;
        while i < n
            invariant
                n == self.vote_board@.len(),
                n < usize::MAX,
                0 <= i <= n,
                pred == (|p: (MemberId, Option<VoteResponse>)| p.1 matches Some(r) && r.outcome is Promise),
                count == self.vote_board@.take(i as int).filter(pred).len(),
                count <= i,
            decreases n - i,
        {
            proof {
                let s = self.vote_board@;
                assert(s.take(i + 1) == s.take(i as int).push(s[i as int]));
                s.take(i as int).lemma_filter_push(s[i as int], pred);
            }
            let granted = match self.vote_board.value_at(i) {
                Some(r) => match r.outcome {
                    VoteOutcome::Promise(_) => true,
                    VoteOutcome::Rejection(_) => false,
                },
                None => false,
            };
            if granted {
                count = count + 1;
            }
            i = i + 1;
        }
        proof {
            assert(self.vote_board@.take(n as int) == self.vote_board@);
        }
        // the + 1 counts this member's own vote, which is not on the board
        count + 1 >= (n + 1) / 2 + 1
    }

    /// Keeps, at each slot, the highest-term entry seen across all granted votes.
    pub fn merge_uncommitted_logs(&mut self, entries: &Vec<LogEntry>)
        requires
            old(self).pending_uncommitted_logs.wf(),
        ensures
            final(self).pending_uncommitted_logs.wf(),
            final(self).pending_uncommitted_logs@ == merged_entries(old(self).pending_uncommitted_logs@, entries@),
            final(self).vote_board == old(self).vote_board,
            final(self).score_board == old(self).score_board,
            final(self).vote_dispatch_time == old(self).vote_dispatch_time,
    {
        let ghost p0 = self.pending_uncommitted_logs@;
        let n = entries.len();
        let mut i: usize = 0;
        while i < n
            invariant
                n == entries@.len(),
                0 <= i <= n,
                self.pending_uncommitted_logs.wf(),
                self.pending_uncommitted_logs@ == merged_entries(p0, entries@.take(i as int)),
                self.vote_board == old(self).vote_board,
                self.score_board == old(self).score_board,
                self.vote_dispatch_time == old(self).vote_dispatch_time,
            decreases n - i,
        {
            let entry = &entries[i];
            proof {
                assert(entries@.take(i + 1).drop_last() == entries@.take(i as int));
                assert(entries@.take(i + 1).last() == entries@[i as int]);
            }
            let should_insert = match self.pending_uncommitted_logs.get(entry.slot) {
                None => true,
                Some(existing) => entry.term > existing.term,
            };
            if should_insert {
                self.pending_uncommitted_logs.insert(entry.clone());
            }
            i = i + 1;
        }
        proof {
            assert(entries@.take(n as int) == entries@);
        }
    }

    /// Moves the collected entries above the committed slot into the context, where their
    /// term is higher than the entry there or the slot is empty.
    pub fn flush_uncommitted_logs(&self, ctx: &mut PaxosSharedContext)
        requires
            old(ctx).wf(),
            self.pending_uncommitted_logs.wf(),
        ensures
            final(ctx).wf(),
            final(ctx)@ == (ContextView {
                uncommitted: flushed_entries(
                    old(ctx)@.uncommitted,
                    self.pending_uncommitted_logs@,
                    old(ctx)@.committed_slot,
                ),
                ..old(ctx)@
            }),
    {
        let ghost c0 = ctx@;
        let committed_slot = ctx.get_committed_slot();
        let pending = &self.pending_uncommitted_logs;
        let n = pending.len();
        let mut i: usize = 0;
        while i < n
            invariant
                n == pending@.len(),
                0 <= i <= n,
                ctx.wf(),
                committed_slot == c0.committed_slot,
                ctx@ == (ContextView {
                    uncommitted: flushed_entries(c0.uncommitted, pending@.take(i as int), committed_slot),
                    ..c0
                }),
            decreases n - i,
        {
            let entry = pending.at(i);
            proof {
                assert(pending@.take(i + 1).drop_last() == pending@.take(i as int));
                assert(pending@.take(i + 1).last() == pending@[i as int]);
            }
            if entry.slot > committed_slot {
                let should_insert = match ctx.get_uncommitted_logs().get(entry.slot) {
                    None => true,
                    Some(existing) => entry.term > existing.term,
                };
                if should_insert {
                    ctx.insert_uncommitted(entry.clone());
                }
            }
            i = i + 1;
        }
        proof {
            assert(pending@.take(n as int) == pending@);
        }
    }
}


/// The context after the vote quorum, from `ctx`: the lease expires one lease length after
/// the vote dispatch time `t`.
pub open spec fn elected_lease(t: i64) -> i64 {
    (t + LEASE_LENGTH_MICROS) as i64
}

/// The score board after a vote response: a promise from a voter whose last log term equals
/// this member's sets its match slot to the lower of the two last slots.
pub open spec fn scored(score: Seq<(MemberId, LogPosition)>, ctx: ContextView, resp: VoteResponse) -> Seq<(MemberId, LogPosition)> {
    match resp.outcome {
        VoteOutcome::Promise(p) => if p.last_log_term == ctx.last_log_term {
            let i = key_index(score, resp.member_id);
            let pos = score[i].1;
            let slot = if p.last_log_slot < ctx.last_log_slot { p.last_log_slot } else { ctx.last_log_slot };
            score.update(i, (resp.member_id, LogPosition { match_slot: slot, ..pos }))
        } else {
            score
        },
        VoteOutcome::Rejection(_) => score,
    }
}

/// A vote response never overstates a voter's log: after it, the voter's match slot on the
/// score board is at most the last slot the voter reported in its promise, and at most
/// the candidate's own last slot, and it is one of the two; every other member keeps its
/// position, and a rejection, or a promise from another last term, changes nothing.
pub proof fn lemma_voter_match_slot_reported(score: Seq<(MemberId, LogPosition)>, ctx: ContextView, resp: VoteResponse)
    requires
        crate::id_map::distinct_keys(score),
        has_key(score, resp.member_id),
    ensures
        scored(score, ctx, resp).len() == score.len(),
        forall|j: int| 0 <= j < score.len() && score[j].0 != resp.member_id ==> #[trigger] scored(score, ctx, resp)[j] == score[j],
        match resp.outcome {
            VoteOutcome::Promise(p) => if p.last_log_term == ctx.last_log_term {
                let i = key_index(score, resp.member_id);
                let pos = scored(score, ctx, resp)[i].1;
                &&& scored(score, ctx, resp)[i].0 == resp.member_id
                &&& pos.match_slot <= p.last_log_slot
                &&& pos.match_slot <= ctx.last_log_slot
                &&& (pos.match_slot == p.last_log_slot || pos.match_slot == ctx.last_log_slot)
                &&& pos.next_slot == score[i].1.next_slot && pos.sent_slot == score[i].1.sent_slot
            } else {
                scored(score, ctx, resp) == score
            },
            VoteOutcome::Rejection(_) => scored(score, ctx, resp) == score,
        },
{
    let i = key_index(score, resp.member_id);
    assert(0 <= i < score.len() && score[i].0 == resp.member_id);
    assert forall|j: int| 0 <= j < score.len() && score[j].0 != resp.member_id implies #[trigger] scored(score, ctx, resp)[j]
        == score[j] by {
        assert(j != i);
    }
}

/// The pending entries after a vote response: a promise's uncommitted entries are merged.
pub open spec fn pending_after(pending: Seq<LogEntry>, resp: VoteResponse) -> Seq<LogEntry> {
    match resp.outcome {
        VoteOutcome::Promise(p) => merged_entries(pending, p.uncommitted_entries@),
        VoteOutcome::Rejection(_) => pending,
    }
}

/// What winning the vote does, from context `c`, with the score board `score` and the
/// collected entries `pending`: the lease is set one lease length after the vote dispatch
/// time `t`. If that lease is already over at `now`, the member steps down; otherwise it
/// becomes the leader: the collected entries above the committed slot are flushed into the
/// context, taken over (see `processed_ctx`) and sent to every follower.
pub open spec fn elected_case(
    c: ContextView,
    score: Seq<(MemberId, LogPosition)>,
    pending: Seq<LogEntry>,
    t: i64,
    now: TimeInterval,
    r: Result<PaxosState, PaxosError>,
    c_final: ContextView,
    c_final_wf: bool,
    acts: Seq<PaxosAction>,
    acts2: Seq<PaxosAction>,
) -> bool {
    let lease = elected_lease(t);
    let c1 = ContextView { lease_expiry: Some(lease), ..c };
    let a1 = acts.push(PaxosAction::LeaseUpdated).push(PaxosAction::RoleEnded);
    if lease <= now.latest {
        &&& r matches Ok(PaxosState::Follower(f)) && f.current_leader_id is None && f.vote_record is None
        &&& c_final == c1
        &&& acts2 == a1
    } else {
        let cf = ContextView { uncommitted: flushed_entries(c.uncommitted, pending, c.committed_slot), ..c1 };
        let u = cf.uncommitted;
        let b0 = crate::roles::leader::new_leader_board(score);
        let b1 = if u.len() > 0 { crate::roles::leader::with_next_slot(b0, (u.last().slot + 1) as u32) } else { b0 };
        if u.len() > 0 && u.last().slot == u32::MAX {
            r == Err::<PaxosState, PaxosError>(PaxosError::ArithmeticOverflow)
        } else {
            let c2 = crate::roles::leader::processed_ctx(cf, now);
            let a2 = a1.push(PaxosAction::StartLeaderTimers);
            &&& c_final == c2
            &&& (r matches Err(e) ==> crate::roles::leader::dispatched_all(b1, b1, c2, now, None, Err(e), a2, acts2))
            &&& (r is Ok ==> (r matches Ok(PaxosState::Leader(leader)) && leader.wf() && c_final_wf
                && leader@.contact == score.map_values(|p: (MemberId, LogPosition)| (p.0, 0i64))
                && leader@.writes == Seq::<crate::roles::leader::PendingWrite>::empty()
                && leader@.pending_write_count == 0
                && leader@.write_batch_size == crate::roles::leader::DEFAULT_WRITE_BATCH_SIZE
                && crate::roles::leader::dispatched_all(b1, leader@.board, c2, now, None, Ok(()), a2, acts2)))
        }
    }
}

/// The next state that a vote response leads to, where it leads to a new role.
pub open spec fn to_state(r: Result<Option<Result<Leader, Follower>>, PaxosError>) -> Result<PaxosState, PaxosError> {
    match r {
        Err(e) => Err(e),
        Ok(Some(Ok(l))) => Ok(PaxosState::Leader(l)),
        Ok(Some(Err(f))) => Ok(PaxosState::Follower(f)),
        Ok(None) => Err(PaxosError::ArithmeticOverflow),
    }
}

/// A vote response names a member that the score board must hold.
pub open spec fn needs_score_entry(ctx: ContextView, resp: VoteResponse) -> bool {
    resp.outcome matches VoteOutcome::Promise(p) && p.last_log_term == ctx.last_log_term
}

impl Candidate {
    /// Records a vote response. A promise updates the voter's position and collects its
    /// uncommitted entries. With a quorum, the lease is set from the vote dispatch time; if
    /// it is already over the candidate steps down, otherwise it becomes the leader, takes
    /// over the collected entries and replicates them. Once all peers answered without a
    /// quorum, it steps down; otherwise it keeps waiting.
    pub fn handle_vote_response(
        &mut self,
        response: VoteResponse,
        ctx: &mut PaxosSharedContext,
        now: &TimeInterval,
        actions: &mut Vec<PaxosAction>,
    ) -> (r: Result<Option<Result<Leader, Follower>>, PaxosError>)
        requires
            old(self).wf(),
            old(self).vote_board@.len() < usize::MAX - 1,
            old(self).vote_dispatch_time matches Some(t) && -CLOCK_MAX_MICROS <= t <= CLOCK_MAX_MICROS,
            old(ctx).wf(),
            now.wf(),
        ensures
            needs_score_entry(old(ctx)@, response) && !has_key(old(self).score_board@, response.member_id)
                ==> r == Err::<Option<Result<Leader, Follower>>, PaxosError>(PaxosError::UnknownMember(response.member_id)),
            !(needs_score_entry(old(ctx)@, response) && !has_key(old(self).score_board@, response.member_id)) ==> {
                &&& final(self).wf()
                &&& final(self).vote_board@ == insert_pair(old(self).vote_board@, response.member_id, Some(response))
                &&& final(self).score_board@ == scored(old(self).score_board@, old(ctx)@, response)
                &&& final(self).pending_uncommitted_logs@ == pending_after(old(self).pending_uncommitted_logs@, response)
                &&& final(self).vote_dispatch_time == old(self).vote_dispatch_time
            },
            r matches Ok(None) ==> !vote_quorum(final(self).vote_board@) && final(ctx)@ == old(ctx)@,
            !(needs_score_entry(old(ctx)@, response) && !has_key(old(self).score_board@, response.member_id))
                && vote_quorum(final(self).vote_board@) ==> elected_case(
                old(ctx)@,
                final(self).score_board@,
                final(self).pending_uncommitted_logs@,
                old(self).vote_dispatch_time->0,
                *now,
                to_state(r),
                final(ctx)@,
                final(ctx).wf(),
                old(actions)@,
                final(actions)@,
            ),
            !(needs_score_entry(old(ctx)@, response) && !has_key(old(self).score_board@, response.member_id))
                && !vote_quorum(final(self).vote_board@) && all_votes_in(final(self).vote_board@) ==> {
                &&& r matches Ok(Some(Err(f))) && f.current_leader_id is None && f.vote_record is None
                &&& final(ctx)@ == old(ctx)@
                &&& final(actions)@ == old(actions)@.push(PaxosAction::RoleEnded)
            },
            !(needs_score_entry(old(ctx)@, response) && !has_key(old(self).score_board@, response.member_id))
                && !vote_quorum(final(self).vote_board@) && !all_votes_in(final(self).vote_board@) ==> {
                &&& r == Ok::<Option<Result<Leader, Follower>>, PaxosError>(None)
                &&& final(ctx)@ == old(ctx)@
                &&& final(actions)@ == old(actions)@
            },
    {
        let member_id = response.member_id;
        let ghost c0 = ctx@;
        if let VoteOutcome::Promise(promise) = &response.outcome {
            if promise.last_log_term == ctx.get_last_log_term() {
                let idx = match self.score_board.find(member_id) {
                    Some(i) => i,
                    None => return Err(PaxosError::UnknownMember(member_id)),
                };
                let last = ctx.get_last_log_slot();
                let mut pos = *self.score_board.value_at(idx);
                pos.match_slot = if promise.last_log_slot < last { promise.last_log_slot } else { last };
                self.score_board.set_value_at(idx, pos);
            }
            self.merge_uncommitted_logs(&promise.uncommitted_entries);
        }
        proof {
            lemma_insert_pair(self.vote_board@, member_id, Some(response));
        }
        // Record the response in the vote board
        self.vote_board.insert(member_id, Some(response));

        if self.has_vote_quorum() {
            // The lease starts from the vote dispatch time, which precedes every voter's own lease
            let lease_expiry = self.compute_leader_lease_expiry(ctx);
            ctx.update_leader_lease_expiry_time(lease_expiry);
            actions.push(PaxosAction::LeaseUpdated);
            actions.push(PaxosAction::RoleEnded);
            if !TrueTime::before_at(lease_expiry, now) {
                // The lease already ran out by the time the quorum was reached
                return Ok(Some(Err(Follower::new(None))));
            }
            // Become the leader with the score board built during the election
            let mut leader = Leader::new(self.score_board.copied(), actions);
            // Take over the entries collected from the voters, then replicate them
            self.flush_uncommitted_logs(ctx);
            leader.process_uncommitted_logs(ctx, now, actions)?;
            return Ok(Some(Ok(leader)));
        }

        // Everyone answered and no quorum: step down
        if self.has_all_vote_responses() {
            actions.push(PaxosAction::RoleEnded);
            return Ok(Some(Err(Follower::new(None))));
        }
        Ok(None)
    }
}


impl Candidate {
    /// Handles one event as a candidate; returns the next state and adds the runtime's work
    /// to `actions`.
    pub fn handle_event(self, event: PaxosEvent, ctx: &mut PaxosSharedContext, now: &TimeInterval, actions: &mut Vec<PaxosAction>) -> (r: Result<PaxosState, PaxosError>)
        requires
            old(ctx).wf(),
            now.wf(),
            self.wf(),
            self.vote_board@.len() < usize::MAX - 1,
            self.vote_dispatch_time matches Some(t) && -CLOCK_MAX_MICROS <= t <= CLOCK_MAX_MICROS,
        ensures
            r matches Ok(PaxosState::Candidate(c)) ==> c.wf() && c.vote_dispatch_time == self.vote_dispatch_time
                && c.vote_board@.len() <= self.vote_board@.len() + 1,
            r matches Ok(PaxosState::Leader(l)) ==> l.wf(),
            r is Ok ==> final(ctx).wf(),
            r is Ok ==> final(ctx)@.term == old(ctx)@.term,
            r is Ok ==> final(ctx)@.committed_slot == old(ctx)@.committed_slot,
            candidate_event_effect(self, old(ctx)@, event, *now, r, final(ctx)@, final(ctx).wf(), old(actions)@, final(actions)@),
    {
        let ghost a0 = actions@;
        let mut this = self;
        match event {
            PaxosEvent::LeaderLeaseExpired
            | PaxosEvent::ElectionCountdownExpired
            | PaxosEvent::PreVoteCampaignExpired
            | PaxosEvent::WriteFlushTimerFired
            | PaxosEvent::AcceptTimeoutCheckFired
            | PaxosEvent::HeartbeatTimerFired
            | PaxosEvent::AcceptRequestReceived(_)
            | PaxosEvent::AcceptResponseReceived(_)
            | PaxosEvent::PreVoteResponseReceived(_) => {
                // Already campaigning, or not concerned: nothing to do
                Ok(PaxosState::Candidate(this))
            },
            PaxosEvent::VoteCampaignExpired => {
                // The campaign timed out: step down
                actions.push(PaxosAction::RoleEnded);
                Ok(PaxosState::Follower(Follower::new(None)))
            },
            PaxosEvent::PreVoteRequestReceived(request) => {
                let response = handle_pre_vote_request(&request, ctx);
                actions.push(PaxosAction::ReplyPreVote(response));
                Ok(PaxosState::Candidate(this))
            },
            PaxosEvent::VoteRequestReceived(_) => {
                let response = this.handle_vote_request(ctx);
                actions.push(PaxosAction::ReplyVote(response));
                Ok(PaxosState::Candidate(this))
            },
            PaxosEvent::VoteResponseReceived(response) => {
                match this.handle_vote_response(response, ctx, now, actions)? {
                    Some(Ok(leader)) => Ok(PaxosState::Leader(leader)),
                    Some(Err(follower)) => Ok(PaxosState::Follower(follower)),
                    None => Ok(PaxosState::Candidate(this)),
                }
            },
            PaxosEvent::ClientWriteRequestReceived(_) => {
                actions.push(PaxosAction::ReplyClientWrite(not_the_leader()));
                proof {
                    assert(actions@.take(a0.len() as int) =~= a0);
                }
                Ok(PaxosState::Candidate(this))
            },
        }
    }
}

/// What `Candidate::handle_event` does with each event.
pub open spec fn candidate_event_effect(
    c: Candidate,
    ctx: ContextView,
    event: PaxosEvent,
    now: TimeInterval,
    r: Result<PaxosState, PaxosError>,
    ctx2: ContextView,
    ctx2_wf: bool,
    acts: Seq<PaxosAction>,
    acts2: Seq<PaxosAction>,
) -> bool {
    let stay = r == Ok::<PaxosState, PaxosError>(PaxosState::Candidate(c)) && ctx2 == ctx;
    match event {
        PaxosEvent::VoteCampaignExpired => r matches Ok(PaxosState::Follower(f)) && f.current_leader_id is None
            && f.vote_record is None && ctx2 == ctx && acts2 == acts.push(PaxosAction::RoleEnded),
        PaxosEvent::PreVoteRequestReceived(req) => stay && acts2 == acts.push(
            PaxosAction::ReplyPreVote(pre_vote_response_of(ctx, true, None, req)),
        ),
        PaxosEvent::VoteRequestReceived(_) => stay && acts2 == acts.push(
            PaxosAction::ReplyVote(
                VoteResponse {
                    member_id: ctx.member_id,
                    term: ctx.term,
                    outcome: VoteOutcome::Rejection(
                        VoteRejection {
                            current_leader_id: None,
                            member_last_log_term: None,
                            member_last_log_slot: None,
                            voted_for_id: Some(ctx.member_id),
                        },
                    ),
                },
            ),
        ),
        PaxosEvent::VoteResponseReceived(resp) => {
            let m = resp.member_id;
            if needs_score_entry(ctx, resp) && !has_key(c.score_board@, m) {
                r == Err::<PaxosState, PaxosError>(PaxosError::UnknownMember(m))
            } else {
                let board = insert_pair(c.vote_board@, m, Some(resp));
                let score = scored(c.score_board@, ctx, resp);
                let pending = pending_after(c.pending_uncommitted_logs@, resp);
                if vote_quorum(board) {
                    elected_case(ctx, score, pending, c.vote_dispatch_time->0, now, r, ctx2, ctx2_wf, acts, acts2)
                } else if all_votes_in(board) {
                    r matches Ok(PaxosState::Follower(f)) && f.current_leader_id is None && f.vote_record is None
                        && ctx2 == ctx && acts2 == acts.push(PaxosAction::RoleEnded)
                } else {
                    r matches Ok(PaxosState::Candidate(c2)) && c2.vote_board@ == board && c2.score_board@ == score
                        && c2.pending_uncommitted_logs@ == pending && c2.vote_dispatch_time == c.vote_dispatch_time
                        && ctx2 == ctx && acts2 == acts
                }
            }
        },
        PaxosEvent::ClientWriteRequestReceived(_) => {
            &&& stay
            &&& acts2.len() == acts.len() + 1
            &&& acts2.take(acts.len() as int) == acts
            &&& acts2.last() matches PaxosAction::ReplyClientWrite(resp) && !resp.success && resp.error is Some
        },
        _ => stay && acts2 == acts,
    }
}

} // verus!
