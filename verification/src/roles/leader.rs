//! The leader role: accepts client writes, replicates the log to every follower, advances
//! the committed slot on quorum and keeps its lease.
use crate::context::{ContextView, PaxosSharedContext, LEASE_LENGTH_MICROS};
use crate::event::{PaxosAction, PaxosError, PaxosEvent};
use crate::id_map::{has_key, insert_pair, key_index, lemma_insert_pair, lemma_key_index, IdMap};
use crate::member_id::MemberId;
use crate::messages::{AcceptLogEntry, AcceptRequest, AcceptResponse, ClientWriteRequest};
use crate::models::{self, LogPosition};
use crate::roles::follower::{last_position_named, Follower};
use crate::slot_log::{entry_at, has_slot, insert_sorted, slots_increasing, SlotEntry, SlotLog};
use crate::sort::{sort_desc, sorted_desc};
use crate::state_machine::PaxosState;
use crate::time::{TimeInterval, CLOCK_MAX_MICROS, UNCERTAINTY_MICROS};
use crate::wal;
use std::collections::VecDeque;
use vstd::prelude::*;

verus! {

/// Dispatch buffered writes once this many are waiting, even before the flush timer fires.
pub const DEFAULT_WRITE_BATCH_SIZE: usize = 1000;

/// The period of the write flush timer, in milliseconds.
pub const DEFAULT_WRITE_FLUSH_INTERVAL_MS: u64 = 10;

/// How long a batch may wait for its acknowledgement, in microseconds.
pub const ACCEPT_REQUEST_TIMEOUT_MICROS: i64 = 60_000_000;

/// The period of the accept timeout check, in milliseconds.
pub const ACCEPT_TIMEOUT_CHECK_INTERVAL_MS: u64 = 60_000;

/// A batch of entries sent to a follower and not yet acknowledged.
#[derive(Clone, Copy)]
pub struct InFlightBatch {
    /// The TrueTime earliest bound (microseconds) when the batch was sent.
    pub sent_at: i64,
    /// The highest log slot in the batch.
    pub highest_slot: u32,
}

/// The leader's view of one follower: its log position and its unacknowledged batches,
/// oldest first.
pub struct FollowerState {
    pub log_position: LogPosition,
    pub in_flight_batches: VecDeque<InFlightBatch>,
}

/// The abstract state of a follower entry: its log position and its in-flight batches.
pub type FollowerView = (LogPosition, Seq<InFlightBatch>);

impl View for FollowerState {
    type V = FollowerView;

    open spec fn view(&self) -> FollowerView {
        (self.log_position, self.in_flight_batches@)
    }
}

/// The abstract score board: each follower with its position and in-flight batches.
pub open spec fn board_view(b: Seq<(MemberId, FollowerState)>) -> Seq<(MemberId, FollowerView)> {
    b.map_values(|p: (MemberId, FollowerState)| (p.0, p.1@))
}

/// The queue after dropping every batch whose highest slot is at or below `acked`; the
/// others stay in order.
pub open spec fn drop_acked(q: Seq<InFlightBatch>, acked: u32) -> Seq<InFlightBatch> {
    q.filter(|b: InFlightBatch| b.highest_slot > acked)
}

/// The board of a new leader: every follower at its elected position, nothing in flight.
pub open spec fn new_leader_board(score: Seq<(MemberId, LogPosition)>) -> Seq<(MemberId, FollowerView)> {
    score.map_values(|p: (MemberId, LogPosition)| (p.0, (p.1, Seq::<InFlightBatch>::empty())))
}

/// The slot just before `next`, or 0.
pub open spec fn slot_before(next: u32) -> u32 {
    if next == 0 { 0 } else { (next - 1) as u32 }
}

impl FollowerState {
    /// A follower at `log_position` with nothing in flight.
    pub fn new(log_position: LogPosition) -> (r: Self)
        ensures
            r.log_position == log_position,
            r.in_flight_batches@ == Seq::<InFlightBatch>::empty(),
    {
        FollowerState { log_position, in_flight_batches: VecDeque::new() }
    }

    /// Records a batch sent at `sent_at` whose highest slot is `highest_slot`.
    pub fn push_batch(&mut self, highest_slot: u32, sent_at: i64)
        ensures
            final(self).log_position == old(self).log_position,
            final(self).in_flight_batches@ == old(self).in_flight_batches@.push(InFlightBatch { sent_at, highest_slot }),
    {
        self.in_flight_batches.push_back(InFlightBatch { sent_at, highest_slot });
    }

    /// Clears every batch whose highest slot is at or below `acked_slot`; the others stay in
    /// order.
    pub fn ack_batches_up_to(&mut self, acked_slot: u32)
        ensures
            final(self).log_position == old(self).log_position,
            final(self).in_flight_batches@ == drop_acked(old(self).in_flight_batches@, acked_slot),
    {
        let ghost q0 = self.in_flight_batches@;
        let ghost keep = |b: InFlightBatch| b.highest_slot > acked_slot;
        let mut kept: VecDeque<InFlightBatch> = VecDeque::new();
        let n = self.in_flight_batches.len();
        let mut i: usize = 0;
        while i < n
            invariant
                n == q0.len(),
                0 <= i <= n,
                self.in_flight_batches@ == q0.skip(i as int),
                self.log_position == old(self).log_position,
                q0 == old(self).in_flight_batches@,
                keep == (|b: InFlightBatch| b.highest_slot > acked_slot),
                kept@ == q0.take(i as int).filter(keep),
            decreases n - i,
        {
            let ghost before = self.in_flight_batches@;
            let batch = self.in_flight_batches.pop_front().unwrap();
            proof {
                assert(before[0] == q0[i as int]);
                assert(self.in_flight_batches@ =~= q0.skip(i + 1));
                assert(q0.take(i + 1) == q0.take(i as int).push(q0[i as int]));
                q0.take(i as int).lemma_filter_push(q0[i as int], keep);
            }
            if batch.highest_slot > acked_slot {
                kept.push_back(batch);
            }
            i = i + 1;
        }
        proof {
            assert(q0.take(n as int) == q0);
        }
        self.in_flight_batches = kept;
    }

    /// Clears every in-flight batch and resets the sent slot to just before the next slot:
    /// after a rejection or a timeout the follower is probed again from there.
    pub fn clear_in_flight_batches(&mut self)
        ensures
            final(self).in_flight_batches@ == Seq::<InFlightBatch>::empty(),
            final(self).log_position == (LogPosition {
                sent_slot: slot_before(old(self).log_position.next_slot),
                ..old(self).log_position
            }),
    {
        self.in_flight_batches.clear();
        self.log_position.sent_slot = self.log_position.next_slot.saturating_sub(1);
    }
}

/// A client write waiting for its slot to commit.
#[derive(Clone, Copy)]
pub struct PendingWrite {
    pub slot: u32,
    /// The timestamp assigned to the write; commit wait holds the answer until it passed.
    pub timestamp: i64,
}

impl SlotEntry for PendingWrite {
    open spec fn slot_of(&self) -> u32 {
        self.slot
    }

    open spec fn term_of(&self) -> u32 {
        0
    }

    fn slot(&self) -> (r: u32) {
        self.slot
    }

    fn term(&self) -> (r: u32) {
        0
    }

    fn duplicate(&self) -> (r: Self) {
        *self
    }
}

/// The state of the group leader.
pub struct Leader {
    /// Per-follower replication state and in-flight batches.
    pub score_board: IdMap<FollowerState>,
    /// The most recent echoed send time per follower, for quorum lease renewal.
    pub last_contact: IdMap<i64>,
    /// The client writes awaiting quorum commit, by slot.
    pub in_flight_writes: SlotLog<PendingWrite>,
    /// The number of client writes buffered since the last dispatch.
    pub pending_write_count: usize,
    /// Dispatch once this many writes are buffered.
    pub write_batch_size: usize,
    /// The highest MinNextTS promised by a heartbeat: no later write gets a timestamp at
    /// or below it.
    pub min_next_ts_promise: Option<i64>,
}

/// The anchor slot of the next accept request to a follower at `pos`: the last slot sent,
/// or the slot before the next one to send.
pub open spec fn prev_slot_of(pos: LogPosition) -> u32 {
    if pos.sent_slot > pos.next_slot { pos.sent_slot } else { slot_before(pos.next_slot) }
}

/// Why an accept request to a follower at `pos` cannot be built: the anchor slot is not in
/// the leader's log, or the slot after it overflows.
pub open spec fn dispatch_fault(ctx: ContextView, pos: LogPosition) -> Option<PaxosError> {
    let prev = prev_slot_of(pos);
    if prev > 0 && !has_slot(ctx.wal, prev) {
        Some(PaxosError::MissingLogEntry(prev))
    } else if prev == u32::MAX {
        Some(PaxosError::ArithmeticOverflow)
    } else {
        None
    }
}

/// The accept entry that a log entry travels as.
pub open spec fn to_accept_entry(e: wal::LogEntry) -> AcceptLogEntry {
    AcceptLogEntry { term: e.term, slot: e.slot, entry: e.entry, timestamp: e.timestamp }
}

/// The entries of the leader's log after `prev`, in slot order.
pub open spec fn entries_after(ctx: ContextView, prev: u32) -> Seq<AcceptLogEntry> {
    ctx.wal.filter(|e: wal::LogEntry| e.slot >= prev + 1).map_values(|e: wal::LogEntry| to_accept_entry(e))
}

/// `req` is the accept request that the leader with context `ctx` sends at `now` to a
/// follower at `pos`: anchored at `prev_slot_of(pos)` with that slot's term, carrying every
/// later entry of the log, the committed slot, the send time and `min_next_ts`.
pub open spec fn is_accept_request_for(req: AcceptRequest, ctx: ContextView, pos: LogPosition, now: TimeInterval, min_next_ts: Option<i64>) -> bool {
    let prev = prev_slot_of(pos);
    &&& req.term == ctx.term
    &&& req.leader_id == ctx.member_id
    &&& req.prev_log_slot == prev
    &&& req.prev_log_term == if prev == 0 { 0 } else { entry_at(ctx.wal, prev).term }
    &&& req.entries@ == entries_after(ctx, prev)
    &&& req.leader_commit_slot == ctx.committed_slot
    &&& req.t_send == now.earliest
    &&& req.min_next_ts == min_next_ts
}

/// The follower's position after a dispatch: the sent slot moves to the last entry sent.
pub open spec fn dispatched_position(ctx: ContextView, pos: LogPosition) -> LogPosition {
    let es = entries_after(ctx, prev_slot_of(pos));
    if es.len() > 0 { LogPosition { sent_slot: es.last().slot, ..pos } } else { pos }
}

/// The follower's in-flight batches after a dispatch: a non-empty batch is recorded.
pub open spec fn dispatched_batches(ctx: ContextView, pos: LogPosition, q: Seq<InFlightBatch>, now: TimeInterval) -> Seq<InFlightBatch> {
    let es = entries_after(ctx, prev_slot_of(pos));
    if es.len() > 0 { q.push(InFlightBatch { sent_at: now.earliest, highest_slot: es.last().slot }) } else { q }
}

impl Leader {
    /// The boards are maps and the pending writes are in slot order.
    pub open spec fn wf(&self) -> bool {
        &&& self.score_board.wf()
        &&& self.last_contact.wf()
        &&& self.in_flight_writes.wf()
        &&& (self.min_next_ts_promise matches Some(p) ==> p <= CLOCK_MAX_MICROS + UNCERTAINTY_MICROS)
    }

    /// A new leader with the score board built during the election; every follower was last
    /// heard from at the epoch. Starts the leader's timers.
    pub fn new(score_board: IdMap<LogPosition>, actions: &mut Vec<PaxosAction>) -> (r: Self)
        requires
            score_board.wf(),
        ensures
            r.wf(),
            r.score_board@.len() == score_board@.len(),
            forall|i: int| 0 <= i < score_board@.len() ==> #[trigger] r.score_board@[i].0 == score_board@[i].0
                && r.score_board@[i].1.log_position == score_board@[i].1
                && r.score_board@[i].1.in_flight_batches@.len() == 0,
            board_view(r.score_board@) == new_leader_board(score_board@),
            r.last_contact@ == score_board@.map_values(|p: (MemberId, LogPosition)| (p.0, 0i64)),
            r.in_flight_writes@ == Seq::<PendingWrite>::empty(),
            r.pending_write_count == 0,
            r.write_batch_size == DEFAULT_WRITE_BATCH_SIZE,
            r.min_next_ts_promise is None,
            final(actions)@ == old(actions)@.push(PaxosAction::StartLeaderTimers),
    {
        let n = score_board.len();
        let mut board: IdMap<FollowerState> = IdMap::new();
        let mut contact: IdMap<i64> = IdMap::new();
        let mut i: usize = 0;
        while i < n
            invariant
                n == score_board@.len(),
                score_board.wf(),
                0 <= i <= n,
                board.wf(),
                contact.wf(),
                board@.len() == i,
                forall|j: int| 0 <= j < i ==> #[trigger] board@[j].0 == score_board@[j].0
                    && board@[j].1.log_position == score_board@[j].1
                    && board@[j].1.in_flight_batches@ == Seq::<InFlightBatch>::empty(),
                contact@ == score_board@.take(i as int).map_values(|p: (MemberId, LogPosition)| (p.0, 0i64)),
            decreases n - i,
        {
            let id = score_board.key_at(i);
            let pos = *score_board.value_at(i);
            proof {
                assert forall|j: int| 0 <= j < board@.len() implies board@[j].0 != id by {
                    assert(score_board@[j].0 != score_board@[i as int].0);
                }
                assert forall|j: int| 0 <= j < contact@.len() implies contact@[j].0 != id by {
                    assert(contact@[j].0 == score_board@[j].0);
                    assert(score_board@[j].0 != score_board@[i as int].0);
                }
                assert(score_board@.take(i + 1) == score_board@.take(i as int).push(score_board@[i as int]));
            }
            board.insert(id, FollowerState::new(pos));
            contact.insert(id, 0);
            i = i + 1;
        }
        proof {
            assert(score_board@.take(n as int) == score_board@);
            assert(board_view(board@) =~= new_leader_board(score_board@));
        }
        actions.push(PaxosAction::StartLeaderTimers);
        Leader {
            score_board: board,
            last_contact: contact,
            in_flight_writes: SlotLog::new(),
            pending_write_count: 0,
            write_batch_size: DEFAULT_WRITE_BATCH_SIZE,
            min_next_ts_promise: None,
        }
    }

    /// Sends the follower at position `i` of the score board an accept request from its
    /// anchor, carrying every later entry of the log, and records the batch.
    fn dispatch_to(&mut self, i: usize, ctx: &PaxosSharedContext, now: &TimeInterval, min_next_ts: Option<i64>, actions: &mut Vec<PaxosAction>) -> (r: Result<(), PaxosError>)
        requires
            old(self).wf(),
            i < old(self).score_board@.len(),
            ctx.wf(),
        ensures
            final(self).wf(),
            final(self).last_contact == old(self).last_contact,
            final(self).in_flight_writes == old(self).in_flight_writes,
            final(self).pending_write_count == old(self).pending_write_count,
            final(self).write_batch_size == old(self).write_batch_size,
            final(self).min_next_ts_promise == old(self).min_next_ts_promise,
            ({
                let (id, fs) = old(self).score_board@[i as int];
                match dispatch_fault(ctx@, fs.log_position) {
                    Some(e) => r == Err::<(), PaxosError>(e) && final(actions)@ == old(actions)@
                        && final(self).score_board@ == old(self).score_board@,
                    None => {
                        &&& r is Ok
                        &&& final(self).score_board@.len() == old(self).score_board@.len()
                        &&& forall|j: int| 0 <= j < old(self).score_board@.len() && j != i ==> final(self).score_board@[j] == old(self).score_board@[j]
                        &&& final(self).score_board@[i as int].0 == id
                        &&& final(self).score_board@[i as int].1.log_position == dispatched_position(ctx@, fs.log_position)
                        &&& final(self).score_board@[i as int].1.in_flight_batches@ == dispatched_batches(ctx@, fs.log_position, fs.in_flight_batches@, *now)
                        &&& final(actions)@.len() == old(actions)@.len() + 1
                        &&& final(actions)@.take(old(actions)@.len() as int) == old(actions)@
                        &&& final(actions)@.last() matches PaxosAction::DispatchAcceptRequest(m, req) && m == id
                            && is_accept_request_for(req, ctx@, fs.log_position, *now, min_next_ts)
                    },
                }
            }),
    {
        let member_id = self.score_board.key_at(i);
        let pos = self.score_board.value_at(i).log_position;
        let wal = ctx.get_wal();
        let sent_slot = pos.sent_slot;
        let prev_log_slot = if sent_slot > pos.next_slot { sent_slot } else { pos.next_slot.saturating_sub(1) };
        let prev_log_term = if prev_log_slot == 0 {
            0
        } else {
            match wal.get_term(prev_log_slot) {
                Some(t) => t,
                None => return Err(PaxosError::MissingLogEntry(prev_log_slot)),
            }
        };
        if prev_log_slot == u32::MAX {
            return Err(PaxosError::ArithmeticOverflow);
        }
        let log_entries = wal.get_entries_from(prev_log_slot + 1);
        let ghost es = log_entries@.map_values(|e: wal::LogEntry| to_accept_entry(e));
        let n = log_entries.len();
        let mut entries: Vec<AcceptLogEntry> = Vec::new();
        let mut k: usize = 0;
        while k < n
            invariant
                n == log_entries@.len(),
                0 <= k <= n,
                es == log_entries@.map_values(|e: wal::LogEntry| to_accept_entry(e)),
                entries@ == es.take(k as int),
            decreases n - k,
        {
            let e = &log_entries[k];
            entries.push(AcceptLogEntry { term: e.term, slot: e.slot, entry: e.entry.clone(), timestamp: e.timestamp });
            proof {
                assert(es.take(k + 1) == es.take(k as int).push(es[k as int]));
            }
            k = k + 1;
        }
        proof {
            assert(es.take(n as int) == es);
            assert((|e: wal::LogEntry| e.slot >= prev_log_slot + 1) == (|e: wal::LogEntry| e.slot >= prev_log_slot + 1));
        }
        let last_sent_slot = if n > 0 { Some(log_entries[n - 1].slot) } else { None };
        let t_send = now.earliest;
        let request = AcceptRequest {
            term: ctx.get_current_term(),
            leader_id: ctx.get_current_member_id(),
            prev_log_slot,
            prev_log_term,
            entries,
            leader_commit_slot: ctx.get_committed_slot(),
            t_send,
            min_next_ts,
        };
        actions.push(PaxosAction::DispatchAcceptRequest(member_id, request));
        if let Some(slot) = last_sent_slot {
            let mut fs = self.score_board.replace_value_at(i, FollowerState::new(LogPosition::new()));
            fs.log_position.sent_slot = slot;
            fs.push_batch(slot, t_send);
            self.score_board.set_value_at(i, fs);
        }
        Ok(())
    }

    /// Sends every follower an accept request (see `dispatch_to`), in score board order.
    pub fn dispatch_accept_request(&mut self, ctx: &PaxosSharedContext, now: &TimeInterval, min_next_ts: Option<i64>, actions: &mut Vec<PaxosAction>) -> (r: Result<(), PaxosError>)
        requires
            old(self).wf(),
            ctx.wf(),
        ensures
            final(self).wf(),
            final(self).last_contact == old(self).last_contact,
            final(self).in_flight_writes == old(self).in_flight_writes,
            final(self).pending_write_count == old(self).pending_write_count,
            final(self).write_batch_size == old(self).write_batch_size,
            final(self).min_next_ts_promise == old(self).min_next_ts_promise,
            dispatched_all(board_view(old(self).score_board@), board_view(final(self).score_board@), ctx@, *now, min_next_ts, r, old(actions)@, final(actions)@),
    {
        let ghost b0 = board_view(self.score_board@);
        let ghost a0 = actions@;
        let n = self.score_board.len();
        let mut i: usize = 0;
        while i < n
            invariant
                n == b0.len(),
                b0 == board_view(old(self).score_board@),
                a0 == old(actions)@,
                0 <= i <= n,
                self.wf(),
                ctx.wf(),
                self.last_contact == old(self).last_contact,
                self.in_flight_writes == old(self).in_flight_writes,
                self.pending_write_count == old(self).pending_write_count,
                self.write_batch_size == old(self).write_batch_size,
                self.min_next_ts_promise == old(self).min_next_ts_promise,
                self.score_board@.len() == n,
                forall|j: int| 0 <= j < i ==> dispatch_fault(ctx@, #[trigger] b0[j].1.0) is None,
                forall|j: int| 0 <= j < i ==> is_dispatched(b0[j], #[trigger] board_view(self.score_board@)[j], ctx@, *now),
                forall|j: int| i <= j < n ==> #[trigger] board_view(self.score_board@)[j] == b0[j],
                actions@.len() == a0.len() + i,
                actions@.take(a0.len() as int) == a0,
                forall|j: int| 0 <= j < i ==> #[trigger] dispatch_action_ok(actions@[a0.len() + j], b0[j], ctx@, *now, min_next_ts),
            decreases n - i,
        {
            let ghost before = actions@;
            let ghost sb = board_view(self.score_board@);
            let ghost rb = self.score_board@;
            assert(board_view(self.score_board@)[i as int] == b0[i as int]);
            let outcome = self.dispatch_to(i, ctx, now, min_next_ts, actions);
            if let Err(e) = outcome {
                let res: Result<(), PaxosError> = Err(e);
                proof {
                    assert(dispatch_fault(ctx@, b0[i as int].1.0) == Some(e));
                    assert(!(forall|j: int| 0 <= j < b0.len() ==> dispatch_fault(ctx@, #[trigger] b0[j].1.0) is None));
                    assert(dispatched_all(b0, board_view(self.score_board@), ctx@, *now, min_next_ts, res, a0, actions@));
                }
                return res;
            }
            proof {
                assert forall|j: int| 0 <= j < i implies #[trigger] dispatch_action_ok(actions@[a0.len() + j], b0[j], ctx@, *now, min_next_ts) by {
                    assert(actions@[a0.len() + j] == before[a0.len() + j]);
                }
                assert(actions@[a0.len() + i] == actions@.last());
                assert forall|j: int| 0 <= j < i implies is_dispatched(b0[j], #[trigger] board_view(self.score_board@)[j], ctx@, *now) by {
                    assert(self.score_board@[j] == rb[j]);
                    assert(board_view(self.score_board@)[j] == sb[j]);
                }
                assert forall|j: int| i < j < n implies #[trigger] board_view(self.score_board@)[j] == b0[j] by {
                    assert(self.score_board@[j] == rb[j]);
                    assert(sb[j] == b0[j]);
                }
                assert(actions@.take(a0.len() as int) == before.take(a0.len() as int));
            }
            i = i + 1;
        }
        Ok(())
    }
}

/// The follower entry `after` is `before` after a dispatch.
pub open spec fn is_dispatched(before: (MemberId, FollowerView), after: (MemberId, FollowerView), ctx: ContextView, now: TimeInterval) -> bool {
    &&& after.0 == before.0
    &&& after.1.0 == dispatched_position(ctx, before.1.0)
    &&& after.1.1 == dispatched_batches(ctx, before.1.0, before.1.1, now)
}

/// `a` is the dispatch of the accept request to the follower entry `fs`.
pub open spec fn dispatch_action_ok(a: PaxosAction, fs: (MemberId, FollowerView), ctx: ContextView, now: TimeInterval, min_next_ts: Option<i64>) -> bool {
    a matches PaxosAction::DispatchAcceptRequest(m, req) && m == fs.0 && is_accept_request_for(req, ctx, fs.1.0, now, min_next_ts)
}

/// Sending every follower on `board` an accept request succeeds exactly when none faults;
/// then each follower is updated and one dispatch per follower, in board order, is added
/// to the actions.
pub open spec fn dispatched_all(
    board: Seq<(MemberId, FollowerView)>,
    board2: Seq<(MemberId, FollowerView)>,
    ctx: ContextView,
    now: TimeInterval,
    min_next_ts: Option<i64>,
    r: Result<(), PaxosError>,
    acts: Seq<PaxosAction>,
    acts2: Seq<PaxosAction>,
) -> bool {
    &&& (r is Ok <==> forall|j: int| 0 <= j < board.len() ==> dispatch_fault(ctx, #[trigger] board[j].1.0) is None)
    &&& (r matches Err(e) ==> exists|j: int| 0 <= j < board.len() && dispatch_fault(ctx, #[trigger] board[j].1.0) == Some(e))
    &&& r is Ok ==> {
        &&& board2.len() == board.len()
        &&& forall|j: int| 0 <= j < board.len() ==> is_dispatched(board[j], #[trigger] board2[j], ctx, now)
        &&& acts2.len() == acts.len() + board.len()
        &&& acts2.take(acts.len() as int) == acts
        &&& forall|j: int| 0 <= j < board.len() ==> #[trigger] dispatch_action_ok(acts2[acts.len() + j], board[j], ctx, now, min_next_ts)
    }
}


/// The uncommitted entries restamped with `term`.
pub open spec fn restamped(s: Seq<models::LogEntry>, term: u32) -> Seq<models::LogEntry> {
    s.map_values(|e: models::LogEntry| models::LogEntry { term, ..e })
}

/// The log after writing each uncommitted entry under `term` with timestamp `ts`.
pub open spec fn wal_with_restamped(log: Seq<wal::LogEntry>, s: Seq<models::LogEntry>, term: u32, ts: i64) -> Seq<wal::LogEntry>
    decreases s.len(),
{
    if s.len() == 0 {
        log
    } else {
        insert_sorted(
            wal_with_restamped(log, s.drop_last(), term, ts),
            wal::LogEntry { term, slot: s.last().slot, entry: s.last().entry, timestamp: ts },
        )
    }
}

/// The context after a new leader takes over the uncommitted entries: each is restamped
/// with the current term and written to the log at `now.latest`, and, where there were
/// any, the last log position moves to the log's last entry.
pub open spec fn processed_ctx(ctx: ContextView, now: TimeInterval) -> ContextView {
    let u = ctx.uncommitted;
    let w = wal_with_restamped(ctx.wal, u, ctx.term, now.latest);
    ContextView {
        uncommitted: restamped(u, ctx.term),
        wal: w,
        last_log_slot: if u.len() > 0 && w.len() > 0 { w.last().slot } else { ctx.last_log_slot },
        last_log_term: if u.len() > 0 && w.len() > 0 { w.last().term } else { ctx.last_log_term },
        ..ctx
    }
}

/// The board with every follower's next slot set to `next`.
pub open spec fn with_next_slot(board: Seq<(MemberId, FollowerView)>, next: u32) -> Seq<(MemberId, FollowerView)> {
    board.map_values(|p: (MemberId, FollowerView)| (p.0, (LogPosition { next_slot: next, ..p.1.0 }, p.1.1)))
}

/// The timestamp that a write gets at `now`: the TrueTime latest bound, or just above the
/// highest MinNextTS promise where the promise reaches that bound.
pub open spec fn write_timestamp(promise: Option<i64>, now: TimeInterval) -> i64 {
    match promise {
        Some(p) => if p >= now.latest { (p + 1) as i64 } else { now.latest },
        None => now.latest,
    }
}

/// The highest promise after a heartbeat promises `ts`.
pub open spec fn raised_promise(promise: Option<i64>, ts: i64) -> Option<i64> {
    match promise {
        Some(p) => if p >= ts { Some(p) } else { Some(ts) },
        None => Some(ts),
    }
}

/// MinNextTS holds: a write gets a timestamp at or after the TrueTime latest bound and
/// strictly above every MinNextTS the leader has promised; and a promise only rises.
pub proof fn lemma_writes_follow_promise(promise: Option<i64>, now: TimeInterval, ts: i64)
    requires
        now.wf(),
        promise matches Some(p) ==> p <= CLOCK_MAX_MICROS + UNCERTAINTY_MICROS,
    ensures
        write_timestamp(promise, now) >= now.latest,
        promise matches Some(p) ==> write_timestamp(promise, now) > p,
        raised_promise(promise, ts) matches Some(q) && q >= ts && (promise matches Some(p) ==> q >= p),
{
}

/// The context after a client write of `value` stamped `timestamp`: the write gets the
/// slot after the last one and the current term, in the log and among the uncommitted
/// entries.
pub open spec fn written_ctx(ctx: ContextView, value: String, timestamp: i64) -> ContextView {
    let slot = (ctx.last_log_slot + 1) as u32;
    ContextView {
        wal: insert_sorted(ctx.wal, wal::LogEntry { term: ctx.term, slot, entry: value, timestamp }),
        last_log_slot: slot,
        last_log_term: ctx.term,
        uncommitted: insert_sorted(ctx.uncommitted, models::LogEntry { term: ctx.term, slot, entry: value }),
        ..ctx
    }
}

/// What a leader does with a client write of `value` at `now` (see `written_ctx`): the
/// write is stamped `write_timestamp(promise, now)` and held under its slot, the buffered
/// count grows, and a full batch asks for a flush.
pub open spec fn client_write_effect(
    l: LeaderView,
    c: ContextView,
    value: String,
    now: TimeInterval,
    r: Result<(), PaxosError>,
    l2: LeaderView,
    c2: ContextView,
    acts: Seq<PaxosAction>,
    acts2: Seq<PaxosAction>,
) -> bool {
    if c.last_log_slot == u32::MAX || l.pending_write_count == usize::MAX {
        r == Err::<(), PaxosError>(PaxosError::ArithmeticOverflow)
    } else {
        let slot = (c.last_log_slot + 1) as u32;
        let count = (l.pending_write_count + 1) as usize;
        &&& r is Ok
        &&& c2 == written_ctx(c, value, write_timestamp(l.promise, now))
        &&& l2 == LeaderView {
            writes: insert_sorted(l.writes, PendingWrite { slot, timestamp: write_timestamp(l.promise, now) }),
            pending_write_count: count,
            ..l
        }
        &&& acts2 == if count >= l.write_batch_size {
            acts.push(PaxosAction::TrackClientWrite(slot)).push(PaxosAction::SignalWriteFlush)
        } else {
            acts.push(PaxosAction::TrackClientWrite(slot))
        }
    }
}

/// The MinNextTS promise of a heartbeat at `now`: the TrueTime latest bound, capped at the
/// leader lease expiry.
pub open spec fn heartbeat_min_next_ts(ctx: ContextView, now: TimeInterval) -> i64 {
    match ctx.lease_expiry {
        Some(e) => if e < now.latest { e } else { now.latest },
        None => now.latest,
    }
}

/// A follower's oldest in-flight batch has waited longer than the accept timeout at `now`.
pub open spec fn timed_out(fs: FollowerView, now: TimeInterval) -> bool {
    fs.1.len() > 0 && (now.earliest + UNCERTAINTY_MICROS) - fs.1[0].sent_at > ACCEPT_REQUEST_TIMEOUT_MICROS
}

/// The follower entry after the accept timeout check.
pub open spec fn checked_follower(fs: FollowerView, now: TimeInterval) -> FollowerView {
    if timed_out(fs, now) {
        (LogPosition { sent_slot: slot_before(fs.0.next_slot), ..fs.0 }, Seq::<InFlightBatch>::empty())
    } else {
        fs
    }
}

/// The contacts after hearing `t` echoed by `m`: the later of the stored and echoed times.
pub open spec fn contact_after(contact: Seq<(MemberId, i64)>, m: MemberId, t: i64) -> Seq<(MemberId, i64)> {
    let v = if has_key(contact, m) {
        let old = contact[key_index(contact, m)].1;
        if old >= t { old } else { t }
    } else {
        t
    };
    insert_pair(contact, m, v)
}

/// The lease that the contacts support: the weakest contact time among the newest
/// `q - 1` followers (the leader counts itself), plus one lease length.
pub open spec fn lease_proposal(contact: Seq<(MemberId, i64)>, q: int) -> Option<int> {
    let times = sorted_desc(contact.map_values(|p: (MemberId, i64)| p.1));
    if 0 <= q - 2 < times.len() {
        Some(times[q - 2] + LEASE_LENGTH_MICROS)
    } else {
        None
    }
}

/// The highest slot that the leader and its `q - 1` most advanced followers all hold.
pub open spec fn quorum_slot(match_slots: Seq<i64>, q: int, leader_last: u32) -> int {
    let s = sorted_desc(match_slots);
    let k = if q - 1 < s.len() { q - 1 } else { s.len() as int };
    if k <= 0 {
        leader_last as int
    } else if s[k - 1] < leader_last {
        s[k - 1] as int
    } else {
        leader_last as int
    }
}

/// A slot is committed only once a quorum holds it: the commit point that the leader
/// computes from its followers' match slots (with quorum size `q`) is at most the leader's
/// own last slot, and at least `q - 1` followers have persisted up to it, so that with the
/// leader a quorum of `q` members holds it.
pub proof fn lemma_commit_needs_quorum(match_slots: Seq<i64>, q: int, leader_last: u32)
    requires
        2 <= q <= match_slots.len() + 1,
    ensures
        quorum_slot(match_slots, q, leader_last) <= leader_last,
        match_slots.filter(|v: i64| v >= quorum_slot(match_slots, q, leader_last)).len() >= q - 1,
{
    let leq = |a: i64, b: i64| a >= b;
    let s = sorted_desc(match_slots);
    assert(vstd::relations::total_ordering(leq));
    match_slots.lemma_sort_by_ensures(leq);
    let k = q - 1;
    let qs = quorum_slot(match_slots, q, leader_last);
    let p = |v: i64| v >= qs;
    assert(s.len() == match_slots.len()) by {
        vstd::seq_lib::to_multiset_len(s);
        vstd::seq_lib::to_multiset_len(match_slots);
    }
    assert forall|i: int| 0 <= i < s.take(k).len() implies p(s.take(k)[i]) by {
        if i < k - 1 {
            assert(leq(s[i], s[k - 1]));
        }
    }
    crate::sort::lemma_filter_all(s.take(k), p);
    s.lemma_filter_take_len(p, k);
    crate::sort::lemma_filter_len_perm(s, match_slots, p);
}

/// A lease renewal rests on a quorum, from the oldest of its contacts: whenever an accept
/// response moves the leader lease to `e`, at least `q - 1` followers (the leader counts
/// itself) were last heard from at a time `t` with `t + LEASE_LENGTH_MICROS >= e`, and
/// fewer than `q - 1` with `t + LEASE_LENGTH_MICROS > e`, where `q` is the quorum size.
pub proof fn lemma_lease_rests_on_quorum(
    l: LeaderView,
    ctx: ContextView,
    resp: AcceptResponse,
    now: TimeInterval,
    l2: LeaderView,
    ctx2: ContextView,
    acts: Seq<PaxosAction>,
    acts2: Seq<PaxosAction>,
)
    requires
        accept_response_effect(l, ctx, resp, now, Ok(()), l2, ctx2, acts, acts2),
        ctx2.lease_expiry != ctx.lease_expiry,
    ensures
        ctx2.lease_expiry matches Some(e) && l2.contact.map_values(|p: (MemberId, i64)| p.1).filter(
            |t: i64| t + LEASE_LENGTH_MICROS >= e,
        ).len() >= ctx.quorum_size() - 1 && l2.contact.map_values(|p: (MemberId, i64)| p.1).filter(
            |t: i64| t + LEASE_LENGTH_MICROS > e,
        ).len() < ctx.quorum_size() - 1,
{
    let q = ctx.quorum_size();
    let contact = contact_after(l.contact, resp.member_id, resp.echoed_t_send);
    let vals = contact.map_values(|p: (MemberId, i64)| p.1);
    let times = sorted_desc(vals);
    let leq = |a: i64, b: i64| a >= b;
    assert(vstd::relations::total_ordering(leq));
    vals.lemma_sort_by_ensures(leq);
    assert(times.len() == vals.len()) by {
        vstd::seq_lib::to_multiset_len(times);
        vstd::seq_lib::to_multiset_len(vals);
    }
    assert(l2.contact == contact);
    let e = times[q - 2] + LEASE_LENGTH_MICROS;
    assert(ctx2.lease_expiry == Some(e as i64));
    let p = |t: i64| t + LEASE_LENGTH_MICROS >= e as i64;
    let k = q - 1;
    assert forall|i: int| 0 <= i < times.take(k).len() implies p(times.take(k)[i]) by {
        if i < k - 1 {
            assert(leq(times[i], times[k - 1]));
        }
    }
    crate::sort::lemma_filter_all(times.take(k), p);
    times.lemma_filter_take_len(p, k);
    crate::sort::lemma_filter_len_perm(times, vals, p);
    // only the newest q - 2 contacts can lie strictly above the lease's base
    let above = |t: i64| t + LEASE_LENGTH_MICROS > e as i64;
    let front = times.take(q - 2);
    let back = times.skip(q - 2);
    assert(times =~= front + back);
    Seq::filter_distributes_over_add(front, back, above);
    assert forall|i: int| 0 <= i < back.len() implies !above(#[trigger] back[i]) by {
        if i > 0 {
            assert(leq(times[q - 2], times[q - 2 + i]));
        }
    }
    back.lemma_all_neg_filter_empty(above);
    front.lemma_filter_len(above);
    crate::sort::lemma_filter_len_perm(times, vals, above);
}

/// A takeover leaves the last log position naming the log's last entry: after a new leader
/// takes over its uncommitted entries (or takes over none from a context whose position
/// named its last entry), the last log slot and term are those of the log's last entry.
pub proof fn lemma_takeover_names_last_entry(ctx: ContextView, now: TimeInterval)
    requires
        ctx.uncommitted.len() > 0 || last_position_named(ctx),
    ensures
        last_position_named(processed_ctx(ctx, now)),
{
    let u = ctx.uncommitted;
    if u.len() > 0 {
        let before = wal_with_restamped(ctx.wal, u.drop_last(), ctx.term, now.latest);
        let e = wal::LogEntry { term: ctx.term, slot: u.last().slot, entry: u.last().entry, timestamp: now.latest };
        assert(wal_with_restamped(ctx.wal, u, ctx.term, now.latest) == insert_sorted(before, e));
        assert(insert_sorted(before, e).len() > 0) by {
            let pos = crate::slot_log::position_of(before, e.slot_of());
            if !(pos < before.len() && before[pos].slot_of() == e.slot_of()) {
                before.lemma_filter_len(|x: wal::LogEntry| x.slot_of() < e.slot_of());
            }
        }
    }
}

/// After the accept timeout check at `now`, every follower that still has batches in
/// flight sent its oldest one no longer than the accept timeout before the check's clock
/// reading; a follower whose oldest batch waited longer has none left, and its sent slot
/// goes back to just before its next slot.
pub proof fn lemma_timeout_check_leaves_recent_batches(board: Seq<(MemberId, FollowerView)>, now: TimeInterval)
    ensures
        forall|i: int| 0 <= i < board.len() ==> {
            let before = #[trigger] board[i].1;
            let after = board.map_values(|p: (MemberId, FollowerView)| (p.0, checked_follower(p.1, now)))[i].1;
            &&& after.1.len() > 0 ==> (now.earliest + UNCERTAINTY_MICROS) - after.1[0].sent_at <= ACCEPT_REQUEST_TIMEOUT_MICROS
            &&& before.1.len() > 0 && (now.earliest + UNCERTAINTY_MICROS) - before.1[0].sent_at > ACCEPT_REQUEST_TIMEOUT_MICROS
                ==> after.1.len() == 0 && after.0.sent_slot == slot_before(before.0.next_slot)
            &&& !(before.1.len() > 0 && (now.earliest + UNCERTAINTY_MICROS) - before.1[0].sent_at > ACCEPT_REQUEST_TIMEOUT_MICROS)
                ==> after == before
        },
{
}

/// The match slots of the followers on a board.
pub open spec fn match_slots(board: Seq<(MemberId, FollowerView)>) -> Seq<i64> {
    board.map_values(|p: (MemberId, FollowerView)| p.1.0.match_slot as i64)
}

/// The highest slot of `term` in `log` (determined when the term occurs).
pub open spec fn highest_slot_for_term(log: Seq<wal::LogEntry>, term: u32) -> u32 {
    choose|slot: u32| crate::slot_log::is_highest_slot_for_term(log, term, slot)
}

/// The next slot to send after a rejection with `hint`: past the leader's last slot of the
/// conflicting term, or the follower's hint when the leader has no entry of that term (or
/// the follower's log is short); `None` when that slot overflows.
pub open spec fn probe_slot(ctx: ContextView, hint: crate::messages::ConflictHint) -> Option<u32> {
    if hint.conflict_term == 0 {
        Some(hint.conflict_first_slot)
    } else if crate::slot_log::has_term(ctx.wal, hint.conflict_term) {
        let h = highest_slot_for_term(ctx.wal, hint.conflict_term);
        if h == u32::MAX { None } else { Some((h + 1) as u32) }
    } else {
        Some(hint.conflict_first_slot)
    }
}

/// The abstract board has the keys of the board, at the same positions.
pub proof fn lemma_board_view_keys(s: Seq<(MemberId, FollowerState)>, m: MemberId)
    requires
        crate::id_map::distinct_keys(s),
    ensures
        crate::id_map::distinct_keys(board_view(s)),
        has_key(board_view(s), m) == has_key(s, m),
        has_key(s, m) ==> key_index(board_view(s), m) == key_index(s, m),
{
    let b = board_view(s);
    assert forall|i: int| 0 <= i < s.len() implies #[trigger] b[i].0 == s[i].0 by {}
    if has_key(s, m) {
        let i = key_index(s, m);
        lemma_key_index(s, i);
        assert(b[i].0 == m);
        lemma_key_index(b, i);
    }
    if has_key(b, m) {
        let i = choose|i: int| 0 <= i < b.len() && b[i].0 == m;
        assert(s[i].0 == m);
    }
}

/// The highest slot of a term is unique.
pub proof fn lemma_highest_unique(log: Seq<wal::LogEntry>, term: u32, slot: u32)
    requires
        crate::slot_log::is_highest_slot_for_term(log, term, slot),
    ensures
        highest_slot_for_term(log, term) == slot,
{
    let other = highest_slot_for_term(log, term);
    assert(crate::slot_log::is_highest_slot_for_term(log, term, other));
    let i = choose|i: int| 0 <= i < log.len() && log[i].term == term && log[i].slot == slot;
    let j = choose|j: int| 0 <= j < log.len() && log[j].term == term && log[j].slot == other;
    assert(log[i].slot <= other);
    assert(log[j].slot <= slot);
}

impl Leader {
    /// Restamps the uncommitted entries with the current term, writes them to the log at
    /// `now`, points every follower just past them, and sends every follower an accept
    /// request.
    pub fn process_uncommitted_logs(&mut self, ctx: &mut PaxosSharedContext, now: &TimeInterval, actions: &mut Vec<PaxosAction>) -> (r: Result<(), PaxosError>)
        requires
            old(self).wf(),
            old(ctx).wf(),
            now.wf(),
        ensures
            final(self).wf(),
            ({
                let c = old(ctx)@;
                let u = c.uncommitted;
                if u.len() > 0 && u.last().slot == u32::MAX {
                    r == Err::<(), PaxosError>(PaxosError::ArithmeticOverflow)
                } else {
                    let c2 = processed_ctx(c, *now);
                    let b1 = if u.len() > 0 {
                        with_next_slot(board_view(old(self).score_board@), (u.last().slot + 1) as u32)
                    } else {
                        board_view(old(self).score_board@)
                    };
                    &&& final(ctx)@ == c2
                    &&& final(ctx).wf()
                    &&& final(self).last_contact == old(self).last_contact
                    &&& final(self).in_flight_writes == old(self).in_flight_writes
                    &&& final(self).pending_write_count == old(self).pending_write_count
                    &&& final(self).write_batch_size == old(self).write_batch_size
                    &&& dispatched_all(b1, board_view(final(self).score_board@), c2, *now, None, r, old(actions)@, final(actions)@)
                }
            }),
    {
        let current_term = ctx.get_current_term();
        let ghost c0 = ctx@;
        let entries = ctx.uncommitted_values();
        let n = entries.len();
        if n > 0 && entries[n - 1].slot == u32::MAX {
            return Err(PaxosError::ArithmeticOverflow);
        }
        // Restamp each entry to the current term and write it to the log
        let mut restamped_logs: SlotLog<models::LogEntry> = SlotLog::new();
        let mut i: usize = 0;
        while i < n
            invariant
                n == entries@.len(),
                entries@ == c0.uncommitted,
                slots_increasing(c0.uncommitted),
                0 <= i <= n,
                ctx.wf(),
                restamped_logs.wf(),
                restamped_logs@ == restamped(entries@.take(i as int), current_term),
                current_term == c0.term,
                ctx@ == (ContextView {
                    wal: wal_with_restamped(c0.wal, entries@.take(i as int), current_term, now.latest),
                    ..c0
                }),
            decreases n - i,
        {
            let e = &entries[i];
            proof {
                assert(entries@.take(i + 1).drop_last() == entries@.take(i as int));
                assert(entries@.take(i + 1).last() == entries@[i as int]);
                assert(entries@.take(i + 1) == entries@.take(i as int).push(entries@[i as int]));
                if i > 0 {
                    assert(restamped_logs@.last().slot == entries@[i - 1].slot);
                }
            }
            restamped_logs.push_last(models::LogEntry { term: current_term, slot: e.slot, entry: e.entry.clone() });
            ctx.wal_append(wal::LogEntry { term: current_term, slot: e.slot, entry: e.entry.clone(), timestamp: now.latest });
            proof {
                assert(restamped_logs@ =~= restamped(entries@.take(i + 1), current_term));
            }
            i = i + 1;
        }
        proof {
            assert(entries@.take(n as int) == entries@);
        }
        ctx.set_uncommitted_logs(restamped_logs);
        if n > 0 {
            let last_slot = entries[n - 1].slot;
            // The last log position names the log's last entry
            if let Some((wal_slot, wal_term)) = ctx.get_wal().last_position() {
                ctx.set_last_log_slot(wal_slot);
                ctx.set_last_log_term(wal_term);
            }
            // Every follower's next slot follows the last slot taken over
            self.set_all_next_slots(last_slot + 1);
        }
        self.dispatch_accept_request(ctx, now, None, actions)
    }

    /// Sets every follower's next slot to `next`.
    fn set_all_next_slots(&mut self, next: u32)
        requires
            old(self).wf(),
        ensures
            final(self).wf(),
            board_view(final(self).score_board@) == with_next_slot(board_view(old(self).score_board@), next),
            final(self).last_contact == old(self).last_contact,
            final(self).in_flight_writes == old(self).in_flight_writes,
            final(self).pending_write_count == old(self).pending_write_count,
            final(self).write_batch_size == old(self).write_batch_size,
            final(self).min_next_ts_promise == old(self).min_next_ts_promise,
    {
        let ghost b0 = board_view(self.score_board@);
        let n = self.score_board.len();
        let mut i: usize = 0;
        while i < n
            invariant
                n == b0.len(),
                b0 == board_view(old(self).score_board@),
                0 <= i <= n,
                self.wf(),
                self.score_board@.len() == n,
                self.last_contact == old(self).last_contact,
                self.in_flight_writes == old(self).in_flight_writes,
                self.pending_write_count == old(self).pending_write_count,
                self.write_batch_size == old(self).write_batch_size,
                self.min_next_ts_promise == old(self).min_next_ts_promise,
                forall|j: int| 0 <= j < i ==> #[trigger] board_view(self.score_board@)[j] == with_next_slot(b0, next)[j],
                forall|j: int| i <= j < n ==> #[trigger] board_view(self.score_board@)[j] == b0[j],
            decreases n - i,
        {
            let ghost rb = self.score_board@;
            assert(board_view(rb)[i as int] == b0[i as int]);
            let mut fs = self.score_board.replace_value_at(i, FollowerState::new(LogPosition::new()));
            fs.log_position.next_slot = next;
            self.score_board.set_value_at(i, fs);
            proof {
                assert forall|j: int| 0 <= j < n && j != i implies #[trigger] board_view(self.score_board@)[j] == board_view(rb)[j] by {
                    assert(self.score_board@[j] == rb[j]);
                }
            }
            i = i + 1;
        }
        proof {
            assert(board_view(self.score_board@) =~= with_next_slot(b0, next));
        }
    }

    /// Takes the client writes at or below `committed_slot` out of the in-flight set and
    /// returns their slots and timestamps, in slot order.
    pub fn resolve_in_flight_writes(&mut self, committed_slot: u32) -> (r: Vec<(u32, i64)>)
        requires
            old(self).wf(),
        ensures
            final(self).wf(),
            final(self).in_flight_writes@ == old(self).in_flight_writes@.filter(|w: PendingWrite| w.slot > committed_slot),
            r@ == old(self).in_flight_writes@.filter(|w: PendingWrite| w.slot <= committed_slot).map_values(
                |w: PendingWrite| (w.slot, w.timestamp),
            ),
            final(self).score_board == old(self).score_board,
            final(self).last_contact == old(self).last_contact,
            final(self).pending_write_count == old(self).pending_write_count,
            final(self).write_batch_size == old(self).write_batch_size,
            final(self).min_next_ts_promise == old(self).min_next_ts_promise,
    {
        let ghost w0 = self.in_flight_writes@;
        let ghost pred = |w: PendingWrite| w.slot <= committed_slot;
        let ghost f = |w: PendingWrite| (w.slot, w.timestamp);
        let n = self.in_flight_writes.len();
        let mut out: Vec<(u32, i64)> = Vec::new();
        let mut i: usize = 0;
        while i < n
            invariant
                n == w0.len(),
                w0 == self.in_flight_writes@,
                0 <= i <= n,
                pred == (|w: PendingWrite| w.slot <= committed_slot),
                f == (|w: PendingWrite| (w.slot, w.timestamp)),
                out@ == w0.take(i as int).filter(pred).map_values(f),
            decreases n - i,
        {
            let w = *self.in_flight_writes.at(i);
            proof {
                assert(w0.take(i + 1) == w0.take(i as int).push(w));
                w0.take(i as int).lemma_filter_push(w, pred);
            }
            if w.slot <= committed_slot {
                out.push((w.slot, w.timestamp));
                proof {
                    assert(w0.take(i + 1).filter(pred) == w0.take(i as int).filter(pred).push(w));
                    assert(out@ =~= w0.take(i + 1).filter(pred).map_values(f));
                }
            }
            i = i + 1;
        }
        proof {
            assert(w0.take(n as int) == w0);
        }
        self.in_flight_writes.retain_after(committed_slot);
        assert((|w: PendingWrite| w.slot_of() > committed_slot) == (|w: PendingWrite| w.slot > committed_slot));
        out
    }

    /// Appends a client write at the slot after the last one, in the current term, stamped
    /// with `now.latest`; holds the write until it commits and asks for a flush once a batch
    /// is full.
    pub fn handle_client_write(&mut self, request: ClientWriteRequest, ctx: &mut PaxosSharedContext, now: &TimeInterval, actions: &mut Vec<PaxosAction>) -> (r: Result<(), PaxosError>)
        requires
            old(self).wf(),
            old(ctx).wf(),
            now.wf(),
        ensures
            r is Ok ==> final(self).wf() && final(ctx).wf(),
            client_write_effect(old(self)@, old(ctx)@, request.value, *now, r, final(self)@, final(ctx)@, old(actions)@, final(actions)@),
    {
        let current_term = ctx.get_current_term();
        let last = ctx.get_last_log_slot();
        if last == u32::MAX || self.pending_write_count == usize::MAX {
            return Err(PaxosError::ArithmeticOverflow);
        }
        let slot = last + 1;
        let value = request.value;
        // Stamp the write above every MinNextTS promised so far
        let timestamp = match self.min_next_ts_promise {
            Some(promised) => if promised >= now.latest { promised + 1 } else { now.latest },
            None => now.latest,
        };
        ctx.wal_append(wal::LogEntry { term: current_term, slot, entry: value.clone(), timestamp });
        ctx.set_last_log_slot(slot);
        ctx.set_last_log_term(current_term);
        ctx.insert_uncommitted(models::LogEntry { term: current_term, slot, entry: value });
        self.in_flight_writes.insert(PendingWrite { slot, timestamp });
        actions.push(PaxosAction::TrackClientWrite(slot));
        self.pending_write_count = self.pending_write_count + 1;
        // A full batch wakes the flush watcher at once
        if self.pending_write_count >= self.write_batch_size {
            actions.push(PaxosAction::SignalWriteFlush);
        }
        Ok(())
    }

    /// Sends the buffered writes to every follower, if any are buffered.
    pub fn handle_write_flush(&mut self, ctx: &PaxosSharedContext, now: &TimeInterval, actions: &mut Vec<PaxosAction>) -> (r: Result<(), PaxosError>)
        requires
            old(self).wf(),
            ctx.wf(),
        ensures
            final(self).wf(),
            final(self).last_contact == old(self).last_contact,
            final(self).in_flight_writes == old(self).in_flight_writes,
            final(self).write_batch_size == old(self).write_batch_size,
            final(self).min_next_ts_promise == old(self).min_next_ts_promise,
            old(self).pending_write_count == 0 ==> r is Ok && final(self).score_board == old(self).score_board
                && final(actions)@ == old(actions)@ && final(self).pending_write_count == 0,
            old(self).pending_write_count > 0 ==> dispatched_all(board_view(old(self).score_board@), board_view(final(self).score_board@), ctx@, *now, None, r, old(actions)@, final(actions)@)
                && (r is Ok ==> final(self).pending_write_count == 0),
    {
        if self.pending_write_count == 0 {
            return Ok(());
        }
        self.dispatch_accept_request(ctx, now, None, actions)?;
        self.pending_write_count = 0;
        Ok(())
    }

    /// Sends every follower a heartbeat accept request carrying MinNextTS, the TrueTime
    /// latest bound capped at the lease expiry, and remembers the highest such promise: no
    /// later write gets a timestamp at or below it (see `write_timestamp`).
    pub fn handle_heartbeat(&mut self, ctx: &PaxosSharedContext, now: &TimeInterval, actions: &mut Vec<PaxosAction>) -> (r: Result<(), PaxosError>)
        requires
            old(self).wf(),
            ctx.wf(),
            now.wf(),
        ensures
            final(self).wf(),
            final(self).last_contact == old(self).last_contact,
            final(self).in_flight_writes == old(self).in_flight_writes,
            final(self).pending_write_count == old(self).pending_write_count,
            final(self).write_batch_size == old(self).write_batch_size,
            final(self).min_next_ts_promise == raised_promise(old(self).min_next_ts_promise, heartbeat_min_next_ts(ctx@, *now)),
            dispatched_all(board_view(old(self).score_board@), board_view(final(self).score_board@), ctx@, *now,
                Some(heartbeat_min_next_ts(ctx@, *now)), r, old(actions)@, final(actions)@),
    {
        let min_next_ts = match ctx.get_leader_lease_expiry() {
            Some(expiry) => if expiry < now.latest { expiry } else { now.latest },
            None => now.latest,
        };
        // Remember the promise, so that no later write is stamped at or below it
        self.min_next_ts_promise = match self.min_next_ts_promise {
            Some(promised) => if promised >= min_next_ts { Some(promised) } else { Some(min_next_ts) },
            None => Some(min_next_ts),
        };
        self.dispatch_accept_request(ctx, now, Some(min_next_ts), actions)
    }

    /// Clears the in-flight batches of every follower whose oldest batch waited longer than
    /// the accept timeout, so that it is probed again.
    pub fn handle_accept_timeout_check(&mut self, now: &TimeInterval)
        requires
            old(self).wf(),
            now.wf(),
        ensures
            final(self).wf(),
            board_view(final(self).score_board@) == board_view(old(self).score_board@).map_values(
                |p: (MemberId, FollowerView)| (p.0, checked_follower(p.1, *now)),
            ),
            final(self).last_contact == old(self).last_contact,
            final(self).in_flight_writes == old(self).in_flight_writes,
            final(self).pending_write_count == old(self).pending_write_count,
            final(self).write_batch_size == old(self).write_batch_size,
            final(self).min_next_ts_promise == old(self).min_next_ts_promise,
    {
        let ghost b0 = board_view(self.score_board@);
        let reading = now.earliest + UNCERTAINTY_MICROS;
        let n = self.score_board.len();
        let mut i: usize = 0;
        while i < n
            invariant
                n == b0.len(),
                b0 == board_view(old(self).score_board@),
                reading == now.earliest + UNCERTAINTY_MICROS,
                0 <= i <= n,
                self.wf(),
                self.score_board@.len() == n,
                self.last_contact == old(self).last_contact,
                self.in_flight_writes == old(self).in_flight_writes,
                self.pending_write_count == old(self).pending_write_count,
                self.write_batch_size == old(self).write_batch_size,
                self.min_next_ts_promise == old(self).min_next_ts_promise,
                forall|j: int| 0 <= j < i ==> #[trigger] board_view(self.score_board@)[j] == (b0[j].0, checked_follower(b0[j].1, *now)),
                forall|j: int| i <= j < n ==> #[trigger] board_view(self.score_board@)[j] == b0[j],
            decreases n - i,
        {
            let ghost rb = self.score_board@;
            assert(board_view(rb)[i as int] == b0[i as int]);
            let fs = self.score_board.value_at(i);
            let expired = fs.in_flight_batches.len() > 0
                && (reading as i128) - (fs.in_flight_batches[0].sent_at as i128) > ACCEPT_REQUEST_TIMEOUT_MICROS as i128;
            if expired {
                let mut fs = self.score_board.replace_value_at(i, FollowerState::new(LogPosition::new()));
                fs.clear_in_flight_batches();
                self.score_board.set_value_at(i, fs);
            }
            proof {
                assert forall|j: int| 0 <= j < n && j != i implies #[trigger] board_view(self.score_board@)[j] == board_view(rb)[j] by {
                    assert(self.score_board@[j] == rb[j]);
                }
            }
            i = i + 1;
        }
        proof {
            assert(board_view(self.score_board@) =~= b0.map_values(|p: (MemberId, FollowerView)| (p.0, checked_follower(p.1, *now))));
        }
    }
}


/// The abstract state of a leader.
pub struct LeaderView {
    pub board: Seq<(MemberId, FollowerView)>,
    pub contact: Seq<(MemberId, i64)>,
    pub writes: Seq<PendingWrite>,
    pub pending_write_count: usize,
    pub write_batch_size: usize,
    pub promise: Option<i64>,
}

impl View for Leader {
    type V = LeaderView;

    open spec fn view(&self) -> LeaderView {
        LeaderView {
            board: board_view(self.score_board@),
            contact: self.last_contact@,
            writes: self.in_flight_writes@,
            pending_write_count: self.pending_write_count,
            write_batch_size: self.write_batch_size,
            promise: self.min_next_ts_promise,
        }
    }
}

/// What a leader does with an accept response from `resp.member_id`.
///
/// A response from an older term is ignored. Otherwise the follower's last contact time
/// becomes the later of the stored and echoed send times, and the lease is extended (never
/// shortened) to one lease length after the weakest contact among the newest quorum of
/// followers. A success that moves the follower's match slot forward acknowledges its
/// batches up to that slot and advances the committed slot to the highest slot that the
/// leader and a quorum of followers hold, answering the client writes it commits. A
/// rejection clears the follower's in-flight batches, moves its next slot according to the
/// conflict hint, and probes it again.
pub open spec fn accept_response_effect(
    l: LeaderView,
    ctx: ContextView,
    resp: AcceptResponse,
    now: TimeInterval,
    r: Result<(), PaxosError>,
    l2: LeaderView,
    ctx2: ContextView,
    acts: Seq<PaxosAction>,
    acts2: Seq<PaxosAction>,
) -> bool {
    let m = resp.member_id;
    let q = ctx.quorum_size();
    if resp.term < ctx.term {
        r is Ok && l2 == l && ctx2 == ctx && acts2 == acts
    } else if q < 2 {
        r == Err::<(), PaxosError>(PaxosError::ArithmeticOverflow)
    } else {
        let contact = contact_after(l.contact, m, resp.echoed_t_send);
        let proposal = lease_proposal(contact, q);
        if proposal matches Some(p) && p > i64::MAX {
            r == Err::<(), PaxosError>(PaxosError::ArithmeticOverflow)
        } else {
            let changed = proposal matches Some(p) && (ctx.lease_expiry matches Some(cur) ==> p > cur);
            let ctx1 = if changed { ContextView { lease_expiry: Some(proposal->0 as i64), ..ctx } } else { ctx };
            let acts1 = if changed { acts.push(PaxosAction::LeaseUpdated) } else { acts };
            let l1 = LeaderView { contact, ..l };
            let idx = key_index(l.board, m);
            let pos = l.board[idx].1.0;
            if resp.success {
                if !has_key(l.board, m) {
                    r == Err::<(), PaxosError>(PaxosError::UnknownMember(m))
                } else if resp.last_written_slot <= pos.match_slot {
                    r is Ok && l2 == l1 && ctx2 == ctx1 && acts2 == acts1
                } else if resp.last_written_slot == u32::MAX {
                    r == Err::<(), PaxosError>(PaxosError::ArithmeticOverflow)
                } else {
                    let lw = resp.last_written_slot;
                    let fs = (
                        LogPosition {
                            match_slot: lw,
                            next_slot: (lw + 1) as u32,
                            sent_slot: if pos.sent_slot < lw { lw } else { pos.sent_slot },
                        },
                        drop_acked(l.board[idx].1.1, lw),
                    );
                    let board = l.board.update(idx, (m, fs));
                    let mq = quorum_slot(match_slots(board), q, ctx.last_log_slot);
                    if mq > ctx.committed_slot {
                        if mq == u32::MAX {
                            r == Err::<(), PaxosError>(PaxosError::ArithmeticOverflow)
                        } else {
                            &&& r is Ok
                            &&& l2 == LeaderView {
                                board,
                                writes: l.writes.filter(|w: PendingWrite| w.slot > mq),
                                ..l1
                            }
                            &&& ctx2 == ContextView {
                                committed_slot: mq as u32,
                                uncommitted: ctx.uncommitted.filter(|e: models::LogEntry| e.slot > mq),
                                ..ctx1
                            }
                            &&& acts2.len() == acts1.len() + 1
                            &&& acts2.take(acts1.len() as int) == acts1
                            &&& acts2.last() matches PaxosAction::ResolveClientWrites(v) && v@ == l.writes.filter(
                                |w: PendingWrite| w.slot <= mq,
                            ).map_values(|w: PendingWrite| (w.slot, w.timestamp))
                        }
                    } else {
                        r is Ok && l2 == LeaderView { board, ..l1 } && ctx2 == ctx1 && acts2 == acts1
                    }
                }
            } else if resp.conflict_hint is None {
                r is Ok && l2 == l1 && ctx2 == ctx1 && acts2 == acts1
            } else if !has_key(l.board, m) {
                r == Err::<(), PaxosError>(PaxosError::UnknownMember(m))
            } else if probe_slot(ctx, resp.conflict_hint->0) is None {
                r == Err::<(), PaxosError>(PaxosError::ArithmeticOverflow)
            } else {
                let pos1 = LogPosition {
                    sent_slot: slot_before(pos.next_slot),
                    next_slot: probe_slot(ctx, resp.conflict_hint->0)->0,
                    ..pos
                };
                match dispatch_fault(ctx1, pos1) {
                    Some(e) => r == Err::<(), PaxosError>(e),
                    None => {
                        &&& r is Ok
                        &&& ctx2 == ctx1
                        &&& l2 == LeaderView {
                            board: l.board.update(
                                idx,
                                (m, (dispatched_position(ctx1, pos1), dispatched_batches(ctx1, pos1, Seq::empty(), now))),
                            ),
                            ..l1
                        }
                        &&& acts2.len() == acts1.len() + 1
                        &&& acts2.take(acts1.len() as int) == acts1
                        &&& acts2.last() matches PaxosAction::DispatchAcceptRequest(id, req) && id == m
                            && is_accept_request_for(req, ctx1, pos1, now, None)
                    },
                }
            }
        }
    }
}

impl Leader {
    /// The last contact times of the followers, in board order.
    fn contact_times(&self) -> (r: Vec<i64>)
        ensures
            r@ == self.last_contact@.map_values(|p: (MemberId, i64)| p.1),
    {
        let n = self.last_contact.len();
        let mut out: Vec<i64> = Vec::new();
        let mut i: usize = 0;
        while i < n
            invariant
                n == self.last_contact@.len(),
                0 <= i <= n,
                out@ == self.last_contact@.take(i as int).map_values(|p: (MemberId, i64)| p.1),
            decreases n - i,
        {
            out.push(*self.last_contact.value_at(i));
            proof {
                assert(self.last_contact@.take(i + 1) == self.last_contact@.take(i as int).push(self.last_contact@[i as int]));
            }
            i = i + 1;
        }
        proof {
            assert(self.last_contact@.take(n as int) == self.last_contact@);
        }
        out
    }

    /// The match slots of the followers, in board order.
    fn follower_match_slots(&self) -> (r: Vec<i64>)
        ensures
            r@ == match_slots(board_view(self.score_board@)),
    {
        let n = self.score_board.len();
        let mut out: Vec<i64> = Vec::new();
        let mut i: usize = 0;
        while i < n
            invariant
                n == self.score_board@.len(),
                0 <= i <= n,
                out@ == match_slots(board_view(self.score_board@.take(i as int))),
            decreases n - i,
        {
            out.push(self.score_board.value_at(i).log_position.match_slot as i64);
            proof {
                assert(self.score_board@.take(i + 1) == self.score_board@.take(i as int).push(self.score_board@[i as int]));
                assert(match_slots(board_view(self.score_board@.take(i + 1))) =~= match_slots(board_view(self.score_board@.take(i as int))).push(self.score_board@[i as int].1.log_position.match_slot as i64));
            }
            i = i + 1;
        }
        proof {
            assert(self.score_board@.take(n as int) == self.score_board@);
        }
        out
    }

    /// Handles an accept response (see `accept_response_effect`).
    #[verifier::rlimit(50)]
    pub fn handle_accept_response(&mut self, response: AcceptResponse, ctx: &mut PaxosSharedContext, now: &TimeInterval, actions: &mut Vec<PaxosAction>) -> (r: Result<(), PaxosError>)
        requires
            old(self).wf(),
            old(ctx).wf(),
            now.wf(),
        ensures
            r is Ok ==> final(self).wf() && final(ctx).wf(),
            accept_response_effect(old(self)@, old(ctx)@, response, *now, r, final(self)@, final(ctx)@, old(actions)@, final(actions)@),
    {
        let member_id = response.member_id;
        let current_term = ctx.get_current_term();
        if response.term < current_term {
            return Ok(());
        }
        let quorum_size = ctx.get_quorum_size();
        let ghost l0 = self@;
        let ghost c0 = ctx@;
        let ghost a0 = actions@;

        // The follower's last contact becomes the later of the stored and echoed send times
        let echoed = response.echoed_t_send;
        let contact = match self.last_contact.get(member_id) {
            Some(t) => if *t >= echoed { *t } else { echoed },
            None => echoed,
        };
        self.last_contact.insert(member_id, contact);
        assert(self.last_contact@ == contact_after(l0.contact, member_id, echoed));
        if quorum_size < 2 {
            return Err(PaxosError::ArithmeticOverflow);
        }

        // With a quorum of followers recently in contact, extend the lease from the weakest of them
        let contact_times = sort_desc(&self.contact_times());
        assert(contact_times@ == sorted_desc(contact_after(l0.contact, member_id, echoed).map_values(|p: (MemberId, i64)| p.1)));
        if quorum_size - 2 < contact_times.len() {
            let t_quorum = contact_times[quorum_size - 2];
            assert(lease_proposal(contact_after(l0.contact, member_id, echoed), c0.quorum_size()) == Some(t_quorum + LEASE_LENGTH_MICROS));
            if t_quorum > i64::MAX - LEASE_LENGTH_MICROS {
                return Err(PaxosError::ArithmeticOverflow);
            }
            let proposed_expiry = t_quorum + ctx.get_lease_length();
            // Only advance the lease; never shorten it
            let advance = match ctx.get_leader_lease_expiry() {
                None => true,
                Some(current) => proposed_expiry > current,
            };
            if advance {
                ctx.update_leader_lease_expiry_time(proposed_expiry);
                actions.push(PaxosAction::LeaseUpdated);
            }
        }
        let ghost c1 = ctx@;
        let ghost a1 = actions@;

        if response.success {
            let last_written_slot = response.last_written_slot;
            proof {
                lemma_board_view_keys(self.score_board@, member_id);
            }
            let idx = match self.score_board.find(member_id) {
                Some(i) => i,
                None => return Err(PaxosError::UnknownMember(member_id)),
            };
            let pos = self.score_board.value_at(idx).log_position;
            if last_written_slot > pos.match_slot {
                if last_written_slot == u32::MAX {
                    return Err(PaxosError::ArithmeticOverflow);
                }
                let mut fs = self.score_board.replace_value_at(idx, FollowerState::new(LogPosition::new()));
                fs.log_position.match_slot = last_written_slot;
                fs.log_position.next_slot = last_written_slot + 1;
                if fs.log_position.sent_slot < fs.log_position.match_slot {
                    fs.log_position.sent_slot = fs.log_position.match_slot;
                }
                fs.ack_batches_up_to(last_written_slot);
                self.score_board.set_value_at(idx, fs);
                proof {
                    assert(board_view(self.score_board@) =~= l0.board.update(idx as int, (member_id, fs@)));
                }

                // The follower moved forward: recheck how far a quorum has replicated
                let slots = self.follower_match_slots();
                let follower_slots = sort_desc(&slots);
                let k = if quorum_size - 1 < follower_slots.len() { quorum_size - 1 } else { follower_slots.len() };
                let last = ctx.get_last_log_slot();
                proof {
                    if k > 0 {
                        let x = follower_slots@[k - 1];
                        slots@.lemma_sort_by_ensures(|a: i64, b: i64| a >= b);
                        assert(follower_slots@.contains(x));
                        let j = choose|j: int| 0 <= j < slots@.len() && slots@[j] == x;
                        assert(slots@[j] == self.score_board@[j].1.log_position.match_slot as i64);
                    }
                }
                let min_quorum_slot: u32 = if k == 0 {
                    last
                } else if follower_slots[k - 1] < last as i64 {
                    follower_slots[k - 1] as u32
                } else {
                    last
                };
                if min_quorum_slot > ctx.get_committed_slot() {
                    if min_quorum_slot == u32::MAX {
                        return Err(PaxosError::ArithmeticOverflow);
                    }
                    ctx.set_committed_slot(min_quorum_slot);
                    ctx.retain_uncommitted_after(min_quorum_slot);
                    let resolved = self.resolve_in_flight_writes(min_quorum_slot);
                    actions.push(PaxosAction::ResolveClientWrites(resolved));
                    proof {
                        assert(actions@.take(a1.len() as int) =~= a1);
                    }
                }
            }
            return Ok(());
        }

        let hint = match response.conflict_hint {
            Some(h) => h,
            None => return Ok(()),
        };
        proof {
            lemma_board_view_keys(self.score_board@, member_id);
        }
        let idx = match self.score_board.find(member_id) {
            Some(i) => i,
            None => return Err(PaxosError::UnknownMember(member_id)),
        };
        let next_slot = if hint.conflict_term == 0 {
            // The follower's log is short: resend from its first missing slot
            hint.conflict_first_slot
        } else {
            // Term mismatch at the anchor
            match ctx.get_wal().find_highest_slot_for_term(hint.conflict_term) {
                // The leader has entries of that term: align just past its last one
                Some(leader_last_slot) => {
                    proof {
                        lemma_highest_unique(c1.wal, hint.conflict_term, leader_last_slot);
                    }
                    if leader_last_slot == u32::MAX {
                        return Err(PaxosError::ArithmeticOverflow);
                    }
                    leader_last_slot + 1
                },
                // The leader has no entry of that term: skip to the follower's hint
                None => hint.conflict_first_slot,
            }
        };
        // Our view of the follower's log is inconsistent: probe it again from scratch
        let mut fs = self.score_board.replace_value_at(idx, FollowerState::new(LogPosition::new()));
        fs.clear_in_flight_batches();
        fs.log_position.next_slot = next_slot;
        self.score_board.set_value_at(idx, fs);
        proof {
            assert(board_view(self.score_board@) =~= l0.board.update(idx as int, (member_id, fs@)));
        }
        let ghost l1 = self@;
        let outcome = self.dispatch_to(idx, ctx, now, None, actions);
        proof {
            assert(board_view(self.score_board@) =~= l0.board.update(idx as int, board_view(self.score_board@)[idx as int]));
        }
        outcome
    }
}


impl Leader {
    /// Handles one event as the leader; returns the next state and adds the runtime's work
    /// to `actions`. Vote and pre-vote requests get no answer from a leader.
    pub fn handle_event(self, event: PaxosEvent, ctx: &mut PaxosSharedContext, now: &TimeInterval, actions: &mut Vec<PaxosAction>) -> (r: Result<PaxosState, PaxosError>)
        requires
            old(ctx).wf(),
            now.wf(),
            self.wf(),
        ensures
            r matches Ok(PaxosState::Leader(l)) ==> l.wf(),
            r is Ok ==> final(ctx).wf(),
            r is Ok ==> final(ctx)@.term == old(ctx)@.term,
            r is Ok ==> final(ctx)@.committed_slot >= old(ctx)@.committed_slot,
            leader_event_effect(self, old(ctx)@, event, *now, r, final(ctx)@, old(actions)@, final(actions)@),
    {
        let mut this = self;
        match event {
            PaxosEvent::AcceptResponseReceived(response) => {
                this.handle_accept_response(response, ctx, now, actions)?;
                Ok(PaxosState::Leader(this))
            },
            PaxosEvent::ClientWriteRequestReceived(request) => {
                this.handle_client_write(request, ctx, now, actions)?;
                Ok(PaxosState::Leader(this))
            },
            PaxosEvent::WriteFlushTimerFired => {
                this.handle_write_flush(ctx, now, actions)?;
                Ok(PaxosState::Leader(this))
            },
            PaxosEvent::AcceptTimeoutCheckFired => {
                this.handle_accept_timeout_check(now);
                Ok(PaxosState::Leader(this))
            },
            PaxosEvent::HeartbeatTimerFired => {
                this.handle_heartbeat(ctx, now, actions)?;
                Ok(PaxosState::Leader(this))
            },
            PaxosEvent::LeaderLeaseExpired => {
                // The lease ran out: step down and start the election countdown
                actions.push(PaxosAction::RoleEnded);
                actions.push(PaxosAction::StartElectionCountdown { max_ms: crate::roles::follower::ELECTION_COUNTDOWN_MAX_MS });
                Ok(PaxosState::Follower(Follower::new(None)))
            },
            _ => Ok(PaxosState::Leader(this)),
        }
    }
}


/// An accept response never shortens the leader lease: when the leader handles one without
/// error, a lease that was set stays set and does not move earlier.
pub proof fn lemma_lease_never_shortened(
    l: LeaderView,
    ctx: ContextView,
    resp: AcceptResponse,
    now: TimeInterval,
    l2: LeaderView,
    ctx2: ContextView,
    acts: Seq<PaxosAction>,
    acts2: Seq<PaxosAction>,
)
    requires
        accept_response_effect(l, ctx, resp, now, Ok(()), l2, ctx2, acts, acts2),
        ctx.lease_expiry is Some,
    ensures
        ctx2.lease_expiry matches Some(e) && e >= ctx.lease_expiry->0,
{
}
/// What `Leader::handle_event` does with each event.
pub open spec fn leader_event_effect(
    l: Leader,
    ctx: ContextView,
    event: PaxosEvent,
    now: TimeInterval,
    r: Result<PaxosState, PaxosError>,
    ctx2: ContextView,
    acts: Seq<PaxosAction>,
    acts2: Seq<PaxosAction>,
) -> bool {
    match event {
        PaxosEvent::AcceptResponseReceived(resp) => match r {
            Ok(PaxosState::Leader(l2)) => accept_response_effect(l@, ctx, resp, now, Ok(()), l2@, ctx2, acts, acts2),
            Ok(_) => false,
            Err(e) => accept_response_effect(l@, ctx, resp, now, Err(e), l@, ctx2, acts, acts2),
        },
        PaxosEvent::ClientWriteRequestReceived(req) => match r {
            Ok(PaxosState::Leader(l2)) => client_write_effect(l@, ctx, req.value, now, Ok(()), l2@, ctx2, acts, acts2),
            Ok(_) => false,
            Err(e) => client_write_effect(l@, ctx, req.value, now, Err(e), l@, ctx2, acts, acts2),
        },
        PaxosEvent::WriteFlushTimerFired => if l.pending_write_count == 0 {
            r == Ok::<PaxosState, PaxosError>(PaxosState::Leader(l)) && ctx2 == ctx && acts2 == acts
        } else {
            &&& ctx2 == ctx
            &&& match r {
                Ok(PaxosState::Leader(l2)) => l2@ == LeaderView { board: l2@.board, pending_write_count: 0, ..l@ }
                    && dispatched_all(l@.board, l2@.board, ctx, now, None, Ok(()), acts, acts2),
                Ok(_) => false,
                Err(e) => dispatched_all(l@.board, l@.board, ctx, now, None, Err(e), acts, acts2),
            }
        },
        PaxosEvent::HeartbeatTimerFired => {
            &&& ctx2 == ctx
            &&& match r {
                Ok(PaxosState::Leader(l2)) => l2@ == LeaderView {
                    board: l2@.board,
                    promise: raised_promise(l@.promise, heartbeat_min_next_ts(ctx, now)),
                    ..l@
                } && dispatched_all(l@.board, l2@.board, ctx, now, Some(heartbeat_min_next_ts(ctx, now)), Ok(()), acts, acts2),
                Ok(_) => false,
                Err(e) => dispatched_all(l@.board, l@.board, ctx, now, Some(heartbeat_min_next_ts(ctx, now)), Err(e), acts, acts2),
            }
        },
        PaxosEvent::AcceptTimeoutCheckFired => r matches Ok(PaxosState::Leader(l2)) && l2@ == LeaderView {
            board: l@.board.map_values(|p: (MemberId, FollowerView)| (p.0, checked_follower(p.1, now))),
            ..l@
        } && ctx2 == ctx && acts2 == acts,
        PaxosEvent::LeaderLeaseExpired => r matches Ok(PaxosState::Follower(f)) && f.current_leader_id is None
            && f.vote_record is None && ctx2 == ctx && acts2 == acts.push(PaxosAction::RoleEnded).push(
            PaxosAction::StartElectionCountdown { max_ms: crate::roles::follower::ELECTION_COUNTDOWN_MAX_MS },
        ),
        _ => r == Ok::<PaxosState, PaxosError>(PaxosState::Leader(l)) && ctx2 == ctx && acts2 == acts,
    }
}

} // verus!
