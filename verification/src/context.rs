//! The state that every role of a group member shares: identity, term, log positions,
//! the leader lease, the safe-read time, the uncommitted entries and the write-ahead log.
use crate::member_id::MemberId;
use crate::messages::{PreVoteRequest, VoteRequest};
use crate::models::LogEntry;
use crate::slot_log::{slots_increasing, SlotLog};
use crate::time::{TimeInterval, TrueTime, CLOCK_MAX_MICROS, UNCERTAINTY_MICROS};
use crate::wal::{self, WriteAheadLog};
use crate::text::{decimal, decimal_string, member_id_string, member_id_text};
use vstd::prelude::*;

verus! {

/// The length of a leader lease: ten seconds, in microseconds.
pub const LEASE_LENGTH_MICROS: i64 = 10_000_000;

/// The abstract state of a member's shared context.
pub struct ContextView {
    pub member_id: MemberId,
    pub peer_ids: Seq<MemberId>,
    pub term: u32,
    pub t_safe: Option<i64>,
    pub lease_expiry: Option<i64>,
    pub lease_length: i64,
    pub last_log_term: u32,
    pub last_log_slot: u32,
    pub committed_slot: u32,
    pub uncommitted: Seq<LogEntry>,
    pub wal: Seq<wal::LogEntry>,
}

impl ContextView {
    /// The number of members (this one and its peers) whose agreement forms a quorum.
    pub open spec fn quorum_size(self) -> int {
        ((self.peer_ids.len() + 1) / 2 + 1) as int
    }

    /// The lease has expired at `now`, or was never set.
    pub open spec fn lease_expired_at(self, now: TimeInterval) -> bool {
        match self.lease_expiry {
            None => true,
            Some(expiry) => expiry < now.earliest,
        }
    }
}

/// What the lease watcher does next.
#[derive(Clone, Copy, PartialEq, Eq, Structural, Debug)]
pub enum LeaseWatch {
    /// No lease is set: wait until one is.
    WaitForLease,
    /// The lease runs until this time: wait until it has definitely passed.
    WaitUntil(i64),
    /// The lease has definitely expired and was cleared: the leader lease expiry fires.
    Expired,
}

/// The state shared by all roles of one group member.
pub struct PaxosSharedContext {
    member_id: MemberId,
    peer_ids: Vec<MemberId>,
    term: u32,
    t_safe: Option<i64>,
    lease_expiry: Option<i64>,
    lease_length: i64,
    last_log_term: u32,
    last_log_slot: u32,
    committed_slot: u32,
    uncommitted_logs: SlotLog<LogEntry>,
    wal: WriteAheadLog,
}

impl View for PaxosSharedContext {
    type V = ContextView;

    closed spec fn view(&self) -> ContextView {
        ContextView {
            member_id: self.member_id,
            peer_ids: self.peer_ids@,
            term: self.term,
            t_safe: self.t_safe,
            lease_expiry: self.lease_expiry,
            lease_length: self.lease_length,
            last_log_term: self.last_log_term,
            last_log_slot: self.last_log_slot,
            committed_slot: self.committed_slot,
            uncommitted: self.uncommitted_logs@,
            wal: self.wal@,
        }
    }
}

impl PaxosSharedContext {
    /// The peers are distinct, the logs are in slot order and the lease length is fixed.
    pub open spec fn wf(&self) -> bool {
        &&& self@.peer_ids.no_duplicates()
        &&& self@.peer_ids.len() < usize::MAX
        &&& slots_increasing(self@.uncommitted)
        &&& slots_increasing(self@.wal)
        &&& self@.lease_length == LEASE_LENGTH_MICROS
    }

    proof fn lemma_parts_wf(&self)
        requires
            self.wf(),
        ensures
            self.uncommitted_logs.wf(),
            self.wal.wf(),
    {
        self.wal.lemma_wf();
    }

    /// A fresh context: term 0, empty logs, and a lease that expired at the epoch so that
    /// lease expiry fires at once on startup.
    pub fn new(member_id: MemberId, peer_ids: Vec<MemberId>) -> (r: Self)
        requires
            peer_ids@.no_duplicates(),
            peer_ids@.len() < usize::MAX,
        ensures
            r.wf(),
            r@ == (ContextView {
                member_id,
                peer_ids: peer_ids@,
                term: 0,
                t_safe: None,
                lease_expiry: Some(0),
                lease_length: LEASE_LENGTH_MICROS,
                last_log_term: 0,
                last_log_slot: 0,
                committed_slot: 0,
                uncommitted: Seq::empty(),
                wal: Seq::empty(),
            }),
    {
        let r = PaxosSharedContext {
            member_id,
            peer_ids,
            term: 0,
            t_safe: None,
            lease_expiry: Some(0),
            lease_length: LEASE_LENGTH_MICROS,
            last_log_term: 0,
            last_log_slot: 0,
            committed_slot: 0,
            uncommitted_logs: SlotLog::new(),
            wal: WriteAheadLog::new(),
        };
        proof {
            r.wal.lemma_wf();
        }
        r
    }

    pub fn get_current_term(&self) -> (r: u32)
        ensures
            r == self@.term,
    {
        self.term
    }

    pub fn get_next_term(&self) -> (r: u32)
        requires
            self@.term < u32::MAX,
        ensures
            r == self@.term + 1,
    {
        self.term + 1
    }

    pub fn set_current_term(&mut self, term: u32)
        requires
            old(self).wf(),
        ensures
            final(self).wf(),
            final(self)@ == (ContextView { term, ..old(self)@ }),
    {
        self.term = term;
    }

    pub fn increment_current_term(&mut self)
        requires
            old(self).wf(),
            old(self)@.term < u32::MAX,
        ensures
            final(self).wf(),
            final(self)@ == (ContextView { term: (old(self)@.term + 1) as u32, ..old(self)@ }),
    {
        self.term = self.term + 1;
    }

    pub fn get_current_member_id(&self) -> (r: MemberId)
        ensures
            r == self@.member_id,
    {
        self.member_id
    }

    /// The prefix of this member's log lines in `role`: `[role id, term t]`.
    pub fn log_prefix(&self, role: &str) -> (r: String)
        ensures
            r@ == "["@ + role@ + " "@ + member_id_text(self@.member_id) + ", term "@ + decimal(self@.term as nat) + "]"@,
    {
        let mut prefix = String::new();
        prefix.append("[");
        prefix.append(role);
        prefix.append(" ");
        let id = member_id_string(self.member_id);
        prefix.append(id.as_str());
        prefix.append(", term ");
        let term = decimal_string(self.term);
        prefix.append(term.as_str());
        prefix.append("]");
        prefix
    }

    pub fn get_peer_ids(&self) -> (r: &Vec<MemberId>)
        ensures
            r@ == self@.peer_ids,
    {
        &self.peer_ids
    }

    /// The size of a majority of the group: this member and its peers.
    pub fn get_quorum_size(&self) -> (r: usize)
        requires
            self.wf(),
        ensures
            r == self@.quorum_size(),
    {
        (self.peer_ids.len() + 1) / 2 + 1
    }

    pub fn get_last_log_term(&self) -> (r: u32)
        ensures
            r == self@.last_log_term,
    {
        self.last_log_term
    }

    pub fn get_last_log_slot(&self) -> (r: u32)
        ensures
            r == self@.last_log_slot,
    {
        self.last_log_slot
    }

    pub fn get_committed_slot(&self) -> (r: u32)
        ensures
            r == self@.committed_slot,
    {
        self.committed_slot
    }

    pub fn set_committed_slot(&mut self, slot: u32)
        requires
            old(self).wf(),
        ensures
            final(self).wf(),
            final(self)@ == (ContextView { committed_slot: slot, ..old(self)@ }),
    {
        self.committed_slot = slot;
    }

    pub fn set_last_log_slot(&mut self, slot: u32)
        requires
            old(self).wf(),
        ensures
            final(self).wf(),
            final(self)@ == (ContextView { last_log_slot: slot, ..old(self)@ }),
    {
        self.last_log_slot = slot;
    }

    pub fn set_last_log_term(&mut self, term: u32)
        requires
            old(self).wf(),
        ensures
            final(self).wf(),
            final(self)@ == (ContextView { last_log_term: term, ..old(self)@ }),
    {
        self.last_log_term = term;
    }

    /// The entries persisted but not yet committed, in slot order.
    pub fn get_uncommitted_logs(&self) -> (r: &SlotLog<LogEntry>)
        ensures
            r@ == self@.uncommitted,
    {
        &self.uncommitted_logs
    }

    /// Copies of the uncommitted entries, in slot order.
    pub fn uncommitted_values(&self) -> (r: Vec<LogEntry>)
        ensures
            r@ == self@.uncommitted,
    {
        self.uncommitted_logs.values()
    }

    /// Stores an uncommitted entry at its slot, replacing any entry there.
    pub fn insert_uncommitted(&mut self, entry: LogEntry)
        requires
            old(self).wf(),
        ensures
            final(self).wf(),
            final(self)@ == (ContextView {
                uncommitted: crate::slot_log::insert_sorted(old(self)@.uncommitted, entry),
                ..old(self)@
            }),
    {
        proof {
            self.lemma_parts_wf();
        }
        self.uncommitted_logs.insert(entry);
    }

    /// Drops the uncommitted entries at or after `slot`.
    pub fn truncate_uncommitted_from(&mut self, slot: u32)
        requires
            old(self).wf(),
        ensures
            final(self).wf(),
            final(self)@ == (ContextView {
                uncommitted: old(self)@.uncommitted.filter(|e: LogEntry| e.slot < slot),
                ..old(self)@
            }),
    {
        proof {
            self.lemma_parts_wf();
        }
        self.uncommitted_logs.truncate_from(slot);
        assert((|e: LogEntry| crate::slot_log::SlotEntry::slot_of(&e) < slot) == (|e: LogEntry| e.slot < slot));
    }

    /// Drops the uncommitted entries at or below `slot`.
    pub fn retain_uncommitted_after(&mut self, slot: u32)
        requires
            old(self).wf(),
        ensures
            final(self).wf(),
            final(self)@ == (ContextView {
                uncommitted: old(self)@.uncommitted.filter(|e: LogEntry| e.slot > slot),
                ..old(self)@
            }),
    {
        proof {
            self.lemma_parts_wf();
        }
        self.uncommitted_logs.retain_after(slot);
        assert((|e: LogEntry| crate::slot_log::SlotEntry::slot_of(&e) > slot) == (|e: LogEntry| e.slot > slot));
    }

    /// Replaces the uncommitted entries.
    pub fn set_uncommitted_logs(&mut self, logs: SlotLog<LogEntry>)
        requires
            old(self).wf(),
            logs.wf(),
        ensures
            final(self).wf(),
            final(self)@ == (ContextView { uncommitted: logs@, ..old(self)@ }),
    {
        self.uncommitted_logs = logs;
    }

    pub fn get_lease_length(&self) -> (r: i64)
        ensures
            r == self@.lease_length,
    {
        self.lease_length
    }

    /// Sets the leader lease to expire at `expiry`.
    pub fn update_leader_lease_expiry_time(&mut self, expiry: i64)
        requires
            old(self).wf(),
        ensures
            final(self).wf(),
            final(self)@ == (ContextView { lease_expiry: Some(expiry), ..old(self)@ }),
    {
        self.lease_expiry = Some(expiry);
    }

    /// Extends the leader lease to one lease length after `now.latest`.
    pub fn extend_leader_lease_expiry_time_at(&mut self, now: &TimeInterval)
        requires
            old(self).wf(),
            now.wf(),
        ensures
            final(self).wf(),
            final(self)@ == (ContextView {
                lease_expiry: Some((now.latest + LEASE_LENGTH_MICROS) as i64),
                ..old(self)@
            }),
    {
        self.lease_expiry = Some(now.latest + self.lease_length);
    }

    /// Extends the leader lease to one lease length after the current TrueTime latest
    /// bound.
    pub fn extend_leader_lease_expiry_time(&mut self)
        requires
            old(self).wf(),
        ensures
            final(self).wf(),
            exists|now: TimeInterval| now.wf() && final(self)@ == (ContextView {
                lease_expiry: Some((now.latest + LEASE_LENGTH_MICROS) as i64),
                ..old(self)@
            }),
    {
        let now = TrueTime::now();
        self.extend_leader_lease_expiry_time_at(&now);
    }

    pub fn get_leader_lease_expiry(&self) -> (r: Option<i64>)
        ensures
            r == self@.lease_expiry,
    {
        self.lease_expiry
    }

    /// True if the leader lease has definitely expired at `now`, or was never set.
    pub fn is_leader_lease_expired_at(&self, now: &TimeInterval) -> (r: bool)
        ensures
            r == self@.lease_expired_at(*now),
    {
        match self.lease_expiry {
            None => true,
            Some(expiry) => TrueTime::after_at(expiry, now),
        }
    }

    /// True if the leader lease has definitely expired, or was never set.
    pub fn is_leader_lease_expired(&self) -> (r: bool)
        ensures
            exists|now: TimeInterval| now.wf() && r == self@.lease_expired_at(now),
    {
        let now = TrueTime::now();
        self.is_leader_lease_expired_at(&now)
    }

    /// One look of the lease watcher at `now`: with no lease set it waits for one; with a
    /// lease that has not definitely passed it waits until it has; with one that has, it
    /// clears the lease and the leader lease expiry fires.
    pub fn poll_lease_expiry_at(&mut self, now: &TimeInterval) -> (r: LeaseWatch)
        requires
            old(self).wf(),
        ensures
            final(self).wf(),
            match old(self)@.lease_expiry {
                None => r == LeaseWatch::WaitForLease && final(self)@ == old(self)@,
                Some(expiry) => if expiry < now.earliest {
                    r == LeaseWatch::Expired && final(self)@ == (ContextView { lease_expiry: None, ..old(self)@ })
                } else {
                    r == LeaseWatch::WaitUntil(expiry) && final(self)@ == old(self)@
                },
            },
    {
        match self.lease_expiry {
            None => LeaseWatch::WaitForLease,
            Some(expiry) => {
                if TrueTime::after_at(expiry, now) {
                    self.lease_expiry = None;
                    LeaseWatch::Expired
                } else {
                    LeaseWatch::WaitUntil(expiry)
                }
            },
        }
    }

    /// A pre-vote request for the next term, advertising this member's log position.
    pub fn create_pre_vote(&self) -> (r: PreVoteRequest)
        requires
            self@.term < u32::MAX,
        ensures
            r == (PreVoteRequest {
                member_id: self@.member_id,
                next_term: (self@.term + 1) as u32,
                last_log_term: self@.last_log_term,
                last_log_slot: self@.last_log_slot,
            }),
    {
        PreVoteRequest {
            member_id: self.member_id,
            next_term: self.term + 1,
            last_log_term: self.last_log_term,
            last_log_slot: self.last_log_slot,
        }
    }

    /// A vote request for the current term, advertising this member's log position.
    pub fn create_vote(&self) -> (r: VoteRequest)
        ensures
            r == (VoteRequest {
                member_id: self@.member_id,
                term: self@.term,
                last_log_term: self@.last_log_term,
                last_log_slot: self@.last_log_slot,
            }),
    {
        VoteRequest {
            member_id: self.member_id,
            term: self.term,
            last_log_term: self.last_log_term,
            last_log_slot: self.last_log_slot,
        }
    }

    /// The time at which this member is safe to serve a read.
    pub fn get_t_safe(&self) -> (r: Option<i64>)
        ensures
            r == self@.t_safe,
    {
        self.t_safe
    }

    /// Advances the safe-read time to `ts` only if `ts` is later than the current value.
    pub fn advance_t_safe(&mut self, ts: i64)
        requires
            old(self).wf(),
        ensures
            final(self).wf(),
            final(self)@ == (ContextView { t_safe: advanced_t_safe(old(self)@.t_safe, ts), ..old(self)@ }),
    {
        match self.t_safe {
            None => self.t_safe = Some(ts),
            Some(current) => {
                if ts > current {
                    self.t_safe = Some(ts);
                }
            },
        }
    }

    /// The write-ahead log.
    pub fn get_wal(&self) -> (r: &WriteAheadLog)
        requires
            self.wf(),
        ensures
            r@ == self@.wal,
            r.wf(),
    {
        proof {
            self.lemma_parts_wf();
        }
        &self.wal
    }

    /// Stores `entry` in the write-ahead log at its slot.
    pub fn wal_append(&mut self, entry: wal::LogEntry)
        requires
            old(self).wf(),
        ensures
            final(self).wf(),
            final(self)@ == (ContextView {
                wal: crate::slot_log::insert_sorted(old(self)@.wal, entry),
                ..old(self)@
            }),
    {
        proof {
            self.lemma_parts_wf();
        }
        self.wal.append(entry);
        proof {
            self.wal.lemma_wf();
        }
    }

    /// Removes the write-ahead log entries at or after `slot`.
    pub fn wal_truncate_from(&mut self, slot: u32)
        requires
            old(self).wf(),
        ensures
            final(self).wf(),
            final(self)@ == (ContextView {
                wal: old(self)@.wal.filter(|e: wal::LogEntry| e.slot < slot),
                ..old(self)@
            }),
    {
        proof {
            self.lemma_parts_wf();
        }
        self.wal.truncate_from(slot);
        proof {
            self.wal.lemma_wf();
        }
    }
}

/// The safe-read time after advancing `current` to `ts`: the later of the two.
pub open spec fn advanced_t_safe(current: Option<i64>, ts: i64) -> Option<i64> {
    match current {
        None => Some(ts),
        Some(c) => if ts > c { Some(ts) } else { Some(c) },
    }
}

/// The safe-read time never moves backwards: after an advance it is at least what it was
/// and at least the proposed time.
pub proof fn lemma_t_safe_monotone(current: Option<i64>, ts: i64)
    ensures
        advanced_t_safe(current, ts) matches Some(t) && t >= ts && (current matches Some(c) ==> t >= c),
{
}

/// Any two quorums of a group overlap: twice the quorum size exceeds the group size.
pub proof fn lemma_quorums_intersect(ctx: ContextView)
    ensures
        2 * ctx.quorum_size() > ctx.peer_ids.len() + 1,
        ctx.quorum_size() <= ctx.peer_ids.len() + 1,
{
}

} // verus!
