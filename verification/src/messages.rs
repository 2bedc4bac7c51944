//! The messages that group members exchange, and the client write messages.
use crate::member_id::MemberId;
use crate::models::LogEntry;
use crate::text::{decimal, decimal_string, member_id_string, member_id_text};
use vstd::prelude::*;

verus! {

/// A number in decimal, or `?` when absent.
pub open spec fn optional_number_text(v: Option<u32>) -> Seq<char> {
    match v {
        Some(n) => decimal(n as nat),
        None => "?"@,
    }
}

/// The reason that names an active leader, if there is one.
pub open spec fn leader_reason(leader: Option<MemberId>) -> Seq<char> {
    match leader {
        Some(id) => ", active leader "@ + member_id_text(id),
        None => Seq::empty(),
    }
}

/// The reason that says the voter's log is ahead, if either of its parts is known.
pub open spec fn log_ahead_reason(log_term: Option<u32>, log_slot: Option<u32>) -> Seq<char> {
    if log_term is Some || log_slot is Some {
        ", log ahead (term="@ + optional_number_text(log_term) + ", slot="@ + optional_number_text(log_slot) + ")"@
    } else {
        Seq::empty()
    }
}

/// Appends the reason that names `leader`, if there is one.
fn push_leader_reason(out: &mut String, leader: Option<MemberId>)
    ensures
        final(out)@ == old(out)@ + leader_reason(leader),
{
    if let Some(id) = leader {
        out.append(", active leader ");
        let text = member_id_string(id);
        out.append(text.as_str());
    } else {
        assert(old(out)@ + Seq::<char>::empty() =~= old(out)@);
    }
}

/// Appends a number in decimal, or `?` when absent.
fn push_optional_number(out: &mut String, v: Option<u32>)
    ensures
        final(out)@ == old(out)@ + optional_number_text(v),
{
    match v {
        Some(n) => {
            let text = decimal_string(n);
            out.append(text.as_str());
        },
        None => out.append("?"),
    }
}

/// Appends the reason that says the voter's log is ahead, if either part is known.
fn push_log_ahead_reason(out: &mut String, log_term: Option<u32>, log_slot: Option<u32>)
    ensures
        final(out)@ == old(out)@ + log_ahead_reason(log_term, log_slot),
{
    if log_term.is_some() || log_slot.is_some() {
        let ghost start = out@;
        out.append(", log ahead (term=");
        push_optional_number(out, log_term);
        out.append(", slot=");
        push_optional_number(out, log_slot);
        out.append(")");
        assert(out@ =~= start + log_ahead_reason(log_term, log_slot));
    } else {
        assert(old(out)@ + Seq::<char>::empty() =~= old(out)@);
    }
}

/// A pre-vote request: a dry-run vote for `next_term` that does not change any term.
#[derive(Clone, Copy)]
pub struct PreVoteRequest {
    pub member_id: MemberId,
    pub next_term: u32,
    pub last_log_term: u32,
    pub last_log_slot: u32,
}

/// The answer to a pre-vote request.
#[derive(Clone, Copy)]
pub struct PreVoteResponse {
    pub member_id: MemberId,
    pub term: u32,
    pub vote_granted: bool,
    pub current_leader_id: Option<MemberId>,
    pub member_last_log_term: Option<u32>,
    pub member_last_log_slot: Option<u32>,
}

/// Why a pre-vote was refused: the responder's term, then the active leader and the log
/// that is ahead where the response names them, separated by commas.
pub open spec fn pre_vote_rejection_text(r: PreVoteResponse) -> Seq<char> {
    "term "@ + decimal(r.term as nat) + leader_reason(r.current_leader_id) + log_ahead_reason(
        r.member_last_log_term,
        r.member_last_log_slot,
    )
}

impl PreVoteResponse {
    /// Why the pre-vote was refused, as text (see `pre_vote_rejection_text`).
    pub fn rejection_reason(&self) -> (r: String)
        ensures
            r@ == pre_vote_rejection_text(*self),
    {
        let mut reasons = String::new();
        reasons.append("term ");
        let term = decimal_string(self.term);
        reasons.append(term.as_str());
        push_leader_reason(&mut reasons, self.current_leader_id);
        push_log_ahead_reason(&mut reasons, self.member_last_log_term, self.member_last_log_slot);
        assert(reasons@ =~= pre_vote_rejection_text(*self));
        reasons
    }
    /// The reported leader, if the response carries one and its term satisfies
    /// `term_condition`.
    pub fn try_get_leader<F: Fn(u32) -> bool>(&self, term_condition: F) -> (r: Option<MemberId>)
        requires
            self.current_leader_id is Some ==> term_condition.requires((self.term,)),
        ensures
            self.current_leader_id is None ==> r is None,
            r matches Some(id) ==> self.current_leader_id == Some(id) && term_condition.ensures(
                (self.term,),
                true,
            ),
            self.current_leader_id is Some && r is None ==> term_condition.ensures(
                (self.term,),
                false,
            ),
    {
        let leader_id = match self.current_leader_id {
            Some(id) => id,
            None => return None,
        };
        if term_condition(self.term) {
            Some(leader_id)
        } else {
            None
        }
    }
}

/// A vote request from a candidate for `term`.
#[derive(Clone, Copy)]
pub struct VoteRequest {
    pub member_id: MemberId,
    pub term: u32,
    pub last_log_term: u32,
    pub last_log_slot: u32,
}

/// The answer to a vote request.
#[derive(Clone)]
pub struct VoteResponse {
    /// The member who responded.
    pub member_id: MemberId,
    /// The responder's current term, whatever the outcome.
    pub term: u32,
    /// The outcome of the vote request.
    pub outcome: VoteOutcome,
}

impl VoteResponse {
    /// The leader reported by a rejection, if there is one and its term satisfies
    /// `term_condition`.
    pub fn try_get_leader<F: Fn(u32) -> bool>(&self, term_condition: F) -> (r: Option<MemberId>)
        requires
            self.reported_leader() is Some ==> term_condition.requires((self.term,)),
        ensures
            self.reported_leader() is None ==> r is None,
            r matches Some(id) ==> self.reported_leader() == Some(id) && term_condition.ensures(
                (self.term,),
                true,
            ),
            self.reported_leader() is Some && r is None ==> term_condition.ensures(
                (self.term,),
                false,
            ),
    {
        let rejection = match &self.outcome {
            VoteOutcome::Rejection(rejection) => rejection,
            VoteOutcome::Promise(_) => return None,
        };
        let leader_id = match rejection.current_leader_id {
            Some(id) => id,
            None => return None,
        };
        if term_condition(self.term) {
            Some(leader_id)
        } else {
            None
        }
    }

    /// The leader that a rejection reports, if any.
    pub open spec fn reported_leader(&self) -> Option<MemberId> {
        match self.outcome {
            VoteOutcome::Rejection(rejection) => rejection.current_leader_id,
            VoteOutcome::Promise(_) => None,
        }
    }
}

/// The outcome of a vote request.
#[derive(Clone)]
pub enum VoteOutcome {
    Promise(VotePromise),
    Rejection(VoteRejection),
}

/// A granted vote.
#[derive(Clone)]
pub struct VotePromise {
    /// The term of the last log entry the voter persisted.
    pub last_log_term: u32,
    /// The slot of the last log entry the voter persisted.
    pub last_log_slot: u32,
    /// The voter's entries that are not committed yet; the new leader processes them first.
    pub uncommitted_entries: Vec<LogEntry>,
}

/// A refused vote, with the reasons that apply.
#[derive(Clone, Copy)]
pub struct VoteRejection {
    /// The leader whose lease is still active, if that is why the vote was refused.
    pub current_leader_id: Option<MemberId>,
    /// The voter's last log term, if the candidate's log is behind on terms.
    pub member_last_log_term: Option<u32>,
    /// The voter's last log slot, if the candidate's log is behind on slots.
    pub member_last_log_slot: Option<u32>,
    /// The member this voter already voted for in this term or a later one.
    pub voted_for_id: Option<MemberId>,
}

/// The reason that names the member already voted for, if there is one.
pub open spec fn voted_for_reason(voted_for: Option<MemberId>) -> Seq<char> {
    match voted_for {
        Some(id) => ", already voted for "@ + member_id_text(id),
        None => Seq::empty(),
    }
}

/// Why a vote in `term` was refused: the term, then the active leader, the log that is
/// ahead and the member already voted for where the rejection names them, separated by
/// commas.
pub open spec fn vote_rejection_text(r: VoteRejection, term: u32) -> Seq<char> {
    "term "@ + decimal(term as nat) + leader_reason(r.current_leader_id) + log_ahead_reason(
        r.member_last_log_term,
        r.member_last_log_slot,
    ) + voted_for_reason(r.voted_for_id)
}

impl VoteRejection {
    /// Why the vote in `term` was refused, as text (see `vote_rejection_text`).
    pub fn rejection_reason(&self, term: u32) -> (r: String)
        ensures
            r@ == vote_rejection_text(*self, term),
    {
        let mut reasons = String::new();
        reasons.append("term ");
        let term_text = decimal_string(term);
        reasons.append(term_text.as_str());
        push_leader_reason(&mut reasons, self.current_leader_id);
        push_log_ahead_reason(&mut reasons, self.member_last_log_term, self.member_last_log_slot);
        if let Some(id) = self.voted_for_id {
            reasons.append(", already voted for ");
            let text = member_id_string(id);
            reasons.append(text.as_str());
        }
        assert(reasons@ =~= vote_rejection_text(*self, term));
        reasons
    }
}

/// An accept (append entries) request from the leader.
#[derive(Clone)]
pub struct AcceptRequest {
    /// The leader's current term.
    pub term: u32,
    /// The leader's identifier.
    pub leader_id: MemberId,
    /// The slot of the entry immediately preceding `entries`.
    pub prev_log_slot: u32,
    /// The term of that preceding entry.
    pub prev_log_term: u32,
    /// The entries being replicated (empty for a heartbeat).
    pub entries: Vec<AcceptLogEntry>,
    /// The highest slot the leader knows to be committed by a quorum.
    pub leader_commit_slot: u32,
    /// The TrueTime earliest bound (microseconds) at which the leader sent this request.
    pub t_send: i64,
    /// A lower bound on the timestamp of the next entry after the highest slot sent; set on
    /// heartbeats.
    pub min_next_ts: Option<i64>,
}

/// The answer to an accept request.
#[derive(Clone, Copy)]
pub struct AcceptResponse {
    /// The responder.
    pub member_id: MemberId,
    /// The follower's current term.
    pub term: u32,
    /// True if the anchor matched and the entries were written.
    pub success: bool,
    /// The highest slot written (when `success`).
    pub last_written_slot: u32,
    /// A hint for fast backtracking (when not `success`).
    pub conflict_hint: Option<ConflictHint>,
    /// The `t_send` of the request, echoed back for lease tracking.
    pub echoed_t_send: i64,
}

/// Where a follower's log diverges from the anchor that a leader proposed.
#[derive(Clone, Copy)]
pub struct ConflictHint {
    /// The term of the conflicting entry at the anchor slot (0: the follower's log is short).
    pub conflict_term: u32,
    /// The first slot of the follower's log where that term begins (or the first missing
    /// slot).
    pub conflict_first_slot: u32,
}

/// One entry carried by an accept request.
pub struct AcceptLogEntry {
    pub term: u32,
    pub slot: u32,
    pub entry: String,
    /// The TrueTime latest bound (microseconds) at which the leader appended this entry.
    pub timestamp: i64,
}

impl Clone for AcceptLogEntry {
    fn clone(&self) -> (r: Self)
        ensures
            r == *self,
    {
        AcceptLogEntry {
            term: self.term,
            slot: self.slot,
            entry: self.entry.clone(),
            timestamp: self.timestamp,
        }
    }
}

/// A write that a client asks the group to replicate.
#[derive(Clone)]
pub struct ClientWriteRequest {
    pub value: String,
}

/// The answer to a client write.
#[derive(Clone)]
pub struct ClientWriteResponse {
    pub success: bool,
    pub error: Option<String>,
}

/// A request to replicate one write.
#[derive(Clone)]
pub struct ReplicateWriteRequest {
    pub term: u32,
    pub slot: u32,
    pub entry: String,
    pub write_time: i64,
}

/// A follower's acknowledgement of a replicated write.
#[derive(Clone, Copy)]
pub struct ReplicateWriteResponse {
    pub member_id: MemberId,
    pub term: u32,
    pub slot: u32,
}

} // verus!
