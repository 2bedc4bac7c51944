//! The events that drive a group member, the actions it asks its runtime to perform, and
//! the faults that stop it.
use crate::member_id::MemberId;
use crate::messages::{
    AcceptRequest, AcceptResponse, ClientWriteRequest, ClientWriteResponse, PreVoteRequest,
    PreVoteResponse, VoteRequest, VoteResponse,
};
use vstd::prelude::*;

verus! {

/// Something that happened to a group member: a timer, or a message received.
pub enum PaxosEvent {
    /// The leader lease has expired or was never set.
    LeaderLeaseExpired,
    /// The election countdown has expired; a follower may become a pre-candidate.
    ElectionCountdownExpired,
    /// The pre-vote campaign deadline passed without a quorum.
    PreVoteCampaignExpired,
    /// The vote campaign deadline passed without a quorum.
    VoteCampaignExpired,
    /// The write flush timer fired; a leader dispatches buffered writes.
    WriteFlushTimerFired,
    /// The periodic accept timeout check fired; a leader clears stale in-flight batches.
    AcceptTimeoutCheckFired,
    /// No client writes for a while; a leader broadcasts a heartbeat carrying MinNextTS.
    HeartbeatTimerFired,
    /// A pre-vote request from a pre-candidate, which expects a reply.
    PreVoteRequestReceived(PreVoteRequest),
    /// A pre-vote response from another member.
    PreVoteResponseReceived(PreVoteResponse),
    /// A vote request from a candidate, which expects a reply.
    VoteRequestReceived(VoteRequest),
    /// A vote response from another member.
    VoteResponseReceived(VoteResponse),
    /// An accept request from the leader, which expects a reply.
    AcceptRequestReceived(AcceptRequest),
    /// An accept response from a follower.
    AcceptResponseReceived(AcceptResponse),
    /// A write from a client, which expects a reply.
    ClientWriteRequestReceived(ClientWriteRequest),
}

impl PaxosEvent {
    /// The Paxos term that the event carries, if any.
    pub open spec fn term_of(&self) -> Option<u32> {
        match self {
            PaxosEvent::PreVoteResponseReceived(r) => Some(r.term),
            PaxosEvent::VoteRequestReceived(r) => Some(r.term),
            PaxosEvent::VoteResponseReceived(r) => Some(r.term),
            PaxosEvent::AcceptRequestReceived(r) => Some(r.term),
            PaxosEvent::AcceptResponseReceived(r) => Some(r.term),
            _ => None,
        }
    }

    /// The term carried by the event. Internal events and client writes carry none, and a
    /// pre-vote request carries a proposed next term, not the sender's term, so it is
    /// skipped too.
    pub fn get_term(&self) -> (r: Option<u32>)
        ensures
            r == self.term_of(),
    {
        match self {
            PaxosEvent::LeaderLeaseExpired
            | PaxosEvent::ElectionCountdownExpired
            | PaxosEvent::PreVoteCampaignExpired
            | PaxosEvent::VoteCampaignExpired => None,
            PaxosEvent::PreVoteRequestReceived(_) => None,
            PaxosEvent::PreVoteResponseReceived(r) => Some(r.term),
            PaxosEvent::VoteRequestReceived(r) => Some(r.term),
            PaxosEvent::VoteResponseReceived(r) => Some(r.term),
            PaxosEvent::AcceptRequestReceived(r) => Some(r.term),
            PaxosEvent::AcceptResponseReceived(r) => Some(r.term),
            PaxosEvent::ClientWriteRequestReceived(_) => None,
            PaxosEvent::WriteFlushTimerFired => None,
            PaxosEvent::AcceptTimeoutCheckFired => None,
            PaxosEvent::HeartbeatTimerFired => None,
        }
    }
}

/// Work that a member asks its runtime to do after handling an event.
pub enum PaxosAction {
    /// Start the election countdown: a random wait between 30 ms and `max_ms`, then
    /// `ElectionCountdownExpired`. No effect while a countdown runs.
    StartElectionCountdown { max_ms: u64 },
    /// Start the pre-vote campaign countdown: `ms`, then `PreVoteCampaignExpired`.
    StartPreVoteCountdown { ms: u64 },
    /// Start the vote campaign countdown: `ms`, then `VoteCampaignExpired`.
    StartVoteCountdown { ms: u64 },
    /// The current role ended: cancel its countdown and drop the client writes it holds.
    RoleEnded,
    /// Send a pre-vote request to every peer.
    DispatchPreVoteRequest(PreVoteRequest),
    /// Send a vote request to every peer.
    DispatchVoteRequest(VoteRequest),
    /// Send an accept request to one member.
    DispatchAcceptRequest(MemberId, AcceptRequest),
    /// Answer the pre-vote request of the current event.
    ReplyPreVote(PreVoteResponse),
    /// Answer the vote request of the current event.
    ReplyVote(VoteResponse),
    /// Answer the accept request of the current event.
    ReplyAccept(AcceptResponse),
    /// Answer the client write of the current event.
    ReplyClientWrite(ClientWriteResponse),
    /// Forward the client write of the current event to the given leader and relay its
    /// answer.
    ForwardClientWrite(MemberId),
    /// Hold the client write of the current event until its slot commits.
    TrackClientWrite(u32),
    /// The held client writes at these slots committed: after commit wait on each
    /// timestamp, answer them with success.
    ResolveClientWrites(Vec<(u32, i64)>),
    /// The leader lease expiry changed; wake the lease watcher.
    LeaseUpdated,
    /// Flush buffered writes now.
    SignalWriteFlush,
    /// Start the leader's periodic write flush and accept timeout check timers.
    StartLeaderTimers,
}

/// A fault that stops the member: the event cannot be handled.
#[derive(Clone, Copy)]
pub enum PaxosError {
    /// A message names a member that is not in the leader's score board.
    UnknownMember(MemberId),
    /// A slot that must be in the write-ahead log is not there.
    MissingLogEntry(u32),
    /// A slot, term or counter would leave its integer range.
    ArithmeticOverflow,
}

} // verus!
