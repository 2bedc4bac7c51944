//! Decisions that several roles share: answering pre-vote and vote requests.
use crate::context::{ContextView, PaxosSharedContext};
use crate::member_id::MemberId;
use crate::messages::{PreVoteRequest, PreVoteResponse, VoteRejection, VoteRequest};
use vstd::prelude::*;

verus! {

/// Why a voter refuses a pre-vote request, as the log hints it reports; `None` grants it.
///
/// The voter refuses while its leader lease is active, when the proposed term is not above
/// its own, and when the pre-candidate's last log term or slot is behind its own.
pub open spec fn pre_vote_refusal(ctx: ContextView, lease_expired: bool, req: PreVoteRequest) -> Option<(Option<u32>, Option<u32>)> {
    if !lease_expired || req.next_term <= ctx.term {
        Some((None, None))
    } else if req.last_log_term < ctx.last_log_term {
        Some((Some(ctx.last_log_term), None))
    } else if req.last_log_slot < ctx.last_log_slot {
        Some((Some(ctx.last_log_term), Some(ctx.last_log_slot)))
    } else {
        None
    }
}

/// The answer to a pre-vote request; a refusal also reports the known leader.
pub open spec fn pre_vote_response_of(
    ctx: ContextView,
    lease_expired: bool,
    leader: Option<MemberId>,
    req: PreVoteRequest,
) -> PreVoteResponse {
    match pre_vote_refusal(ctx, lease_expired, req) {
        None => PreVoteResponse {
            member_id: ctx.member_id,
            term: ctx.term,
            vote_granted: true,
            current_leader_id: None,
            member_last_log_term: None,
            member_last_log_slot: None,
        },
        Some((log_term, log_slot)) => PreVoteResponse {
            member_id: ctx.member_id,
            term: ctx.term,
            vote_granted: false,
            current_leader_id: leader,
            member_last_log_term: log_term,
            member_last_log_slot: log_slot,
        },
    }
}

/// Why a voter refuses a vote request; `None` grants it.
///
/// The voter refuses when it already voted in this term or a later one, while its leader
/// lease is active, when the proposed term is not above its own, and when the candidate's
/// last log term or slot is behind its own.
pub open spec fn vote_refusal(
    ctx: ContextView,
    lease_expired: bool,
    leader: Option<MemberId>,
    prior_vote: Option<(u32, MemberId)>,
    req: VoteRequest,
) -> Option<VoteRejection> {
    if prior_vote matches Some((voted_term, voted_id)) && voted_term >= req.term {
        Some(
            VoteRejection {
                current_leader_id: leader,
                member_last_log_term: None,
                member_last_log_slot: None,
                voted_for_id: match prior_vote {
                    Some((_, id)) => Some(id),
                    None => None,
                },
            },
        )
    } else if !lease_expired || req.term <= ctx.term {
        Some(
            VoteRejection {
                current_leader_id: leader,
                member_last_log_term: None,
                member_last_log_slot: None,
                voted_for_id: None,
            },
        )
    } else if req.last_log_term < ctx.last_log_term {
        Some(
            VoteRejection {
                current_leader_id: leader,
                member_last_log_term: Some(ctx.last_log_term),
                member_last_log_slot: None,
                voted_for_id: None,
            },
        )
    } else if req.last_log_slot < ctx.last_log_slot {
        Some(
            VoteRejection {
                current_leader_id: leader,
                member_last_log_term: Some(ctx.last_log_term),
                member_last_log_slot: Some(ctx.last_log_slot),
                voted_for_id: None,
            },
        )
    } else {
        None
    }
}

/// Answers a pre-vote request on behalf of a member that is campaigning itself: no lease
/// check, and no known leader to report.
pub fn handle_pre_vote_request(request: &PreVoteRequest, ctx: &PaxosSharedContext) -> (r: PreVoteResponse)
    ensures
        r == pre_vote_response_of(ctx@, true, None, *request),
{
    answer_pre_vote(request, ctx, true, None)
}

/// Answers a pre-vote request given whether the leader lease has expired and the known
/// leader.
pub(crate) fn answer_pre_vote(
    request: &PreVoteRequest,
    ctx: &PaxosSharedContext,
    lease_expired: bool,
    leader: Option<MemberId>,
) -> (r: PreVoteResponse)
    ensures
        r == pre_vote_response_of(ctx@, lease_expired, leader, *request),
{
    let current_term = ctx.get_current_term();
    let current_member_id = ctx.get_current_member_id();

    // Reject while the leader lease is active
    if !lease_expired {
        return PreVoteResponse {
            term: current_term,
            member_id: current_member_id,
            vote_granted: false,
            current_leader_id: leader,
            member_last_log_term: None,
            member_last_log_slot: None,
        };
    }
    // Reject if the proposed next term is not above the current term
    if request.next_term <= current_term {
        return PreVoteResponse {
            term: current_term,
            member_id: current_member_id,
            vote_granted: false,
            current_leader_id: leader,
            member_last_log_term: None,
            member_last_log_slot: None,
        };
    }
    // Reject if the pre-candidate's last log term is below this member's last log term
    let current_last_log_term = ctx.get_last_log_term();
    if request.last_log_term < current_last_log_term {
        return PreVoteResponse {
            term: current_term,
            member_id: current_member_id,
            vote_granted: false,
            current_leader_id: leader,
            member_last_log_term: Some(current_last_log_term),
            member_last_log_slot: None,
        };
    }
    // Reject if the pre-candidate's last log slot is below this member's last log slot
    let current_last_log_slot = ctx.get_last_log_slot();
    if request.last_log_slot < current_last_log_slot {
        return PreVoteResponse {
            term: current_term,
            member_id: current_member_id,
            vote_granted: false,
            current_leader_id: leader,
            member_last_log_term: Some(current_last_log_term),
            member_last_log_slot: Some(current_last_log_slot),
        };
    }
    PreVoteResponse {
        term: current_term,
        member_id: current_member_id,
        vote_granted: true,
        current_leader_id: None,
        member_last_log_term: None,
        member_last_log_slot: None,
    }
}

/// Decides a vote request given whether the leader lease has expired, the known leader
/// and the vote this member already granted.
pub(crate) fn decide_vote(
    request: &VoteRequest,
    ctx: &PaxosSharedContext,
    lease_expired: bool,
    leader: Option<MemberId>,
    prior_vote: Option<(u32, MemberId)>,
) -> (r: Option<VoteRejection>)
    ensures
        r == vote_refusal(ctx@, lease_expired, leader, prior_vote, *request),
{
    // Reject if a vote was already granted in a term at or above the requested term
    if let Some((voted_term, voted_id)) = prior_vote {
        if voted_term >= request.term {
            return Some(
                VoteRejection {
                    current_leader_id: leader,
                    member_last_log_term: None,
                    member_last_log_slot: None,
                    voted_for_id: Some(voted_id),
                },
            );
        }
    }
    // Reject while the leader lease is active, or if the proposed term is not above ours
    if !lease_expired || request.term <= ctx.get_current_term() {
        return Some(
            VoteRejection {
                current_leader_id: leader,
                member_last_log_term: None,
                member_last_log_slot: None,
                voted_for_id: None,
            },
        );
    }
    // Reject if the candidate's last log term is below ours
    let current_last_log_term = ctx.get_last_log_term();
    if request.last_log_term < current_last_log_term {
        return Some(
            VoteRejection {
                current_leader_id: leader,
                member_last_log_term: Some(current_last_log_term),
                member_last_log_slot: None,
                voted_for_id: None,
            },
        );
    }
    // Reject if the candidate's last log slot is below ours
    let current_last_log_slot = ctx.get_last_log_slot();
    if request.last_log_slot < current_last_log_slot {
        return Some(
            VoteRejection {
                current_leader_id: leader,
                member_last_log_term: Some(current_last_log_term),
                member_last_log_slot: Some(current_last_log_slot),
                voted_for_id: None,
            },
        );
    }
    None
}

/// A granted pre-vote means: the voter's lease had expired, the proposed term is above the
/// voter's term, and the pre-candidate's log is at least as far as the voter's, in last
/// term and in last slot.
pub proof fn lemma_pre_vote_granted(ctx: ContextView, lease_expired: bool, leader: Option<MemberId>, req: PreVoteRequest)
    ensures
        pre_vote_response_of(ctx, lease_expired, leader, req).vote_granted <==> (lease_expired
            && req.next_term > ctx.term && req.last_log_term >= ctx.last_log_term
            && req.last_log_slot >= ctx.last_log_slot),
        pre_vote_response_of(ctx, lease_expired, leader, req).term == ctx.term,
{
}

/// A granted vote means: no vote in this term or a later one was granted before, the
/// voter's lease had expired, the proposed term is above the voter's term, and the
/// candidate's log is at least as far as the voter's, in last term and in last slot.
pub proof fn lemma_vote_granted(
    ctx: ContextView,
    lease_expired: bool,
    leader: Option<MemberId>,
    prior_vote: Option<(u32, MemberId)>,
    req: VoteRequest,
)
    ensures
        vote_refusal(ctx, lease_expired, leader, prior_vote, req) is None <==> (!(prior_vote matches Some((t, _)) && t >= req.term)
            && lease_expired && req.term > ctx.term && req.last_log_term >= ctx.last_log_term
            && req.last_log_slot >= ctx.last_log_slot),
{
}

/// A member that granted its vote for term `t` refuses every later request for a term at
/// or below `t`, whatever its state then: at most one vote per term.
pub proof fn lemma_one_vote_per_term(
    ctx: ContextView,
    lease_expired: bool,
    leader: Option<MemberId>,
    prior_vote: Option<(u32, MemberId)>,
    first: VoteRequest,
    ctx2: ContextView,
    lease_expired2: bool,
    leader2: Option<MemberId>,
    second: VoteRequest,
)
    requires
        vote_refusal(ctx, lease_expired, leader, prior_vote, first) is None,
        second.term <= first.term,
    ensures
        vote_refusal(ctx2, lease_expired2, leader2, Some((first.term, first.member_id)), second)
            == Some(
            VoteRejection {
                current_leader_id: leader2,
                member_last_log_term: None,
                member_last_log_slot: None,
                voted_for_id: Some(first.member_id),
            },
        ),
{
}

} // verus!
