//! The pre-candidate role: a dry-run election that does not change any term.
use crate::context::{ContextView, PaxosSharedContext};
use crate::event::{PaxosAction, PaxosError, PaxosEvent};
use crate::id_map::{insert_pair, lemma_insert_pair, IdMap};
use crate::member_id::MemberId;
use crate::messages::{PreVoteRequest, PreVoteResponse, VoteOutcome, VotePromise, VoteRequest, VoteResponse};
use crate::roles::candidate::Candidate;
use crate::roles::follower::{not_the_leader, Follower};
use crate::roles::util::{decide_vote, handle_pre_vote_request, pre_vote_response_of, vote_refusal};
use crate::state_machine::PaxosState;
use crate::time::TimeInterval;
use vstd::prelude::*;

verus! {

/// How long a pre-vote campaign may take, in milliseconds.
pub const PRE_VOTE_CAMPAIGN_MS: u64 = 3000;

/// The state of a pre-candidate.
pub struct PreCandidate {
    /// Each peer's pre-vote response, once received.
    pub pre_vote_board: IdMap<Option<PreVoteResponse>>,
    /// The candidate this member voted for, as (term, candidate).
    pub voted_for_id: Option<(u32, MemberId)>,
}

/// The number of granted pre-votes on a board.
pub open spec fn granted_pre_votes(board: Seq<(MemberId, Option<PreVoteResponse>)>) -> nat {
    board.filter(|p: (MemberId, Option<PreVoteResponse>)| p.1 matches Some(r) && r.vote_granted).len()
}

/// A quorum of the group granted the pre-vote, counting this member's own vote.
pub open spec fn pre_vote_quorum(board: Seq<(MemberId, Option<PreVoteResponse>)>) -> bool {
    granted_pre_votes(board) + 1 >= (board.len() + 1) / 2 + 1
}

/// Every member on the board responded.
pub open spec fn all_pre_votes_in(board: Seq<(MemberId, Option<PreVoteResponse>)>) -> bool {
    forall|i: int| 0 <= i < board.len() ==> board[i].1 is Some
}

/// A board with every peer and no response yet.
pub open spec fn empty_board<V>(peers: Seq<MemberId>) -> Seq<(MemberId, Option<V>)> {
    peers.map_values(|id: MemberId| (id, None::<V>))
}

impl PreCandidate {
    /// A pre-candidate just created for the group of `ctx`.
    pub open spec fn fresh(&self, ctx: ContextView) -> bool {
        &&& self.pre_vote_board.wf()
        &&& self.pre_vote_board@ == empty_board::<PreVoteResponse>(ctx.peer_ids)
        &&& self.voted_for_id is None
    }

    /// The pre-vote request that a member with context `ctx` sends.
    pub open spec fn pre_vote_of(ctx: ContextView) -> PreVoteRequest {
        PreVoteRequest {
            member_id: ctx.member_id,
            next_term: (ctx.term + 1) as u32,
            last_log_term: ctx.last_log_term,
            last_log_slot: ctx.last_log_slot,
        }
    }

    /// A pre-candidate with an empty board holding every peer.
    pub fn new(ctx: &PaxosSharedContext) -> (r: Self)
        requires
            ctx.wf(),
        ensures
            r.fresh(ctx@),
    {
        PreCandidate { pre_vote_board: board_of_peers(ctx), voted_for_id: None }
    }

    /// Starts the pre-vote campaign: sends a pre-vote request for the next term to every
    /// peer and starts the campaign countdown.
    pub fn dispatch_pre_vote(&self, ctx: &PaxosSharedContext, actions: &mut Vec<PaxosAction>)
        requires
            ctx@.term < u32::MAX,
        ensures
            final(actions)@ == old(actions)@.push(PaxosAction::DispatchPreVoteRequest(Self::pre_vote_of(ctx@))).push(
                PaxosAction::StartPreVoteCountdown { ms: PRE_VOTE_CAMPAIGN_MS },
            ),
    {
        let request = ctx.create_pre_vote();
        actions.push(PaxosAction::DispatchPreVoteRequest(request));
        actions.push(PaxosAction::StartPreVoteCountdown { ms: PRE_VOTE_CAMPAIGN_MS });
    }

    /// Records a response on the board.
    pub fn update_pre_vote_board(&mut self, response: PreVoteResponse)
        requires
            old(self).pre_vote_board.wf(),
        ensures
            final(self).pre_vote_board.wf(),
            final(self).pre_vote_board@ == insert_pair(old(self).pre_vote_board@, response.member_id, Some(response)),
            final(self).voted_for_id == old(self).voted_for_id,
    {
        self.pre_vote_board.insert(response.member_id, Some(response));
    }

    /// True once every member on the board has responded.
    pub fn has_all_pre_vote_responses(&self) -> (r: bool)
        ensures
            r == all_pre_votes_in(self.pre_vote_board@),
    {
        let n = self.pre_vote_board.len();
        let mut i: usize = 0;
        while i < n
            invariant
                n == self.pre_vote_board@.len(),
                0 <= i <= n,
                forall|j: int| 0 <= j < i ==> self.pre_vote_board@[j].1 is Some,
            decreases n - i,
        {
            if self.pre_vote_board.value_at(i).is_none() {
                return false;
            }
            i = i + 1;
        }
        true
    }

    /// True once a quorum of the group granted the pre-vote; this member's own vote counts.
    pub fn has_pre_vote_quorum(&self) -> (r: bool)
        requires
            self.pre_vote_board@.len() < usize::MAX,
        ensures
            r == pre_vote_quorum(self.pre_vote_board@),
    {
        let ghost pred = |p: (MemberId, Option<PreVoteResponse>)| p.1 matches Some(r) && r.vote_granted;
        let n = self.pre_vote_board.len();
        let mut count: usize = 0;
        let mut i: usize = 0;
        while i < n
            invariant
                n == self.pre_vote_board@.len(),
                n < usize::MAX,
                0 <= i <= n,
                pred == (|p: (MemberId, Option<PreVoteResponse>)| p.1 matches Some(r) && r.vote_granted),
                count == self.pre_vote_board@.take(i as int).filter(pred).len(),
                count <= i,
            decreases n - i,
        {
            proof {
                let s = self.pre_vote_board@;
                assert(s.take(i + 1) == s.take(i as int).push(s[i as int]));
                s.take(i as int).lemma_filter_push(s[i as int], pred);
            }
            let granted = match self.pre_vote_board.value_at(i) {
                Some(r) => r.vote_granted,
                None => false,
            };
            if granted {
                count = count + 1;
            }
            i = i + 1;
        }
        proof {
            assert(self.pre_vote_board@.take(n as int) == self.pre_vote_board@);
        }
        // the + 1 counts this member's own vote, which is not on the board
        count + 1 >= (n + 1) / 2 + 1
    }

    /// Answers a vote request while campaigning: as a voter with no lease check and no known
    /// leader; a granted vote is recorded.
    pub fn handle_vote_request(&mut self, request: &VoteRequest, ctx: &PaxosSharedContext) -> (r: VoteResponse)
        ensures
            r.member_id == ctx@.member_id,
            r.term == ctx@.term,
            final(self).pre_vote_board == old(self).pre_vote_board,
            match vote_refusal(ctx@, true, None, old(self).voted_for_id, *request) {
                Some(rejection) => r.outcome == VoteOutcome::Rejection(rejection)
                    && final(self).voted_for_id == old(self).voted_for_id,
                None => r.outcome matches VoteOutcome::Promise(p) && p.last_log_term == ctx@.last_log_term
                    && p.last_log_slot == ctx@.last_log_slot && p.uncommitted_entries@ == ctx@.uncommitted
                    && final(self).voted_for_id == Some((request.term, request.member_id)),
            },
    {
        let current_term = ctx.get_current_term();
        let current_member_id = ctx.get_current_member_id();
        match decide_vote(request, ctx, true, None, self.voted_for_id) {
            Some(rejection) => VoteResponse {
                member_id: current_member_id,
                term: current_term,
                outcome: VoteOutcome::Rejection(rejection),
            },
            None => {
                // Record the vote for this candidate in its term
                self.voted_for_id = Some((request.term, request.member_id));
                VoteResponse {
                    member_id: current_member_id,
                    term: current_term,
                    outcome: VoteOutcome::Promise(
                        VotePromise {
                            last_log_term: ctx.get_last_log_term(),
                            last_log_slot: ctx.get_last_log_slot(),
                            uncommitted_entries: ctx.uncommitted_values(),
                        },
                    ),
                }
            },
        }
    }

    /// Records a pre-vote response. With a quorum, this member increments its term and
    /// becomes a candidate that sends vote requests; once all peers answered without a
    /// quorum, it steps down; otherwise it keeps waiting.
    pub fn handle_pre_vote_response(
        &mut self,
        response: PreVoteResponse,
        ctx: &mut PaxosSharedContext,
        now: &TimeInterval,
        actions: &mut Vec<PaxosAction>,
    ) -> (r: Result<Option<Result<Candidate, Follower>>, PaxosError>)
        requires
            old(self).pre_vote_board.wf(),
            old(self).pre_vote_board@.len() < usize::MAX - 1,
            old(ctx).wf(),
            now.wf(),
        ensures
            final(self).pre_vote_board.wf(),
            final(self).pre_vote_board@.len() <= old(self).pre_vote_board@.len() + 1,
            final(self).pre_vote_board@ == insert_pair(old(self).pre_vote_board@, response.member_id, Some(response)),
            final(self).voted_for_id == old(self).voted_for_id,
            ({
                let board = final(self).pre_vote_board@;
                let c = old(ctx)@;
                if pre_vote_quorum(board) {
                    if c.last_log_slot == u32::MAX || c.term == u32::MAX {
                        r == Err::<Option<Result<Candidate, Follower>>, PaxosError>(PaxosError::ArithmeticOverflow)
                    } else {
                        let c2 = ContextView { term: (c.term + 1) as u32, ..c };
                        &&& r matches Ok(Some(Ok(cand))) && cand.fresh(c) && cand.vote_dispatch_time == Some(now.earliest)
                        &&& final(ctx)@ == c2
                        &&& final(ctx).wf()
                        &&& final(actions)@ == old(actions)@.push(PaxosAction::RoleEnded).push(
                            PaxosAction::DispatchVoteRequest(Candidate::vote_of(c2)),
                        ).push(PaxosAction::StartVoteCountdown { ms: crate::roles::candidate::VOTE_CAMPAIGN_MS })
                    }
                } else if all_pre_votes_in(board) {
                    &&& r matches Ok(Some(Err(f))) && f.current_leader_id is None && f.vote_record is None
                    &&& final(ctx)@ == c
                    &&& final(actions)@ == old(actions)@.push(PaxosAction::RoleEnded)
                } else {
                    &&& r == Ok::<Option<Result<Candidate, Follower>>, PaxosError>(None)
                    &&& final(ctx)@ == c
                    &&& final(actions)@ == old(actions)@
                }
            }),
    {
        proof {
            lemma_insert_pair(self.pre_vote_board@, response.member_id, Some(response));
        }
        // Keep track of the response
        self.update_pre_vote_board(response);

        // A quorum granted the pre-vote: become a candidate of the next term
        if self.has_pre_vote_quorum() {
            if ctx.get_last_log_slot() == u32::MAX || ctx.get_current_term() == u32::MAX {
                return Err(PaxosError::ArithmeticOverflow);
            }
            let mut candidate = Candidate::new(ctx);
            ctx.increment_current_term();
            actions.push(PaxosAction::RoleEnded);
            candidate.dispatch_vote(ctx, now, actions);
            return Ok(Some(Ok(candidate)));
        }

        // Everyone answered and no quorum: step down
        if self.has_all_pre_vote_responses() {
            actions.push(PaxosAction::RoleEnded);
            return Ok(Some(Err(Follower::new(None))));
        }
        Ok(None)
    }

    /// Handles one event as a pre-candidate; returns the next state and adds the runtime's
    /// work to `actions`.
    pub fn handle_event(self, event: PaxosEvent, ctx: &mut PaxosSharedContext, now: &TimeInterval, actions: &mut Vec<PaxosAction>) -> (r: Result<PaxosState, PaxosError>)
        requires
            old(ctx).wf(),
            now.wf(),
            self.pre_vote_board.wf(),
            self.pre_vote_board@.len() < usize::MAX - 1,
        ensures
            r is Ok ==> final(ctx).wf(),
            r is Ok ==> final(ctx)@.term >= old(ctx)@.term,
            r is Ok ==> final(ctx)@.committed_slot == old(ctx)@.committed_slot,
            r matches Ok(PaxosState::PreCandidate(p)) ==> p.pre_vote_board.wf() && p.pre_vote_board@.len() <= self.pre_vote_board@.len() + 1,
            precandidate_event_effect(self, old(ctx)@, event, *now, r, final(ctx)@, old(actions)@, final(actions)@),
    {
        let ghost a0 = actions@;
        let mut this = self;
        match event {
            PaxosEvent::LeaderLeaseExpired
            | PaxosEvent::ElectionCountdownExpired
            | PaxosEvent::VoteCampaignExpired
            | PaxosEvent::WriteFlushTimerFired
            | PaxosEvent::AcceptTimeoutCheckFired
            | PaxosEvent::HeartbeatTimerFired
            | PaxosEvent::AcceptRequestReceived(_)
            | PaxosEvent::AcceptResponseReceived(_)
            | PaxosEvent::VoteResponseReceived(_) => {
                // Already campaigning, or not concerned: nothing to do
                Ok(PaxosState::PreCandidate(this))
            },
            PaxosEvent::PreVoteCampaignExpired => {
                // The campaign timed out: step down
                actions.push(PaxosAction::RoleEnded);
                Ok(PaxosState::Follower(Follower::new(None)))
            },
            PaxosEvent::PreVoteRequestReceived(request) => {
                let response = handle_pre_vote_request(&request, ctx);
                actions.push(PaxosAction::ReplyPreVote(response));
                Ok(PaxosState::PreCandidate(this))
            },
            PaxosEvent::PreVoteResponseReceived(response) => {
                match this.handle_pre_vote_response(response, ctx, now, actions)? {
                    Some(Ok(candidate)) => Ok(PaxosState::Candidate(candidate)),
                    Some(Err(follower)) => Ok(PaxosState::Follower(follower)),
                    None => Ok(PaxosState::PreCandidate(this)),
                }
            },
            PaxosEvent::VoteRequestReceived(request) => {
                let response = this.handle_vote_request(&request, ctx);
                actions.push(PaxosAction::ReplyVote(response));
                proof {
                    assert(actions@.take(a0.len() as int) =~= a0);
                }
                Ok(PaxosState::PreCandidate(this))
            },
            PaxosEvent::ClientWriteRequestReceived(_) => {
                actions.push(PaxosAction::ReplyClientWrite(not_the_leader()));
                proof {
                    assert(actions@.take(a0.len() as int) =~= a0);
                }
                Ok(PaxosState::PreCandidate(this))
            },
        }
    }
}

/// A board holding every peer of `ctx` with no response yet.
pub(crate) fn board_of_peers<V>(ctx: &PaxosSharedContext) -> (r: IdMap<Option<V>>)
    requires
        ctx.wf(),
    ensures
        r.wf(),
        r@ == empty_board::<V>(ctx@.peer_ids),
{
    let peers = ctx.get_peer_ids();
    let n = peers.len();
    let mut board: IdMap<Option<V>> = IdMap::new();
    let mut i: usize = 0;
    while i < n
        invariant
            n == peers@.len(),
            peers@ == ctx@.peer_ids,
            peers@.no_duplicates(),
            0 <= i <= n,
            board.wf(),
            board@ == empty_board::<V>(peers@.take(i as int)),
        decreases n - i,
    {
        let id = peers[i];
        proof {
            let before = peers@.take(i as int);
            assert(peers@.take(i + 1) == before.push(id));
            assert(empty_board::<V>(peers@.take(i + 1)) == empty_board::<V>(before).push((id, None::<V>)));
            assert forall|j: int| 0 <= j < board@.len() implies board@[j].0 != id by {
                assert(board@[j].0 == peers@[j]);
            }
            assert(!crate::id_map::has_key(board@, id));
        }
        board.insert(id, None);
        i = i + 1;
    }
    proof {
        assert(peers@.take(n as int) == peers@);
    }
    board
}

/// What `PreCandidate::handle_event` does with each event.
pub open spec fn precandidate_event_effect(
    p: PreCandidate,
    ctx: ContextView,
    event: PaxosEvent,
    now: TimeInterval,
    r: Result<PaxosState, PaxosError>,
    ctx2: ContextView,
    acts: Seq<PaxosAction>,
    acts2: Seq<PaxosAction>,
) -> bool {
    let stay = r == Ok::<PaxosState, PaxosError>(PaxosState::PreCandidate(p)) && ctx2 == ctx;
    match event {
        PaxosEvent::PreVoteCampaignExpired => r matches Ok(PaxosState::Follower(f)) && f.current_leader_id is None
            && f.vote_record is None && ctx2 == ctx && acts2 == acts.push(PaxosAction::RoleEnded),
        PaxosEvent::PreVoteRequestReceived(req) => stay && acts2 == acts.push(
            PaxosAction::ReplyPreVote(pre_vote_response_of(ctx, true, None, req)),
        ),
        PaxosEvent::PreVoteResponseReceived(resp) => {
            let board = insert_pair(p.pre_vote_board@, resp.member_id, Some(resp));
            if pre_vote_quorum(board) {
                if ctx.last_log_slot == u32::MAX || ctx.term == u32::MAX {
                    r == Err::<PaxosState, PaxosError>(PaxosError::ArithmeticOverflow)
                } else {
                    let c2 = ContextView { term: (ctx.term + 1) as u32, ..ctx };
                    &&& r matches Ok(PaxosState::Candidate(cand)) && cand.fresh(ctx) && cand.vote_dispatch_time == Some(now.earliest)
                    &&& ctx2 == c2
                    &&& acts2 == acts.push(PaxosAction::RoleEnded).push(
                        PaxosAction::DispatchVoteRequest(Candidate::vote_of(c2)),
                    ).push(PaxosAction::StartVoteCountdown { ms: crate::roles::candidate::VOTE_CAMPAIGN_MS })
                }
            } else if all_pre_votes_in(board) {
                r matches Ok(PaxosState::Follower(f)) && f.current_leader_id is None && f.vote_record is None
                    && ctx2 == ctx && acts2 == acts.push(PaxosAction::RoleEnded)
            } else {
                r matches Ok(PaxosState::PreCandidate(p2)) && p2.pre_vote_board@ == board
                    && p2.voted_for_id == p.voted_for_id && ctx2 == ctx && acts2 == acts
            }
        },
        PaxosEvent::VoteRequestReceived(req) => {
            &&& ctx2 == ctx
            &&& acts2.len() == acts.len() + 1
            &&& acts2.take(acts.len() as int) == acts
            &&& acts2.last() matches PaxosAction::ReplyVote(resp) && resp.term == ctx.term && resp.member_id == ctx.member_id
                && match vote_refusal(ctx, true, None, p.voted_for_id, req) {
                Some(rejection) => resp.outcome == VoteOutcome::Rejection(rejection)
                    && r == Ok::<PaxosState, PaxosError>(PaxosState::PreCandidate(p)),
                None => resp.outcome matches VoteOutcome::Promise(pr) && pr.last_log_term == ctx.last_log_term
                    && pr.last_log_slot == ctx.last_log_slot && pr.uncommitted_entries@ == ctx.uncommitted
                    && r == Ok::<PaxosState, PaxosError>(PaxosState::PreCandidate(
                    PreCandidate { voted_for_id: Some((req.term, req.member_id)), ..p },
                )),
            }
        },
        PaxosEvent::ClientWriteRequestReceived(_) => {
            &&& stay
            &&& acts2.len() == acts.len() + 1
            &&& acts2.take(acts.len() as int) == acts
            &&& acts2.last() matches PaxosAction::ReplyClientWrite(resp) && !resp.success && resp.error is Some
        },
        _ => stay && acts2 == acts,
    }
}

} // verus!
