use spx::context::{LeaseWatch, PaxosSharedContext};
use spx::event::{PaxosAction, PaxosError, PaxosEvent};
use spx::messages::{
    AcceptLogEntry, AcceptRequest, AcceptResponse, ClientWriteRequest, PreVoteRequest, PreVoteResponse,
    VoteOutcome, VotePromise, VoteRequest, VoteResponse,
};
use spx::models::LogEntry;
use spx::roles::util::handle_pre_vote_request;
use spx::state_machine::PaxosState;
use spx::time::TimeInterval;

const A: u128 = 1;
const B: u128 = 2;
const C: u128 = 3;
const NOW: i64 = 1_000_000_000;

fn step(state: PaxosState, event: PaxosEvent, ctx: &mut PaxosSharedContext, at: i64) -> (PaxosState, Vec<PaxosAction>) {
    let mut actions = Vec::new();
    let now = TimeInterval::around(at);
    match state.process_event(event, ctx, &now, &mut actions) {
        Ok(next) => (next, actions),
        Err(_) => panic!("the event could not be handled"),
    }
}

fn role(state: &PaxosState) -> &'static str {
    match state {
        PaxosState::Follower(_) => "follower",
        PaxosState::PreCandidate(_) => "pre-candidate",
        PaxosState::Candidate(_) => "candidate",
        PaxosState::Leader(_) => "leader",
    }
}

fn granted_pre_vote(from: u128, term: u32) -> PreVoteResponse {
    PreVoteResponse {
        member_id: from,
        term,
        vote_granted: true,
        current_leader_id: None,
        member_last_log_term: None,
        member_last_log_slot: None,
    }
}

fn promise(from: u128, term: u32) -> VoteResponse {
    VoteResponse {
        member_id: from,
        term,
        outcome: VoteOutcome::Promise(VotePromise { last_log_term: 0, last_log_slot: 0, uncommitted_entries: vec![] }),
    }
}

/// Member A wins an election in the group {A, B, C}.
fn elect_a(ctx: &mut PaxosSharedContext) -> PaxosState {
    let state = PaxosState::initial();
    let (state, _) = step(state, PaxosEvent::ElectionCountdownExpired, ctx, NOW);
    let (state, _) = step(state, PaxosEvent::PreVoteResponseReceived(granted_pre_vote(B, 0)), ctx, NOW);
    let (state, _) = step(state, PaxosEvent::VoteResponseReceived(promise(B, 1)), ctx, NOW);
    assert_eq!(role(&state), "leader");
    state
}

#[test]
fn a_new_context_has_an_expired_lease_and_a_majority_quorum() {
    let mut ctx = PaxosSharedContext::new(A, vec![B, C]);
    assert_eq!(ctx.get_current_term(), 0);
    assert_eq!(ctx.get_next_term(), 1);
    assert_eq!(ctx.get_quorum_size(), 2);
    assert_eq!(ctx.get_leader_lease_expiry(), Some(0));
    let now = TimeInterval::around(NOW);
    assert!(ctx.is_leader_lease_expired_at(&now));
    assert!(matches!(ctx.poll_lease_expiry_at(&now), LeaseWatch::Expired));
    assert_eq!(ctx.get_leader_lease_expiry(), None);
    assert!(matches!(ctx.poll_lease_expiry_at(&now), LeaseWatch::WaitForLease));
    ctx.update_leader_lease_expiry_time(NOW + 5_000_000);
    assert!(matches!(ctx.poll_lease_expiry_at(&now), LeaseWatch::WaitUntil(t) if t == NOW + 5_000_000));
    let five = PaxosSharedContext::new(A, vec![B, C, 4, 5]);
    assert_eq!(five.get_quorum_size(), 3);
}

#[test]
fn safe_time_never_moves_back() {
    let mut ctx = PaxosSharedContext::new(A, vec![B, C]);
    assert_eq!(ctx.get_t_safe(), None);
    ctx.advance_t_safe(50);
    assert_eq!(ctx.get_t_safe(), Some(50));
    ctx.advance_t_safe(20);
    assert_eq!(ctx.get_t_safe(), Some(50));
    ctx.advance_t_safe(80);
    assert_eq!(ctx.get_t_safe(), Some(80));
}

#[test]
fn lease_expiry_starts_the_election_countdown() {
    let mut ctx = PaxosSharedContext::new(A, vec![B, C]);
    let (state, actions) = step(PaxosState::initial(), PaxosEvent::LeaderLeaseExpired, &mut ctx, NOW);
    assert_eq!(role(&state), "follower");
    assert!(matches!(actions.as_slice(), [PaxosAction::StartElectionCountdown { max_ms: 1000 }]));
}

#[test]
fn no_campaign_while_the_lease_is_active() {
    let mut ctx = PaxosSharedContext::new(A, vec![B, C]);
    ctx.update_leader_lease_expiry_time(NOW + 5_000_000);
    let (state, actions) = step(PaxosState::initial(), PaxosEvent::ElectionCountdownExpired, &mut ctx, NOW);
    assert_eq!(role(&state), "follower");
    assert!(actions.is_empty());
    assert_eq!(ctx.get_current_term(), 0);
}

#[test]
fn election_goes_through_pre_vote_and_vote() {
    let mut ctx = PaxosSharedContext::new(A, vec![B, C]);
    let (state, actions) = step(PaxosState::initial(), PaxosEvent::ElectionCountdownExpired, &mut ctx, NOW);
    assert_eq!(role(&state), "pre-candidate");
    assert_eq!(ctx.get_current_term(), 0, "a pre-vote changes no term");
    match actions.as_slice() {
        [PaxosAction::RoleEnded, PaxosAction::DispatchPreVoteRequest(request), PaxosAction::StartPreVoteCountdown { ms: 3000 }] => {
            assert_eq!(request.member_id, A);
            assert_eq!(request.next_term, 1);
        },
        _ => panic!("unexpected actions for a pre-vote campaign"),
    }
    let (state, actions) = step(state, PaxosEvent::PreVoteResponseReceived(granted_pre_vote(B, 0)), &mut ctx, NOW);
    assert_eq!(role(&state), "candidate");
    assert_eq!(ctx.get_current_term(), 1);
    match actions.as_slice() {
        [PaxosAction::RoleEnded, PaxosAction::DispatchVoteRequest(request), PaxosAction::StartVoteCountdown { ms: 3000 }] => {
            assert_eq!(request.term, 1);
            assert_eq!(request.member_id, A);
        },
        _ => panic!("unexpected actions for a vote campaign"),
    }
    let (state, actions) = step(state, PaxosEvent::VoteResponseReceived(promise(B, 1)), &mut ctx, NOW);
    assert_eq!(role(&state), "leader");
    assert!(matches!(actions[0], PaxosAction::LeaseUpdated));
    assert!(actions.iter().any(|a| matches!(a, PaxosAction::StartLeaderTimers)));
    let lease = ctx.get_leader_lease_expiry().expect("the new leader holds a lease");
    assert!(lease > NOW);
}

#[test]
fn pre_vote_without_quorum_steps_down() {
    let mut ctx = PaxosSharedContext::new(A, vec![B, C]);
    let (state, _) = step(PaxosState::initial(), PaxosEvent::ElectionCountdownExpired, &mut ctx, NOW);
    let refused = PreVoteResponse { vote_granted: false, ..granted_pre_vote(B, 0) };
    let (state, actions) = step(state, PaxosEvent::PreVoteResponseReceived(refused), &mut ctx, NOW);
    assert_eq!(role(&state), "pre-candidate");
    assert!(actions.is_empty());
    let refused = PreVoteResponse { vote_granted: false, ..granted_pre_vote(C, 0) };
    let (state, actions) = step(state, PaxosEvent::PreVoteResponseReceived(refused), &mut ctx, NOW);
    assert_eq!(role(&state), "follower");
    assert!(matches!(actions.as_slice(), [PaxosAction::RoleEnded]));
}

#[test]
fn a_client_write_commits_once_a_quorum_holds_it() {
    let mut ctx = PaxosSharedContext::new(A, vec![B, C]);
    let state = elect_a(&mut ctx);
    let write = ClientWriteRequest { value: "set x 1".to_string() };
    let (state, actions) = step(state, PaxosEvent::ClientWriteRequestReceived(write), &mut ctx, NOW + 100);
    assert!(matches!(actions.as_slice(), [PaxosAction::TrackClientWrite(1)]));
    assert_eq!(ctx.get_last_log_slot(), 1);
    assert_eq!(ctx.get_wal().get(1).unwrap().entry, "set x 1");
    let (state, actions) = step(state, PaxosEvent::WriteFlushTimerFired, &mut ctx, NOW + 200);
    let sent: Vec<(u128, usize)> = actions
        .iter()
        .filter_map(|a| match a {
            PaxosAction::DispatchAcceptRequest(to, request) => Some((*to, request.entries.len())),
            _ => None,
        })
        .collect();
    assert_eq!(sent, vec![(B, 1), (C, 1)]);
    assert_eq!(ctx.get_committed_slot(), 0);
    let ack = AcceptResponse {
        member_id: B,
        term: 1,
        success: true,
        last_written_slot: 1,
        conflict_hint: None,
        echoed_t_send: NOW + 200,
    };
    let (state, actions) = step(state, PaxosEvent::AcceptResponseReceived(ack), &mut ctx, NOW + 300);
    assert_eq!(role(&state), "leader");
    assert_eq!(ctx.get_committed_slot(), 1);
    let resolved: Vec<(u32, i64)> = actions
        .iter()
        .filter_map(|a| match a {
            PaxosAction::ResolveClientWrites(w) => Some(w.clone()),
            _ => None,
        })
        .flatten()
        .collect();
    assert_eq!(resolved, vec![(1, NOW + 100 + 7_000)]);
}

#[test]
fn leader_steps_down_when_its_lease_expires() {
    let mut ctx = PaxosSharedContext::new(A, vec![B, C]);
    let state = elect_a(&mut ctx);
    let (state, actions) = step(state, PaxosEvent::LeaderLeaseExpired, &mut ctx, NOW + 20_000_000);
    assert_eq!(role(&state), "follower");
    assert!(matches!(actions.as_slice(), [PaxosAction::RoleEnded, PaxosAction::StartElectionCountdown { .. }]));
    assert_eq!(ctx.get_current_term(), 1);
}

#[test]
fn a_higher_term_makes_the_leader_a_follower() {
    let mut ctx = PaxosSharedContext::new(A, vec![B, C]);
    let state = elect_a(&mut ctx);
    let newer = AcceptResponse {
        member_id: C,
        term: 5,
        success: false,
        last_written_slot: 0,
        conflict_hint: None,
        echoed_t_send: NOW,
    };
    let (state, actions) = step(state, PaxosEvent::AcceptResponseReceived(newer), &mut ctx, NOW + 100);
    assert_eq!(role(&state), "follower");
    assert_eq!(ctx.get_current_term(), 5);
    assert!(matches!(actions[0], PaxosAction::RoleEnded));
}

#[test]
fn a_follower_forwards_client_writes_to_the_known_leader() {
    let mut ctx = PaxosSharedContext::new(A, vec![B, C]);
    let heartbeat = AcceptRequest {
        term: 2,
        leader_id: B,
        prev_log_slot: 0,
        prev_log_term: 0,
        entries: vec![],
        leader_commit_slot: 0,
        t_send: NOW,
        min_next_ts: None,
    };
    let (state, actions) = step(PaxosState::initial(), PaxosEvent::AcceptRequestReceived(heartbeat), &mut ctx, NOW);
    assert!(actions.iter().any(|a| matches!(a, PaxosAction::ReplyAccept(r) if r.success)));
    assert_eq!(state.get_leader_id(), Some(B));
    let write = ClientWriteRequest { value: "v".to_string() };
    let (_, actions) = step(state, PaxosEvent::ClientWriteRequestReceived(write), &mut ctx, NOW);
    assert!(matches!(actions.as_slice(), [PaxosAction::ForwardClientWrite(B)]));
}

#[test]
fn a_follower_without_a_leader_refuses_client_writes() {
    let mut ctx = PaxosSharedContext::new(A, vec![B, C]);
    let write = ClientWriteRequest { value: "v".to_string() };
    let (_, actions) = step(PaxosState::initial(), PaxosEvent::ClientWriteRequestReceived(write), &mut ctx, NOW);
    match actions.as_slice() {
        [PaxosAction::ReplyClientWrite(response)] => {
            assert!(!response.success);
            assert_eq!(response.error.as_deref(), Some("not the leader"));
        },
        _ => panic!("a follower without a leader answers the client itself"),
    }
}

#[test]
fn a_follower_appends_and_commits_accepted_entries() {
    let mut ctx = PaxosSharedContext::new(A, vec![B, C]);
    let entry = |slot: u32| AcceptLogEntry { term: 1, slot, entry: format!("e{}", slot), timestamp: NOW + slot as i64 };
    let request = AcceptRequest {
        term: 1,
        leader_id: B,
        prev_log_slot: 0,
        prev_log_term: 0,
        entries: vec![entry(1), entry(2)],
        leader_commit_slot: 1,
        t_send: NOW,
        min_next_ts: None,
    };
    let (state, actions) = step(PaxosState::initial(), PaxosEvent::AcceptRequestReceived(request), &mut ctx, NOW);
    // the request's term is above this member's: it first ends its role for the new term
    match actions.as_slice() {
        [PaxosAction::RoleEnded, PaxosAction::ReplyAccept(response)] => {
            assert!(response.success);
            assert_eq!(response.last_written_slot, 2);
            assert_eq!(response.echoed_t_send, NOW);
        },
        _ => panic!("an accept request is answered"),
    }
    assert_eq!(ctx.get_last_log_slot(), 2);
    assert_eq!(ctx.get_committed_slot(), 1);
    assert_eq!(ctx.get_t_safe(), Some(NOW + 1));
    assert_eq!(ctx.get_wal().get(2).unwrap().entry, "e2");
    // an anchor the log does not hold is refused with a hint
    let gap = AcceptRequest {
        term: 1,
        leader_id: B,
        prev_log_slot: 5,
        prev_log_term: 1,
        entries: vec![],
        leader_commit_slot: 1,
        t_send: NOW,
        min_next_ts: None,
    };
    let (_, actions) = step(state, PaxosEvent::AcceptRequestReceived(gap), &mut ctx, NOW);
    match actions.as_slice() {
        [PaxosAction::ReplyAccept(response)] => {
            assert!(!response.success);
            let hint = response.conflict_hint.expect("a refusal carries a hint");
            assert_eq!(hint.conflict_term, 0);
            assert_eq!(hint.conflict_first_slot, 3);
        },
        _ => panic!("an accept request is answered"),
    }
}

#[test]
fn a_member_votes_once_per_term() {
    let mut ctx = PaxosSharedContext::new(A, vec![B, C]);
    let ask = |from: u128| VoteRequest { member_id: from, term: 1, last_log_term: 0, last_log_slot: 0 };
    let (state, actions) = step(PaxosState::initial(), PaxosEvent::VoteRequestReceived(ask(B)), &mut ctx, NOW);
    assert!(matches!(
        actions.as_slice(),
        [PaxosAction::RoleEnded, PaxosAction::ReplyVote(VoteResponse { outcome: VoteOutcome::Promise(_), .. })]
    ));
    assert_eq!(ctx.get_current_term(), 1);
    let (_, actions) = step(state, PaxosEvent::VoteRequestReceived(ask(C)), &mut ctx, NOW);
    match actions.as_slice() {
        [PaxosAction::ReplyVote(VoteResponse { outcome: VoteOutcome::Rejection(rejection), .. })] => {
            assert_eq!(rejection.voted_for_id, Some(B));
        },
        _ => panic!("a second vote in the same term is refused"),
    }
}

#[test]
fn pre_vote_is_refused_for_a_stale_term_or_a_shorter_log() {
    let mut ctx = PaxosSharedContext::new(A, vec![B, C]);
    ctx.set_current_term(3);
    let stale = PreVoteRequest { member_id: B, next_term: 3, last_log_term: 3, last_log_slot: 0 };
    let response = handle_pre_vote_request(&stale, &ctx);
    assert!(!response.vote_granted);
    assert_eq!(response.term, 3);
    let ok = PreVoteRequest { member_id: B, next_term: 4, last_log_term: 0, last_log_slot: 0 };
    assert!(handle_pre_vote_request(&ok, &ctx).vote_granted);
    ctx.set_last_log_slot(9);
    ctx.set_last_log_term(2);
    let short = PreVoteRequest { member_id: B, next_term: 4, last_log_term: 2, last_log_slot: 4 };
    let response = handle_pre_vote_request(&short, &ctx);
    assert!(!response.vote_granted);
    assert_eq!(response.member_last_log_slot, Some(9));
    let behind = PreVoteRequest { member_id: B, next_term: 4, last_log_term: 1, last_log_slot: 20 };
    let response = handle_pre_vote_request(&behind, &ctx);
    assert!(!response.vote_granted);
    assert_eq!(response.member_last_log_term, Some(2));
}

fn try_step(
    state: PaxosState,
    event: PaxosEvent,
    ctx: &mut PaxosSharedContext,
    at: i64,
) -> Result<(PaxosState, Vec<PaxosAction>), PaxosError> {
    let mut actions = Vec::new();
    let now = TimeInterval::around(at);
    state.process_event(event, ctx, &now, &mut actions).map(|next| (next, actions))
}

#[test]
fn an_answer_from_an_unknown_member_is_a_fault() {
    let mut ctx = PaxosSharedContext::new(A, vec![B, C]);
    let state = elect_a(&mut ctx);
    let stranger = AcceptResponse {
        member_id: 9,
        term: 1,
        success: true,
        last_written_slot: 1,
        conflict_hint: None,
        echoed_t_send: NOW,
    };
    match try_step(state, PaxosEvent::AcceptResponseReceived(stranger), &mut ctx, NOW + 100) {
        Err(PaxosError::UnknownMember(9)) => {},
        _ => panic!("an unknown member's answer cannot be handled"),
    }
}

#[test]
fn a_missing_anchor_entry_is_a_fault() {
    let mut ctx = PaxosSharedContext::new(A, vec![B, C]);
    // the member claims a last slot that its log does not hold
    ctx.set_last_log_slot(5);
    let state = PaxosState::initial();
    let (state, _) = step(state, PaxosEvent::ElectionCountdownExpired, &mut ctx, NOW);
    let (state, _) = step(state, PaxosEvent::PreVoteResponseReceived(granted_pre_vote(B, 0)), &mut ctx, NOW);
    let result = try_step(state, PaxosEvent::VoteResponseReceived(promise(B, 1)), &mut ctx, NOW)
        .and_then(|(state, _)| try_step(state, PaxosEvent::HeartbeatTimerFired, &mut ctx, NOW + 100));
    match result {
        Err(PaxosError::MissingLogEntry(5)) => {},
        _ => panic!("the anchor of an accept request must be in the log"),
    }
}

#[test]
fn a_term_at_its_limit_cannot_start_a_campaign() {
    let mut ctx = PaxosSharedContext::new(A, vec![B, C]);
    ctx.set_current_term(u32::MAX);
    match try_step(PaxosState::initial(), PaxosEvent::ElectionCountdownExpired, &mut ctx, NOW) {
        Err(PaxosError::ArithmeticOverflow) => {},
        _ => panic!("no term follows the last one"),
    }
}

fn ack(from: u128, term: u32, slot: u32, sent: i64) -> AcceptResponse {
    AcceptResponse { member_id: from, term, success: true, last_written_slot: slot, conflict_hint: None, echoed_t_send: sent }
}

#[test]
fn in_a_group_of_five_a_commit_needs_two_followers() {
    let peers = vec![B, C, 4, 5];
    let mut ctx = PaxosSharedContext::new(A, peers);
    assert_eq!(ctx.get_quorum_size(), 3);
    let (state, _) = step(PaxosState::initial(), PaxosEvent::ElectionCountdownExpired, &mut ctx, NOW);
    let (state, _) = step(state, PaxosEvent::PreVoteResponseReceived(granted_pre_vote(B, 0)), &mut ctx, NOW);
    assert_eq!(role(&state), "pre-candidate", "one granted pre-vote is not a quorum of five");
    let (state, _) = step(state, PaxosEvent::PreVoteResponseReceived(granted_pre_vote(C, 0)), &mut ctx, NOW);
    assert_eq!(role(&state), "candidate");
    let (state, _) = step(state, PaxosEvent::VoteResponseReceived(promise(B, 1)), &mut ctx, NOW);
    assert_eq!(role(&state), "candidate");
    let (state, _) = step(state, PaxosEvent::VoteResponseReceived(promise(C, 1)), &mut ctx, NOW);
    assert_eq!(role(&state), "leader");
    let write = ClientWriteRequest { value: "w".to_string() };
    let (state, _) = step(state, PaxosEvent::ClientWriteRequestReceived(write), &mut ctx, NOW + 10);
    let (state, _) = step(state, PaxosEvent::WriteFlushTimerFired, &mut ctx, NOW + 20);
    let (state, _) = step(state, PaxosEvent::AcceptResponseReceived(ack(B, 1, 1, NOW + 20)), &mut ctx, NOW + 30);
    assert_eq!(ctx.get_committed_slot(), 0, "the leader and one follower are not a quorum of five");
    let (_, actions) = step(state, PaxosEvent::AcceptResponseReceived(ack(C, 1, 1, NOW + 20)), &mut ctx, NOW + 40);
    assert_eq!(ctx.get_committed_slot(), 1);
    assert!(actions.iter().any(|a| matches!(a, PaxosAction::ResolveClientWrites(w) if w.len() == 1)));
}

#[test]
fn an_answer_never_shortens_the_lease() {
    let mut ctx = PaxosSharedContext::new(A, vec![B, C]);
    let state = elect_a(&mut ctx);
    let lease = ctx.get_leader_lease_expiry().unwrap();
    // an answer to a request sent long ago supports a shorter lease: the lease stays
    let (state, actions) = step(state, PaxosEvent::AcceptResponseReceived(ack(B, 1, 0, NOW - 5_000_000)), &mut ctx, NOW + 10);
    assert_eq!(ctx.get_leader_lease_expiry(), Some(lease));
    assert!(!actions.iter().any(|a| matches!(a, PaxosAction::LeaseUpdated)));
    // an answer to a recent request extends it from that request's send time
    let (_, actions) = step(state, PaxosEvent::AcceptResponseReceived(ack(B, 1, 0, NOW + 1_000_000)), &mut ctx, NOW + 20);
    assert_eq!(ctx.get_leader_lease_expiry(), Some(NOW + 1_000_000 + ctx.get_lease_length()));
    assert!(actions.iter().any(|a| matches!(a, PaxosAction::LeaseUpdated)));
}

#[test]
fn a_new_leader_keeps_the_highest_term_entry_of_each_slot() {
    let mut ctx = PaxosSharedContext::new(A, vec![B, C, 4, 5]);
    let (state, _) = step(PaxosState::initial(), PaxosEvent::ElectionCountdownExpired, &mut ctx, NOW);
    let (state, _) = step(state, PaxosEvent::PreVoteResponseReceived(granted_pre_vote(B, 0)), &mut ctx, NOW);
    let (state, _) = step(state, PaxosEvent::PreVoteResponseReceived(granted_pre_vote(C, 0)), &mut ctx, NOW);
    let with_entries = |from: u128, entries: Vec<LogEntry>| VoteResponse {
        member_id: from,
        term: 1,
        outcome: VoteOutcome::Promise(VotePromise { last_log_term: 0, last_log_slot: 0, uncommitted_entries: entries }),
    };
    let older = vec![LogEntry { term: 0, slot: 1, entry: "old".to_string() }, LogEntry { term: 0, slot: 2, entry: "only".to_string() }];
    let newer = vec![LogEntry { term: 1, slot: 1, entry: "new".to_string() }];
    let (state, _) = step(state, PaxosEvent::VoteResponseReceived(with_entries(B, older)), &mut ctx, NOW);
    let (state, _) = step(state, PaxosEvent::VoteResponseReceived(with_entries(C, newer)), &mut ctx, NOW);
    assert_eq!(role(&state), "leader");
    assert_eq!(ctx.get_wal().get(1).unwrap().entry, "new");
    assert_eq!(ctx.get_wal().get(2).unwrap().entry, "only");
}

#[test]
fn log_lines_name_the_role_member_and_term() {
    let mut ctx = PaxosSharedContext::new(A, vec![B, C]);
    ctx.set_current_term(3);
    assert_eq!(ctx.log_prefix("Leader"), "[Leader 00000000-0000-0000-0000-000000000001, term 3]");
}

fn accept(prev_log_slot: u32, prev_log_term: u32, entries: Vec<AcceptLogEntry>, leader_commit_slot: u32) -> AcceptRequest {
    AcceptRequest { term: 1, leader_id: B, prev_log_slot, prev_log_term, entries, leader_commit_slot, t_send: NOW, min_next_ts: None }
}

fn log_entry(term: u32, slot: u32, text: &str) -> AcceptLogEntry {
    AcceptLogEntry { term, slot, entry: text.to_string(), timestamp: NOW + slot as i64 }
}

fn uncommitted_slots(ctx: &PaxosSharedContext) -> Vec<u32> {
    ctx.uncommitted_values().iter().map(|e| e.slot).collect()
}

#[test]
fn a_matching_accept_keeps_entries_that_do_not_conflict() {
    let mut ctx = PaxosSharedContext::new(A, vec![B, C]);
    let first = accept(0, 0, vec![log_entry(1, 1, "a"), log_entry(1, 2, "b"), log_entry(1, 3, "c")], 0);
    let (state, _) = step(PaxosState::initial(), PaxosEvent::AcceptRequestReceived(first), &mut ctx, NOW);
    assert_eq!(ctx.get_last_log_slot(), 3);
    // an empty heartbeat anchored at slot 1 drops nothing
    let (state, actions) = step(state, PaxosEvent::AcceptRequestReceived(accept(1, 1, vec![], 0)), &mut ctx, NOW);
    assert!(matches!(actions.as_slice(), [PaxosAction::ReplyAccept(r)] if r.success && r.last_written_slot == 1));
    assert_eq!(ctx.get_wal().len(), 3);
    assert_eq!(ctx.get_last_log_slot(), 3);
    assert_eq!(ctx.get_last_log_term(), 1);
    // a resent entry of the same term leaves the later ones
    let (state, _) = step(state, PaxosEvent::AcceptRequestReceived(accept(1, 1, vec![log_entry(1, 2, "b")], 0)), &mut ctx, NOW);
    assert_eq!(ctx.get_wal().len(), 3);
    assert_eq!(ctx.get_last_log_slot(), 3);
    // an entry of another term drops the log from its slot on
    let newer = AcceptRequest { term: 2, ..accept(1, 1, vec![log_entry(2, 2, "x")], 0) };
    let (_, _) = step(state, PaxosEvent::AcceptRequestReceived(newer), &mut ctx, NOW);
    assert_eq!(ctx.get_wal().len(), 2);
    assert_eq!(ctx.get_wal().get(2).unwrap().entry, "x");
    assert!(!ctx.get_wal().has_entry(3));
    assert_eq!(ctx.get_last_log_slot(), 2);
    assert_eq!(ctx.get_last_log_term(), 2);
    assert_eq!(uncommitted_slots(&ctx), vec![1, 2]);
}

#[test]
fn only_entries_above_the_committed_slot_stay_uncommitted() {
    let mut ctx = PaxosSharedContext::new(A, vec![B, C]);
    let first = accept(0, 0, vec![log_entry(1, 1, "a"), log_entry(1, 2, "b"), log_entry(1, 3, "c")], 2);
    let (state, _) = step(PaxosState::initial(), PaxosEvent::AcceptRequestReceived(first), &mut ctx, NOW);
    assert_eq!(ctx.get_committed_slot(), 2);
    assert_eq!(uncommitted_slots(&ctx), vec![3]);
    // resending committed entries commits nothing new and leaves them out of the uncommitted set
    let again = accept(0, 0, vec![log_entry(1, 1, "a"), log_entry(1, 2, "b")], 1);
    let (_, _) = step(state, PaxosEvent::AcceptRequestReceived(again), &mut ctx, NOW);
    assert_eq!(ctx.get_committed_slot(), 2);
    assert_eq!(uncommitted_slots(&ctx), vec![3]);
}

#[test]
fn entries_out_of_slot_order_are_all_kept() {
    let mut ctx = PaxosSharedContext::new(A, vec![B, C]);
    let first = accept(0, 0, vec![log_entry(1, 5, "old")], 0);
    let (state, _) = step(PaxosState::initial(), PaxosEvent::AcceptRequestReceived(first), &mut ctx, NOW);
    let newer = AcceptRequest { term: 2, ..accept(0, 0, vec![log_entry(2, 6, "six"), log_entry(2, 5, "five")], 0) };
    let (_, actions) = step(state, PaxosEvent::AcceptRequestReceived(newer), &mut ctx, NOW);
    assert!(actions.iter().any(|a| matches!(a, PaxosAction::ReplyAccept(r) if r.success)));
    assert_eq!(ctx.get_wal().len(), 2);
    assert_eq!(ctx.get_wal().get(5).unwrap().entry, "five");
    assert_eq!(ctx.get_wal().get(6).unwrap().entry, "six");
    assert_eq!(uncommitted_slots(&ctx), vec![5, 6]);
    assert_eq!(ctx.get_last_log_slot(), 6);
}

#[test]
fn writes_are_stamped_above_the_last_min_next_ts_promise() {
    let mut ctx = PaxosSharedContext::new(A, vec![B, C]);
    let state = elect_a(&mut ctx);
    let (state, actions) = step(state, PaxosEvent::HeartbeatTimerFired, &mut ctx, NOW + 100);
    let promised: Vec<i64> = actions
        .iter()
        .filter_map(|a| match a {
            PaxosAction::DispatchAcceptRequest(_, request) => request.min_next_ts,
            _ => None,
        })
        .collect();
    assert_eq!(promised, vec![NOW + 100 + 7_000, NOW + 100 + 7_000]);
    // a write read in the same microsecond is stamped just above the promise
    let write = ClientWriteRequest { value: "w1".to_string() };
    let (state, _) = step(state, PaxosEvent::ClientWriteRequestReceived(write), &mut ctx, NOW + 100);
    assert_eq!(ctx.get_wal().get(1).unwrap().timestamp, NOW + 100 + 7_001);
    // so is one read after the clock stepped back
    let write = ClientWriteRequest { value: "w2".to_string() };
    let (state, _) = step(state, PaxosEvent::ClientWriteRequestReceived(write), &mut ctx, NOW);
    assert_eq!(ctx.get_wal().get(2).unwrap().timestamp, NOW + 100 + 7_001);
    // a later reading stamps the write with its own latest bound
    let write = ClientWriteRequest { value: "w3".to_string() };
    let (_, _) = step(state, PaxosEvent::ClientWriteRequestReceived(write), &mut ctx, NOW + 50_000);
    assert_eq!(ctx.get_wal().get(3).unwrap().timestamp, NOW + 50_000 + 7_000);
}
