use spx::members::Leader;
use spx::payloads::ReplicateWritePayload;
use spx::processors::{ReplicateWriteError, ReplicateWriteProcessor};
use spx::responses::ReplicateWriteResponse;
use spx::states::LeaderState;

#[test]
fn leader_state_starts_empty_at_term_zero() {
    let state = LeaderState::new();
    assert_eq!(state.get_term_number(), 0);
    assert_eq!(state.get_commit_index(), 0);
    assert!(state.get_lease_expiry_time() > 1_600_000_000_000_000, "the lease time is a clock reading");
    assert!(!state.has_quorum(1), "an empty board has no quorum");
    let other = LeaderState::default();
    assert_ne!(state.get_id(), other.get_id(), "identities are drawn at random");
}

#[test]
fn next_index_of_an_unknown_member_starts_at_zero() {
    let mut state = LeaderState::new();
    assert_eq!(state.get_next_index(Some(7)), 0);
    state.inc_next_index(Some(7));
    state.inc_next_index(Some(7));
    assert_eq!(state.get_next_index(Some(7)), 2);
    state.inc_next_index(None);
    assert_eq!(state.get_next_index(None), 1);
    let own = state.get_id();
    assert_eq!(state.get_next_index(Some(own)), 1);
}

#[test]
fn quorum_needs_more_than_half_of_the_board() {
    let mut state = LeaderState::new();
    state.update_match_index(5, Some(1));
    state.update_match_index(5, Some(2));
    state.update_match_index(3, Some(3));
    state.update_match_index(0, Some(4));
    // 4 members: 4 / 2 + 1 = 3 are needed
    assert!(!state.has_quorum(5));
    assert!(state.has_quorum(3));
    assert!(state.has_quorum(0));
    state.update_match_index(6, Some(4));
    assert!(state.has_quorum(5));
    assert!(!state.has_quorum(6));
}

#[test]
fn committed_slots_are_at_or_below_the_commit_index() {
    let mut state = LeaderState::new();
    state.update_commit_index(9);
    assert!(state.has_committed(9));
    assert!(state.has_committed(1));
    assert!(!state.has_committed(10));
}

#[test]
fn processor_counts_answers_towards_a_quorum() {
    let mut state = LeaderState::new();
    for member in [1u128, 2, 3] {
        state.update_match_index(0, Some(member));
    }
    let mut processor = ReplicateWriteProcessor::new(state);
    // 3 members: 2 are needed
    assert_eq!(processor.quorum_reached(1, 0, 4), Ok(false));
    assert_eq!(processor.quorum_reached(2, 0, 4), Ok(true));
    assert_eq!(processor.quorum_reached(3, 0, 2), Ok(true));
    assert_eq!(processor.get_leader_state().get_commit_index(), 0);
}

#[test]
fn processor_accepts_committed_slots() {
    let mut state = LeaderState::new();
    state.update_match_index(1, Some(10));
    state.update_match_index(1, Some(11));
    state.update_match_index(1, Some(12));
    state.update_commit_index(8);
    let mut processor = ReplicateWriteProcessor::new(state);
    assert_eq!(processor.quorum_reached(13, 0, 8), Ok(true));
    assert_eq!(processor.quorum_reached(13, 0, 9), Ok(false));
}

#[test]
fn processor_refuses_an_older_term() {
    let mut state = LeaderState::new();
    state.update_match_index(0, Some(1));
    let mut processor = ReplicateWriteProcessor::new(state);
    // the leader's term is 0, so no answer is older; a term is unsigned
    assert_eq!(processor.quorum_reached(1, 0, 0), Ok(true));
    assert_eq!(ReplicateWriteError::StaleTerm.message(), "Follower response is for an older term");
}

#[test]
fn group_leader_tracks_members() {
    let members = vec![1u128, 2, 3, 4];
    let mut leader = Leader::new(1, 3, 100, 200, &members);
    assert_eq!(leader.get_term_number(), 3);
    assert_eq!(leader.get_commit_index(), 0);
    assert_eq!(leader.get_lease_expiry_time(), 200);
    assert_eq!(leader.get_next_index(Some(2)), 0);
    leader.inc_next_index(Some(2));
    leader.inc_next_index(None);
    leader.inc_next_index(None);
    assert_eq!(leader.get_next_index(Some(2)), 1);
    assert_eq!(leader.get_next_index(None), 2);
    // more than half of the four members: three
    assert!(leader.has_quorum(0));
    assert!(!leader.has_quorum(1));
    leader.update_match_index(4, Some(2));
    leader.update_match_index(6, None);
    assert!(!leader.has_quorum(4), "two of four is not a majority");
    leader.update_match_index(5, Some(3));
    assert!(leader.has_quorum(4));
    assert!(!leader.has_quorum(5));
    let empty = Leader::new(1, 0, 0, 0, &vec![]);
    assert!(!empty.has_quorum(0), "an empty board has no majority");
    leader.update_commit_index(4);
    assert!(leader.has_committed(4));
    assert!(!leader.has_committed(5));
}

#[test]
fn replicate_write_payload_keeps_its_fields() {
    let payload = ReplicateWritePayload::new(2, 9, "set x".to_string(), 1_000, 2_000);
    assert_eq!(payload.term_number, 2);
    assert_eq!(payload.slot_number, 9);
    assert_eq!(payload.entry, "set x");
    assert_eq!(payload.write_time, 1_000);
    assert_eq!(payload.lease_expiry_time, 2_000);
    let response = ReplicateWriteResponse { term_number: 2, slot_number: 9, follower_id: 5 };
    assert_eq!(response.follower_id, 5);
}
