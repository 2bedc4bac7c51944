use spx::count_down::{CountDownClock, MIN_RANDOM_WAIT_MS};
use spx::messages::{PreVoteResponse, VoteOutcome, VotePromise, VoteRejection, VoteResponse};
use spx::time::{TimeInterval, TrueTime, UNCERTAINTY_MICROS};
use spx::worker_runner::{RunStatus, WorkerRunner};

const LEADER: u128 = 0xa1a2a3a4_b1b2_c1c2_d1d2_d3d4d5d6d7d8;
const VOTED: u128 = 0x0000_0000_0000_0000_0000_0000_0000_00ff;

#[test]
fn random_countdown_waits_within_its_range() {
    for _ in 0..50 {
        let mut clock = CountDownClock::new();
        let wait = clock.start_random(40).expect("an idle clock starts");
        assert!(wait >= MIN_RANDOM_WAIT_MS && wait <= 40, "wait {} out of range", wait);
        assert!(clock.is_running());
        let again = clock.reset().expect("a running clock restarts");
        assert!(again >= MIN_RANDOM_WAIT_MS && again <= 40);
    }
}

#[test]
fn a_second_start_while_running_is_a_no_op() {
    let mut clock = CountDownClock::new();
    assert_eq!(clock.start_fixed(3000), Some(3000));
    assert_eq!(clock.start_fixed(10), None);
    assert_eq!(clock.start_random(1000), None);
    assert_eq!(clock.reset(), Some(3000));
}

#[test]
fn countdown_fires_once_then_can_start_again() {
    let mut clock = CountDownClock::new();
    assert_eq!(clock.reset(), None);
    assert!(!clock.expire());
    clock.start_fixed(5);
    assert!(clock.expire());
    assert!(!clock.expire());
    assert!(!clock.is_running());
    assert_eq!(clock.start_fixed(7), Some(7));
}

#[test]
fn a_cancelled_clock_never_runs_again() {
    let mut clock = CountDownClock::new();
    clock.start_fixed(5);
    clock.cancel();
    assert!(!clock.is_running());
    assert!(!clock.expire());
    assert_eq!(clock.start_fixed(5), None);
    assert_eq!(clock.start_random(100), None);
    assert_eq!(clock.reset(), None);
}

#[test]
fn run_status_bytes() {
    let idle: u8 = RunStatus::IDLE.into();
    let active: u8 = u8::from(RunStatus::ACTIVE);
    assert_eq!(idle, 0);
    assert_eq!(active, 1);
}

#[test]
fn worker_runner_starts_once_and_stops_back_to_idle() {
    let mut runner = WorkerRunner::new();
    assert_eq!(runner.get_run_status(), 0);
    assert!(!runner.stop(), "a runner never started has nothing to stop");
    assert!(runner.start());
    assert_eq!(runner.get_run_status(), 1);
    assert!(!runner.start(), "a second start is skipped");
    runner.worker_started();
    assert!(runner.stop());
    assert!(runner.take_worker_task());
    assert!(!runner.take_worker_task());
    runner.reset();
    assert_eq!(runner.get_run_status(), 0);
    assert!(runner.start());
}

#[test]
fn true_time_interval_brackets_the_clock() {
    let now = TimeInterval::around(1_000_000);
    assert_eq!(now.earliest, 1_000_000 - UNCERTAINTY_MICROS);
    assert_eq!(now.latest, 1_000_000 + UNCERTAINTY_MICROS);
    assert!(TrueTime::before_at(1_007_001, &now));
    assert!(!TrueTime::before_at(1_007_000, &now));
    assert!(TrueTime::after_at(992_999, &now));
    assert!(!TrueTime::after_at(993_000, &now));
    let live = TrueTime::now();
    assert_eq!(live.latest - live.earliest, 2 * UNCERTAINTY_MICROS);
}

#[test]
fn timestamp_is_never_both_past_and_future() {
    for t in [0i64, 5_000, 10_000, 20_000] {
        let now = TimeInterval::around(10_000);
        assert!(!(TrueTime::before_at(t, &now) && TrueTime::after_at(t, &now)));
    }
    let far_past = 1_000i64;
    assert!(TrueTime::after(far_past));
    assert!(!TrueTime::before(far_past));
}

#[test]
fn pre_vote_rejection_reason_names_leader_and_log() {
    let response = PreVoteResponse {
        member_id: 2,
        term: 5,
        vote_granted: false,
        current_leader_id: Some(LEADER),
        member_last_log_term: Some(3),
        member_last_log_slot: None,
    };
    assert_eq!(
        response.rejection_reason(),
        "term 5, active leader a1a2a3a4-b1b2-c1c2-d1d2-d3d4d5d6d7d8, log ahead (term=3, slot=?)"
    );
    let plain = PreVoteResponse { current_leader_id: None, member_last_log_term: None, term: 120, ..response };
    assert_eq!(plain.rejection_reason(), "term 120");
}

#[test]
fn vote_rejection_reason_names_every_reason() {
    let rejection = VoteRejection {
        current_leader_id: None,
        member_last_log_term: None,
        member_last_log_slot: Some(42),
        voted_for_id: Some(VOTED),
    };
    assert_eq!(
        rejection.rejection_reason(7),
        "term 7, log ahead (term=?, slot=42), already voted for 00000000-0000-0000-0000-0000000000ff"
    );
}

#[test]
fn try_get_leader_checks_the_term() {
    let response = PreVoteResponse {
        member_id: 2,
        term: 5,
        vote_granted: false,
        current_leader_id: Some(LEADER),
        member_last_log_term: None,
        member_last_log_slot: None,
    };
    assert_eq!(response.try_get_leader(|t| t >= 5), Some(LEADER));
    assert_eq!(response.try_get_leader(|t| t > 5), None);
    let rejected = VoteResponse {
        member_id: 2,
        term: 9,
        outcome: VoteOutcome::Rejection(VoteRejection {
            current_leader_id: Some(LEADER),
            member_last_log_term: None,
            member_last_log_slot: None,
            voted_for_id: None,
        }),
    };
    assert_eq!(rejected.try_get_leader(|t| t == 9), Some(LEADER));
    let promised = VoteResponse {
        member_id: 2,
        term: 9,
        outcome: VoteOutcome::Promise(VotePromise { last_log_term: 0, last_log_slot: 0, uncommitted_entries: vec![] }),
    };
    assert_eq!(promised.try_get_leader(|_| true), None);
}
