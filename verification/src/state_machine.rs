//! The role a group member is in, and the step that handles one event.
use crate::context::{ContextView, PaxosSharedContext};
use crate::event::{PaxosAction, PaxosError, PaxosEvent};
use crate::member_id::MemberId;
use crate::roles::candidate::{candidate_event_effect, Candidate};
use crate::roles::follower::{follower_event_effect, Follower};
use crate::roles::leader::{leader_event_effect, Leader};
use crate::roles::precandidate::{precandidate_event_effect, PreCandidate};
use crate::time::{TimeInterval, TrueTime, CLOCK_MAX_MICROS};
use vstd::prelude::*;

verus! {

/// The role of a group member, with its role-specific state.
pub enum PaxosState {
    Follower(Follower),
    PreCandidate(PreCandidate),
    Candidate(Candidate),
    Leader(Leader),
}

/// The leader that a state knows of: only a follower tracks one.
pub open spec fn leader_id_of(s: PaxosState) -> Option<MemberId> {
    match s {
        PaxosState::Follower(f) => f.current_leader_id,
        _ => None,
    }
}

/// A campaign board has grown to the limit of its counters.
pub open spec fn board_too_large(s: PaxosState) -> bool {
    match s {
        PaxosState::PreCandidate(p) => p.pre_vote_board@.len() >= usize::MAX - 1,
        PaxosState::Candidate(c) => c.vote_board@.len() >= usize::MAX - 1,
        _ => false,
    }
}

/// What the role of state `s` does with `event` (see each role's effect).
pub open spec fn role_event_effect(
    s: PaxosState,
    ctx: ContextView,
    event: PaxosEvent,
    now: TimeInterval,
    r: Result<PaxosState, PaxosError>,
    ctx2: ContextView,
    ctx2_wf: bool,
    acts: Seq<PaxosAction>,
    acts2: Seq<PaxosAction>,
) -> bool {
    match s {
        PaxosState::Follower(f) => follower_event_effect(f, ctx, event, now, r, ctx2, acts, acts2),
        PaxosState::PreCandidate(p) => precandidate_event_effect(p, ctx, event, now, r, ctx2, acts, acts2),
        PaxosState::Candidate(c) => candidate_event_effect(c, ctx, event, now, r, ctx2, ctx2_wf, acts, acts2),
        PaxosState::Leader(l) => leader_event_effect(l, ctx, event, now, r, ctx2, acts, acts2),
    }
}

/// What handling `event` at `now` does to a member in state `s`: an event carrying a term
/// above the member's makes it a follower of that term (keeping the known leader) that then
/// handles the event, a vote request being decided against the member's term from before
/// the request; a campaign board at the limit of its counters is a fault; otherwise the
/// role handles the event.
pub open spec fn event_step(
    s: PaxosState,
    ctx: ContextView,
    event: PaxosEvent,
    now: TimeInterval,
    r: Result<PaxosState, PaxosError>,
    ctx2: ContextView,
    ctx2_wf: bool,
    acts: Seq<PaxosAction>,
    acts2: Seq<PaxosAction>,
) -> bool {
    let stepped = (event.term_of() matches Some(t) && t > ctx.term);
    let follower = PaxosState::Follower(Follower { current_leader_id: leader_id_of(s), vote_record: None });
    if stepped && event is VoteRequestReceived {
        exists|decided: ContextView| {
            &&& #[trigger] role_event_effect(follower, ctx, event, now, r, decided, ctx2_wf, acts.push(PaxosAction::RoleEnded), acts2)
            &&& ctx2 == (ContextView { term: event.term_of()->0, ..decided })
        }
    } else if stepped {
        role_event_effect(follower, ContextView { term: event.term_of()->0, ..ctx }, event, now, r, ctx2, ctx2_wf, acts.push(PaxosAction::RoleEnded), acts2)
    } else if board_too_large(s) {
        r == Err::<PaxosState, PaxosError>(PaxosError::ArithmeticOverflow)
    } else {
        role_event_effect(s, ctx, event, now, r, ctx2, ctx2_wf, acts, acts2)
    }
}

impl PaxosState {
    /// The role's maps are maps, and a candidate has sent its votes at a clock reading.
    pub open spec fn wf(&self) -> bool {
        match self {
            PaxosState::Follower(_) => true,
            PaxosState::PreCandidate(p) => p.pre_vote_board.wf(),
            PaxosState::Candidate(c) => c.wf() && (c.vote_dispatch_time matches Some(t) && -CLOCK_MAX_MICROS <= t <= CLOCK_MAX_MICROS),
            PaxosState::Leader(l) => l.wf(),
        }
    }

    /// The state every member starts in: a follower that knows no leader.
    pub fn initial() -> (r: Self)
        ensures
            r == PaxosState::Follower(Follower { current_leader_id: None, vote_record: None }),
    {
        PaxosState::Follower(Follower::new(None))
    }

    /// The leader this state knows of.
    pub fn get_leader_id(&self) -> (r: Option<MemberId>)
        ensures
            r == leader_id_of(*self),
    {
        match self {
            PaxosState::Follower(follower) => follower.get_current_leader_id(),
            _ => None,
        }
    }

    /// Handles one event at `now` (see `event_step`). An event carrying a term above this
    /// member's term raises the member's term to it and makes it a follower (keeping the
    /// known leader) that handles the event; a vote request from a higher term is decided
    /// before the term is raised, so that the proposed term is compared with the voter's
    /// own. Returns the next state, and adds the runtime's work to `actions`.
    pub fn process_event(self, event: PaxosEvent, ctx: &mut PaxosSharedContext, now: &TimeInterval, actions: &mut Vec<PaxosAction>) -> (r: Result<PaxosState, PaxosError>)
        requires
            self.wf(),
            old(ctx).wf(),
            now.wf(),
        ensures
            r matches Ok(s) ==> s.wf() && final(ctx).wf(),
            r is Ok ==> final(ctx)@.term >= old(ctx)@.term,
            r is Ok ==> final(ctx)@.committed_slot >= old(ctx)@.committed_slot,
            r is Ok ==> (event.term_of() matches Some(t) ==> final(ctx)@.term >= t),
            event_step(self, old(ctx)@, event, *now, r, final(ctx)@, final(ctx).wf(), old(actions)@, final(actions)@),
    {
        let mut current_state = self;
        // A vote request from a higher term is decided against this member's term before
        // the request raised it: a vote goes to a proposed term above the voter's own
        let mut raised_after_vote: Option<u32> = None;
        // An event from a higher term raises this member's term and makes it a follower
        if let Some(event_term) = event.get_term() {
            if event_term > ctx.get_current_term() {
                let leader_id = current_state.get_leader_id();
                actions.push(PaxosAction::RoleEnded);
                current_state = PaxosState::Follower(Follower::new(leader_id));
                if let PaxosEvent::VoteRequestReceived(_) = event {
                    raised_after_vote = Some(event_term);
                } else {
                    ctx.set_current_term(event_term);
                }
            }
        }
        let ghost acts_before = actions@;
        let result = match current_state {
            PaxosState::Follower(follower) => follower.handle_event(event, ctx, now, actions),
            PaxosState::PreCandidate(pre_candidate) => {
                if pre_candidate.pre_vote_board.len() >= usize::MAX - 1 {
                    return Err(PaxosError::ArithmeticOverflow);
                }
                pre_candidate.handle_event(event, ctx, now, actions)
            },
            PaxosState::Candidate(candidate) => {
                if candidate.vote_board.len() >= usize::MAX - 1 {
                    return Err(PaxosError::ArithmeticOverflow);
                }
                candidate.handle_event(event, ctx, now, actions)
            },
            PaxosState::Leader(leader) => leader.handle_event(event, ctx, now, actions),
        };
        if let Some(event_term) = raised_after_vote {
            let ghost after_vote = ctx@;
            ctx.set_current_term(event_term);
            assert(role_event_effect(
                PaxosState::Follower(Follower { current_leader_id: leader_id_of(self), vote_record: None }),
                old(ctx)@,
                event,
                *now,
                result,
                after_vote,
                ctx.wf(),
                acts_before,
                actions@,
            ));
        }
        result
    }

    /// Handles one event at the current TrueTime reading (see `process_event`).
    pub fn process_event_now(self, event: PaxosEvent, ctx: &mut PaxosSharedContext, actions: &mut Vec<PaxosAction>) -> (r: Result<PaxosState, PaxosError>)
        requires
            self.wf(),
            old(ctx).wf(),
        ensures
            r matches Ok(s) ==> s.wf() && final(ctx).wf(),
            r is Ok ==> final(ctx)@.term >= old(ctx)@.term,
            r is Ok ==> final(ctx)@.committed_slot >= old(ctx)@.committed_slot,
            exists|now: TimeInterval| now.wf() && event_step(self, old(ctx)@, event, now, r, final(ctx)@, final(ctx).wf(), old(actions)@, final(actions)@),
    {
        let now = TrueTime::now();
        self.process_event(event, ctx, &now, actions)
    }
}

} // verus!
