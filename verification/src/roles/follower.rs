//! The follower role: replicates the leader's log, answers votes, and starts an election
//! when the leader lease runs out.
use crate::context::{advanced_t_safe, ContextView, PaxosSharedContext, LEASE_LENGTH_MICROS};
use crate::event::{PaxosAction, PaxosError, PaxosEvent};
use crate::member_id::MemberId;
use crate::messages::{
    AcceptLogEntry, AcceptRequest, AcceptResponse, ClientWriteResponse, ConflictHint,
    PreVoteRequest, PreVoteResponse, VoteOutcome, VotePromise, VoteRequest, VoteResponse,
};
use crate::models;
use crate::roles::precandidate::PreCandidate;
use crate::roles::util::{answer_pre_vote, decide_vote, pre_vote_response_of, vote_refusal};
use crate::slot_log::{
    entry_at, has_slot, insert_sorted, is_lowest_slot_for_term, lemma_filter_by_slot, lemma_insert_sorted, slot_map,
    slots_increasing, SlotEntry,
};
use crate::state_machine::PaxosState;
use crate::time::TimeInterval;
use crate::wal;
use vstd::prelude::*;

verus! {

/// The election countdown's upper bound, in milliseconds.
pub const ELECTION_COUNTDOWN_MAX_MS: u64 = 1000;

/// A vote granted by a follower.
#[derive(Clone, Copy)]
pub struct VoteRecord {
    pub term: u32,
    pub candidate_id: MemberId,
}

/// The state of a group follower.
pub struct Follower {
    /// The leader that this follower is currently following.
    pub current_leader_id: Option<MemberId>,
    /// The most recent vote granted by this follower.
    pub vote_record: Option<VoteRecord>,
}

/// The wal entry that an accepted entry becomes.
pub open spec fn to_wal_entry(e: AcceptLogEntry) -> wal::LogEntry {
    wal::LogEntry { term: e.term, slot: e.slot, entry: e.entry, timestamp: e.timestamp }
}

/// The uncommitted entry that an accepted entry becomes.
pub open spec fn to_uncommitted_entry(e: AcceptLogEntry) -> models::LogEntry {
    models::LogEntry { term: e.term, slot: e.slot, entry: e.entry }
}

/// An accepted entry conflicts with `log` where the log holds an entry of another term at
/// the entry's slot.
pub open spec fn conflicts(log: Seq<wal::LogEntry>, e: AcceptLogEntry) -> bool {
    has_slot(log, e.slot) && entry_at(log, e.slot).term != e.term
}

/// The lowest slot at which an entry of `entries` conflicts with `log`, if any does.
pub open spec fn first_conflict(log: Seq<wal::LogEntry>, entries: Seq<AcceptLogEntry>) -> Option<u32>
    decreases entries.len(),
{
    if entries.len() == 0 {
        None
    } else {
        let earlier = first_conflict(log, entries.drop_last());
        let e = entries.last();
        if !conflicts(log, e) {
            earlier
        } else {
            match earlier {
                Some(s) => if e.slot < s { Some(e.slot) } else { Some(s) },
                None => Some(e.slot),
            }
        }
    }
}

/// `log` with `entries` stored one after the other, each at its slot.
pub open spec fn stored_in_log(log: Seq<wal::LogEntry>, entries: Seq<AcceptLogEntry>) -> Seq<wal::LogEntry>
    decreases entries.len(),
{
    if entries.len() == 0 {
        log
    } else {
        insert_sorted(stored_in_log(log, entries.drop_last()), to_wal_entry(entries.last()))
    }
}

/// `unc` with `entries` stored one after the other, each at its slot.
pub open spec fn stored_uncommitted(unc: Seq<models::LogEntry>, entries: Seq<AcceptLogEntry>) -> Seq<models::LogEntry>
    decreases entries.len(),
{
    if entries.len() == 0 {
        unc
    } else {
        insert_sorted(stored_uncommitted(unc, entries.drop_last()), to_uncommitted_entry(entries.last()))
    }
}

/// The log after a matching request stores `entries`: the log is cut once, below the
/// lowest slot where an entry conflicts with the log as it was, and then every entry is
/// stored at its slot.
pub open spec fn wal_with_entries(log: Seq<wal::LogEntry>, entries: Seq<AcceptLogEntry>) -> Seq<wal::LogEntry> {
    match first_conflict(log, entries) {
        Some(cut) => stored_in_log(log.filter(|x: wal::LogEntry| x.slot < cut), entries),
        None => stored_in_log(log, entries),
    }
}

/// The uncommitted entries after a matching request stores `entries` into `log`: they are
/// cut where the log is cut (see `wal_with_entries`), and then take every entry.
pub open spec fn uncommitted_with_entries(log: Seq<wal::LogEntry>, unc: Seq<models::LogEntry>, entries: Seq<AcceptLogEntry>) -> Seq<models::LogEntry> {
    match first_conflict(log, entries) {
        Some(cut) => stored_uncommitted(unc.filter(|x: models::LogEntry| x.slot < cut), entries),
        None => stored_uncommitted(unc, entries),
    }
}

/// No two entries of a request share a slot.
pub open spec fn distinct_entry_slots(entries: Seq<AcceptLogEntry>) -> bool {
    forall|i: int, j: int| 0 <= i < j < entries.len() ==> entries[i].slot != entries[j].slot
}

/// The lowest conflicting slot is the slot of a conflicting entry, at or below every
/// other conflicting entry's slot; there is none exactly when no entry conflicts.
pub proof fn lemma_first_conflict(log: Seq<wal::LogEntry>, entries: Seq<AcceptLogEntry>)
    ensures
        match first_conflict(log, entries) {
            Some(c) => (exists|i: int| 0 <= i < entries.len() && entries[i].slot == c && conflicts(log, entries[i]))
                && forall|i: int| 0 <= i < entries.len() && conflicts(log, #[trigger] entries[i]) ==> c <= entries[i].slot,
            None => forall|i: int| 0 <= i < entries.len() ==> !conflicts(log, #[trigger] entries[i]),
        },
    decreases entries.len(),
{
    if entries.len() > 0 {
        let rest = entries.drop_last();
        let n = entries.len() - 1;
        lemma_first_conflict(log, rest);
        assert forall|i: int| 0 <= i < rest.len() implies rest[i] == entries[i] by {}
        match first_conflict(log, entries) {
            Some(c) => {
                match first_conflict(log, rest) {
                    Some(s) => {
                        let j = choose|j: int| 0 <= j < rest.len() && rest[j].slot == s && conflicts(log, rest[j]);
                        assert(entries[j] == rest[j]);
                    },
                    None => {},
                }
                assert forall|i: int| 0 <= i < entries.len() && conflicts(log, #[trigger] entries[i]) implies c <= entries[i].slot by {
                    if i < n {
                        assert(rest[i] == entries[i]);
                    }
                }
            },
            None => {
                assert forall|i: int| 0 <= i < entries.len() implies !conflicts(log, #[trigger] entries[i]) by {
                    if i < n {
                        assert(rest[i] == entries[i]);
                    }
                }
            },
        }
    }
}

/// Storing entries with distinct slots into a log in slot order keeps it in slot order,
/// puts each entry at its slot, holds no slot but the log's and the entries', and leaves
/// the log's entry at every slot no entry names.
proof fn lemma_stored_in_log(log: Seq<wal::LogEntry>, entries: Seq<AcceptLogEntry>)
    requires
        slots_increasing(log),
        distinct_entry_slots(entries),
    ensures
        slots_increasing(stored_in_log(log, entries)),
        forall|i: int| 0 <= i < entries.len() ==> slot_map(stored_in_log(log, entries)).contains_key(#[trigger] entries[i].slot)
            && slot_map(stored_in_log(log, entries))[entries[i].slot] == to_wal_entry(entries[i]),
        forall|s: u32| #[trigger] slot_map(stored_in_log(log, entries)).contains_key(s) ==> slot_map(log).contains_key(s)
            || exists|i: int| 0 <= i < entries.len() && entries[i].slot == s,
        forall|s: u32| #[trigger] slot_map(log).contains_key(s) && (forall|i: int| 0 <= i < entries.len() ==> entries[i].slot != s)
            ==> slot_map(stored_in_log(log, entries)).contains_key(s)
            && slot_map(stored_in_log(log, entries))[s] == slot_map(log)[s],
    decreases entries.len(),
{
    if entries.len() > 0 {
        let rest = entries.drop_last();
        let e = entries.last();
        let n = entries.len() - 1;
        assert(entries[n] == e);
        assert forall|i: int| 0 <= i < rest.len() implies rest[i] == entries[i] by {}
        lemma_stored_in_log(log, rest);
        let before = stored_in_log(log, rest);
        lemma_insert_sorted(before, to_wal_entry(e));
        let after = stored_in_log(log, entries);
        assert(slot_map(after) == slot_map(before).insert(e.slot, to_wal_entry(e)));
        assert forall|i: int| 0 <= i < entries.len() implies slot_map(after).contains_key(#[trigger] entries[i].slot)
            && slot_map(after)[entries[i].slot] == to_wal_entry(entries[i]) by {
            if i < n {
                assert(rest[i] == entries[i]);
                assert(entries[i].slot != entries[n].slot);
                assert(slot_map(before).contains_key(rest[i].slot));
            }
        }
        assert forall|s: u32| #[trigger] slot_map(after).contains_key(s) implies slot_map(log).contains_key(s)
            || exists|i: int| 0 <= i < entries.len() && entries[i].slot == s by {
            if s != e.slot && !slot_map(log).contains_key(s) {
                assert(slot_map(before).contains_key(s));
                let j = choose|j: int| 0 <= j < rest.len() && rest[j].slot == s;
                assert(entries[j].slot == s);
            }
        }
        assert forall|s: u32| #[trigger] slot_map(log).contains_key(s) && (forall|i: int| 0 <= i < entries.len()
            ==> entries[i].slot != s) implies slot_map(after).contains_key(s) && slot_map(after)[s] == slot_map(log)[s] by {
            assert forall|i: int| 0 <= i < rest.len() implies rest[i].slot != s by {
                assert(entries[i].slot != s);
            }
            assert(entries[n].slot != s);
        }
    }
}

/// Storing entries with distinct slots into uncommitted entries in slot order keeps them in
/// slot order and puts each entry at its slot.
proof fn lemma_stored_uncommitted(unc: Seq<models::LogEntry>, entries: Seq<AcceptLogEntry>)
    requires
        slots_increasing(unc),
        distinct_entry_slots(entries),
    ensures
        slots_increasing(stored_uncommitted(unc, entries)),
        forall|i: int| 0 <= i < entries.len() ==> slot_map(stored_uncommitted(unc, entries)).contains_key(
            #[trigger] entries[i].slot,
        ) && slot_map(stored_uncommitted(unc, entries))[entries[i].slot] == to_uncommitted_entry(entries[i]),
    decreases entries.len(),
{
    if entries.len() > 0 {
        let rest = entries.drop_last();
        let e = entries.last();
        let n = entries.len() - 1;
        assert(entries[n] == e);
        assert forall|i: int| 0 <= i < rest.len() implies rest[i] == entries[i] by {}
        lemma_stored_uncommitted(unc, rest);
        let before = stored_uncommitted(unc, rest);
        lemma_insert_sorted(before, to_uncommitted_entry(e));
        let after = stored_uncommitted(unc, entries);
        assert(slot_map(after) == slot_map(before).insert(e.slot, to_uncommitted_entry(e)));
        assert forall|i: int| 0 <= i < entries.len() implies slot_map(after).contains_key(#[trigger] entries[i].slot)
            && slot_map(after)[entries[i].slot] == to_uncommitted_entry(entries[i]) by {
            if i < n {
                assert(rest[i] == entries[i]);
                assert(entries[i].slot != entries[n].slot);
                assert(slot_map(before).contains_key(rest[i].slot));
            }
        }
    }
}

/// A matching request's entries (with distinct slots, in any order) reconcile the log: the
/// result is in slot order; each entry sits at its slot; every slot held comes from the
/// log or the request; and an entry of the log at a slot that no request entry names
/// stays as it was exactly when it lies below every slot where a request entry conflicts
/// with the log; at or above such a slot it is gone.
pub proof fn lemma_entries_reconcile_log(log: Seq<wal::LogEntry>, entries: Seq<AcceptLogEntry>)
    requires
        slots_increasing(log),
        distinct_entry_slots(entries),
    ensures
        slots_increasing(wal_with_entries(log, entries)),
        forall|i: int| 0 <= i < entries.len() ==> slot_map(wal_with_entries(log, entries)).contains_key(#[trigger] entries[i].slot)
            && slot_map(wal_with_entries(log, entries))[entries[i].slot] == to_wal_entry(entries[i]),
        forall|s: u32| #[trigger] slot_map(wal_with_entries(log, entries)).contains_key(s) ==> slot_map(log).contains_key(s)
            || exists|i: int| 0 <= i < entries.len() && entries[i].slot == s,
        forall|s: u32| #[trigger] slot_map(log).contains_key(s)
            && (forall|i: int| 0 <= i < entries.len() ==> entries[i].slot != s)
            && (forall|i: int| 0 <= i < entries.len() && conflicts(log, entries[i]) ==> s < entries[i].slot)
            ==> slot_map(wal_with_entries(log, entries)).contains_key(s)
            && slot_map(wal_with_entries(log, entries))[s] == slot_map(log)[s],
        forall|s: u32, i: int|
            #![trigger slot_map(wal_with_entries(log, entries)).contains_key(s), entries[i]]
            0 <= i < entries.len() && conflicts(log, entries[i]) && entries[i].slot <= s
            && (forall|j: int| 0 <= j < entries.len() ==> entries[j].slot != s)
            ==> !slot_map(wal_with_entries(log, entries)).contains_key(s),
{
    lemma_first_conflict(log, entries);
    match first_conflict(log, entries) {
        Some(cut) => {
            let below = |x: wal::LogEntry| x.slot < cut;
            let kept = log.filter(below);
            lemma_filter_by_slot(log, below, |k: u32| k < cut, 0);
            assert forall|s: u32| #[trigger] slot_map(kept).contains_key(s) == (s < cut && slot_map(log).contains_key(s))
                && (slot_map(kept).contains_key(s) ==> slot_map(kept)[s] == slot_map(log)[s]) by {
                lemma_filter_by_slot(log, below, |k: u32| k < cut, s);
            }
            lemma_stored_in_log(kept, entries);
            let after = wal_with_entries(log, entries);
            assert(after == stored_in_log(kept, entries));
            assert forall|s: u32| #[trigger] slot_map(after).contains_key(s) implies slot_map(log).contains_key(s)
                || exists|i: int| 0 <= i < entries.len() && entries[i].slot == s by {
                if !(exists|i: int| 0 <= i < entries.len() && entries[i].slot == s) {
                    assert(slot_map(kept).contains_key(s));
                }
            }
            assert forall|s: u32| #[trigger] slot_map(log).contains_key(s)
                && (forall|i: int| 0 <= i < entries.len() ==> entries[i].slot != s)
                && (forall|i: int| 0 <= i < entries.len() && conflicts(log, entries[i]) ==> s < entries[i].slot)
                implies slot_map(after).contains_key(s) && slot_map(after)[s] == slot_map(log)[s] by {
                let j = choose|j: int| 0 <= j < entries.len() && entries[j].slot == cut && conflicts(log, entries[j]);
                assert(s < entries[j].slot);
                assert(slot_map(kept).contains_key(s));
            }
            assert forall|s: u32, i: int|
                #![trigger slot_map(after).contains_key(s), entries[i]]
                0 <= i < entries.len() && conflicts(log, entries[i]) && entries[i].slot <= s
                && (forall|j: int| 0 <= j < entries.len() ==> entries[j].slot != s)
                implies !slot_map(after).contains_key(s) by {
                assert(cut <= entries[i].slot);
                assert(!slot_map(kept).contains_key(s));
            }
        },
        None => {
            lemma_stored_in_log(log, entries);
        },
    }
}

/// A matching accept request whose entries have distinct slots leaves only entries above
/// the committed slot uncommitted, and every entry of the request above that slot
/// uncommitted at its slot; the committed slot becomes the leader's commit slot as far as
/// the request reaches, if that is higher.
pub proof fn lemma_accept_uncommitted_above_commit(ctx: ContextView, req: AcceptRequest)
    requires
        slots_increasing(ctx.uncommitted),
        distinct_entry_slots(req.entries@),
    ensures
        forall|i: int| 0 <= i < accepted_ctx(ctx, req).uncommitted.len()
            ==> #[trigger] accepted_ctx(ctx, req).uncommitted[i].slot > accepted_ctx(ctx, req).committed_slot,
        forall|i: int| 0 <= i < req.entries@.len() && req.entries@[i].slot > accepted_ctx(ctx, req).committed_slot
            ==> slot_map(accepted_ctx(ctx, req).uncommitted).contains_key(#[trigger] req.entries@[i].slot)
            && slot_map(accepted_ctx(ctx, req).uncommitted)[req.entries@[i].slot] == to_uncommitted_entry(req.entries@[i]),
        ({
            let lw = last_written_slot(req);
            let nc = if req.leader_commit_slot < lw { req.leader_commit_slot } else { lw };
            accepted_ctx(ctx, req).committed_slot == if nc > ctx.committed_slot { nc } else { ctx.committed_slot }
        }),
{
    broadcast use vstd::seq_lib::group_filter_ensures;

    let c = accepted_ctx(ctx, req);
    let entries = req.entries@;
    let unc = uncommitted_with_entries(ctx.wal, ctx.uncommitted, entries);
    match first_conflict(ctx.wal, entries) {
        Some(cut) => {
            let below = |x: models::LogEntry| x.slot < cut;
            lemma_filter_by_slot(ctx.uncommitted, below, |k: u32| k < cut, 0);
            lemma_stored_uncommitted(ctx.uncommitted.filter(below), entries);
        },
        None => {
            lemma_stored_uncommitted(ctx.uncommitted, entries);
        },
    }
    let above = |e: models::LogEntry| e.slot > c.committed_slot;
    assert(c.uncommitted == unc.filter(above));
    assert forall|i: int| 0 <= i < c.uncommitted.len() implies #[trigger] c.uncommitted[i].slot > c.committed_slot by {
        assert(above(unc.filter(above)[i]));
    }
    assert forall|i: int| 0 <= i < entries.len() && entries[i].slot > c.committed_slot implies slot_map(c.uncommitted).contains_key(
        #[trigger] entries[i].slot,
    ) && slot_map(c.uncommitted)[entries[i].slot] == to_uncommitted_entry(entries[i]) by {
        lemma_filter_by_slot(unc, above, |k: u32| k > c.committed_slot, entries[i].slot);
    }
}

/// The last log position names the log's last entry, and is 0 for an empty log.
pub open spec fn last_position_named(ctx: ContextView) -> bool {
    if ctx.wal.len() > 0 {
        ctx.last_log_slot == ctx.wal.last().slot && ctx.last_log_term == ctx.wal.last().term
    } else {
        ctx.last_log_slot == 0 && ctx.last_log_term == 0
    }
}

/// An accept request that is answered keeps the last log position naming the log's last
/// entry; one that cannot be answered (a full last slot) leaves the context as it was
/// (see `Follower::handle_accept_request`), so the position stays named whatever the
/// outcome.
pub proof fn lemma_accept_keeps_last_position(ctx: ContextView, req: AcceptRequest, now: TimeInterval)
    requires
        last_position_named(ctx),
    ensures
        follower_accept_step(ctx, req, now) matches Some((c, _)) ==> last_position_named(c),
{
    let entries = req.entries@;
    if entries.len() > 0 {
        let kept = match first_conflict(ctx.wal, entries) {
            Some(cut) => ctx.wal.filter(|x: wal::LogEntry| x.slot < cut),
            None => ctx.wal,
        };
        let before = stored_in_log(kept, entries.drop_last());
        let e = entries.last();
        assert(wal_with_entries(ctx.wal, entries) == insert_sorted(before, to_wal_entry(e)));
        assert(insert_sorted(before, to_wal_entry(e)).len() > 0) by {
            let p = crate::slot_log::position_of(before, to_wal_entry(e).slot_of());
            if !(p < before.len() && before[p].slot_of() == to_wal_entry(e).slot_of()) {
                before.lemma_filter_len(|x: wal::LogEntry| x.slot_of() < to_wal_entry(e).slot_of());
            }
        }
    }
}

/// The lowest slot of `term` in `log` (determined when the term occurs).
pub open spec fn lowest_slot_for_term(log: Seq<wal::LogEntry>, term: u32) -> u32 {
    choose|slot: u32| is_lowest_slot_for_term(log, term, slot)
}

/// A term that occurs in a log has a lowest slot in it.
proof fn lemma_lowest_exists(log: Seq<wal::LogEntry>, term: u32)
    requires
        crate::slot_log::has_term(log, term),
    ensures
        exists|slot: u32| is_lowest_slot_for_term(log, term, slot),
    decreases log.len(),
{
    let n = log.len() - 1;
    let rest = log.drop_last();
    let x = log[n];
    assert forall|i: int| 0 <= i < rest.len() implies rest[i] == log[i] by {}
    if crate::slot_log::has_term(rest, term) {
        lemma_lowest_exists(rest, term);
        let s = choose|slot: u32| is_lowest_slot_for_term(rest, term, slot);
        let j = choose|j: int| 0 <= j < rest.len() && rest[j].term_of() == term && rest[j].slot_of() == s;
        if x.term == term && x.slot < s {
            assert(is_lowest_slot_for_term(log, term, x.slot));
        } else {
            assert(log[j] == rest[j]);
            assert(is_lowest_slot_for_term(log, term, s));
        }
    } else {
        let j = choose|j: int| 0 <= j < log.len() && log[j].term_of() == term;
        if j < n {
            assert(rest[j] == log[j]);
        }
        assert forall|i: int| 0 <= i < log.len() && log[i].term_of() == term implies x.slot <= log[i].slot_of() by {
            if i < n {
                assert(rest[i] == log[i]);
            }
        }
        assert(is_lowest_slot_for_term(log, term, x.slot));
    }
}

/// On a term mismatch at the anchor, the follower refuses and points the leader at the
/// first slot of its own term there: the hint names that term, the hinted slot holds an
/// entry of that term, and no lower slot does.
pub proof fn lemma_mismatch_hint_names_first_slot(ctx: ContextView, req: AcceptRequest, now: TimeInterval)
    requires
        slots_increasing(ctx.wal),
        req.term >= ctx.term,
        req.prev_log_slot > 0,
        has_slot(ctx.wal, req.prev_log_slot),
        entry_at(ctx.wal, req.prev_log_slot).term != req.prev_log_term,
    ensures
        match follower_accept_step(ctx, req, now) {
            Some((_, resp)) => !resp.success && match resp.conflict_hint {
                Some(h) => {
                    &&& h.conflict_term == entry_at(ctx.wal, req.prev_log_slot).term
                    &&& exists|i: int| 0 <= i < ctx.wal.len() && ctx.wal[i].slot == h.conflict_first_slot && ctx.wal[i].term == h.conflict_term
                    &&& forall|i: int| 0 <= i < ctx.wal.len() && ctx.wal[i].slot < h.conflict_first_slot ==> ctx.wal[i].term != h.conflict_term
                },
                None => false,
            },
            None => false,
        },
{
    let prev = req.prev_log_slot;
    let local = entry_at(ctx.wal, prev).term;
    let k = choose|i: int| 0 <= i < ctx.wal.len() && ctx.wal[i].slot_of() == prev;
    crate::slot_log::lemma_entry_at_index(ctx.wal, k);
    assert(ctx.wal[k].term_of() == local);
    lemma_lowest_exists(ctx.wal, local);
    let first = lowest_slot_for_term(ctx.wal, local);
    assert(is_lowest_slot_for_term(ctx.wal, local, first));
    assert forall|i: int| 0 <= i < ctx.wal.len() && ctx.wal[i].slot < first implies ctx.wal[i].term != local by {
        if ctx.wal[i].term == local {
            assert(ctx.wal[i].term_of() == local);
        }
    }
}

/// The last slot written by an accepted request: its last entry, or its anchor.
pub open spec fn last_written_slot(req: AcceptRequest) -> u32 {
    if req.entries@.len() == 0 {
        req.prev_log_slot
    } else {
        req.entries@.last().slot
    }
}

/// The context after a matching accept request is applied, before the lease is extended:
/// the new entries are stored, each conflicting one dropping the log from its slot on (see
/// `wal_with_entries`); the last log position names the log's last entry; the committed
/// slot advances to the leader's commit slot as far as this request reaches; only entries
/// above the committed slot stay uncommitted; and the safe-read time advances to the newly
/// committed entry's timestamp and, once caught up with the leader's commit slot, to just
/// before the leader's MinNextTS.
pub open spec fn accepted_ctx(ctx: ContextView, req: AcceptRequest) -> ContextView {
    let entries = req.entries@;
    let log = wal_with_entries(ctx.wal, entries);
    let unc = uncommitted_with_entries(ctx.wal, ctx.uncommitted, entries);
    let lw = last_written_slot(req);
    let nc = if req.leader_commit_slot < lw { req.leader_commit_slot } else { lw };
    let advanced = nc > ctx.committed_slot;
    let committed = if advanced { nc } else { ctx.committed_slot };
    let unc2 = unc.filter(|e: models::LogEntry| e.slot > committed);
    let ts1 = if advanced && has_slot(log, nc) {
        advanced_t_safe(ctx.t_safe, entry_at(log, nc).timestamp)
    } else {
        ctx.t_safe
    };
    let ts2 = match req.min_next_ts {
        Some(m) => if committed >= req.leader_commit_slot && m > i64::MIN {
            advanced_t_safe(ts1, (m - 1) as i64)
        } else {
            ts1
        },
        None => ts1,
    };
    ContextView {
        wal: log,
        uncommitted: unc2,
        last_log_term: if log.len() > 0 { log.last().term } else { ctx.last_log_term },
        last_log_slot: if log.len() > 0 { log.last().slot } else { ctx.last_log_slot },
        committed_slot: committed,
        t_safe: ts2,
        ..ctx
    }
}

/// What a follower does with an accept request at `now`: the context afterwards and the
/// reply, or `None` where a slot would overflow.
///
/// A request from an older term is answered with a failure and changes nothing. Otherwise
/// the anchor is checked: a missing anchor slot is reported with conflict term 0 and the
/// first slot after this log's last; an anchor slot with another term is reported with
/// that term and the first slot where it begins; a matching anchor applies the request.
/// In all three cases the leader lease is extended.
pub open spec fn follower_accept_step(ctx: ContextView, req: AcceptRequest, now: TimeInterval) -> Option<(ContextView, AcceptResponse)> {
    let fail = AcceptResponse {
        member_id: ctx.member_id,
        term: ctx.term,
        success: false,
        last_written_slot: 0,
        conflict_hint: None,
        echoed_t_send: req.t_send,
    };
    let prev = req.prev_log_slot;
    let lease = Some((now.latest + LEASE_LENGTH_MICROS) as i64);
    if req.term < ctx.term {
        Some((ctx, fail))
    } else if prev > 0 && !has_slot(ctx.wal, prev) {
        if ctx.last_log_slot == u32::MAX {
            None
        } else {
            Some(
                (
                    ContextView { lease_expiry: lease, ..ctx },
                    AcceptResponse {
                        conflict_hint: Some(
                            ConflictHint {
                                conflict_term: 0,
                                conflict_first_slot: (ctx.last_log_slot + 1) as u32,
                            },
                        ),
                        ..fail
                    },
                ),
            )
        }
    } else if prev > 0 && entry_at(ctx.wal, prev).term != req.prev_log_term {
        let local_term = entry_at(ctx.wal, prev).term;
        Some(
            (
                ContextView { lease_expiry: lease, ..ctx },
                AcceptResponse {
                    conflict_hint: Some(
                        ConflictHint {
                            conflict_term: local_term,
                            conflict_first_slot: lowest_slot_for_term(ctx.wal, local_term),
                        },
                    ),
                    ..fail
                },
            ),
        )
    } else {
        Some(
            (
                ContextView { lease_expiry: lease, ..accepted_ctx(ctx, req) },
                AcceptResponse { success: true, last_written_slot: last_written_slot(req), ..fail },
            ),
        )
    }
}

/// The leader a follower learns from a response of another member: one that the responder
/// reports with a term at or above this member's term, while the lease is expired.
pub open spec fn learned_leader(current: Option<MemberId>, reported: Option<MemberId>, reported_term: u32, ctx: ContextView, lease_expired: bool) -> Option<MemberId> {
    if lease_expired && reported is Some && reported_term >= ctx.term {
        reported
    } else {
        current
    }
}

impl Follower {
    /// The vote this follower granted, as (term, candidate).
    pub open spec fn prior_vote(&self) -> Option<(u32, MemberId)> {
        match self.vote_record {
            Some(r) => Some((r.term, r.candidate_id)),
            None => None,
        }
    }

    /// A follower of `current_leader_id` that has not voted.
    pub fn new(current_leader_id: Option<MemberId>) -> (r: Self)
        ensures
            r.current_leader_id == current_leader_id,
            r.vote_record is None,
    {
        Follower { current_leader_id, vote_record: None }
    }

    pub fn get_current_leader_id(&self) -> (r: Option<MemberId>)
        ensures
            r == self.current_leader_id,
    {
        self.current_leader_id
    }

    pub fn update_current_leader_id(&mut self, leader_id: MemberId)
        ensures
            final(self).current_leader_id == Some(leader_id),
            final(self).vote_record == old(self).vote_record,
    {
        self.current_leader_id = Some(leader_id);
    }

    /// Answers a pre-vote request: granted only once the leader lease has expired, for a
    /// proposed term above this member's term, from a pre-candidate whose log is not behind.
    pub fn handle_pre_vote_request(&self, request: &PreVoteRequest, ctx: &PaxosSharedContext, now: &TimeInterval) -> (r: PreVoteResponse)
        ensures
            r == pre_vote_response_of(ctx@, ctx@.lease_expired_at(*now), self.current_leader_id, *request),
    {
        let expired = ctx.is_leader_lease_expired_at(now);
        answer_pre_vote(request, ctx, expired, self.current_leader_id)
    }

    /// Answers a vote request. A granted vote is recorded, extends the leader lease (no
    /// other election until it expires) and carries this member's log position and
    /// uncommitted entries.
    pub fn handle_vote_request(&mut self, request: &VoteRequest, ctx: &mut PaxosSharedContext, now: &TimeInterval) -> (r: VoteResponse)
        requires
            old(ctx).wf(),
            now.wf(),
        ensures
            final(ctx).wf(),
            r.member_id == old(ctx)@.member_id,
            r.term == old(ctx)@.term,
            final(self).current_leader_id == old(self).current_leader_id,
            match vote_refusal(old(ctx)@, old(ctx)@.lease_expired_at(*now), old(self).current_leader_id, old(self).prior_vote(), *request) {
                Some(rejection) => {
                    &&& r.outcome == VoteOutcome::Rejection(rejection)
                    &&& final(self).vote_record == old(self).vote_record
                    &&& final(ctx)@ == old(ctx)@
                },
                None => {
                    &&& r.outcome matches VoteOutcome::Promise(p) && p.last_log_term == old(ctx)@.last_log_term
                        && p.last_log_slot == old(ctx)@.last_log_slot
                        && p.uncommitted_entries@ == old(ctx)@.uncommitted
                    &&& final(self).vote_record == Some(VoteRecord { term: request.term, candidate_id: request.member_id })
                    &&& final(ctx)@ == (ContextView {
                        lease_expiry: Some((now.latest + LEASE_LENGTH_MICROS) as i64),
                        ..old(ctx)@
                    })
                },
            },
    {
        let current_term = ctx.get_current_term();
        let current_member_id = ctx.get_current_member_id();
        let expired = ctx.is_leader_lease_expired_at(now);
        let prior = match self.vote_record {
            Some(record) => Some((record.term, record.candidate_id)),
            None => None,
        };
        match decide_vote(request, ctx, expired, self.current_leader_id, prior) {
            Some(rejection) => VoteResponse {
                member_id: current_member_id,
                term: current_term,
                outcome: VoteOutcome::Rejection(rejection),
            },
            None => {
                let last_log_term = ctx.get_last_log_term();
                let last_log_slot = ctx.get_last_log_slot();
                // Record the vote to prevent double-voting within the same term
                self.vote_record = Some(VoteRecord { term: request.term, candidate_id: request.member_id });
                let uncommitted_entries = ctx.uncommitted_values();
                // Treat the vote as a leader lease: block new elections until it expires
                ctx.extend_leader_lease_expiry_time_at(now);
                VoteResponse {
                    member_id: current_member_id,
                    term: current_term,
                    outcome: VoteOutcome::Promise(
                        VotePromise { last_log_term, last_log_slot, uncommitted_entries },
                    ),
                }
            },
        }
    }

    /// Learns the leader that a pre-vote response reports, once the lease has expired.
    pub fn handle_pre_vote_response(&mut self, response: &PreVoteResponse, ctx: &PaxosSharedContext, now: &TimeInterval)
        ensures
            final(self).vote_record == old(self).vote_record,
            final(self).current_leader_id == learned_leader(
                old(self).current_leader_id,
                response.current_leader_id,
                response.term,
                ctx@,
                ctx@.lease_expired_at(*now),
            ),
    {
        if !ctx.is_leader_lease_expired_at(now) {
            return;
        }
        let current_term = ctx.get_current_term();
        let leader = response.try_get_leader(
            |received_term: u32| -> (accepted: bool) ensures accepted == (received_term >= current_term) { received_term >= current_term },
        );
        if let Some(leader_id) = leader {
            self.update_current_leader_id(leader_id);
        }
    }

    /// Learns the leader that a vote rejection reports, once the lease has expired.
    pub fn handle_vote_response(&mut self, response: &VoteResponse, ctx: &PaxosSharedContext, now: &TimeInterval)
        ensures
            final(self).vote_record == old(self).vote_record,
            final(self).current_leader_id == learned_leader(
                old(self).current_leader_id,
                response.reported_leader(),
                response.term,
                ctx@,
                ctx@.lease_expired_at(*now),
            ),
    {
        if !ctx.is_leader_lease_expired_at(now) {
            return;
        }
        let current_term = ctx.get_current_term();
        let leader = response.try_get_leader(
            |received_term: u32| -> (accepted: bool) ensures accepted == (received_term >= current_term) { received_term >= current_term },
        );
        if let Some(leader_id) = leader {
            self.update_current_leader_id(leader_id);
        }
    }

    /// Applies an accept request from the leader and answers it (see
    /// `follower_accept_step`); the sender becomes the known leader unless its term is old.
    pub fn handle_accept_request(&mut self, request: &AcceptRequest, ctx: &mut PaxosSharedContext, now: &TimeInterval) -> (r: Result<AcceptResponse, PaxosError>)
        requires
            old(ctx).wf(),
            now.wf(),
        ensures
            final(self).vote_record == old(self).vote_record,
            match follower_accept_step(old(ctx)@, *request, *now) {
                None => r == Err::<AcceptResponse, PaxosError>(PaxosError::ArithmeticOverflow) && final(ctx)@ == old(ctx)@
                    && final(ctx).wf(),
                Some((c, resp)) => {
                    &&& r == Ok::<AcceptResponse, PaxosError>(resp)
                    &&& final(ctx)@ == c
                    &&& final(ctx).wf()
                    &&& final(self).current_leader_id == if request.term < old(ctx)@.term {
                        old(self).current_leader_id
                    } else {
                        Some(request.leader_id)
                    }
                },
            },
    {
        let current_term = ctx.get_current_term();
        let current_member_id = ctx.get_current_member_id();
        let t_send = request.t_send;

        // Ignore stale requests from leaders of an older term
        if request.term < current_term {
            return Ok(
                AcceptResponse {
                    member_id: current_member_id,
                    term: current_term,
                    success: false,
                    last_written_slot: 0,
                    conflict_hint: None,
                    echoed_t_send: t_send,
                },
            );
        }

        // Track the current leader from every accept request
        self.update_current_leader_id(request.leader_id);

        let prev_log_slot = request.prev_log_slot;
        let ghost c0 = ctx@;
        let anchor_term = if prev_log_slot > 0 {
            ctx.get_wal().get_term(prev_log_slot)
        } else {
            None
        };
        let response = if prev_log_slot > 0 && anchor_term.is_none() {
            // Short log: this member does not have the anchor slot
            let last = ctx.get_last_log_slot();
            if last == u32::MAX {
                return Err(PaxosError::ArithmeticOverflow);
            }
            AcceptResponse {
                member_id: current_member_id,
                term: current_term,
                success: false,
                last_written_slot: 0,
                conflict_hint: Some(
                    ConflictHint {
                        // conflict term 0 tells the leader this log is simply too short
                        conflict_term: 0,
                        // the first slot this member is missing
                        conflict_first_slot: last + 1,
                    },
                ),
                echoed_t_send: t_send,
            }
        } else if prev_log_slot > 0 && anchor_term.unwrap() != request.prev_log_term {
            // Term mismatch at the anchor slot
            let local_term = anchor_term.unwrap();
            let first = ctx.get_wal().find_lowest_slot_for_term(local_term);
            proof {
                let i = choose|i: int| 0 <= i < c0.wal.len() && c0.wal[i].slot == prev_log_slot;
                crate::slot_log::lemma_entry_at_index(c0.wal, i);
            }
            let conflict_first_slot = first.unwrap();
            proof {
                lemma_lowest_unique(c0.wal, local_term, conflict_first_slot);
            }
            AcceptResponse {
                member_id: current_member_id,
                term: current_term,
                success: false,
                last_written_slot: 0,
                conflict_hint: Some(
                    ConflictHint {
                        conflict_term: local_term,
                        // the first slot of the conflicting term, so the leader can skip it whole
                        conflict_first_slot,
                    },
                ),
                echoed_t_send: t_send,
            }
        } else {
            // Anchor matches: drop conflicting entries and store the new ones
            let last_written_slot = self.apply_entries(request, ctx);
            AcceptResponse {
                member_id: current_member_id,
                term: current_term,
                success: true,
                last_written_slot,
                conflict_hint: None,
                echoed_t_send: t_send,
            }
        };

        // Extend the leader lease on every accept request from the current term
        ctx.extend_leader_lease_expiry_time_at(now);
        Ok(response)
    }

    /// Applies the entries of a request whose anchor matches; returns the last slot written.
    fn apply_entries(&self, request: &AcceptRequest, ctx: &mut PaxosSharedContext) -> (r: u32)
        requires
            old(ctx).wf(),
        ensures
            final(ctx).wf(),
            final(ctx)@ == accepted_ctx(old(ctx)@, *request),
            r == last_written_slot(*request),
    {
        let ghost c0 = ctx@;
        let prev_log_slot = request.prev_log_slot;
        let n = request.entries.len();
        // The lowest slot where an entry conflicts with the log as it stands
        let mut cut: Option<u32> = None;
        let mut i: usize = 0;
        while i < n
            invariant
                n == request.entries@.len(),
                0 <= i <= n,
                ctx.wf(),
                ctx@ == c0,
                cut == first_conflict(c0.wal, request.entries@.take(i as int)),
            decreases n - i,
        {
            let log_entry = &request.entries[i];
            proof {
                assert(request.entries@.take(i + 1).drop_last() == request.entries@.take(i as int));
                assert(request.entries@.take(i + 1).last() == request.entries@[i as int]);
            }
            if let Some(term) = ctx.get_wal().get_term(log_entry.slot) {
                if term != log_entry.term {
                    cut = match cut {
                        Some(s) => if log_entry.slot < s { Some(log_entry.slot) } else { Some(s) },
                        None => Some(log_entry.slot),
                    };
                }
            }
            i = i + 1;
        }
        proof {
            assert(request.entries@.take(n as int) == request.entries@);
        }
        // Drop the log, and the uncommitted entries, from there on
        if let Some(slot) = cut {
            ctx.wal_truncate_from(slot);
            ctx.truncate_uncommitted_from(slot);
        }
        let ghost base = ctx@;
        // Store every entry at its slot
        let mut last_written_slot = prev_log_slot;
        let mut i: usize = 0;
        while i < n
            invariant
                n == request.entries@.len(),
                0 <= i <= n,
                ctx.wf(),
                ctx@.wal == stored_in_log(base.wal, request.entries@.take(i as int)),
                ctx@.uncommitted == stored_uncommitted(base.uncommitted, request.entries@.take(i as int)),
                ctx@ == (ContextView { wal: ctx@.wal, uncommitted: ctx@.uncommitted, ..c0 }),
                base.wal == (match first_conflict(c0.wal, request.entries@) {
                    Some(c) => c0.wal.filter(|x: wal::LogEntry| x.slot < c),
                    None => c0.wal,
                }),
                base.uncommitted == (match first_conflict(c0.wal, request.entries@) {
                    Some(c) => c0.uncommitted.filter(|x: models::LogEntry| x.slot < c),
                    None => c0.uncommitted,
                }),
                last_written_slot == if i == 0 { prev_log_slot } else { request.entries@[i - 1].slot },
            decreases n - i,
        {
            let log_entry = &request.entries[i];
            proof {
                assert(request.entries@.take(i + 1).drop_last() == request.entries@.take(i as int));
                assert(request.entries@.take(i + 1).last() == request.entries@[i as int]);
            }
            ctx.wal_append(
                wal::LogEntry {
                    term: log_entry.term,
                    slot: log_entry.slot,
                    entry: log_entry.entry.clone(),
                    timestamp: log_entry.timestamp,
                },
            );
            ctx.insert_uncommitted(
                models::LogEntry { term: log_entry.term, slot: log_entry.slot, entry: log_entry.entry.clone() },
            );
            last_written_slot = log_entry.slot;
            i = i + 1;
        }
        proof {
            assert(request.entries@.take(n as int) == request.entries@);
        }
        // The last log position names the log's last entry
        if let Some((last_slot, last_term)) = ctx.get_wal().last_position() {
            ctx.set_last_log_slot(last_slot);
            ctx.set_last_log_term(last_term);
        }
        // Advance the committed slot and evict entries that are now committed
        let leader_commit = request.leader_commit_slot;
        let new_committed_slot = if leader_commit < last_written_slot { leader_commit } else { last_written_slot };
        if new_committed_slot > ctx.get_committed_slot() {
            ctx.set_committed_slot(new_committed_slot);
            // The newly committed entry's timestamp becomes the safe-read time
            let committed_ts = match ctx.get_wal().get(new_committed_slot) {
                Some(e) => Some(e.timestamp),
                None => None,
            };
            if let Some(ts) = committed_ts {
                ctx.advance_t_safe(ts);
            }
        }
        // Only entries above the committed slot stay uncommitted
        let committed = ctx.get_committed_slot();
        ctx.retain_uncommitted_after(committed);
        // A caught-up member may serve reads up to just before the leader's MinNextTS
        if let Some(min_next_ts) = request.min_next_ts {
            if ctx.get_committed_slot() >= leader_commit && min_next_ts > i64::MIN {
                ctx.advance_t_safe(min_next_ts - 1);
            }
        }
        last_written_slot
    }

    /// Handles one event as a follower; returns the next state and adds the runtime's work
    /// to `actions`.
    pub fn handle_event(self, event: PaxosEvent, ctx: &mut PaxosSharedContext, now: &TimeInterval, actions: &mut Vec<PaxosAction>) -> (r: Result<PaxosState, PaxosError>)
        requires
            old(ctx).wf(),
            now.wf(),
        ensures
            r is Ok ==> final(ctx).wf(),
            r is Ok ==> final(ctx)@.term == old(ctx)@.term,
            r is Ok ==> final(ctx)@.committed_slot >= old(ctx)@.committed_slot,
            follower_event_effect(self, old(ctx)@, event, *now, r, final(ctx)@, old(actions)@, final(actions)@),
    {
        let ghost c0 = ctx@;
        let ghost a0 = actions@;
        let mut this = self;
        match event {
            PaxosEvent::PreVoteCampaignExpired
            | PaxosEvent::VoteCampaignExpired
            | PaxosEvent::WriteFlushTimerFired
            | PaxosEvent::AcceptTimeoutCheckFired
            | PaxosEvent::HeartbeatTimerFired
            | PaxosEvent::AcceptResponseReceived(_) => {
                // Not campaigning and not leading: nothing to do
                Ok(PaxosState::Follower(this))
            },
            PaxosEvent::LeaderLeaseExpired => {
                actions.push(PaxosAction::StartElectionCountdown { max_ms: ELECTION_COUNTDOWN_MAX_MS });
                Ok(PaxosState::Follower(this))
            },
            PaxosEvent::ElectionCountdownExpired => {
                // Do not campaign while the leader lease is still active
                if !ctx.is_leader_lease_expired_at(now) {
                    return Ok(PaxosState::Follower(this));
                }
                if ctx.get_current_term() == u32::MAX {
                    return Err(PaxosError::ArithmeticOverflow);
                }
                let pre_candidate = PreCandidate::new(ctx);
                actions.push(PaxosAction::RoleEnded);
                pre_candidate.dispatch_pre_vote(ctx, actions);
                Ok(PaxosState::PreCandidate(pre_candidate))
            },
            PaxosEvent::PreVoteRequestReceived(request) => {
                let response = this.handle_pre_vote_request(&request, ctx, now);
                actions.push(PaxosAction::ReplyPreVote(response));
                Ok(PaxosState::Follower(this))
            },
            PaxosEvent::PreVoteResponseReceived(response) => {
                this.handle_pre_vote_response(&response, ctx, now);
                Ok(PaxosState::Follower(this))
            },
            PaxosEvent::VoteRequestReceived(request) => {
                let response = this.handle_vote_request(&request, ctx, now);
                actions.push(PaxosAction::ReplyVote(response));
                proof {
                    assert(actions@.take(a0.len() as int) =~= a0);
                }
                Ok(PaxosState::Follower(this))
            },
            PaxosEvent::VoteResponseReceived(response) => {
                this.handle_vote_response(&response, ctx, now);
                Ok(PaxosState::Follower(this))
            },
            PaxosEvent::AcceptRequestReceived(request) => {
                let response = this.handle_accept_request(&request, ctx, now)?;
                actions.push(PaxosAction::ReplyAccept(response));
                Ok(PaxosState::Follower(this))
            },
            PaxosEvent::ClientWriteRequestReceived(_) => {
                match this.current_leader_id {
                    // Forward the write to the known leader
                    Some(leader_id) => actions.push(PaxosAction::ForwardClientWrite(leader_id)),
                    None => actions.push(PaxosAction::ReplyClientWrite(not_the_leader())),
                }
                proof {
                    assert(actions@.take(a0.len() as int) =~= a0);
                }
                Ok(PaxosState::Follower(this))
            },
        }
    }
}

/// The answer to a client write sent to a member that is not the leader.
pub fn not_the_leader() -> (r: ClientWriteResponse)
    ensures
        r.success == false,
        r.error matches Some(message) && message@ == "not the leader"@,
{
    ClientWriteResponse { success: false, error: Some(String::from_str("not the leader")) }
}

/// What `Follower::handle_event` does with each event.
pub open spec fn follower_event_effect(
    f: Follower,
    ctx: ContextView,
    event: PaxosEvent,
    now: TimeInterval,
    r: Result<PaxosState, PaxosError>,
    ctx2: ContextView,
    acts: Seq<PaxosAction>,
    acts2: Seq<PaxosAction>,
) -> bool {
    let expired = ctx.lease_expired_at(now);
    let unchanged = r == Ok::<PaxosState, PaxosError>(PaxosState::Follower(f)) && ctx2 == ctx && acts2 == acts;
    match event {
        PaxosEvent::LeaderLeaseExpired => r == Ok::<PaxosState, PaxosError>(PaxosState::Follower(f)) && ctx2 == ctx
            && acts2 == acts.push(PaxosAction::StartElectionCountdown { max_ms: ELECTION_COUNTDOWN_MAX_MS }),
        PaxosEvent::ElectionCountdownExpired => if !expired {
            unchanged
        } else if ctx.term == u32::MAX {
            r == Err::<PaxosState, PaxosError>(PaxosError::ArithmeticOverflow)
        } else {
            &&& r matches Ok(PaxosState::PreCandidate(p)) && p.fresh(ctx)
            &&& ctx2 == ctx
            &&& acts2 == acts.push(PaxosAction::RoleEnded).push(
                PaxosAction::DispatchPreVoteRequest(PreCandidate::pre_vote_of(ctx)),
            ).push(PaxosAction::StartPreVoteCountdown { ms: crate::roles::precandidate::PRE_VOTE_CAMPAIGN_MS })
        },
        PaxosEvent::PreVoteRequestReceived(req) => r == Ok::<PaxosState, PaxosError>(PaxosState::Follower(f)) && ctx2 == ctx
            && acts2 == acts.push(PaxosAction::ReplyPreVote(pre_vote_response_of(ctx, expired, f.current_leader_id, req))),
        PaxosEvent::PreVoteResponseReceived(resp) => r == Ok::<PaxosState, PaxosError>(PaxosState::Follower(
            Follower {
                current_leader_id: learned_leader(f.current_leader_id, resp.current_leader_id, resp.term, ctx, expired),
                ..f
            },
        )) && ctx2 == ctx && acts2 == acts,
        PaxosEvent::VoteResponseReceived(resp) => r == Ok::<PaxosState, PaxosError>(PaxosState::Follower(
            Follower {
                current_leader_id: learned_leader(f.current_leader_id, resp.reported_leader(), resp.term, ctx, expired),
                ..f
            },
        )) && ctx2 == ctx && acts2 == acts,
        PaxosEvent::VoteRequestReceived(req) => {
            &&& acts2.len() == acts.len() + 1
            &&& acts2.take(acts.len() as int) == acts
            &&& acts2.last() matches PaxosAction::ReplyVote(resp) && resp.term == ctx.term && resp.member_id == ctx.member_id
                && match vote_refusal(ctx, expired, f.current_leader_id, f.prior_vote(), req) {
                Some(rejection) => resp.outcome == VoteOutcome::Rejection(rejection) && ctx2 == ctx
                    && r == Ok::<PaxosState, PaxosError>(PaxosState::Follower(f)),
                None => resp.outcome matches VoteOutcome::Promise(p) && p.last_log_term == ctx.last_log_term
                    && p.last_log_slot == ctx.last_log_slot && p.uncommitted_entries@ == ctx.uncommitted
                    && ctx2 == (ContextView { lease_expiry: Some((now.latest + LEASE_LENGTH_MICROS) as i64), ..ctx })
                    && r == Ok::<PaxosState, PaxosError>(PaxosState::Follower(
                    Follower { vote_record: Some(VoteRecord { term: req.term, candidate_id: req.member_id }), ..f },
                )),
            }
        },
        PaxosEvent::AcceptRequestReceived(req) => match follower_accept_step(ctx, req, now) {
            None => r == Err::<PaxosState, PaxosError>(PaxosError::ArithmeticOverflow) && ctx2 == ctx,
            Some((c, resp)) => {
                &&& ctx2 == c
                &&& acts2 == acts.push(PaxosAction::ReplyAccept(resp))
                &&& r == Ok::<PaxosState, PaxosError>(PaxosState::Follower(
                    Follower {
                        current_leader_id: if req.term < ctx.term { f.current_leader_id } else { Some(req.leader_id) },
                        ..f
                    },
                ))
            },
        },
        PaxosEvent::ClientWriteRequestReceived(_) => {
            &&& r == Ok::<PaxosState, PaxosError>(PaxosState::Follower(f))
            &&& ctx2 == ctx
            &&& acts2.len() == acts.len() + 1
            &&& acts2.take(acts.len() as int) == acts
            &&& match f.current_leader_id {
                Some(leader_id) => acts2.last() == PaxosAction::ForwardClientWrite(leader_id),
                None => acts2.last() matches PaxosAction::ReplyClientWrite(resp) && !resp.success && resp.error is Some,
            }
        },
        _ => unchanged,
    }
}

/// The lowest slot of a term is unique.
pub proof fn lemma_lowest_unique(log: Seq<wal::LogEntry>, term: u32, slot: u32)
    requires
        is_lowest_slot_for_term(log, term, slot),
    ensures
        lowest_slot_for_term(log, term) == slot,
{
    let other = lowest_slot_for_term(log, term);
    assert(is_lowest_slot_for_term(log, term, other));
    let i = choose|i: int| 0 <= i < log.len() && log[i].term == term && log[i].slot == slot;
    let j = choose|j: int| 0 <= j < log.len() && log[j].term == term && log[j].slot == other;
    assert(other <= log[i].slot);
    assert(slot <= log[j].slot);
}

} // verus!
