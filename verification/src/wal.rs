//! The write-ahead log: log entries keyed by slot, kept in slot order.
use crate::slot_log::{
    has_slot, has_term, insert_sorted, is_highest_slot_for_term, is_lowest_slot_for_term, slot_map,
    slots_increasing, SlotEntry, SlotLog,
};
use vstd::prelude::*;

verus! {

/// One entry of the write-ahead log.
pub struct LogEntry {
    /// The Paxos term in which this entry was proposed.
    pub term: u32,
    /// The position of this entry in the append-only log.
    pub slot: u32,
    /// The database command or mutation carried by this entry.
    pub entry: String,
    /// The TrueTime latest bound (microseconds) at which the entry was written to the
    /// leader's log; used by commit wait.
    pub timestamp: i64,
}

impl Clone for LogEntry {
    fn clone(&self) -> (r: Self)
        ensures
            r == *self,
    {
        LogEntry {
            term: self.term,
            slot: self.slot,
            entry: self.entry.clone(),
            timestamp: self.timestamp,
        }
    }
}

impl SlotEntry for LogEntry {
    open spec fn slot_of(&self) -> u32 {
        self.slot
    }

    open spec fn term_of(&self) -> u32 {
        self.term
    }

    fn slot(&self) -> (r: u32) {
        self.slot
    }

    fn term(&self) -> (r: u32) {
        self.term
    }

    fn duplicate(&self) -> (r: Self) {
        self.clone()
    }
}

/// A read after an append: the appended entry's slot reads back that entry, and every
/// other slot reads as it did before.
pub proof fn lemma_read_after_append(before: WriteAheadLog, after: WriteAheadLog, entry: LogEntry, slot: u32)
    requires
        after.as_map() == before.as_map().insert(entry.slot, entry),
    ensures
        after.as_map().contains_key(entry.slot),
        after.as_map()[entry.slot] == entry,
        slot != entry.slot ==> after.as_map().contains_key(slot) == before.as_map().contains_key(slot),
        slot != entry.slot && before.as_map().contains_key(slot) ==> after.as_map()[slot] == before.as_map()[slot],
{
}

/// A truncation keeps the prefix: after truncating at `starting_slot`, a slot holds an
/// entry exactly when it lies below `starting_slot` and held one before, and that entry is
/// unchanged.
pub proof fn lemma_truncate_keeps_prefix(before: Seq<LogEntry>, starting_slot: u32, slot: u32)
    requires
        slots_increasing(before),
    ensures
        slot_map(before.filter(|e: LogEntry| e.slot < starting_slot)).contains_key(slot) == (slot < starting_slot
            && slot_map(before).contains_key(slot)),
        slot_map(before.filter(|e: LogEntry| e.slot < starting_slot)).contains_key(slot) ==> slot_map(
            before.filter(|e: LogEntry| e.slot < starting_slot),
        )[slot] == slot_map(before)[slot],
{
    broadcast use vstd::seq_lib::group_filter_ensures;

    let pred = |e: LogEntry| e.slot < starting_slot;
    let after = before.filter(pred);
    assert(slots_increasing(after)) by {
        assert forall|a: int, b: int| 0 <= a < b < after.len() implies after[a].slot_of() < after[b].slot_of() by {
            crate::slot_log::lemma_filter_sub_increasing(before, pred, a, b);
        }
    }
    if has_slot(after, slot) {
        let j = choose|j: int| 0 <= j < after.len() && after[j].slot_of() == slot;
        assert(after.contains(after[j]));
        before.lemma_filter_contains_rev(pred, after[j]);
        let k = choose|k: int| 0 <= k < before.len() && before[k] == after[j];
        crate::slot_log::lemma_entry_at_index(after, j);
        crate::slot_log::lemma_entry_at_index(before, k);
    }
    if slot < starting_slot && has_slot(before, slot) {
        let k = choose|k: int| 0 <= k < before.len() && before[k].slot_of() == slot;
        assert(after.contains(before[k]));
        let j = choose|j: int| 0 <= j < after.len() && after[j] == before[k];
        assert(after[j].slot_of() == slot);
    }
}

/// A truncation clears the tail for good: after truncating at `starting_slot`, reading the
/// entries from `starting_slot` on gives none, and truncating there again changes nothing.
pub proof fn lemma_truncate_clears_tail(before: Seq<LogEntry>, starting_slot: u32)
    ensures
        before.filter(|e: LogEntry| e.slot < starting_slot).filter(|e: LogEntry| e.slot >= starting_slot).len() == 0,
        before.filter(|e: LogEntry| e.slot < starting_slot).filter(|e: LogEntry| e.slot < starting_slot)
            == before.filter(|e: LogEntry| e.slot < starting_slot),
{
    broadcast use vstd::seq_lib::group_filter_ensures;

    let below = |e: LogEntry| e.slot < starting_slot;
    let from = |e: LogEntry| e.slot >= starting_slot;
    let after = before.filter(below);
    assert forall|i: int| 0 <= i < after.len() implies below(#[trigger] after[i]) by {}
    after.lemma_all_neg_filter_empty(from);
    crate::slot_log::lemma_filter_is_prefix(after, below, after.len() as int);
    assert(after.take(after.len() as int) =~= after);
}

/// A write-ahead log of entries kept in strictly increasing slot order.
pub struct WriteAheadLog {
    entries: SlotLog<LogEntry>,
}

impl View for WriteAheadLog {
    type V = Seq<LogEntry>;

    closed spec fn view(&self) -> Seq<LogEntry> {
        self.entries@
    }
}

impl WriteAheadLog {
    /// The log is kept in strictly increasing slot order.
    pub closed spec fn wf(&self) -> bool {
        self.entries.wf()
    }

    /// The log as a map from slot to entry.
    pub open spec fn as_map(&self) -> Map<u32, LogEntry> {
        slot_map(self@)
    }

    /// A well-formed log is in slot order.
    pub proof fn lemma_wf(&self)
        ensures
            self.wf() <==> slots_increasing(self@),
    {
    }

    /// An empty log.
    pub fn new() -> (r: Self)
        ensures
            r.wf(),
            r@ == Seq::<LogEntry>::empty(),
    {
        WriteAheadLog { entries: SlotLog::new() }
    }

    /// The number of entries.
    pub fn len(&self) -> (r: usize)
        ensures
            r == self@.len(),
    {
        self.entries.len()
    }

    /// Stores `entry` at its slot, replacing any entry already there.
    pub fn append(&mut self, entry: LogEntry)
        requires
            old(self).wf(),
        ensures
            final(self).wf(),
            final(self)@ == insert_sorted(old(self)@, entry),
            final(self).as_map() == old(self).as_map().insert(entry.slot, entry),
    {
        self.entries.insert(entry);
    }

    /// The slot and term of the last entry, if the log holds any.
    pub fn last_position(&self) -> (r: Option<(u32, u32)>)
        ensures
            r == (if self@.len() == 0 {
                None::<(u32, u32)>
            } else {
                Some((self@.last().slot, self@.last().term))
            }),
    {
        let n = self.entries.len();
        if n == 0 {
            None
        } else {
            let last = self.entries.at(n - 1);
            Some((last.slot, last.term))
        }
    }

    /// True if the log holds an entry at `slot`.
    pub fn has_entry(&self, slot: u32) -> (r: bool)
        requires
            self.wf(),
        ensures
            r == self.as_map().contains_key(slot),
    {
        self.entries.get(slot).is_some()
    }

    /// The term of the entry at `slot`, if there is one.
    pub fn get_term(&self, slot: u32) -> (r: Option<u32>)
        requires
            self.wf(),
        ensures
            r == (if self.as_map().contains_key(slot) {
                Some(self.as_map()[slot].term)
            } else {
                None::<u32>
            }),
    {
        match self.entries.get(slot) {
            Some(e) => Some(e.term),
            None => None,
        }
    }

    /// The entry at `slot`, if there is one.
    pub fn get(&self, slot: u32) -> (r: Option<&LogEntry>)
        requires
            self.wf(),
        ensures
            r == (if self.as_map().contains_key(slot) {
                Some(&self.as_map()[slot])
            } else {
                None::<&LogEntry>
            }),
    {
        self.entries.get(slot)
    }

    /// Copies of all entries at or after `from_slot`, in slot order.
    pub fn get_entries_from(&self, from_slot: u32) -> (r: Vec<LogEntry>)
        requires
            self.wf(),
        ensures
            r@ == self@.filter(|e: LogEntry| e.slot >= from_slot),
    {
        let r = self.entries.entries_from(from_slot);
        assert((|e: LogEntry| e.slot_of() >= from_slot) == (|e: LogEntry| e.slot >= from_slot));
        r
    }

    /// Removes every entry at or after `starting_slot`.
    pub fn truncate_from(&mut self, starting_slot: u32)
        requires
            old(self).wf(),
        ensures
            final(self).wf(),
            final(self)@ == old(self)@.filter(|e: LogEntry| e.slot < starting_slot),
    {
        self.entries.truncate_from(starting_slot);
        assert((|e: LogEntry| e.slot_of() < starting_slot) == (|e: LogEntry| e.slot < starting_slot));
    }

    /// The highest slot holding an entry of `term`, if any.
    pub fn find_highest_slot_for_term(&self, term: u32) -> (r: Option<u32>)
        ensures
            match r {
                Some(slot) => is_highest_slot_for_term(self@, term, slot),
                None => !has_term(self@, term),
            },
    {
        let n = self.entries.len();
        let mut best: Option<u32> = None;
        let mut i: usize = 0;
        while i < n
            invariant
                n == self@.len(),
                0 <= i <= n,
                match best {
                    Some(slot) => is_highest_slot_for_term(self@.take(i as int), term, slot),
                    None => !has_term(self@.take(i as int), term),
                },
            decreases n - i,
        {
            let ghost pre = self@.take(i as int);
            let ghost post = self@.take(i + 1);
            assert(forall|j: int| 0 <= j < i ==> pre[j] == post[j]);
            assert(post[i as int] == self@[i as int]);
            let e = self.entries.at(i);
            if e.term == term {
                let s = e.slot;
                match best {
                    Some(b) => {
                        if s > b {
                            best = Some(s);
                        }
                    },
                    None => {
                        best = Some(s);
                    },
                }
            }
            i = i + 1;
        }
        assert(self@.take(n as int) == self@);
        best
    }

    /// The lowest slot holding an entry of `term`, if any. Followers report it as the first
    /// slot where a conflicting term begins.
    pub fn find_lowest_slot_for_term(&self, term: u32) -> (r: Option<u32>)
        ensures
            match r {
                Some(slot) => is_lowest_slot_for_term(self@, term, slot),
                None => !has_term(self@, term),
            },
    {
        let n = self.entries.len();
        let mut best: Option<u32> = None;
        let mut i: usize = 0;
        while i < n
            invariant
                n == self@.len(),
                0 <= i <= n,
                match best {
                    Some(slot) => is_lowest_slot_for_term(self@.take(i as int), term, slot),
                    None => !has_term(self@.take(i as int), term),
                },
            decreases n - i,
        {
            let ghost pre = self@.take(i as int);
            let ghost post = self@.take(i + 1);
            assert(forall|j: int| 0 <= j < i ==> pre[j] == post[j]);
            assert(post[i as int] == self@[i as int]);
            let e = self.entries.at(i);
            if e.term == term {
                let s = e.slot;
                match best {
                    Some(b) => {
                        if s < b {
                            best = Some(s);
                        }
                    },
                    None => {
                        best = Some(s);
                    },
                }
            }
            i = i + 1;
        }
        assert(self@.take(n as int) == self@);
        best
    }

    /// The highest anchor where a leader's log can align with this log: the greatest term
    /// at or below `term` that has entries, with the highest slot of that term.
    pub fn find_highest_anchor(&self, term: u32) -> (r: Option<(u32, u32)>)
        ensures
            match r {
                Some((t, slot)) => {
                    &&& t <= term
                    &&& is_highest_slot_for_term(self@, t, slot)
                    &&& forall|t2: u32| t < t2 <= term ==> !has_term(self@, t2)
                },
                None => forall|t2: u32| t2 <= term ==> !has_term(self@, t2),
            },
    {
        let mut current_term = term;
        loop
            invariant
                current_term <= term,
                forall|t2: u32| current_term < t2 <= term ==> !has_term(self@, t2),
            decreases current_term,
        {
            let highest_slot = self.find_highest_slot_for_term(current_term);
            if let Some(slot) = highest_slot {
                return Some((current_term, slot));
            }
            if current_term == 0 {
                return None;
            }
            current_term = current_term - 1;
        }
    }
}

} // verus!
