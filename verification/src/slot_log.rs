//! A log of entries kept in strictly increasing slot order, with at most one entry per slot.
use vstd::prelude::*;

verus! {

/// An entry that sits at a slot and carries a term.
pub trait SlotEntry: Sized {
    spec fn slot_of(&self) -> u32;

    spec fn term_of(&self) -> u32;

    fn slot(&self) -> (r: u32)
        ensures
            r == self.slot_of(),
    ;

    fn term(&self) -> (r: u32)
        ensures
            r == self.term_of(),
    ;

    /// An identical copy of the entry.
    fn duplicate(&self) -> (r: Self)
        ensures
            r == *self,
    ;
}

/// Slots strictly increase along the sequence.
pub open spec fn slots_increasing<E: SlotEntry>(s: Seq<E>) -> bool {
    forall|i: int, j: int| 0 <= i < j < s.len() ==> s[i].slot_of() < s[j].slot_of()
}

/// Some entry of `s` sits at `slot`.
pub open spec fn has_slot<E: SlotEntry>(s: Seq<E>, slot: u32) -> bool {
    exists|i: int| 0 <= i < s.len() && s[i].slot_of() == slot
}

/// The entry of `s` at `slot` (meaningful when `has_slot(s, slot)`).
pub open spec fn entry_at<E: SlotEntry>(s: Seq<E>, slot: u32) -> E {
    s[choose|i: int| 0 <= i < s.len() && s[i].slot_of() == slot]
}

/// The log seen as a map from slot to entry.
pub open spec fn slot_map<E: SlotEntry>(s: Seq<E>) -> Map<u32, E> {
    Map::new(|k: u32| has_slot(s, k), |k: u32| entry_at(s, k))
}

/// The number of entries of `s` below `slot`: where an entry at `slot` belongs.
pub open spec fn position_of<E: SlotEntry>(s: Seq<E>, slot: u32) -> int {
    s.filter(|e: E| e.slot_of() < slot).len() as int
}

/// `s` with `e` stored at its slot: it replaces the entry already at that slot, or is
/// inserted in slot order.
pub open spec fn insert_sorted<E: SlotEntry>(s: Seq<E>, e: E) -> Seq<E> {
    let p = position_of(s, e.slot_of());
    if p < s.len() && s[p].slot_of() == e.slot_of() {
        s.update(p, e)
    } else {
        s.insert(p, e)
    }
}

/// Some entry of `s` carries `term`.
pub open spec fn has_term<E: SlotEntry>(s: Seq<E>, term: u32) -> bool {
    exists|i: int| 0 <= i < s.len() && s[i].term_of() == term
}

/// `slot` is the highest slot of an entry of `s` with `term`.
pub open spec fn is_highest_slot_for_term<E: SlotEntry>(s: Seq<E>, term: u32, slot: u32) -> bool {
    &&& exists|i: int| 0 <= i < s.len() && s[i].term_of() == term && s[i].slot_of() == slot
    &&& forall|i: int| 0 <= i < s.len() && s[i].term_of() == term ==> s[i].slot_of() <= slot
}

/// `slot` is the lowest slot of an entry of `s` with `term`.
pub open spec fn is_lowest_slot_for_term<E: SlotEntry>(s: Seq<E>, term: u32, slot: u32) -> bool {
    &&& exists|i: int| 0 <= i < s.len() && s[i].term_of() == term && s[i].slot_of() == slot
    &&& forall|i: int| 0 <= i < s.len() && s[i].term_of() == term ==> slot <= s[i].slot_of()
}

/// In a log in slot order, the entry at the slot of position `i` is the one at `i`.
pub proof fn lemma_entry_at_index<E: SlotEntry>(s: Seq<E>, i: int)
    requires
        slots_increasing(s),
        0 <= i < s.len(),
    ensures
        has_slot(s, s[i].slot_of()),
        entry_at(s, s[i].slot_of()) == s[i],
{
    let j = choose|j: int| 0 <= j < s.len() && s[j].slot_of() == s[i].slot_of();
    assert(0 <= j < s.len() && s[j].slot_of() == s[i].slot_of());
    if j < i {
    } else if i < j {
    }
}

/// Filtering a prefix of a sequence by a predicate that holds exactly on its first `i`
/// elements keeps the first `min(k, i)` elements.
pub proof fn lemma_filter_prefix<E>(s: Seq<E>, pred: spec_fn(E) -> bool, i: int, k: int)
    requires
        0 <= i <= s.len(),
        0 <= k <= s.len(),
        forall|j: int| 0 <= j < i ==> pred(s[j]),
        forall|j: int| i <= j < s.len() ==> !pred(s[j]),
    ensures
        s.take(k).filter(pred) == s.take(if k < i { k } else { i }),
    decreases k,
{
    if k > 0 {
        lemma_filter_prefix(s, pred, i, k - 1);
        assert(s.take(k) == s.take(k - 1).push(s[k - 1]));
        s.take(k - 1).lemma_filter_push(s[k - 1], pred);
    } else {
        assert(s.take(0).filter(pred) =~= Seq::<E>::empty());
    }
}

/// Filtering by a predicate that holds exactly on the first `i` elements keeps them.
pub proof fn lemma_filter_is_prefix<E>(s: Seq<E>, pred: spec_fn(E) -> bool, i: int)
    requires
        0 <= i <= s.len(),
        forall|j: int| 0 <= j < i ==> pred(s[j]),
        forall|j: int| i <= j < s.len() ==> !pred(s[j]),
    ensures
        s.filter(pred) == s.take(i),
{
    lemma_filter_prefix(s, pred, i, s.len() as int);
    assert(s.take(s.len() as int) == s);
}

/// Filtering by a predicate that fails exactly on the first `i` elements keeps the rest.
pub proof fn lemma_filter_suffix<E>(s: Seq<E>, pred: spec_fn(E) -> bool, i: int, k: int)
    requires
        0 <= i <= s.len(),
        i <= k <= s.len(),
        forall|j: int| 0 <= j < i ==> !pred(s[j]),
        forall|j: int| i <= j < s.len() ==> pred(s[j]),
    ensures
        s.take(k).filter(pred) == s.subrange(i, k),
    decreases k,
{
    if k > i {
        lemma_filter_suffix(s, pred, i, k - 1);
        assert(s.take(k) == s.take(k - 1).push(s[k - 1]));
        s.take(k - 1).lemma_filter_push(s[k - 1], pred);
        assert(s.subrange(i, k) == s.subrange(i, k - 1).push(s[k - 1]));
    } else {
        lemma_filter_prefix(s, |e: E| !pred(e), i, k);
        assert forall|m: int| 0 <= m <= i implies #[trigger] s.take(m).filter(pred) =~= Seq::<E>::empty() by {
            lemma_filter_none(s, pred, m);
        }
    }
}

proof fn lemma_filter_none<E>(s: Seq<E>, pred: spec_fn(E) -> bool, m: int)
    requires
        0 <= m <= s.len(),
        forall|j: int| 0 <= j < m ==> !pred(s[j]),
    ensures
        s.take(m).filter(pred) =~= Seq::<E>::empty(),
    decreases m,
{
    if m > 0 {
        lemma_filter_none(s, pred, m - 1);
        assert(s.take(m) == s.take(m - 1).push(s[m - 1]));
        s.take(m - 1).lemma_filter_push(s[m - 1], pred);
    } else {
        assert(s.take(0).filter(pred) =~= Seq::<E>::empty());
    }
}

/// In a log in slot order, the entries below `slot` are exactly those before
/// `position_of(s, slot)`.
pub proof fn lemma_position_split<E: SlotEntry>(s: Seq<E>, slot: u32)
    requires
        slots_increasing(s),
    ensures
        0 <= position_of(s, slot) <= s.len(),
        forall|j: int| 0 <= j < position_of(s, slot) ==> s[j].slot_of() < slot,
        forall|j: int| position_of(s, slot) <= j < s.len() ==> s[j].slot_of() >= slot,
    decreases s.len(),
{
    let p = |e: E| e.slot_of() < slot;
    if s.len() == 0 {
        s.lemma_filter_len(p);
    } else {
        let rest = s.drop_last();
        let x = s.last();
        lemma_position_split(rest, slot);
        assert(rest.push(x) == s);
        rest.lemma_filter_len_push(p, x);
        let i = position_of(rest, slot);
        if x.slot_of() < slot {
            assert forall|j: int| 0 <= j < rest.len() implies rest[j].slot_of() < slot by {
                assert(s[j].slot_of() < s[s.len() - 1].slot_of());
            }
            if i < rest.len() {
                assert(rest[i].slot_of() < slot);
            }
        }
    }
}

/// Storing `e` in a log in slot order keeps it in slot order, and stores `e` at its slot
/// in the log seen as a map.
pub proof fn lemma_insert_sorted<E: SlotEntry>(old_s: Seq<E>, e2: E)
    requires
        slots_increasing(old_s),
    ensures
        slots_increasing(insert_sorted(old_s, e2)),
        slot_map(insert_sorted(old_s, e2)) == slot_map(old_s).insert(e2.slot_of(), e2),
{
    lemma_position_split(old_s, e2.slot_of());
    let i = position_of(old_s, e2.slot_of());
    let s = insert_sorted(old_s, e2);
    if i < old_s.len() && old_s[i].slot_of() == e2.slot_of() {
        assert(s == old_s.update(i as int, e2));
        assert(slots_increasing(s));
        assert forall|k: u32| #[trigger] slot_map(s).contains_key(k) == slot_map(old_s).insert(e2.slot_of(), e2).contains_key(k) by {
            if has_slot(old_s, k) {
                let j = choose|j: int| 0 <= j < old_s.len() && old_s[j].slot_of() == k;
                assert(s[j].slot_of() == k);
            }
            if has_slot(s, k) {
                let j = choose|j: int| 0 <= j < s.len() && s[j].slot_of() == k;
                assert(old_s[j].slot_of() == k);
            }
        }
        assert forall|k: u32| #[trigger] slot_map(s).contains_key(k) implies slot_map(s)[k] == slot_map(old_s).insert(e2.slot_of(), e2)[k] by {
            let j = choose|j: int| 0 <= j < s.len() && s[j].slot_of() == k;
            lemma_entry_at_index(s, j);
            lemma_entry_at_index(old_s, j);
        }
        assert(slot_map(s) =~= slot_map(old_s).insert(e2.slot_of(), e2));
    } else {
        assert(s == old_s.insert(i as int, e2));
        assert forall|a: int, b: int| 0 <= a < b < s.len() implies s[a].slot_of() < s[b].slot_of() by {
            if b < i {
            } else if b == i {
            } else if a < i {
                assert(s[b] == old_s[b - 1]);
            } else if a == i {
                assert(s[b] == old_s[b - 1]);
                assert(old_s[i as int].slot_of() >= e2.slot_of());
            } else {
                assert(s[a] == old_s[a - 1]);
                assert(s[b] == old_s[b - 1]);
            }
        }
        assert(slots_increasing(s));
        assert forall|k: u32| #[trigger] slot_map(s).contains_key(k) == slot_map(old_s).insert(e2.slot_of(), e2).contains_key(k) by {
            if has_slot(old_s, k) {
                let j = choose|j: int| 0 <= j < old_s.len() && old_s[j].slot_of() == k;
                if j < i {
                    assert(s[j].slot_of() == k);
                } else {
                    assert(s[j + 1].slot_of() == k);
                }
            }
            if k == e2.slot_of() {
                assert(s[i as int].slot_of() == k);
            }
            if has_slot(s, k) {
                let j = choose|j: int| 0 <= j < s.len() && s[j].slot_of() == k;
                if j < i {
                    assert(old_s[j].slot_of() == k);
                } else if j > i {
                    assert(old_s[j - 1].slot_of() == k);
                }
            }
        }
        assert forall|k: u32| #[trigger] slot_map(s).contains_key(k) implies slot_map(s)[k] == slot_map(old_s).insert(e2.slot_of(), e2)[k] by {
            let j = choose|j: int| 0 <= j < s.len() && s[j].slot_of() == k;
            lemma_entry_at_index(s, j);
            if j < i {
                lemma_entry_at_index(old_s, j);
            } else if j > i {
                lemma_entry_at_index(old_s, j - 1);
            }
        }
        assert(slot_map(s) =~= slot_map(old_s).insert(e2.slot_of(), e2));
    }
}

/// Filtering a log in slot order by a test on the slot alone: a slot is held afterwards
/// exactly when it passes the test and was held before, with the same entry.
pub proof fn lemma_filter_by_slot<E: SlotEntry>(s: Seq<E>, pred: spec_fn(E) -> bool, keep: spec_fn(u32) -> bool, k: u32)
    requires
        slots_increasing(s),
        forall|x: E| #[trigger] pred(x) == keep(x.slot_of()),
    ensures
        slots_increasing(s.filter(pred)),
        slot_map(s.filter(pred)).contains_key(k) == (keep(k) && slot_map(s).contains_key(k)),
        slot_map(s.filter(pred)).contains_key(k) ==> slot_map(s.filter(pred))[k] == slot_map(s)[k],
{
    broadcast use vstd::seq_lib::group_filter_ensures;

    let after = s.filter(pred);
    assert forall|a: int, b: int| 0 <= a < b < after.len() implies after[a].slot_of() < after[b].slot_of() by {
        lemma_filter_sub_increasing(s, pred, a, b);
    }
    if has_slot(after, k) {
        let j = choose|j: int| 0 <= j < after.len() && after[j].slot_of() == k;
        assert(pred(after[j]));
        assert(after.contains(after[j]));
        s.lemma_filter_contains_rev(pred, after[j]);
        let i = choose|i: int| 0 <= i < s.len() && s[i] == after[j];
        lemma_entry_at_index(after, j);
        lemma_entry_at_index(s, i);
    }
    if keep(k) && has_slot(s, k) {
        let i = choose|i: int| 0 <= i < s.len() && s[i].slot_of() == k;
        assert(pred(s[i]));
        assert(after.contains(s[i]));
        let j = choose|j: int| 0 <= j < after.len() && after[j] == s[i];
        assert(after[j].slot_of() == k);
    }
}

/// Entries kept in strictly increasing slot order.
pub struct SlotLog<E> {
    entries: Vec<E>,
}

impl<E> View for SlotLog<E> {
    type V = Seq<E>;

    closed spec fn view(&self) -> Seq<E> {
        self.entries@
    }
}

impl<E: SlotEntry> SlotLog<E> {
    /// The entries are in strictly increasing slot order.
    pub open spec fn wf(&self) -> bool {
        slots_increasing(self@)
    }

    /// An empty log.
    pub fn new() -> (r: Self)
        ensures
            r.wf(),
            r@ == Seq::<E>::empty(),
    {
        SlotLog { entries: Vec::new() }
    }

    /// The number of entries.
    pub fn len(&self) -> (r: usize)
        ensures
            r == self@.len(),
    {
        self.entries.len()
    }

    /// The entry at position `i` in slot order.
    pub fn at(&self, i: usize) -> (r: &E)
        requires
            i < self@.len(),
        ensures
            *r == self@[i as int],
    {
        &self.entries[i]
    }

    /// The position of the first entry whose slot is at least `slot`.
    fn lower_bound(&self, slot: u32) -> (i: usize)
        requires
            self.wf(),
        ensures
            i <= self@.len(),
            forall|j: int| 0 <= j < i ==> self@[j].slot_of() < slot,
            forall|j: int| i <= j < self@.len() ==> self@[j].slot_of() >= slot,
            i == position_of(self@, slot),
    {
        let n = self.entries.len();
        let mut i: usize = 0;
        while i < n && self.entries[i].slot() < slot
            invariant
                n == self.entries.len(),
                self.wf(),
                0 <= i <= n,
                forall|j: int| 0 <= j < i ==> self@[j].slot_of() < slot,
            decreases n - i,
        {
            i = i + 1;
        }
        proof {
            let s = self@;
            if i < n {
                assert forall|j: int| i <= j < s.len() implies s[j].slot_of() >= slot by {
                    if j > i {
                        assert(s[i as int].slot_of() < s[j].slot_of());
                    }
                }
            }
            lemma_filter_is_prefix(s, |e: E| e.slot_of() < slot, i as int);
        }
        i
    }

    /// Stores `entry` at its slot, replacing any entry already there.
    pub fn insert(&mut self, entry: E)
        requires
            old(self).wf(),
        ensures
            final(self).wf(),
            final(self)@ == insert_sorted(old(self)@, entry),
            slot_map(final(self)@) == slot_map(old(self)@).insert(entry.slot_of(), entry),
    {
        let ghost old_s = self@;
        let ghost e2 = entry;
        proof {
            lemma_insert_sorted(old_s, e2);
        }
        let n = self.entries.len();
        let i = self.lower_bound(entry.slot());
        if i < n && self.entries[i].slot() == entry.slot() {
            self.entries.set(i, entry);
            assert(self@ == old_s.update(i as int, e2));
        } else {
            self.entries.insert(i, entry);
            assert(self@ == old_s.insert(i as int, e2));
        }
    }

    /// Adds `entry` after the last entry, whose slot is below the new entry's slot.
    pub fn push_last(&mut self, entry: E)
        requires
            old(self).wf(),
            old(self)@.len() > 0 ==> old(self)@.last().slot_of() < entry.slot_of(),
        ensures
            final(self).wf(),
            final(self)@ == old(self)@.push(entry),
    {
        self.entries.push(entry);
    }

    /// The entry at `slot`, if there is one.
    pub fn get(&self, slot: u32) -> (r: Option<&E>)
        requires
            self.wf(),
        ensures
            r == (if has_slot(self@, slot) {
                Some(&entry_at(self@, slot))
            } else {
                None::<&E>
            }),
    {
        let n = self.entries.len();
        let i = self.lower_bound(slot);
        if i < n && self.entries[i].slot() == slot {
            proof {
                lemma_entry_at_index(self@, i as int);
            }
            Some(&self.entries[i])
        } else {
            proof {
                if has_slot(self@, slot) {
                    let j = choose|j: int| 0 <= j < self@.len() && self@[j].slot_of() == slot;
                    if j > i {
                        assert(self@[i as int].slot_of() < self@[j].slot_of());
                    }
                }
            }
            None
        }
    }

    /// Copies of all entries at or after `from_slot`, in slot order.
    pub fn entries_from(&self, from_slot: u32) -> (r: Vec<E>)
        requires
            self.wf(),
        ensures
            r@ == self@.filter(|e: E| e.slot_of() >= from_slot),
    {
        let n = self.entries.len();
        let start = self.lower_bound(from_slot);
        let mut out: Vec<E> = Vec::new();
        let mut i: usize = start;
        while i < n
            invariant
                n == self.entries.len(),
                start <= i <= n,
                out@ == self@.subrange(start as int, i as int),
            decreases n - i,
        {
            out.push(self.entries[i].duplicate());
            proof {
                assert(self@.subrange(start as int, i + 1) == self@.subrange(start as int, i as int).push(self@[i as int]));
            }
            i = i + 1;
        }
        proof {
            lemma_filter_suffix(self@, |e: E| e.slot_of() >= from_slot, start as int, n as int);
            assert(self@.take(n as int) == self@);
        }
        out
    }

    /// Removes every entry at or after `starting_slot`.
    pub fn truncate_from(&mut self, starting_slot: u32)
        requires
            old(self).wf(),
        ensures
            final(self).wf(),
            final(self)@ == old(self)@.filter(|e: E| e.slot_of() < starting_slot),
    {
        let i = self.lower_bound(starting_slot);
        let ghost old_s = self@;
        self.entries.truncate(i);
        proof {
            lemma_filter_is_prefix(old_s, |e: E| e.slot_of() < starting_slot, i as int);
        }
    }

    /// Keeps only the entries after `slot`.
    pub fn retain_after(&mut self, slot: u32)
        requires
            old(self).wf(),
        ensures
            final(self).wf(),
            final(self)@ == old(self)@.filter(|e: E| e.slot_of() > slot),
    {
        if slot == u32::MAX {
            let ghost old_s = self@;
            self.entries.clear();
            proof {
                lemma_filter_none(old_s, |e: E| e.slot_of() > slot, old_s.len() as int);
                assert(old_s.take(old_s.len() as int) == old_s);
            }
        } else {
            let kept = self.entries_from(slot + 1);
            proof {
                assert(self@.filter(|e: E| e.slot_of() >= slot + 1) == self@.filter(|e: E| e.slot_of() > slot)) by {
                    assert((|e: E| e.slot_of() >= slot + 1) == (|e: E| e.slot_of() > slot));
                }
                let s = self@;
                let f = s.filter(|e: E| e.slot_of() > slot);
                assert forall|a: int, b: int| 0 <= a < b < f.len() implies f[a].slot_of() < f[b].slot_of() by {
                    lemma_filter_sub_increasing(s, |e: E| e.slot_of() > slot, a, b);
                }
            }
            self.entries = kept;
        }
    }

    /// Copies of all entries, in slot order.
    pub fn values(&self) -> (r: Vec<E>)
        ensures
            r@ == self@,
    {
        let n = self.entries.len();
        let mut out: Vec<E> = Vec::new();
        let mut i: usize = 0;
        while i < n
            invariant
                n == self.entries.len(),
                0 <= i <= n,
                out@ == self@.take(i as int),
            decreases n - i,
        {
            out.push(self.entries[i].duplicate());
            proof {
                assert(self@.take(i + 1) == self@.take(i as int).push(self@[i as int]));
            }
            i = i + 1;
        }
        proof {
            assert(self@.take(n as int) == self@);
        }
        out
    }
}

/// A filtered sequence keeps the order of the elements it keeps.
pub proof fn lemma_filter_sub_increasing<E: SlotEntry>(s: Seq<E>, pred: spec_fn(E) -> bool, a: int, b: int)
    requires
        slots_increasing(s),
        0 <= a < b < s.filter(pred).len(),
    ensures
        s.filter(pred)[a].slot_of() < s.filter(pred)[b].slot_of(),
    decreases s.len(),
{
    reveal(Seq::filter);
    if s.len() > 0 {
        let init = s.drop_last();
        assert(slots_increasing(init));
        if pred(s.last()) {
            assert(s.filter(pred) == init.filter(pred).push(s.last()));
            if b < init.filter(pred).len() {
                lemma_filter_sub_increasing(init, pred, a, b);
            } else {
                let x = init.filter(pred)[a];
                assert(init.filter(pred).contains(x));
                init.lemma_filter_contains_rev(pred, x);
                let j = choose|j: int| 0 <= j < init.len() && init[j] == x;
                assert(s[j] == x);
            }
        } else {
            assert(s.filter(pred) == init.filter(pred));
            lemma_filter_sub_increasing(init, pred, a, b);
        }
    }
}

} // verus!
