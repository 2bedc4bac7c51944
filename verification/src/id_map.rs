//! A small map keyed by member id, kept as a list of distinct keys with their values.
use crate::member_id::MemberId;
use vstd::prelude::*;

verus! {

/// A map from member ids to values, in insertion order.
pub struct IdMap<V> {
    entries: Vec<(MemberId, V)>,
}

impl<V> View for IdMap<V> {
    type V = Seq<(MemberId, V)>;

    closed spec fn view(&self) -> Seq<(MemberId, V)> {
        self.entries@
    }
}

/// The keys of the pairs are distinct.
pub open spec fn distinct_keys<V>(s: Seq<(MemberId, V)>) -> bool {
    forall|i: int, j: int| 0 <= i < s.len() && 0 <= j < s.len() && i != j ==> s[i].0 != s[j].0
}

/// Some pair of `s` has key `k`.
pub open spec fn has_key<V>(s: Seq<(MemberId, V)>, k: MemberId) -> bool {
    exists|i: int| 0 <= i < s.len() && s[i].0 == k
}

/// The position of key `k` in `s` (meaningful when `has_key(s, k)`).
pub open spec fn key_index<V>(s: Seq<(MemberId, V)>, k: MemberId) -> int {
    choose|i: int| 0 <= i < s.len() && s[i].0 == k
}

/// `s` with the value of `k` set to `v`: updated in place, or appended at the end.
pub open spec fn insert_pair<V>(s: Seq<(MemberId, V)>, k: MemberId, v: V) -> Seq<(MemberId, V)> {
    if has_key(s, k) {
        s.update(key_index(s, k), (k, v))
    } else {
        s.push((k, v))
    }
}

/// The pairs seen as a map.
pub open spec fn pair_map<V>(s: Seq<(MemberId, V)>) -> Map<MemberId, V> {
    Map::new(|k: MemberId| has_key(s, k), |k: MemberId| s[key_index(s, k)].1)
}

/// With distinct keys, the position of the key at `i` is `i`.
pub proof fn lemma_key_index<V>(s: Seq<(MemberId, V)>, i: int)
    requires
        distinct_keys(s),
        0 <= i < s.len(),
    ensures
        has_key(s, s[i].0),
        key_index(s, s[i].0) == i,
{
    assert(s[i].0 == s[i].0);
}

/// Inserting keeps the keys distinct.
pub proof fn lemma_insert_pair<V>(s: Seq<(MemberId, V)>, k: MemberId, v: V)
    requires
        distinct_keys(s),
    ensures
        distinct_keys(insert_pair(s, k, v)),
        insert_pair(s, k, v).len() == if has_key(s, k) { s.len() } else { s.len() + 1 },
        has_key(insert_pair(s, k, v), k),
        insert_pair(s, k, v)[key_index(insert_pair(s, k, v), k)] == (k, v),
        forall|k2: MemberId| has_key(insert_pair(s, k, v), k2) == (has_key(s, k2) || k2 == k),
        forall|k2: MemberId| k2 != k && has_key(s, k2) ==> insert_pair(s, k, v)[key_index(insert_pair(s, k, v), k2)] == s[key_index(s, k2)],
{
    let t = insert_pair(s, k, v);
    if has_key(s, k) {
        let i = key_index(s, k);
        assert(t[i].0 == k);
        lemma_key_index(t, i);
        assert forall|k2: MemberId| has_key(t, k2) == (has_key(s, k2) || k2 == k) by {
            if has_key(s, k2) {
                let j = key_index(s, k2);
                assert(t[j].0 == k2);
            }
            if has_key(t, k2) {
                let j = choose|j: int| 0 <= j < t.len() && t[j].0 == k2;
                assert(s[j].0 == k2 || j == i);
            }
        }
        assert forall|k2: MemberId| k2 != k && has_key(s, k2) implies t[key_index(t, k2)] == s[key_index(s, k2)] by {
            let j = key_index(s, k2);
            lemma_key_index(s, j);
            lemma_key_index(t, j);
        }
    } else {
        assert(t[s.len() as int].0 == k);
        lemma_key_index(t, s.len() as int);
        assert forall|k2: MemberId| has_key(t, k2) == (has_key(s, k2) || k2 == k) by {
            if has_key(s, k2) {
                let j = key_index(s, k2);
                assert(t[j].0 == k2);
            }
            if has_key(t, k2) {
                let j = choose|j: int| 0 <= j < t.len() && t[j].0 == k2;
                if j < s.len() {
                    assert(s[j].0 == k2);
                }
            }
        }
        assert forall|k2: MemberId| k2 != k && has_key(s, k2) implies t[key_index(t, k2)] == s[key_index(s, k2)] by {
            let j = key_index(s, k2);
            lemma_key_index(s, j);
            lemma_key_index(t, j);
        }
    }
}

impl<V> IdMap<V> {
    /// The keys are distinct.
    pub open spec fn wf(&self) -> bool {
        distinct_keys(self@)
    }

    /// The map seen as a map.
    pub open spec fn as_map(&self) -> Map<MemberId, V> {
        pair_map(self@)
    }

    /// An empty map.
    pub fn new() -> (r: Self)
        ensures
            r.wf(),
            r@ == Seq::<(MemberId, V)>::empty(),
    {
        IdMap { entries: Vec::new() }
    }

    /// The number of keys.
    pub fn len(&self) -> (r: usize)
        ensures
            r == self@.len(),
    {
        self.entries.len()
    }

    /// The key at position `i`.
    pub fn key_at(&self, i: usize) -> (r: MemberId)
        requires
            i < self@.len(),
        ensures
            r == self@[i as int].0,
    {
        self.entries[i].0
    }

    /// The value at position `i`.
    pub fn value_at(&self, i: usize) -> (r: &V)
        requires
            i < self@.len(),
        ensures
            *r == self@[i as int].1,
    {
        &self.entries[i].1
    }

    /// The position of `k`, if present.
    pub fn find(&self, k: MemberId) -> (r: Option<usize>)
        requires
            self.wf(),
        ensures
            match r {
                Some(i) => has_key(self@, k) && i == key_index(self@, k),
                None => !has_key(self@, k),
            },
    {
        let n = self.entries.len();
        let mut i: usize = 0;
        while i < n
            invariant
                n == self@.len(),
                self.wf(),
                0 <= i <= n,
                forall|j: int| 0 <= j < i ==> self@[j].0 != k,
            decreases n - i,
        {
            if self.entries[i].0 == k {
                proof {
                    lemma_key_index(self@, i as int);
                }
                return Some(i);
            }
            i = i + 1;
        }
        None
    }

    /// True if `k` is present.
    pub fn contains_key(&self, k: MemberId) -> (r: bool)
        requires
            self.wf(),
        ensures
            r == has_key(self@, k),
    {
        self.find(k).is_some()
    }

    /// The value of `k`, if present.
    pub fn get(&self, k: MemberId) -> (r: Option<&V>)
        requires
            self.wf(),
        ensures
            r == (if has_key(self@, k) {
                Some(&self@[key_index(self@, k)].1)
            } else {
                None::<&V>
            }),
    {
        match self.find(k) {
            Some(i) => Some(&self.entries[i].1),
            None => None,
        }
    }

    /// Sets the value of `k` to `v`, adding `k` at the end if it is absent.
    pub fn insert(&mut self, k: MemberId, v: V)
        requires
            old(self).wf(),
        ensures
            final(self).wf(),
            final(self)@ == insert_pair(old(self)@, k, v),
    {
        let ghost v2 = v;
        proof {
            lemma_insert_pair(self@, k, v2);
        }
        match self.find(k) {
            Some(i) => {
                self.entries.set(i, (k, v));
            },
            None => {
                self.entries.push((k, v));
            },
        }
    }

    /// Puts `v` at position `i` and returns the value that was there.
    pub fn replace_value_at(&mut self, i: usize, v: V) -> (r: V)
        requires
            old(self).wf(),
            i < old(self)@.len(),
        ensures
            final(self).wf(),
            final(self)@ == old(self)@.update(i as int, (old(self)@[i as int].0, v)),
            r == old(self)@[i as int].1,
    {
        let (k, old_v) = self.entries.remove(i);
        self.entries.insert(i, (k, v));
        proof {
            assert(self@ =~= old(self)@.update(i as int, (k, v)));
        }
        old_v
    }

    /// Sets the value at position `i` to `v`.
    pub fn set_value_at(&mut self, i: usize, v: V)
        requires
            old(self).wf(),
            i < old(self)@.len(),
        ensures
            final(self).wf(),
            final(self)@ == old(self)@.update(i as int, (old(self)@[i as int].0, v)),
    {
        let k = self.entries[i].0;
        self.entries.set(i, (k, v));
    }
}

impl<V: Copy> IdMap<V> {
    /// A copy of the map.
    pub fn copied(&self) -> (r: Self)
        ensures
            r@ == self@,
    {
        let n = self.entries.len();
        let mut out: Vec<(MemberId, V)> = Vec::new();
        let mut i: usize = 0;
        while i < n
            invariant
                n == self@.len(),
                0 <= i <= n,
                out@ == self@.take(i as int),
            decreases n - i,
        {
            out.push(self.entries[i]);
            proof {
                assert(self@.take(i + 1) == self@.take(i as int).push(self@[i as int]));
            }
            i = i + 1;
        }
        proof {
            assert(self@.take(n as int) == self@);
        }
        IdMap { entries: out }
    }
}

} // verus!
