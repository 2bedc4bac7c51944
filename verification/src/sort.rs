//! Ordering timestamps and slots from the highest down.
use vstd::prelude::*;
use vstd::relations::{sorted_by, total_ordering};

verus! {

/// The descending order on `i64`.
pub open spec fn desc(a: i64, b: i64) -> bool {
    a >= b
}

/// `s` in descending order.
pub open spec fn sorted_desc(s: Seq<i64>) -> Seq<i64> {
    s.sort_by(|a: i64, b: i64| a >= b)
}

proof fn lemma_desc_total()
    ensures
        total_ordering(|a: i64, b: i64| a >= b),
{
}

proof fn lemma_insert_multiset(s: Seq<i64>, p: int, x: i64)
    requires
        0 <= p <= s.len(),
    ensures
        s.insert(p, x).to_multiset() =~= s.to_multiset().insert(x),
{
    broadcast use vstd::seq_lib::group_to_multiset_ensures, vstd::multiset::group_multiset_axioms;

    let t = s.insert(p, x);
    assert(t.remove(p) =~= s);
    assert(t.remove(p).to_multiset() =~= t.to_multiset().remove(t[p]));
    assert(t.to_multiset().count(x) > 0);
}

/// A sequence whose every element satisfies `p` is its own filter by `p`.
pub proof fn lemma_filter_all(s: Seq<i64>, p: spec_fn(i64) -> bool)
    requires
        forall|i: int| 0 <= i < s.len() ==> p(s[i]),
    ensures
        s.filter(p).len() == s.len(),
    decreases s.len(),
{
    if s.len() > 0 {
        let rest = s.drop_last();
        lemma_filter_all(rest, p);
        assert(rest.push(s.last()) == s);
        rest.lemma_filter_len_push(p, s.last());
    }
}

/// Two orderings of the same values have as many elements that satisfy `p`.
pub proof fn lemma_filter_len_perm(a: Seq<i64>, b: Seq<i64>, p: spec_fn(i64) -> bool)
    requires
        a.to_multiset() == b.to_multiset(),
    ensures
        a.filter(p).len() == b.filter(p).len(),
    decreases a.len(),
{
    broadcast use vstd::seq_lib::group_to_multiset_ensures, vstd::multiset::group_multiset_axioms;

    if a.len() == 0 {
        vstd::seq_lib::to_multiset_len(a);
        vstd::seq_lib::to_multiset_len(b);
        assert(b.len() == 0);
        assert(a =~= b);
    } else {
        let y = a.last();
        let rest_a = a.drop_last();
        assert(rest_a.push(y) == a);
        vstd::seq_lib::to_multiset_build(rest_a, y);
        vstd::seq_lib::to_multiset_contains(b, y);
        assert(a.to_multiset().count(y) > 0);
        let idx = choose|i: int| 0 <= i < b.len() && b[i] == y;
        let rest_b = b.remove(idx);
        vstd::seq_lib::to_multiset_remove(b, idx);
        assert(rest_a.to_multiset() =~= rest_b.to_multiset());
        lemma_filter_len_perm(rest_a, rest_b, p);
        rest_a.lemma_filter_len_push(p, y);
        let front = b.take(idx);
        let back = b.skip(idx + 1);
        assert(b =~= front + seq![y] + back);
        assert(rest_b =~= front + back);
        Seq::filter_distributes_over_add(front + seq![y], back, p);
        Seq::filter_distributes_over_add(front, seq![y], p);
        Seq::filter_distributes_over_add(front, back, p);
        Seq::<i64>::empty().lemma_filter_len_push(p, y);
        assert(Seq::<i64>::empty().push(y) == seq![y]);
        assert(Seq::<i64>::empty().filter(p).len() == 0) by {
            Seq::<i64>::empty().lemma_filter_len(p);
        }
    }
}

/// The values of `v` from the highest down.
pub fn sort_desc(v: &Vec<i64>) -> (r: Vec<i64>)
    ensures
        r@ == sorted_desc(v@),
        r@.len() == v@.len(),
        sorted_by(r@, |a: i64, b: i64| a >= b),
        r@.to_multiset() == v@.to_multiset(),
{
    broadcast use vstd::seq_lib::group_to_multiset_ensures;

    let ghost leq = |a: i64, b: i64| a >= b;
    let mut out: Vec<i64> = Vec::new();
    let n = v.len();
    let mut i: usize = 0;
    while i < n
        invariant
            n == v@.len(),
            0 <= i <= n,
            out@.len() == i,
            leq == (|a: i64, b: i64| a >= b),
            sorted_by(out@, leq),
            out@.to_multiset() == v@.take(i as int).to_multiset(),
        decreases n - i,
    {
        let x = v[i];
        let m = out.len();
        let mut p: usize = 0;
        while p < m && out[p] >= x
            invariant
                m == out@.len(),
                0 <= p <= m,
                forall|j: int| 0 <= j < p ==> out@[j] >= x,
            decreases m - p,
        {
            p = p + 1;
        }
        let ghost before = out@;
        out.insert(p, x);
        proof {
            assert(forall|j: int| p <= j < before.len() ==> before[j] < x) by {
                assert forall|j: int| p <= j < before.len() implies before[j] < x by {
                    assert(leq(before[p as int], before[j]) || j == p);
                }
            }
            assert forall|a: int, b: int| 0 <= a < b < out@.len() implies #[trigger] leq(out@[a], out@[b]) by {
                if b < p {
                    assert(leq(before[a], before[b]));
                } else if b == p {
                } else if a < p {
                    assert(out@[b] == before[b - 1]);
                    assert(leq(before[a], before[b - 1]));
                } else if a == p {
                    assert(out@[b] == before[b - 1]);
                } else {
                    assert(leq(before[a - 1], before[b - 1]));
                }
            }
            lemma_insert_multiset(before, p as int, x);
            assert(v@.take(i + 1) == v@.take(i as int).push(x));
            v@.take(i as int).to_multiset_ensures();
            assert(v@.take(i as int).push(x).to_multiset() =~= v@.take(i as int).to_multiset().insert(x));
        }
        i = i + 1;
    }
    proof {
        assert(v@.take(n as int) == v@);
        lemma_desc_total();
        v@.lemma_sort_by_ensures(leq);
        vstd::seq_lib::lemma_sorted_unique(out@, v@.sort_by(leq), leq);
    }
    out
}

} // verus!
