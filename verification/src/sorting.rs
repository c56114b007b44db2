//! Stable ordering of positions by a numeric key.
use vstd::prelude::*;

verus! {

/// The first position in `s` whose key exceeds `k` (the length when none).
pub open spec fn first_greater(s: Seq<(u64, usize)>, k: u64) -> nat
    decreases s.len(),
{
    if s.len() == 0 {
        0
    } else if s[0].0 > k {
        0
    } else {
        1 + first_greater(s.drop_first(), k)
    }
}

/// `x` placed after every leading entry whose key does not exceed its own.
pub open spec fn insert_after_equal(s: Seq<(u64, usize)>, x: (u64, usize)) -> Seq<(u64, usize)> {
    let p = first_greater(s, x.0) as int;
    s.take(p).push(x) + s.skip(p)
}

/// The entries of `s` in stable key order: each entry is placed after the
/// entries before it whose key does not exceed its own.
pub open spec fn stable_sorted(s: Seq<(u64, usize)>) -> Seq<(u64, usize)>
    decreases s.len(),
{
    if s.len() == 0 {
        s
    } else {
        insert_after_equal(stable_sorted(s.drop_last()), s.last())
    }
}

proof fn lemma_first_greater_bound(s: Seq<(u64, usize)>, k: u64)
    ensures
        first_greater(s, k) <= s.len(),
        forall|i: int| 0 <= i < first_greater(s, k) ==> s[i].0 <= k,
        first_greater(s, k) < s.len() ==> s[first_greater(s, k) as int].0 > k,
    decreases s.len(),
{
    if s.len() > 0 && s[0].0 <= k {
        lemma_first_greater_bound(s.drop_first(), k);
        assert forall|i: int| 0 <= i < first_greater(s, k) implies s[i].0 <= k by {
            if i > 0 {
                assert(s[i] == s.drop_first()[i - 1]);
            }
        }
    }
}

/// Sorts `items` stably by key.
pub fn sort_stable(items: &Vec<(u64, usize)>) -> (r: Vec<(u64, usize)>)
    ensures
        r@ == stable_sorted(items@),
{
    let mut out: Vec<(u64, usize)> = Vec::new();
    let mut i: usize = 0;
    while i < items.len()
        invariant
            i <= items@.len(),
            out@ == stable_sorted(items@.take(i as int)),
        decreases items.len() - i,
    {
        let x = items[i];
        let mut p: usize = 0;
        assert(out@.skip(0) =~= out@);
        while p < out.len() && out[p].0 <= x.0
            invariant
                p <= out@.len(),
                first_greater(out@, x.0) == p + first_greater(out@.skip(p as int), x.0),
            decreases out.len() - p,
        {
            proof {
                assert(out@.skip(p as int).drop_first() =~= out@.skip(p + 1));
                assert(out@.skip(p as int)[0] == out@[p as int]);
            }
            p += 1;
        }
        proof {
            assert(out@.skip(0) =~= out@);
            if p < out@.len() {
                assert(out@.skip(p as int)[0] == out@[p as int]);
            }
            assert(first_greater(out@, x.0) == p);
            assert(items@.take(i + 1).drop_last() =~= items@.take(i as int));
            assert(items@.take(i + 1).last() == x);
        }
        let ghost before = out@;
        out.insert(p, x);
        proof {
            assert(out@ =~= insert_after_equal(before, x));
        }
        i += 1;
    }
    proof {
        assert(items@.take(items@.len() as int) =~= items@);
    }
    out
}

pub open spec fn keys_nondecreasing(s: Seq<(u64, usize)>) -> bool {
    forall|i: int, j: int| 0 <= i < j < s.len() ==> s[i].0 <= s[j].0
}

/// Stable sorting yields the same entries, ordered by key.
pub proof fn law_stable_sorted(s: Seq<(u64, usize)>)
    ensures
        keys_nondecreasing(stable_sorted(s)),
        stable_sorted(s).to_multiset() == s.to_multiset(),
    decreases s.len(),
{
    if s.len() > 0 {
        let t = stable_sorted(s.drop_last());
        let x = s.last();
        law_stable_sorted(s.drop_last());
        lemma_first_greater_bound(t, x.0);
        let p = first_greater(t, x.0) as int;
        let r = insert_after_equal(t, x);
        assert(r.len() == t.len() + 1);
        assert forall|i: int, j: int| 0 <= i < j < r.len() implies r[i].0 <= r[j].0 by {
            if j < p {
                assert(r[i] == t[i] && r[j] == t[j]);
            } else if j == p {
                assert(r[j] == x);
                assert(r[i] == t[i]);
            } else if i < p {
                assert(r[i] == t[i] && r[j] == t[j - 1]);
                if j - 1 >= p {
                    assert(t[p].0 > x.0);
                }
            } else if i == p {
                assert(r[i] == x && r[j] == t[j - 1]);
                assert(t[p].0 > x.0);
                if j - 1 > p {
                    assert(t[p].0 <= t[j - 1].0);
                }
            } else {
                assert(r[i] == t[i - 1] && r[j] == t[j - 1]);
            }
        }
        vstd::seq_lib::lemma_multiset_commutative(t.take(p).push(x), t.skip(p));
        vstd::seq_lib::lemma_multiset_commutative(t.take(p), t.skip(p));
        assert(t.take(p) + t.skip(p) =~= t);
        assert(s.drop_last().push(x) =~= s);
        vstd::seq_lib::lemma_multiset_commutative(s.drop_last(), seq![x]);
        vstd::seq_lib::lemma_multiset_commutative(t.take(p), seq![x]);
        assert(t.take(p) + seq![x] =~= t.take(p).push(x));
        assert(s.drop_last() + seq![x] =~= s);
    }
}

} // verus!
