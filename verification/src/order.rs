//! Sorting levels.

use vstd::prelude::*;
use vstd::relations::{sorted_by, total_ordering};
use vstd::seq_lib::lemma_sorted_unique;

verus! {

/// The order of levels by size.
pub open spec fn level_leq() -> spec_fn(i64, i64) -> bool {
    |a: i64, b: i64| a <= b
}

/// The levels of `s` in ascending order.
pub open spec fn ascending(s: Seq<i64>) -> Seq<i64> {
    s.sort_by(level_leq())
}

/// The ascending arrangement holds the same levels, smallest first.
pub proof fn lemma_ascending(s: Seq<i64>)
    ensures
        ascending(s).len() == s.len(),
        ascending(s).to_multiset() == s.to_multiset(),
        forall|i: int, j: int| 0 <= i <= j < s.len() ==> ascending(s)[i] <= ascending(s)[j],
        forall|i: int| 0 <= i < s.len() ==> s.contains(#[trigger] ascending(s)[i]),
{
    broadcast use vstd::seq_lib::group_to_multiset_ensures;

    assert(total_ordering(level_leq()));
    s.lemma_sort_by_ensures(level_leq());
    let a = ascending(s);
    assert(a.to_multiset().len() == a.len());
    assert(s.to_multiset().len() == s.len());
    assert forall|i: int, j: int| 0 <= i <= j < s.len() implies a[i] <= a[j] by {
        if i < j {
            assert(level_leq()(a[i], a[j]));
        }
    }
    assert forall|i: int| 0 <= i < s.len() implies s.contains(#[trigger] a[i]) by {
        assert(a.contains(a[i]));
        vstd::seq_lib::to_multiset_contains(a, a[i]);
        vstd::seq_lib::to_multiset_contains(s, a[i]);
    }
}

/// Sorts the levels in place, smallest first.
pub fn sort_levels(v: &mut Vec<i64>)
    ensures
        final(v)@ == ascending(old(v)@),
{
    broadcast use vstd::seq_lib::group_to_multiset_ensures;
    broadcast use vstd::multiset::group_multiset_axioms;

    let n: usize = v.len();
    let mut i: usize = 1;
    while i < n
        invariant
            1 <= i,
            n == v@.len(),
            n <= 1 || i <= n,
            v@.to_multiset() == old(v)@.to_multiset(),
            forall|a: int, b: int| 0 <= a < b < i && b < n ==> v@[a] <= v@[b],
        decreases n - i,
    {
        let mut j: usize = i;
        while j > 0 && v[j - 1] > v[j]
            invariant
                j <= i < n,
                n == v@.len(),
                v@.to_multiset() == old(v)@.to_multiset(),
                forall|a: int, b: int| 0 <= a < b <= i && a != j && b != j ==> v@[a] <= v@[b],
                forall|b: int| j < b <= i ==> v@[j as int] <= v@[b],
            decreases j,
        {
            let ghost before = v@;
            let low: i64 = v[j];
            let high: i64 = v[j - 1];
            v[j - 1] = low;
            v[j] = high;
            proof {
                let mid = before.update(j - 1, low);
                assert(v@ =~= mid.update(j as int, high));
                vstd::seq_lib::to_multiset_update(before, j - 1, low);
                vstd::seq_lib::to_multiset_update(mid, j as int, high);
                assert(mid[j as int] == low);
                assert(before[j - 1] == high);
                assert(before.contains(high));
                vstd::seq_lib::to_multiset_contains(before, high);
                assert(before.to_multiset().count(high) > 0);
                assert(before.to_multiset().insert(low).remove(high).insert(high).remove(low)
                    =~= before.to_multiset());
                assert(v@.to_multiset() =~= before.to_multiset());
            }
            j -= 1;
        }
        i += 1;
    }
    proof {
        assert(total_ordering(level_leq()));
        old(v)@.lemma_sort_by_ensures(level_leq());
        assert(sorted_by(v@, level_leq())) by {
            assert forall|a: int, b: int| 0 <= a < b < v@.len() implies #[trigger] level_leq()(
                v@[a],
                v@[b],
            ) by {
                assert(v@[a] <= v@[b]);
            }
        }
        lemma_sorted_unique(v@, ascending(old(v)@), level_leq());
    }
}

} // verus!
