//! Sorting of times.

use crate::time::Time;
use vstd::prelude::*;

verus! {

broadcast use vstd::seq_lib::to_multiset_insert;

/// The times are sorted by ascending order.
pub open spec fn sorted_times(s: Seq<Time>) -> bool {
    forall|i: int, j: int| 0 <= i <= j < s.len() ==> s[i]@ <= s[j]@
}

/// Returns the times sorted by ascending order.
pub fn sort_times(v: Vec<Time>) -> (r: Vec<Time>)
    ensures
        sorted_times(r@),
        r@.to_multiset() == v@.to_multiset(),
        r@.len() == v@.len(),
{
    let mut r: Vec<Time> = Vec::new();
    let mut i: usize = 0;
    assert(v@.take(0) =~= r@);
    while i < v.len()
        invariant
            i <= v@.len(),
            sorted_times(r@),
            r@.to_multiset() == v@.take(i as int).to_multiset(),
            r@.len() == i,
        decreases v@.len() - i,
    {
        let x = v[i];
        let mut p: usize = 0;
        while p < r.len() && !x.is_before(&r[p])
            invariant
                p <= r@.len(),
                forall|k: int| 0 <= k < p ==> r@[k]@ <= x@,
            decreases r@.len() - p,
        {
            p = p + 1;
        }
        let ghost old_r = r@;
        r.insert(p, x);
        proof {
            assert(v@.take(i + 1) =~= v@.take(i as int).push(x));
            vstd::seq_lib::to_multiset_build(v@.take(i as int), x);
            assert forall|a: int, b: int| 0 <= a <= b < r@.len() implies r@[a]@ <= r@[b]@ by {
                if a < p && b > p {
                    assert(r@[b] == old_r[b - 1]);
                } else if a > p {
                    assert(r@[a] == old_r[a - 1]);
                    assert(r@[b] == old_r[b - 1]);
                } else if a == p && b > p {
                    assert(r@[b] == old_r[b - 1]);
                    assert(old_r[p as int]@ > x@);
                }
            }
        }
        i = i + 1;
    }
    assert(v@.take(v@.len() as int) =~= v@);
    r
}

} // verus!
