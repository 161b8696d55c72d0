//! Choice of the id of a new activity.

use vstd::prelude::*;

verus! {

/// The id `k` is used.
pub open spec fn id_used(used: Seq<usize>, k: int) -> bool {
    exists|i: int| 0 <= i < used.len() && used[i] == k
}

/// `m` is the smallest id which is not used.
pub open spec fn is_smallest_unused(used: Seq<usize>, m: int) -> bool {
    &&& 0 <= m
    &&& forall|i: int| 0 <= i < used.len() ==> used[i] != m
    &&& forall|k: int| 0 <= k < m ==> #[trigger] id_used(used, k)
}

/// The smallest id which is not used.
pub open spec fn smallest_unused(used: Seq<usize>) -> int {
    choose|m: int| is_smallest_unused(used, m)
}

/// There is a smallest unused id, and only one.
pub proof fn lemma_smallest_unused(used: Seq<usize>, m: int)
    requires
        is_smallest_unused(used, m),
    ensures
        smallest_unused(used) == m,
{
    let n = smallest_unused(used);
    assert(is_smallest_unused(used, n));
    if n < m {
        assert(id_used(used, n));
    } else if m < n {
        assert(id_used(used, m));
    }
}

/// The number of used ids (with repetitions) at or above the given bound.
pub open spec fn count_at_least(used: Seq<usize>, k: int) -> nat {
    used.filter(|x: usize| x >= k).len()
}

/// Raising the bound never counts more ids, and counts fewer when the bound was used.
proof fn lemma_count_at_least_step(used: Seq<usize>, k: int)
    ensures
        count_at_least(used, k + 1) <= count_at_least(used, k),
        id_used(used, k) ==> count_at_least(used, k + 1)
            < count_at_least(used, k),
        count_at_least(used, k) <= used.len(),
    decreases used.len(),
{
    reveal_with_fuel(Seq::filter, 1);
    if used.len() > 0 {
        let t = used.drop_last();
        lemma_count_at_least_step(t, k);
        if id_used(used, k) {
            let i = choose|i: int| 0 <= i < used.len() && used[i] == k;
            if i < used.len() - 1 {
                assert(t[i] == k);
            }
        }
    }
}

/// Generates the smallest unused id: it is not among the used ids, and every smaller id is.
pub fn generate_next_id(used_ids: Vec<usize>) -> (r: usize)
    ensures
        !used_ids@.contains(r),
        forall|k: usize| k < r ==> used_ids@.contains(k),
        r == smallest_unused(used_ids@),
        r <= used_ids@.len(),
{
    let ghost s = used_ids@;
    let mut k: usize = 0;
    let mut found = false;
    while !found
        invariant
            s == used_ids@,
            forall|j: int| 0 <= j < k ==> #[trigger] id_used(s, j),
            found ==> forall|i: int| 0 <= i < s.len() ==> s[i] != k,
            count_at_least(s, k as int) + k <= s.len(),
        decreases count_at_least(s, k as int) + (if found { 0int } else { 1 }),
    {
        let mut i: usize = 0;
        let mut present = false;
        while i < used_ids.len() && !present
            invariant
                s == used_ids@,
                i <= s.len(),
                present ==> id_used(s, k as int),
                !present ==> forall|j: int| 0 <= j < i ==> s[j] != k,
            decreases s.len() - i,
        {
            if used_ids[i] == k {
                present = true;
            }
            i = i + 1;
        }
        if present {
            proof {
                lemma_count_at_least_step(s, k as int);
            }
            k = k + 1;
        } else {
            found = true;
        }
    }
    proof {
        lemma_smallest_unused(s, k as int);
        lemma_count_at_least_step(s, k as int);
        assert forall|j: usize| j < k implies used_ids@.contains(j) by {
            assert(id_used(s, j as int));
            let i = choose|i: int| 0 <= i < s.len() && s[i] == j;
        }
    }
    k
}

} // verus!
