//! Stable orders: the order of a sort which keeps equal items in the order they had.

use vstd::prelude::*;

verus! {

/// `before` is a strict weak order on the positions 0..n: it is asymmetric, and an item which
/// comes before another one comes before everything which does not come before that one.
pub open spec fn is_strict_weak_order(n: int, before: spec_fn(int, int) -> bool) -> bool {
    &&& forall|x: int, y: int|
        0 <= x < n && 0 <= y < n && #[trigger] before(x, y) ==> !before(y, x)
    &&& forall|x: int, y: int, z: int|
        0 <= x < n && 0 <= y < n && 0 <= z < n && #[trigger] before(x, y) && !before(z, y)
            ==> #[trigger] before(x, z)
}

/// `order` lists each of the positions 0..m once, so that no item comes before an item listed
/// earlier, and items of which neither comes before the other are listed by position.
pub open spec fn is_stable_order(m: int, before: spec_fn(int, int) -> bool, order: Seq<int>) -> bool {
    &&& order.len() == m
    &&& forall|k: int| 0 <= k < m ==> 0 <= #[trigger] order[k] < m
    &&& order.no_duplicates()
    &&& forall|a: int, b: int|
        0 <= a < b < m ==> !before(#[trigger] order[b], #[trigger] order[a]) && (!before(
            order[a],
            order[b],
        ) ==> order[a] < order[b])
}

/// Inserting the next position `i` just before the first listed item which comes after it keeps
/// the order stable.
pub proof fn lemma_stable_insert(
    n: int,
    before: spec_fn(int, int) -> bool,
    order: Seq<int>,
    i: int,
    p: int,
)
    requires
        0 <= i < n,
        is_strict_weak_order(n, before),
        is_stable_order(i, before, order),
        0 <= p <= i,
        forall|a: int| 0 <= a < p ==> !before(i, #[trigger] order[a]),
        p < i ==> before(i, order[p]),
    ensures
        is_stable_order(i + 1, before, order.insert(p, i)),
{
    let o = order.insert(p, i);
    assert forall|k: int| 0 <= k < i + 1 implies 0 <= #[trigger] o[k] < i + 1 by {
        if k > p {
            assert(o[k] == order[k - 1]);
        }
    }
    assert forall|a: int, b: int| 0 <= a < i + 1 && 0 <= b < i + 1 && a != b implies o[a]
        != o[b] by {
        if a < p && b < p {
        } else if a > p && b > p {
            assert(o[a] == order[a - 1] && o[b] == order[b - 1]);
        } else if a == p {
            if b > p {
                assert(o[b] == order[b - 1]);
            }
        } else if b == p {
            if a > p {
                assert(o[a] == order[a - 1]);
            }
        } else if a < p {
            assert(o[b] == order[b - 1]);
        } else {
            assert(o[a] == order[a - 1]);
        }
    }
    assert forall|a: int, b: int| 0 <= a < b < i + 1 implies !before(
        #[trigger] o[b],
        #[trigger] o[a],
    ) && (!before(o[a], o[b]) ==> o[a] < o[b]) by {
        if b < p {
        } else if a > p {
            assert(o[a] == order[a - 1] && o[b] == order[b - 1]);
        } else if a < p && b == p {
            assert(o[a] == order[a]);
            assert(!before(i, order[a]));
        } else if a == p {
            assert(o[b] == order[b - 1]);
            if b - 1 > p {
                assert(!before(order[b - 1], order[p]));
            }
            assert(before(i, order[b - 1]));
        } else {
            assert(o[b] == order[b - 1]);
            assert(o[a] == order[a]);
        }
    }
}

/// A stable order lists every position.
pub proof fn lemma_permutation_covers(order: Seq<int>, n: int, q: int)
    requires
        order.len() == n,
        forall|k: int| 0 <= k < n ==> 0 <= #[trigger] order[k] < n,
        order.no_duplicates(),
        0 <= q < n,
    ensures
        exists|k: int| 0 <= k < order.len() && order[k] == q,
{
    let set_o = order.to_set();
    order.unique_seq_to_set();
    assert(set_o.subset_of(vstd::set_lib::set_int_range(0, n)));
    vstd::set_lib::lemma_int_range(0, n);
    if !set_o.contains(q) {
        assert(set_o.subset_of(vstd::set_lib::set_int_range(0, n).remove(q)));
        vstd::set_lib::lemma_len_subset(set_o, vstd::set_lib::set_int_range(0, n).remove(q));
    }
}

/// A stable order is unique: two stable orders of the same positions for the same strict weak
/// order are the same.
pub proof fn lemma_stable_order_unique(
    m: int,
    before: spec_fn(int, int) -> bool,
    o1: Seq<int>,
    o2: Seq<int>,
)
    requires
        is_strict_weak_order(m, before),
        is_stable_order(m, before, o1),
        is_stable_order(m, before, o2),
    ensures
        o1 == o2,
{
    assert forall|k: int| 0 <= k < m implies o1[k] == o2[k] by {
        lemma_stable_orders_agree_up_to(m, before, o1, o2, k);
    }
    assert(o1 =~= o2);
}

/// Two stable orders agree on every position up to `k`.
proof fn lemma_stable_orders_agree_up_to(
    m: int,
    before: spec_fn(int, int) -> bool,
    o1: Seq<int>,
    o2: Seq<int>,
    k: int,
)
    requires
        is_strict_weak_order(m, before),
        is_stable_order(m, before, o1),
        is_stable_order(m, before, o2),
        0 <= k < m,
    ensures
        forall|i: int| 0 <= i <= k ==> o1[i] == o2[i],
    decreases k,
{
    if k > 0 {
        lemma_stable_orders_agree_up_to(m, before, o1, o2, k - 1);
    }
    let x = o1[k];
    let y = o2[k];
    if x != y {
        lemma_permutation_covers(o2, m, x);
        let j = choose|j: int| 0 <= j < o2.len() && o2[j] == x;
        lemma_permutation_covers(o1, m, y);
        let jj = choose|j: int| 0 <= j < o1.len() && o1[j] == y;
        if j < k {
            assert(o1[j] == o2[j]);
            assert(o1[j] == o1[k]);
        }
        if jj < k {
            assert(o2[jj] == o1[jj]);
            assert(o2[jj] == o2[k]);
        }
        assert(j > k && jj > k);
        // In o1, x comes at k and y later; in o2, y comes at k and x later.
        assert(!before(o1[jj], o1[k]) && (!before(o1[k], o1[jj]) ==> o1[k] < o1[jj]));
        assert(!before(o2[j], o2[k]) && (!before(o2[k], o2[j]) ==> o2[k] < o2[j]));
    }
}

} // verus!
