//! The implicit binary tree over a sequence, and what it means for it to be a heap.

use crate::order::{at_most, lemma_at_most_refl, lemma_at_most_trans, total_order};
use vstd::prelude::*;

verus! {

/// Index of the node above node `i`, for `i >= 1`.
pub open spec fn parent(i: int) -> int {
    (i - 1) / 2
}

/// Index of the left node below node `i`.
pub open spec fn left(i: int) -> int {
    2 * i + 1
}

/// Index of the right node below node `i`.
pub open spec fn right(i: int) -> int {
    2 * i + 2
}

/// The element at `i` is not below the element at its parent.
pub open spec fn ordered_at<T: Ord>(s: Seq<T>, i: int) -> bool {
    at_most(s[parent(i)], s[i])
}

/// Every node but the root is ordered against its parent.
pub open spec fn is_heap<T: Ord>(s: Seq<T>) -> bool {
    forall|i: int| 1 <= i < s.len() ==> #[trigger] ordered_at(s, i)
}

/// Every node whose parent has index `lo` or more is ordered against that parent:
/// each node from `lo` on is the root of a heap.
pub open spec fn heap_from<T: Ord>(s: Seq<T>, lo: int) -> bool {
    forall|k: int| 1 <= k < s.len() && parent(k) >= lo ==> #[trigger] ordered_at(s, k)
}

/// `s` with the elements at `i` and `j` exchanged.
pub open spec fn exchange<T>(s: Seq<T>, i: int, j: int) -> Seq<T> {
    s.update(i, s[j]).update(j, s[i])
}

/// `x` occurs in `s` and no element of `s` is below it.
pub open spec fn is_minimum<T: Ord>(x: T, s: Seq<T>) -> bool {
    &&& s.contains(x)
    &&& forall|i: int| 0 <= i < s.len() ==> at_most(x, #[trigger] s[i])
}

/// A sequence is a heap exactly when every node is the root of a heap.
pub proof fn lemma_heap_from_root<T: Ord>(s: Seq<T>)
    ensures
        is_heap(s) <==> heap_from(s, 0),
{
    if is_heap(s) {
        assert forall|k: int| 1 <= k < s.len() && parent(k) >= 0 implies #[trigger] ordered_at(
            s,
            k,
        ) by {}
    }
    if heap_from(s, 0) {
        assert forall|i: int| 1 <= i < s.len() implies #[trigger] ordered_at(s, i) by {
            assert(parent(i) >= 0);
        }
    }
}

/// Exchanging two elements keeps the length and the elements, counted with multiplicity.
pub proof fn lemma_exchange<T>(s: Seq<T>, i: int, j: int)
    requires
        0 <= i < s.len(),
        0 <= j < s.len(),
    ensures
        exchange(s, i, j).len() == s.len(),
        exchange(s, i, j).to_multiset() == s.to_multiset(),
{
    broadcast use vstd::seq_lib::to_multiset_update;

    let m = s.to_multiset();
    let t = s.update(i, s[j]);
    assert(t.to_multiset() == m.insert(s[j]).remove(s[i]));
    assert(t[j] == if i == j { s[j] } else { s[j] });
    assert(exchange(s, i, j).to_multiset() == t.to_multiset().insert(s[i]).remove(s[j]));
    assert(m.count(s[i]) > 0) by {
        broadcast use vstd::seq_lib::to_multiset_contains;

        assert(s.contains(s[i]));
    }
    assert(m.insert(s[j]).remove(s[i]).insert(s[i]).remove(s[j]) =~= m);
}

/// In a heap the root is not above any node.
pub proof fn lemma_root_at_most<T: Ord>(s: Seq<T>, i: int)
    requires
        total_order::<T>(),
        is_heap(s),
        0 <= i < s.len(),
    ensures
        at_most(s[0], s[i]),
    decreases i,
{
    if i == 0 {
        lemma_at_most_refl(s[0]);
    } else {
        lemma_root_at_most(s, parent(i));
        assert(ordered_at(s, i));
        lemma_at_most_trans(s[0], s[parent(i)], s[i]);
    }
}

/// The root of a heap that is not empty is a minimum of its elements.
pub proof fn lemma_root_is_minimum<T: Ord>(s: Seq<T>)
    requires
        total_order::<T>(),
        is_heap(s),
        s.len() > 0,
    ensures
        is_minimum(s[0], s),
{
    assert(s.contains(s[0]));
    assert forall|i: int| 0 <= i < s.len() implies at_most(s[0], #[trigger] s[i]) by {
        lemma_root_at_most(s, i);
    }
}

} // verus!
