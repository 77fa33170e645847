//! Moving one element down or up the tree until it is in order, as functions on sequences.

use crate::order::{at_most, below, lemma_at_most_trans, lemma_below_or_at_most, total_order};
use crate::shape::{
    exchange, heap_from, is_heap, left, lemma_exchange, lemma_heap_from_root, ordered_at, parent,
    right,
};
use vstd::prelude::*;

verus! {

/// The child of node `i` that holds the smaller element, the left one on a tie.
/// Meant for a node that has a left child.
pub open spec fn smaller_child<T: Ord>(s: Seq<T>, i: int) -> int {
    if right(i) < s.len() && below(s[right(i)], s[left(i)]) {
        right(i)
    } else {
        left(i)
    }
}

/// Node `i` has a child whose element is strictly below its own.
pub open spec fn sinks<T: Ord>(s: Seq<T>, i: int) -> bool {
    0 <= i && left(i) < s.len() && below(s[smaller_child(s, i)], s[i])
}

/// `s` after the element at `i` has moved down: while a child holds a strictly
/// smaller element, it is exchanged with its smaller child.
pub open spec fn sift_down<T: Ord>(s: Seq<T>, i: int) -> Seq<T>
    decreases s.len() - i,
{
    if sinks(s, i) {
        sift_down(exchange(s, i, smaller_child(s, i)), smaller_child(s, i))
    } else {
        s
    }
}

/// Sifting down keeps the length, whatever the sequence.
pub proof fn lemma_sift_down_len<T: Ord>(s: Seq<T>, i: int)
    ensures
        sift_down(s, i).len() == s.len(),
    decreases s.len() - i,
{
    if sinks(s, i) {
        lemma_sift_down_len(exchange(s, i, smaller_child(s, i)), smaller_child(s, i));
    }
}

/// Every node with a parent at `lo` or beyond is ordered against it, but perhaps
/// the children of `i`; those are at least not below the parent of `i`.
pub open spec fn heap_from_but_below<T: Ord>(s: Seq<T>, lo: int, i: int) -> bool {
    &&& forall|k: int|
        1 <= k < s.len() && parent(k) >= lo && parent(k) != i ==> #[trigger] ordered_at(s, k)
    &&& i > 0 && parent(i) >= lo && left(i) < s.len() ==> at_most(s[parent(i)], s[left(i)])
    &&& i > 0 && parent(i) >= lo && right(i) < s.len() ==> at_most(s[parent(i)], s[right(i)])
}

/// Sifting down the one node whose children may be out of order leaves every
/// node from `lo` on the root of a heap, and only rearranges the elements.
pub proof fn lemma_sift_down<T: Ord>(s: Seq<T>, lo: int, i: int)
    requires
        total_order::<T>(),
        0 <= lo <= i < s.len(),
        heap_from_but_below(s, lo, i),
    ensures
        heap_from(sift_down(s, i), lo),
        sift_down(s, i).len() == s.len(),
        sift_down(s, i).to_multiset() == s.to_multiset(),
    decreases s.len() - i,
{
    let l = left(i);
    let r = right(i);
    if sinks(s, i) {
        let c = smaller_child(s, i);
        let t = exchange(s, i, c);
        lemma_exchange(s, i, c);
        lemma_below_or_at_most(s[c], s[i]);
        lemma_below_or_at_most(s[i], s[c]);
        if r < s.len() {
            lemma_below_or_at_most(s[r], s[l]);
            lemma_below_or_at_most(s[l], s[r]);
        }
        assert forall|k: int|
            1 <= k < t.len() && parent(k) >= lo && parent(k) != c implies #[trigger] ordered_at(
            t,
            k,
        ) by {
            if k == i {
            } else if parent(k) == i {
            } else {
                assert(ordered_at(s, k));
            }
        }
        assert(left(c) < t.len() ==> at_most(t[parent(c)], t[left(c)])) by {
            if left(c) < t.len() {
                assert(ordered_at(s, left(c)));
            }
        }
        assert(right(c) < t.len() ==> at_most(t[parent(c)], t[right(c)])) by {
            if right(c) < t.len() {
                assert(ordered_at(s, right(c)));
            }
        }
        lemma_sift_down(t, lo, c);
    } else {
        assert forall|k: int| 1 <= k < s.len() && parent(k) >= lo implies #[trigger] ordered_at(
            s,
            k,
        ) by {
            if parent(k) == i {
                let c = smaller_child(s, i);
                lemma_below_or_at_most(s[c], s[i]);
                if r < s.len() {
                    lemma_below_or_at_most(s[r], s[l]);
                    lemma_below_or_at_most(s[l], s[r]);
                    if c == r {
                        lemma_at_most_trans(s[i], s[r], s[l]);
                    } else {
                        lemma_at_most_trans(s[i], s[l], s[r]);
                    }
                }
            }
        }
    }
}

/// The element at `i` is strictly below the one at its parent.
pub open spec fn rises<T: Ord>(s: Seq<T>, i: int) -> bool {
    0 < i < s.len() && below(s[i], s[parent(i)])
}

/// `s` after the element at `i` has moved up: while it is strictly below the
/// element at its parent, the two are exchanged. An element equal to its parent
/// stays where it is.
pub open spec fn sift_up<T: Ord>(s: Seq<T>, i: int) -> Seq<T>
    decreases i,
{
    if rises(s, i) {
        sift_up(exchange(s, i, parent(i)), parent(i))
    } else {
        s
    }
}

/// Where the element that starts at `i` comes to rest when it is sifted up.
pub open spec fn sift_up_index<T: Ord>(s: Seq<T>, i: int) -> int
    decreases i,
{
    if rises(s, i) {
        sift_up_index(exchange(s, i, parent(i)), parent(i))
    } else {
        i
    }
}

/// Every node is ordered against its parent, but perhaps `i` itself; the
/// children of `i` are at least not below the parent of `i`.
pub open spec fn heap_but_at<T: Ord>(s: Seq<T>, i: int) -> bool {
    &&& forall|k: int| 1 <= k < s.len() && k != i ==> #[trigger] ordered_at(s, k)
    &&& i > 0 && left(i) < s.len() ==> at_most(s[parent(i)], s[left(i)])
    &&& i > 0 && right(i) < s.len() ==> at_most(s[parent(i)], s[right(i)])
}

/// Sifting up the one node that may be out of order gives a heap, and only
/// rearranges the elements.
pub proof fn lemma_sift_up<T: Ord>(s: Seq<T>, i: int)
    requires
        total_order::<T>(),
        0 <= i < s.len(),
        heap_but_at(s, i),
    ensures
        is_heap(sift_up(s, i)),
        sift_up(s, i).len() == s.len(),
        sift_up(s, i).to_multiset() == s.to_multiset(),
        0 <= sift_up_index(s, i) <= i,
        sift_up(s, i)[sift_up_index(s, i)] == s[i],
    decreases i,
{
    if rises(s, i) {
        let p = parent(i);
        let t = exchange(s, i, p);
        lemma_exchange(s, i, p);
        lemma_below_or_at_most(s[i], s[p]);
        lemma_below_or_at_most(s[p], s[i]);
        assert forall|k: int| 1 <= k < t.len() && k != p implies #[trigger] ordered_at(t, k) by {
            if k == i {
            } else if parent(k) == p {
                assert(ordered_at(s, k));
                lemma_at_most_trans(s[i], s[p], s[k]);
            } else if parent(k) == i {
            } else {
                assert(ordered_at(s, k));
            }
        }
        if p > 0 {
            assert(ordered_at(s, p));
            let q = if left(p) == i { right(p) } else { left(p) };
            if q < s.len() {
                assert(ordered_at(s, q));
                lemma_at_most_trans(s[parent(p)], s[p], s[q]);
            }
        }
        lemma_sift_up(t, p);
    } else {
        if i > 0 {
            lemma_below_or_at_most(s[i], s[parent(i)]);
        }
        assert forall|k: int| 1 <= k < s.len() implies #[trigger] ordered_at(s, k) by {}
    }
}

/// `s` after the nodes `n - 1`, `n - 2`, down to `0` have been sifted down, in that order.
pub open spec fn sift_all<T: Ord>(s: Seq<T>, n: int) -> Seq<T>
    decreases n,
{
    if n <= 0 {
        s
    } else {
        sift_all(sift_down(s, n - 1), n - 1)
    }
}

/// `s` made into a heap from the bottom up: every node that has a child is
/// sifted down, the last such node first, the root last.
pub open spec fn heapify<T: Ord>(s: Seq<T>) -> Seq<T> {
    sift_all(s, (s.len() / 2) as int)
}

/// Sifting down the nodes below `n`, highest first, turns a sequence in which
/// every node from `n` on is the root of a heap into a heap.
pub proof fn lemma_sift_all<T: Ord>(s: Seq<T>, n: int)
    requires
        total_order::<T>(),
        0 <= n <= s.len(),
        heap_from(s, n),
    ensures
        is_heap(sift_all(s, n)),
        sift_all(s, n).len() == s.len(),
        sift_all(s, n).to_multiset() == s.to_multiset(),
    decreases n,
{
    if n <= 0 {
        lemma_heap_from_root(s);
    } else {
        assert forall|k: int|
            1 <= k < s.len() && parent(k) >= n - 1 && parent(k) != n - 1 implies #[trigger] ordered_at(
            s,
            k,
        ) by {}
        lemma_sift_down(s, n - 1, n - 1);
        lemma_sift_all(sift_down(s, n - 1), n - 1);
    }
}

/// Heapifying any sequence gives a heap of the same elements.
pub proof fn lemma_heapify<T: Ord>(s: Seq<T>)
    requires
        total_order::<T>(),
    ensures
        is_heap(heapify(s)),
        heapify(s).len() == s.len(),
        heapify(s).to_multiset() == s.to_multiset(),
{
    let n = s.len() / 2;
    assert forall|k: int| 1 <= k < s.len() && parent(k) >= n implies #[trigger] ordered_at(
        s,
        k,
    ) by {}
    lemma_sift_all(s, n as int);
}

} // verus!
