//! What holds of a heap over a run of operations.

use crate::order::{at_most, lemma_at_most_refl, total_order};
use crate::shape::{is_heap, lemma_root_at_most};
use crate::sift::{heapify, lemma_heapify, lemma_sift_down_len};
use crate::steps::{after_pop, lemma_after_pop, without_root};
use vstd::prelude::*;

verus! {

/// No element is above one that comes after it.
pub open spec fn sorted<T: Ord>(q: Seq<T>) -> bool {
    forall|i: int, j: int| 0 <= i <= j < q.len() ==> at_most(q[i], q[j])
}

/// The elements in the order in which removing the root again and again,
/// until nothing is left, hands them out.
pub open spec fn drain<T: Ord>(s: Seq<T>) -> Seq<T>
    decreases s.len(),
{
    if s.len() == 0 {
        Seq::empty()
    } else {
        proof {
            lemma_sift_down_len(without_root(s), 0);
        }
        seq![s[0]] + drain(after_pop(s))
    }
}

/// Draining a heap hands out all of its elements, in sorted order.
pub proof fn lemma_drain_sorted<T: Ord>(s: Seq<T>)
    requires
        total_order::<T>(),
        is_heap(s),
    ensures
        drain(s).len() == s.len(),
        drain(s).to_multiset() == s.to_multiset(),
        sorted(drain(s)),
    decreases s.len(),
{
    broadcast use vstd::seq_lib::to_multiset_contains;
    broadcast use vstd::seq_lib::to_multiset_insert;

    if s.len() == 0 {
        assert(s =~= Seq::<T>::empty());
    } else {
        let t = after_pop(s);
        lemma_after_pop(s);
        lemma_drain_sorted(t);
        let d = drain(t);
        let r = drain(s);
        let m = s.to_multiset();
        assert(r =~= d.insert(0, s[0]));
        assert(s.contains(s[0]));
        assert(r.to_multiset() =~= m);
        assert forall|i: int, j: int| 0 <= i <= j < r.len() implies at_most(r[i], r[j]) by {
            if i > 0 {
                assert(at_most(d[i - 1], d[j - 1]));
            } else if j == 0 {
                lemma_at_most_refl(s[0]);
            } else {
                let x = d[j - 1];
                assert(d.contains(x));
                assert(t.to_multiset().count(x) > 0);
                assert(m.count(x) > 0);
                assert(s.contains(x));
                let k = choose|k: int| 0 <= k < s.len() && s[k] == x;
                lemma_root_at_most(s, k);
            }
        }
    }
}

/// Building a heap from any sequence and draining it hands out the elements
/// of that sequence in sorted order.
pub proof fn lemma_build_then_drain_sorts<T: Ord>(s: Seq<T>)
    requires
        total_order::<T>(),
    ensures
        drain(heapify(s)).len() == s.len(),
        drain(heapify(s)).to_multiset() == s.to_multiset(),
        sorted(drain(heapify(s))),
{
    lemma_heapify(s);
    lemma_drain_sorted(heapify(s));
}

} // verus!
