//! What one insertion and one removal do to the sequence behind a heap.

use crate::order::total_order;
use crate::shape::{is_heap, lemma_heap_from_root, ordered_at, parent};
use crate::sift::{
    heap_but_at, heap_from_but_below, lemma_sift_down, lemma_sift_up, sift_down, sift_up,
};
use vstd::prelude::*;

verus! {

/// The sequence after `x` is inserted: `x` is put behind the last element and sifted up.
pub open spec fn after_push<T: Ord>(s: Seq<T>, x: T) -> Seq<T> {
    sift_up(s.push(x), s.len() as int)
}

/// A sequence that is not empty, with its first element overwritten by its
/// last one and the last place given up.
pub open spec fn without_root<T>(s: Seq<T>) -> Seq<T> {
    s.update(0, s.last()).drop_last()
}

/// The sequence after its root is removed: the last element takes the root's
/// place and is sifted down.
pub open spec fn after_pop<T: Ord>(s: Seq<T>) -> Seq<T> {
    sift_down(without_root(s), 0)
}

/// Inserting into a heap gives a heap with one element more: the old elements and the new one.
pub proof fn lemma_after_push<T: Ord>(s: Seq<T>, x: T)
    requires
        total_order::<T>(),
        is_heap(s),
    ensures
        is_heap(after_push(s, x)),
        after_push(s, x).len() == s.len() + 1,
        after_push(s, x).to_multiset() == s.to_multiset().insert(x),
{
    broadcast use vstd::seq_lib::to_multiset_build;

    let t = s.push(x);
    let n = s.len() as int;
    assert forall|k: int| 1 <= k < t.len() && k != n implies #[trigger] ordered_at(t, k) by {
        assert(ordered_at(s, k));
    }
    assert(heap_but_at(t, n));
    lemma_sift_up(t, n);
}

/// Removing the root of a heap gives a heap with one element less: the old
/// elements without one occurrence of the old root.
pub proof fn lemma_after_pop<T: Ord>(s: Seq<T>)
    requires
        total_order::<T>(),
        is_heap(s),
        s.len() > 0,
    ensures
        is_heap(after_pop(s)),
        after_pop(s).len() == s.len() - 1,
        after_pop(s).to_multiset() == s.to_multiset().remove(s[0]),
{
    let w = without_root(s);
    let n = s.len() as int;
    assert(w.to_multiset() == s.to_multiset().remove(s[0])) by {
        broadcast use vstd::seq_lib::to_multiset_update;
        broadcast use vstd::seq_lib::to_multiset_remove;
        broadcast use vstd::seq_lib::to_multiset_contains;

        let u = s.update(0, s.last());
        assert(u.to_multiset() == s.to_multiset().insert(s.last()).remove(s[0]));
        assert(w == u.remove(n - 1));
        assert(u[n - 1] == s.last());
        assert(s.contains(s[0]));
        assert(w.to_multiset() =~= s.to_multiset().remove(s[0]));
    }
    if n == 1 {
        assert(w.len() == 0);
        assert(after_pop(s) == w);
    } else {
        assert forall|k: int|
            1 <= k < w.len() && parent(k) >= 0 && parent(k) != 0 implies #[trigger] ordered_at(
            w,
            k,
        ) by {
            assert(ordered_at(s, k));
        }
        assert(heap_from_but_below(w, 0, 0));
        lemma_sift_down(w, 0, 0);
        lemma_heap_from_root(after_pop(s));
    }
}

} // verus!
