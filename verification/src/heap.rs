//! The heap itself: a vector kept in heap order.

use crate::order::{is_below, total_order};
use crate::shape::{exchange, is_heap, is_minimum, lemma_root_is_minimum};
use crate::sift::{heapify, lemma_heapify, sift_all, sift_down, sift_up, sift_up_index};
use crate::steps::{after_pop, after_push, lemma_after_pop, lemma_after_push};
use vstd::prelude::*;

verus! {

/// Room for `n` elements of `T` is within what a vector can ever ask for:
/// `n` is a `usize` and the elements take at most `isize::MAX` bytes.
pub open spec fn fits<T>(n: int) -> bool {
    n <= usize::MAX && n * vstd::layout::size_of::<T>() <= isize::MAX
}

/// `<[T]>::swap` exchanges the elements at two positions of a slice and panics
/// when a position is out of bounds, which `requires` leaves out.
pub assume_specification<V>[ <[V]>::swap ](slice: &mut [V], a: usize, b: usize)
    requires
        a < old(slice)@.len(),
        b < old(slice)@.len(),
    ensures
        final(slice)@ == exchange(old(slice)@, a as int, b as int),
;

/// `Vec::capacity`: the number of elements the vector has room for, which is
/// never less than the number it holds.
#[verifier::external_body]
fn room<T>(v: &Vec<T>) -> (r: usize)
    ensures
        r >= v@.len(),
{
    v.capacity()
}

/// `Vec::reserve_exact`: asks for room for `additional` more elements and
/// leaves the elements as they are. It panics when the room asked for is
/// more than `isize::MAX` bytes, which `requires` leaves out.
#[verifier::external_body]
fn make_exact_room<T>(v: &mut Vec<T>, additional: usize)
    requires
        fits::<T>(old(v)@.len() + additional),
    ensures
        final(v)@ == old(v)@,
{
    v.reserve_exact(additional)
}

/// `Vec::shrink_to_fit`: gives back room that is not in use and leaves the
/// elements as they are.
#[verifier::external_body]
fn give_back_room<T>(v: &mut Vec<T>)
    ensures
        final(v)@ == old(v)@,
{
    v.shrink_to_fit()
}

/// A min-heap: a priority queue that hands out a smallest element first.
pub struct MinHeap<T> {
    ary: Vec<T>,
}

impl<T> View for MinHeap<T> {
    type V = Seq<T>;

    /// The elements in the order in which they are stored, root first.
    closed spec fn view(&self) -> Seq<T> {
        self.ary@
    }
}

impl<T> Default for MinHeap<T> {
    /// An empty heap.
    fn default() -> (heap: MinHeap<T>)
        ensures
            heap@ == Seq::<T>::empty(),
    {
        MinHeap { ary: Vec::new() }
    }
}

impl<T: Ord> MinHeap<T> {
    /// The stored sequence is in heap order.
    pub open spec fn wf(&self) -> bool {
        is_heap(self@)
    }

    /// An empty heap with room for at least `capacity` elements.
    pub fn with_capacity(capacity: usize) -> (heap: MinHeap<T>)
        requires
            fits::<T>(capacity as int),
        ensures
            heap@ == Seq::<T>::empty(),
            heap.wf(),
    {
        MinHeap { ary: Vec::with_capacity(capacity) }
    }

    /// The number of elements.
    pub fn len(&self) -> (n: usize)
        ensures
            n == self@.len(),
    {
        self.ary.len()
    }

    /// Whether the heap holds no element.
    pub fn is_empty(&self) -> (r: bool)
        ensures
            r == (self@.len() == 0),
    {
        self.len() == 0
    }

    /// The number of elements the heap has room for without asking for more memory.
    pub fn capacity(&self) -> (r: usize)
        ensures
            r >= self@.len(),
    {
        room(&self.ary)
    }

    /// Makes room for at least `additional` more elements. The order of the
    /// elements is not touched.
    pub fn reserve(&mut self, additional: usize)
        requires
            fits::<T>(old(self)@.len() + additional),
        ensures
            final(self)@ == old(self)@,
    {
        self.ary.reserve(additional)
    }

    /// Makes room for `additional` more elements, asking for no more than
    /// that. The order of the elements is not touched.
    pub fn reserve_exact(&mut self, additional: usize)
        requires
            fits::<T>(old(self)@.len() + additional),
        ensures
            final(self)@ == old(self)@,
    {
        make_exact_room(&mut self.ary, additional)
    }

    /// Gives back room that is not in use. The order of the elements is not touched.
    pub fn shrink_to_fit(&mut self)
        ensures
            final(self)@ == old(self)@,
    {
        give_back_room(&mut self.ary)
    }

    /// The stored elements, root first: in heap order, which need not be sorted.
    pub fn into_vec(self) -> (v: Vec<T>)
        ensures
            v@ == self@,
    {
        self.ary
    }

    /// Removes every element and keeps the room.
    pub fn clear(&mut self)
        ensures
            final(self)@ == Seq::<T>::empty(),
            final(self).wf(),
    {
        self.ary.clear()
    }

    /// A smallest element, which stays in the heap, or `None` if the heap is empty.
    pub fn peek(&self) -> (r: Option<&T>)
        requires
            total_order::<T>(),
            self.wf(),
        ensures
            self@.len() == 0 ==> r is None,
            self@.len() > 0 ==> r == Some(&self@[0]) && is_minimum(self@[0], self@),
    {
        proof {
            if self@.len() > 0 {
                lemma_root_is_minimum(self@);
            }
        }
        self.ary.first()
    }

    /// Inserts `item`.
    pub fn push(&mut self, item: T)
        requires
            total_order::<T>(),
            old(self).wf(),
        ensures
            final(self).wf(),
            final(self)@ == after_push(old(self)@, item),
            final(self)@.len() == old(self)@.len() + 1,
            final(self)@.to_multiset() == old(self)@.to_multiset().insert(item),
    {
        proof {
            lemma_after_push(self@, item);
        }
        self.ary.push(item);
        self.bubble_up();
    }

    /// Removes a smallest element and returns it, or returns `None` and
    /// leaves the heap as it is if the heap is empty.
    pub fn pop(&mut self) -> (r: Option<T>)
        requires
            total_order::<T>(),
            old(self).wf(),
        ensures
            final(self).wf(),
            old(self)@.len() == 0 ==> r is None && final(self)@ == old(self)@,
            old(self)@.len() > 0 ==> {
                &&& r == Some(old(self)@[0])
                &&& is_minimum(old(self)@[0], old(self)@)
                &&& final(self)@ == after_pop(old(self)@)
                &&& final(self)@.len() == old(self)@.len() - 1
                &&& final(self)@.to_multiset() == old(self)@.to_multiset().remove(old(self)@[0])
            },
    {
        if self.is_empty() {
            None
        } else {
            proof {
                lemma_after_pop(self@);
                lemma_root_is_minimum(self@);
            }
            let elem = self.ary.swap_remove(0);
            self.bubble_down(0);
            Some(elem)
        }
    }

    /// A heap of the elements of `ary`, built in place from the bottom up.
    pub fn from_vec(ary: Vec<T>) -> (heap: MinHeap<T>)
        requires
            total_order::<T>(),
        ensures
            heap.wf(),
            heap@ == heapify(ary@),
            heap@.len() == ary@.len(),
            heap@.to_multiset() == ary@.to_multiset(),
    {
        proof {
            lemma_heapify(ary@);
        }
        let mut unbuilt = MinHeap { ary };
        unbuilt.build();
        unbuilt
    }

    /// Moves every element of `other` into this heap and restores heap order
    /// over the whole: the result is the heap built from this heap's sequence
    /// followed by the other's. `other` is left empty.
    pub fn append(&mut self, other: &mut MinHeap<T>)
        requires
            total_order::<T>(),
        ensures
            final(self).wf(),
            final(other).wf(),
            final(other)@ == Seq::<T>::empty(),
            final(self)@ == heapify(old(self)@ + old(other)@),
            final(self)@.len() == old(self)@.len() + old(other)@.len(),
            final(self)@.to_multiset() == old(self)@.to_multiset().add(old(other)@.to_multiset()),
    {
        proof {
            lemma_heapify(self@ + other@);
            vstd::seq_lib::lemma_multiset_commutative(self@, other@);
        }
        self.ary.append(&mut other.ary);
        self.build();
    }

    /// Moves the last element up until it is not strictly below its parent,
    /// and returns the index at which it comes to rest.
    fn bubble_up(&mut self) -> (index: usize)
        requires
            total_order::<T>(),
            old(self)@.len() > 0,
        ensures
            final(self)@ == sift_up(old(self)@, old(self)@.len() - 1),
            index == sift_up_index(old(self)@, old(self)@.len() - 1),
    {
        let len = self.ary.len();
        let mut index: usize = len - 1;
        while index > 0
            invariant
                total_order::<T>(),
                len == self.ary@.len(),
                index < len,
                sift_up(self.ary@, index as int) == sift_up(old(self).ary@, len - 1),
                sift_up_index(self.ary@, index as int) == sift_up_index(old(self).ary@, len - 1),
            ensures
                self.ary@ == sift_up(old(self).ary@, len - 1),
                index == sift_up_index(old(self).ary@, len - 1),
            decreases index,
        {
            let parent: usize = (index - 1) / 2;
            if !is_below(&self.ary[index], &self.ary[parent]) {
                break;
            }
            self.ary.swap(index, parent);
            index = parent;
        }
        index
    }

    /// Puts the elements into heap order, whatever order they are in: every
    /// node that has a child is sifted down, the last such node first.
    fn build(&mut self)
        requires
            total_order::<T>(),
        ensures
            final(self)@ == heapify(old(self)@),
    {
        if self.len() <= 1 {
            return;
        }
        let mut n: usize = self.ary.len() / 2;
        while n > 0
            invariant
                total_order::<T>(),
                sift_all(self.ary@, n as int) == heapify(old(self).ary@),
            decreases n,
        {
            n -= 1;
            self.bubble_down(n);
        }
    }

    /// Moves the element at `start` down until no child is strictly below it.
    fn bubble_down(&mut self, start: usize)
        requires
            total_order::<T>(),
        ensures
            final(self)@ == sift_down(old(self)@, start as int),
    {
        let len = self.ary.len();
        let mut index: usize = start;
        loop
            invariant
                total_order::<T>(),
                len == self.ary@.len(),
                sift_down(self.ary@, index as int) == sift_down(old(self).ary@, start as int),
            ensures
                self.ary@ == sift_down(old(self).ary@, start as int),
            decreases len - index,
        {
            if index >= len / 2 {
                break;
            }
            let left: usize = 2 * index + 1;
            let right: usize = left + 1;
            let mut child: usize = left;
            if right < len && is_below(&self.ary[right], &self.ary[left]) {
                child = right;
            }
            if !is_below(&self.ary[child], &self.ary[index]) {
                break;
            }
            self.ary.swap(index, child);
            index = child;
        }
    }
}

} // verus!
