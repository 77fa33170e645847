use dune::MinHeap;
use std::cmp::Ordering;

fn in_heap_order<T: Ord>(v: &[T]) -> bool {
    (1..v.len()).all(|i| v[(i - 1) / 2] <= v[i])
}

fn drained(mut heap: MinHeap<i32>) -> Vec<i32> {
    let mut out = Vec::new();
    while let Some(x) = heap.pop() {
        out.push(x);
    }
    out
}

fn scrambled(n: usize) -> Vec<i32> {
    let mut x: u32 = 12345;
    let mut v = Vec::new();
    for _ in 0..n {
        x = x.wrapping_mul(1103515245).wrapping_add(12345);
        v.push(((x >> 16) % 50) as i32);
    }
    v
}

/// Ordered by `key` alone, so that two values can compare equal and still be told apart.
#[derive(Debug, Clone, Copy)]
struct Tagged {
    key: u32,
    tag: char,
}

impl PartialEq for Tagged {
    fn eq(&self, other: &Self) -> bool {
        self.key == other.key
    }
}

impl Eq for Tagged {}

impl PartialOrd for Tagged {
    fn partial_cmp(&self, other: &Self) -> Option<Ordering> {
        Some(self.cmp(other))
    }
}

impl Ord for Tagged {
    fn cmp(&self, other: &Self) -> Ordering {
        self.key.cmp(&other.key)
    }
}

fn tags(v: &[Tagged]) -> Vec<char> {
    v.iter().map(|t| t.tag).collect()
}

#[test]
fn with_capacity_initializes_with_capacity() {
    for cap in 0..4096 {
        let heap = MinHeap::<()>::with_capacity(cap);
        assert!(heap.len() == 0);
        assert!(heap.is_empty());
        assert!(heap.capacity() >= cap);
    }
}

#[test]
fn with_capacity_of_integers_has_the_room() {
    for cap in [0usize, 1, 7, 100] {
        let heap = MinHeap::<u64>::with_capacity(cap);
        assert_eq!(heap.len(), 0);
        assert!(heap.capacity() >= cap);
        assert!(heap.peek().is_none());
    }
}

#[test]
fn default_is_empty() {
    let heap: MinHeap<i32> = MinHeap::default();
    assert!(heap.is_empty());
    assert_eq!(heap.into_vec(), Vec::<i32>::new());
}

#[test]
fn from_vec_then_drain_is_sorted() {
    let heap = MinHeap::from_vec(vec![5, 3, 8, 1, 9, 2]);
    assert_eq!(heap.peek(), Some(&1));
    assert_eq!(drained(heap), vec![1, 2, 3, 5, 8, 9]);
}

#[test]
fn from_vec_arranges_bottom_up() {
    let heap = MinHeap::from_vec(vec![5, 3, 8, 1, 9, 2]);
    assert_eq!(heap.into_vec(), vec![1, 3, 2, 5, 9, 8]);
}

#[test]
fn from_vec_of_nothing_and_of_one() {
    let heap = MinHeap::from_vec(Vec::<i32>::new());
    assert!(heap.is_empty());
    assert!(heap.peek().is_none());
    let heap = MinHeap::from_vec(vec![42]);
    assert_eq!(heap.len(), 1);
    assert_eq!(heap.into_vec(), vec![42]);
}

#[test]
fn from_vec_is_a_heap_for_every_length() {
    for n in 0..70usize {
        let input = scrambled(n);
        let heap = MinHeap::from_vec(input.clone());
        assert_eq!(heap.len(), n);
        let stored = heap.into_vec();
        assert!(in_heap_order(&stored), "length {}", n);
        let mut a = stored.clone();
        a.sort();
        let mut b = input.clone();
        b.sort();
        assert_eq!(a, b);
        assert_eq!(drained(MinHeap::from_vec(input)), b);
    }
}

#[test]
fn from_vec_of_a_descending_run() {
    for n in [2usize, 3, 4, 5, 6, 7, 8, 9, 15, 16, 17, 31, 33] {
        let input: Vec<i32> = (0..n as i32).rev().collect();
        let stored = MinHeap::from_vec(input).into_vec();
        assert!(in_heap_order(&stored), "length {}", n);
        assert_eq!(stored[0], 0);
    }
}

#[test]
fn push_keeps_heap_order() {
    let mut pushed = Vec::new();
    for x in [4, 2, 6] {
        pushed.push(x);
        let mut heap = MinHeap::with_capacity(0);
        for y in &pushed {
            heap.push(*y);
        }
        assert_eq!(heap.len(), pushed.len());
        assert_eq!(heap.peek(), pushed.iter().min());
        assert!(in_heap_order(&heap.into_vec()));
    }
    let mut heap = MinHeap::with_capacity(0);
    heap.push(4);
    heap.push(2);
    heap.push(6);
    assert_eq!(heap.peek(), Some(&2));
    assert_eq!(heap.into_vec(), vec![2, 4, 6]);
}

#[test]
fn push_moves_the_new_element_to_its_level() {
    let mut heap = MinHeap::from_vec(vec![1, 3, 2, 5, 9, 8]);
    heap.push(0);
    assert_eq!(heap.into_vec(), vec![0, 3, 1, 5, 9, 8, 2]);
}

#[test]
fn pop_on_empty_changes_nothing() {
    let mut heap: MinHeap<i32> = MinHeap::with_capacity(0);
    assert_eq!(heap.pop(), None);
    assert_eq!(heap.len(), 0);
    assert_eq!(heap.pop(), None);
    assert_eq!(heap.len(), 0);
    assert!(heap.is_empty());
    assert!(heap.peek().is_none());
}

#[test]
fn pop_moves_the_last_element_down() {
    let mut heap = MinHeap::from_vec(vec![1, 3, 2, 5, 9, 8]);
    assert_eq!(heap.pop(), Some(1));
    assert_eq!(heap.len(), 5);
    assert_eq!(heap.into_vec(), vec![2, 3, 8, 5, 9]);
}

#[test]
fn pop_of_the_only_element() {
    let mut heap = MinHeap::from_vec(vec![7]);
    assert_eq!(heap.pop(), Some(7));
    assert!(heap.is_empty());
    assert_eq!(heap.pop(), None);
}

#[test]
fn pushes_and_pops_mixed() {
    let mut heap = MinHeap::with_capacity(4);
    for x in [50, 20, 90, 10, 70, 30, 80, 40, 60, 100] {
        let before = heap.len();
        heap.push(x);
        assert_eq!(heap.len(), before + 1);
    }
    for expected in [10, 20, 30, 40, 50] {
        let before = heap.len();
        assert_eq!(heap.pop(), Some(expected));
        assert_eq!(heap.len(), before - 1);
    }
    for x in [5, 65, 200] {
        heap.push(x);
    }
    assert_eq!(heap.len(), 8);
    assert_eq!(heap.peek(), Some(&5));
    let stored = heap.into_vec();
    assert!(in_heap_order(&stored));
    let mut all = stored.clone();
    all.sort();
    assert_eq!(all, vec![5, 60, 65, 70, 80, 90, 100, 200]);
}

#[test]
fn append_merges_and_restores_heap_order() {
    let mut a = MinHeap::from_vec(vec![4, 1, 7]);
    let mut b = MinHeap::from_vec(vec![2, 9, 0]);
    a.append(&mut b);
    assert!(b.is_empty());
    assert_eq!(a.len(), 6);
    assert_eq!(a.peek(), Some(&0));
    assert_eq!(drained(a), vec![0, 1, 2, 4, 7, 9]);
}

#[test]
fn append_builds_from_the_joined_sequences() {
    let mut a = MinHeap::from_vec(vec![4, 1, 7]);
    let mut b = MinHeap::from_vec(vec![2, 9, 0]);
    let mut joined = Vec::new();
    joined.extend(MinHeap::from_vec(vec![4, 1, 7]).into_vec());
    joined.extend(MinHeap::from_vec(vec![2, 9, 0]).into_vec());
    assert_eq!(joined, vec![1, 4, 7, 0, 9, 2]);
    a.append(&mut b);
    let stored = a.into_vec();
    assert!(in_heap_order(&stored));
    assert_eq!(stored, MinHeap::from_vec(joined).into_vec());
    assert_eq!(stored, vec![0, 1, 2, 4, 9, 7]);
    b.push(3);
    assert_eq!(b.into_vec(), vec![3]);
}

#[test]
fn append_of_and_to_an_empty_heap() {
    let mut a = MinHeap::from_vec(vec![3, 1, 2]);
    let mut b = MinHeap::with_capacity(0);
    a.append(&mut b);
    assert_eq!(a.len(), 3);
    b.append(&mut a);
    assert!(a.is_empty());
    assert_eq!(drained(b), vec![1, 2, 3]);
}

#[test]
fn a_tie_between_children_goes_left() {
    let input = vec![
        Tagged { key: 2, tag: 'a' },
        Tagged { key: 1, tag: 'b' },
        Tagged { key: 1, tag: 'c' },
    ];
    let stored = MinHeap::from_vec(input).into_vec();
    assert_eq!(tags(&stored), vec!['b', 'a', 'c']);
}

#[test]
fn a_strictly_smaller_right_child_is_taken() {
    let input = vec![
        Tagged { key: 3, tag: 'a' },
        Tagged { key: 2, tag: 'b' },
        Tagged { key: 1, tag: 'c' },
    ];
    let stored = MinHeap::from_vec(input).into_vec();
    assert_eq!(tags(&stored), vec!['c', 'b', 'a']);
}

#[test]
fn an_element_equal_to_its_parent_stays_below_it() {
    let mut heap = MinHeap::with_capacity(2);
    heap.push(Tagged { key: 1, tag: 'a' });
    heap.push(Tagged { key: 1, tag: 'b' });
    assert_eq!(heap.peek().map(|t| t.tag), Some('a'));
    assert_eq!(tags(&heap.into_vec()), vec!['a', 'b']);
}

#[test]
fn an_element_equal_to_its_child_stays_above_it() {
    let mut heap = MinHeap::from_vec(vec![
        Tagged { key: 0, tag: 'r' },
        Tagged { key: 1, tag: 'a' },
        Tagged { key: 1, tag: 'b' },
    ]);
    assert_eq!(heap.pop().map(|t| t.tag), Some('r'));
    assert_eq!(tags(&heap.into_vec()), vec!['b', 'a']);
}

#[test]
fn clear_twice() {
    let mut heap = MinHeap::from_vec(vec![3, 1, 2]);
    heap.reserve(32);
    let room = heap.capacity();
    heap.clear();
    assert_eq!(heap.len(), 0);
    assert!(heap.is_empty());
    assert!(heap.capacity() >= room);
    heap.clear();
    assert_eq!(heap.len(), 0);
    assert!(heap.peek().is_none());
    heap.push(9);
    assert_eq!(heap.peek(), Some(&9));
}

#[test]
fn clear_on_empty_is_a_no_op() {
    let mut heap: MinHeap<i32> = MinHeap::with_capacity(3);
    heap.clear();
    assert!(heap.is_empty());
    assert_eq!(heap.pop(), None);
}

#[test]
fn reserve_makes_room_and_keeps_the_elements() {
    let mut heap = MinHeap::from_vec(vec![5, 3, 8, 1, 9, 2]);
    heap.reserve(100);
    assert!(heap.capacity() >= 106);
    assert_eq!(heap.len(), 6);
    assert_eq!(heap.into_vec(), vec![1, 3, 2, 5, 9, 8]);
}

#[test]
fn reserve_exact_makes_room_and_keeps_the_elements() {
    let mut heap = MinHeap::from_vec(vec![5, 3, 8, 1, 9, 2]);
    heap.shrink_to_fit();
    heap.reserve_exact(58);
    assert!(heap.capacity() >= 64);
    assert_eq!(heap.len(), 6);
    assert_eq!(heap.into_vec(), vec![1, 3, 2, 5, 9, 8]);
}

#[test]
fn shrink_to_fit_gives_room_back_and_keeps_the_elements() {
    let mut heap = MinHeap::with_capacity(1000);
    for x in [5, 3, 8] {
        heap.push(x);
    }
    assert!(heap.capacity() >= 1000);
    heap.shrink_to_fit();
    assert!(heap.capacity() >= 3);
    assert!(heap.capacity() < 1000);
    assert_eq!(heap.into_vec(), vec![3, 5, 8]);
}

#[test]
fn len_and_is_empty_agree() {
    let mut heap = MinHeap::with_capacity(0);
    assert_eq!(heap.is_empty(), heap.len() == 0);
    heap.push(1);
    assert_eq!(heap.is_empty(), heap.len() == 0);
    assert_eq!(heap.len(), 1);
    heap.pop();
    assert_eq!(heap.is_empty(), heap.len() == 0);
}

#[test]
fn into_vec_holds_what_was_given() {
    let input = vec![9, 9, 1, 4, 4, 4, 0];
    let mut stored = MinHeap::from_vec(input.clone()).into_vec();
    assert!(in_heap_order(&stored));
    stored.sort();
    assert_eq!(stored, vec![0, 1, 4, 4, 4, 9, 9]);
}
