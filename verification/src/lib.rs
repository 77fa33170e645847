//! A binary min-heap over any totally ordered element type.

pub mod heap;
pub mod laws;
pub mod order;
pub mod shape;
pub mod sift;
pub mod steps;

pub use heap::MinHeap;
