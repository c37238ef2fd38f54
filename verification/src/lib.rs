//! Single rotations of binary-tree nodes, with verified contracts.
//!
//! A [`node::Node`] owns a payload and up to two subtrees. The two rotations
//! re-link a node with one of its children; their contracts fix the resulting
//! tree exactly, and the lemmas in [`laws`] derive what a balancing algorithm
//! relies on: payloads and their in-order sequence are kept, a rotation is
//! undone by its mirror image, and search-tree order survives.

pub mod laws;
pub mod node;
