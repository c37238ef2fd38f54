//! The node type and its rotations.

use crate::laws::{
    lemma_rotated_at_keeps_order, lemma_rotated_left_keeps_contents,
    lemma_rotated_left_keeps_order, lemma_rotated_right_keeps_contents,
    lemma_rotated_right_keeps_order,
};
use core::cmp::Ordering;
use vstd::multiset::Multiset;
use vstd::prelude::*;
use vstd::std_specs::cmp::PartialOrdSpec;

verus! {

/// Whether `lt` is transitive, as every strict total order is.
pub open spec fn is_transitive<T>(lt: spec_fn(T, T) -> bool) -> bool {
    forall|a: T, b: T, c: T| #[trigger] lt(a, b) && #[trigger] lt(b, c) ==> lt(a, c)
}

/// The strict order that the payload type itself defines: `a < b`.
pub open spec fn natural_lt<T: Ord>() -> spec_fn(T, T) -> bool {
    |a: T, b: T| a.partial_cmp_spec(&b) == Some(Ordering::Less)
}

/// The sense in which a subtree is turned.
pub enum Direction {
    /// The left child rises to the top; the old top sinks to the right.
    CLOCKWISE,
    /// The right child rises to the top; the old top sinks to the left.
    COUNTERCLOCKWISE,
}

/// Names one of the two child slots of a node.
pub enum Child {
    RIGHT,
    LEFT,
}

/// A vertex of a binary tree: a payload and two optional owned subtrees.
pub struct Node<T: Ord> {
    pub data: T,
    pub left: Option<Box<Node<T>>>,
    pub right: Option<Box<Node<T>>>,
}

impl<T: Ord> Node<T> {
    /// A node that holds `data` and has no children.
    pub open spec fn leaf(data: T) -> Node<T> {
        Node { data, left: None, right: None }
    }

    /// Creates a node with the given payload and both slots empty.
    pub fn new(data: T) -> (node: Self)
        ensures
            node == Self::leaf(data),
    {
        Self { data: data, left: None, right: None }
    }

    /// The number of nodes in the tree rooted here.
    pub open spec fn size(self) -> nat
        decreases self,
    {
        Self::slot_size(self.left) + 1 + Self::slot_size(self.right)
    }

    /// The number of nodes below a slot; an empty slot holds none.
    pub open spec fn slot_size(slot: Option<Box<Node<T>>>) -> nat
        decreases slot,
    {
        match slot {
            None => 0,
            Some(child) => child.size(),
        }
    }

    /// The payloads of the tree rooted here, each as often as it occurs.
    pub open spec fn payloads(self) -> Multiset<T>
        decreases self,
    {
        Self::slot_payloads(self.left).insert(self.data).add(Self::slot_payloads(self.right))
    }

    /// The payloads below a slot.
    pub open spec fn slot_payloads(slot: Option<Box<Node<T>>>) -> Multiset<T>
        decreases slot,
    {
        match slot {
            None => Multiset::empty(),
            Some(child) => child.payloads(),
        }
    }

    /// The payloads in in-order: left subtree, the node itself, right subtree.
    pub open spec fn in_order(self) -> Seq<T>
        decreases self,
    {
        Self::slot_in_order(self.left).push(self.data) + Self::slot_in_order(self.right)
    }

    /// The in-order sequence below a slot.
    pub open spec fn slot_in_order(slot: Option<Box<Node<T>>>) -> Seq<T>
        decreases slot,
    {
        match slot {
            None => Seq::empty(),
            Some(child) => child.in_order(),
        }
    }

    /// Whether the tree rooted here is a search tree under the relation `lt`:
    /// at every node, each payload of the left subtree is `lt` the node's
    /// payload, and the node's payload is `lt` each payload of the right
    /// subtree.
    pub open spec fn is_search_tree(self, lt: spec_fn(T, T) -> bool) -> bool
        decreases self,
    {
        &&& forall|x: T| #[trigger] Self::slot_payloads(self.left).contains(x) ==> lt(x, self.data)
        &&& forall|x: T| #[trigger]
            Self::slot_payloads(self.right).contains(x) ==> lt(self.data, x)
        &&& Self::slot_is_search_tree(self.left, lt)
        &&& Self::slot_is_search_tree(self.right, lt)
    }

    /// Whether what a slot holds is a search tree; an empty slot is one.
    pub open spec fn slot_is_search_tree(
        slot: Option<Box<Node<T>>>,
        lt: spec_fn(T, T) -> bool,
    ) -> bool
        decreases slot,
    {
        match slot {
            None => true,
            Some(child) => child.is_search_tree(lt),
        }
    }

    /// The tree that a right rotation makes of `self`.
    ///
    /// With a left child `p`, the result is rooted at `p`: it keeps `p`'s left
    /// subtree, and its right subtree is `self` with `p`'s former right subtree
    /// in the left slot. Without a left child the tree stays as it is.
    pub open spec fn rotated_right(self) -> Node<T> {
        match self.left {
            None => self,
            Some(p) => Node {
                data: p.data,
                left: p.left,
                right: Some(Box::new(Node { data: self.data, left: p.right, right: self.right })),
            },
        }
    }

    /// The tree that a left rotation makes of `self`: the mirror image of
    /// [`Node::rotated_right`].
    pub open spec fn rotated_left(self) -> Node<T> {
        match self.right {
            None => self,
            Some(q) => Node {
                data: q.data,
                left: Some(Box::new(Node { data: self.data, left: self.left, right: q.left })),
                right: q.right,
            },
        }
    }

    /// What a rotation in the given direction makes of `self`.
    pub open spec fn rotated(self, direction: Direction) -> Node<T> {
        match direction {
            Direction::CLOCKWISE => self.rotated_right(),
            Direction::COUNTERCLOCKWISE => self.rotated_left(),
        }
    }

    /// What a slot holds after the subtree in it, if any, has been rotated.
    pub open spec fn slot_rotated(slot: Option<Box<Node<T>>>, direction: Direction) -> Option<
        Box<Node<T>>,
    > {
        match slot {
            None => None,
            Some(sub) => Some(Box::new(sub.rotated(direction))),
        }
    }

    /// The tree that `self` becomes when the subtree in the named slot is
    /// rotated: the payload and the other slot stay as they are.
    pub open spec fn rotated_at(self, child: Child, direction: Direction) -> Node<T> {
        match child {
            Child::RIGHT => Node {
                data: self.data,
                left: self.left,
                right: Self::slot_rotated(self.right, direction),
            },
            Child::LEFT => Node {
                data: self.data,
                left: Self::slot_rotated(self.left, direction),
                right: self.right,
            },
        }
    }

    /// Promotes the left child to the root of this subtree.
    ///
    /// The old root becomes the right child of the new one and takes over the
    /// promoted node's former right subtree as its left subtree. A node without
    /// a left child is returned as it came.
    pub fn rotate_right(self) -> (root: Box<Node<T>>)
        ensures
            *root == self.rotated_right(),
            self.left is None ==> *root == self,
            root.size() == self.size(),
            root.payloads() == self.payloads(),
            root.in_order() == self.in_order(),
            forall|lt: spec_fn(T, T) -> bool|
                is_transitive(lt) && #[trigger] self.is_search_tree(lt) ==> root.is_search_tree(lt),
    {
        proof {
            lemma_rotated_right_keeps_contents(self);
            assert forall|lt: spec_fn(T, T) -> bool|
                is_transitive(lt) && #[trigger] self.is_search_tree(lt) implies self.rotated_right()
                .is_search_tree(lt) by {
                lemma_rotated_right_keeps_order(self, lt);
            }
        }
        let mut top = self;
        if let Some(mut node) = top.left.take() {
            top.left = node.right.take();
            node.right = Some(Box::new(top));
            return node;
        }
        Box::new(top)
    }

    /// Promotes the right child to the root of this subtree.
    ///
    /// The old root becomes the left child of the new one and takes over the
    /// promoted node's former left subtree as its right subtree. A node without
    /// a right child is returned as it came.
    pub fn rotate_left(self) -> (root: Box<Node<T>>)
        ensures
            *root == self.rotated_left(),
            self.right is None ==> *root == self,
            root.size() == self.size(),
            root.payloads() == self.payloads(),
            root.in_order() == self.in_order(),
            forall|lt: spec_fn(T, T) -> bool|
                is_transitive(lt) && #[trigger] self.is_search_tree(lt) ==> root.is_search_tree(lt),
    {
        proof {
            lemma_rotated_left_keeps_contents(self);
            assert forall|lt: spec_fn(T, T) -> bool|
                is_transitive(lt) && #[trigger] self.is_search_tree(lt) implies self.rotated_left()
                .is_search_tree(lt) by {
                lemma_rotated_left_keeps_order(self, lt);
            }
        }
        let mut top = self;
        if let Some(mut node) = top.right.take() {
            top.right = node.left.take();
            node.left = Some(Box::new(top));
            return node;
        }
        Box::new(top)
    }

    /// Rotates the subtree held in the named slot, in place.
    ///
    /// `CLOCKWISE` applies a right rotation to that subtree, `COUNTERCLOCKWISE`
    /// a left rotation; the result goes back into the same slot. The node
    /// itself stays the root: its payload and its other slot are not touched,
    /// and with the named slot empty nothing changes at all.
    pub fn rotate(&mut self, child: Child, direction: Direction)
        ensures
            *final(self) == old(self).rotated_at(child, direction),
            final(self).data == old(self).data,
            child is RIGHT ==> final(self).left == old(self).left,
            child is LEFT ==> final(self).right == old(self).right,
            child is RIGHT && old(self).right is None ==> *final(self) == *old(self),
            child is LEFT && old(self).left is None ==> *final(self) == *old(self),
            final(self).size() == old(self).size(),
            final(self).payloads() == old(self).payloads(),
            final(self).in_order() == old(self).in_order(),
            forall|lt: spec_fn(T, T) -> bool|
                is_transitive(lt) && #[trigger] old(self).is_search_tree(lt)
                    ==> final(self).is_search_tree(lt),
    {
        proof {
            assert forall|lt: spec_fn(T, T) -> bool|
                is_transitive(lt) && #[trigger] self.is_search_tree(lt) implies self.rotated_at(
                child,
                direction,
            ).is_search_tree(lt) by {
                lemma_rotated_at_keeps_order(*self, child, direction, lt);
            }
        }
        let node_ref = match child {
            Child::RIGHT => &mut self.right,
            Child::LEFT => &mut self.left,
        };

        if let Some(node) = node_ref.take() {
            let _ = node_ref.insert(
                match direction {
                    Direction::CLOCKWISE => node.rotate_right(),
                    Direction::COUNTERCLOCKWISE => node.rotate_left(),
                },
            );
        }
    }
}

} // verus!
