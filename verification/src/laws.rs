//! What holds of every rotation, stated over the model in [`crate::node`].

use crate::node::{is_transitive, natural_lt, Child, Direction, Node};
use vstd::laws_cmp::{obeys_cmp, obeys_partial_cmp_spec_properties};
use vstd::prelude::*;
use vstd::std_specs::cmp::PartialOrdSpec;

verus! {

/// A right rotation keeps the number of nodes, the payloads with their
/// multiplicities, and the in-order sequence of the payloads.
pub proof fn lemma_rotated_right_keeps_contents<T: Ord>(n: Node<T>)
    ensures
        n.rotated_right().size() == n.size(),
        n.rotated_right().payloads() == n.payloads(),
        n.rotated_right().in_order() == n.in_order(),
{
    match n.left {
        None => {},
        Some(p) => {
            let r = n.rotated_right();
            let sunk = *r.right.unwrap();
            assert(sunk.size() == Node::slot_size(p.right) + 1 + Node::slot_size(n.right));
            assert(r.size() == Node::slot_size(p.left) + 1 + sunk.size());
            assert(p.size() == Node::slot_size(p.left) + 1 + Node::slot_size(p.right));
            assert(sunk.payloads() == Node::slot_payloads(p.right).insert(n.data).add(
                Node::slot_payloads(n.right),
            ));
            assert(p.payloads() == Node::slot_payloads(p.left).insert(p.data).add(
                Node::slot_payloads(p.right),
            ));
            assert(r.payloads() =~= n.payloads());
            assert(sunk.in_order() == Node::slot_in_order(p.right).push(n.data)
                + Node::slot_in_order(n.right));
            assert(p.in_order() == Node::slot_in_order(p.left).push(p.data) + Node::slot_in_order(
                p.right,
            ));
            assert(r.in_order() =~= n.in_order());
        },
    }
}

/// A left rotation keeps the number of nodes, the payloads with their
/// multiplicities, and the in-order sequence of the payloads.
pub proof fn lemma_rotated_left_keeps_contents<T: Ord>(n: Node<T>)
    ensures
        n.rotated_left().size() == n.size(),
        n.rotated_left().payloads() == n.payloads(),
        n.rotated_left().in_order() == n.in_order(),
{
    match n.right {
        None => {},
        Some(q) => {
            let r = n.rotated_left();
            let sunk = *r.left.unwrap();
            assert(sunk.size() == Node::slot_size(n.left) + 1 + Node::slot_size(q.left));
            assert(r.size() == sunk.size() + 1 + Node::slot_size(q.right));
            assert(q.size() == Node::slot_size(q.left) + 1 + Node::slot_size(q.right));
            assert(sunk.payloads() == Node::slot_payloads(n.left).insert(n.data).add(
                Node::slot_payloads(q.left),
            ));
            assert(q.payloads() == Node::slot_payloads(q.left).insert(q.data).add(
                Node::slot_payloads(q.right),
            ));
            assert(r.payloads() =~= n.payloads());
            assert(sunk.in_order() == Node::slot_in_order(n.left).push(n.data)
                + Node::slot_in_order(q.left));
            assert(q.in_order() == Node::slot_in_order(q.left).push(q.data) + Node::slot_in_order(
                q.right,
            ));
            assert(r.in_order() =~= n.in_order());
        },
    }
}

/// Rotating right and then rotating the new root left gives back the tree
/// one started with, provided there was a left child to promote.
pub proof fn lemma_right_then_left_restores<T: Ord>(n: Node<T>)
    requires
        n.left is Some,
    ensures
        n.rotated_right().right is Some,
        n.rotated_right().rotated_left() == n,
{
}

/// Rotating left and then rotating the new root right gives back the tree
/// one started with, provided there was a right child to promote.
pub proof fn lemma_left_then_right_restores<T: Ord>(n: Node<T>)
    requires
        n.right is Some,
    ensures
        n.rotated_left().left is Some,
        n.rotated_left().rotated_right() == n,
{
}

/// A right rotation of a search tree under a transitive relation gives a
/// search tree under the same relation.
pub proof fn lemma_rotated_right_keeps_order<T: Ord>(n: Node<T>, lt: spec_fn(T, T) -> bool)
    requires
        is_transitive(lt),
        n.is_search_tree(lt),
    ensures
        n.rotated_right().is_search_tree(lt),
{
    match n.left {
        None => {},
        Some(p) => {
            let r = n.rotated_right();
            let sunk = *r.right.unwrap();
            assert(p.is_search_tree(lt));
            assert(p.payloads() == Node::slot_payloads(p.left).insert(p.data).add(
                Node::slot_payloads(p.right),
            ));
            assert(sunk.payloads() == Node::slot_payloads(p.right).insert(n.data).add(
                Node::slot_payloads(n.right),
            ));
            assert(Node::slot_payloads(n.left).contains(p.data));
            assert forall|x: T| #[trigger] Node::slot_payloads(sunk.left).contains(x) implies lt(
                x,
                sunk.data,
            ) by {
                assert(Node::slot_payloads(n.left).contains(x));
            }
            assert(sunk.is_search_tree(lt));
            assert forall|x: T| #[trigger] Node::slot_payloads(r.right).contains(x) implies lt(
                r.data,
                x,
            ) by {
                assert(sunk.payloads().contains(x));
                assert(lt(p.data, n.data));
                if Node::slot_payloads(p.right).contains(x) {
                } else if x == n.data {
                } else {
                    assert(Node::slot_payloads(n.right).contains(x));
                    assert(lt(n.data, x));
                }
            }
            assert(r.is_search_tree(lt));
        },
    }
}

/// A left rotation of a search tree under a transitive relation gives a
/// search tree under the same relation.
pub proof fn lemma_rotated_left_keeps_order<T: Ord>(n: Node<T>, lt: spec_fn(T, T) -> bool)
    requires
        is_transitive(lt),
        n.is_search_tree(lt),
    ensures
        n.rotated_left().is_search_tree(lt),
{
    match n.right {
        None => {},
        Some(q) => {
            let r = n.rotated_left();
            let sunk = *r.left.unwrap();
            assert(q.is_search_tree(lt));
            assert(q.payloads() == Node::slot_payloads(q.left).insert(q.data).add(
                Node::slot_payloads(q.right),
            ));
            assert(sunk.payloads() == Node::slot_payloads(n.left).insert(n.data).add(
                Node::slot_payloads(q.left),
            ));
            assert(Node::slot_payloads(n.right).contains(q.data));
            assert forall|x: T| #[trigger] Node::slot_payloads(sunk.right).contains(x) implies lt(
                sunk.data,
                x,
            ) by {
                assert(Node::slot_payloads(n.right).contains(x));
            }
            assert(sunk.is_search_tree(lt));
            assert forall|x: T| #[trigger] Node::slot_payloads(r.left).contains(x) implies lt(
                x,
                r.data,
            ) by {
                assert(sunk.payloads().contains(x));
                assert(lt(n.data, q.data));
                if Node::slot_payloads(q.left).contains(x) {
                } else if x == n.data {
                } else {
                    assert(Node::slot_payloads(n.left).contains(x));
                    assert(lt(x, n.data));
                }
            }
            assert(r.is_search_tree(lt));
        },
    }
}

/// Rotating the subtree in one slot of a node leaves the node's payload and
/// its other slot as they were, and an empty slot leaves the whole node so.
pub proof fn lemma_rotated_at_touches_one_slot<T: Ord>(
    n: Node<T>,
    child: Child,
    direction: Direction,
)
    ensures
        n.rotated_at(child, direction).data == n.data,
        child is RIGHT ==> n.rotated_at(child, direction).left == n.left,
        child is LEFT ==> n.rotated_at(child, direction).right == n.right,
        child is RIGHT && n.right is None ==> n.rotated_at(child, direction) == n,
        child is LEFT && n.left is None ==> n.rotated_at(child, direction) == n,
{
}

/// Rotating the subtree in one slot of a node keeps the node count, the
/// payloads and their in-order sequence of the whole tree.
pub proof fn lemma_rotated_at_keeps_contents<T: Ord>(
    n: Node<T>,
    child: Child,
    direction: Direction,
)
    ensures
        n.rotated_at(child, direction).size() == n.size(),
        n.rotated_at(child, direction).payloads() == n.payloads(),
        n.rotated_at(child, direction).in_order() == n.in_order(),
{
    let slot = match child {
        Child::RIGHT => n.right,
        Child::LEFT => n.left,
    };
    if let Some(sub) = slot {
        lemma_rotated_right_keeps_contents(*sub);
        lemma_rotated_left_keeps_contents(*sub);
    }
}

/// Rotating the subtree in one slot of a search tree under a transitive
/// relation gives a search tree under the same relation.
pub proof fn lemma_rotated_at_keeps_order<T: Ord>(
    n: Node<T>,
    child: Child,
    direction: Direction,
    lt: spec_fn(T, T) -> bool,
)
    requires
        is_transitive(lt),
        n.is_search_tree(lt),
    ensures
        n.rotated_at(child, direction).is_search_tree(lt),
{
    let slot = match child {
        Child::RIGHT => n.right,
        Child::LEFT => n.left,
    };
    if let Some(sub) = slot {
        lemma_rotated_right_keeps_contents(*sub);
        lemma_rotated_left_keeps_contents(*sub);
        lemma_rotated_right_keeps_order(*sub, lt);
        lemma_rotated_left_keeps_order(*sub, lt);
        let turned = sub.rotated(direction);
        assert(turned.payloads() == sub.payloads());
        assert(turned.is_search_tree(lt));
        let r = n.rotated_at(child, direction);
        assert(Node::slot_payloads(r.left) == Node::slot_payloads(n.left));
        assert(Node::slot_payloads(r.right) == Node::slot_payloads(n.right));
    }
}

/// Where the payload type's comparison obeys the laws of a total order, its
/// own `<` is transitive, so every law above that asks for a transitive
/// relation holds of it.
pub proof fn lemma_natural_lt_is_transitive<T: Ord>()
    requires
        obeys_cmp::<T>(),
    ensures
        is_transitive(natural_lt::<T>()),
{
    reveal(obeys_partial_cmp_spec_properties);
    let lt = natural_lt::<T>();
    assert forall|a: T, b: T, c: T| #[trigger] lt(a, b) && #[trigger] lt(b, c) implies lt(a, c) by {
        assert(a.partial_cmp_spec(&b) == Some(core::cmp::Ordering::Less));
        assert(b.partial_cmp_spec(&c) == Some(core::cmp::Ordering::Less));
    }
}

} // verus!
