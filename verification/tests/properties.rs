use tree_rotation::node::{Child, Direction, Node};

/// Builds a node from a payload and two optional subtrees.
fn tree(data: u32, left: Option<Node<u32>>, right: Option<Node<u32>>) -> Node<u32> {
    let mut node = Node::new(data);
    node.left = left.map(Box::new);
    node.right = right.map(Box::new);
    node
}

fn leaf(data: u32) -> Option<Node<u32>> {
    Some(Node::new(data))
}

/// The shape and payloads of a tree, written out in pre-order with a dot for
/// every empty slot, so that two trees are equal exactly if their texts are.
fn shape(node: &Node<u32>) -> String {
    let side = |slot: &Option<Box<Node<u32>>>| match slot {
        None => String::from("."),
        Some(child) => shape(child),
    };
    format!("({} {} {})", node.data, side(&node.left), side(&node.right))
}

fn in_order(node: &Node<u32>, out: &mut Vec<u32>) {
    if let Some(child) = &node.left {
        in_order(child, out);
    }
    out.push(node.data);
    if let Some(child) = &node.right {
        in_order(child, out);
    }
}

fn payloads_in_order(node: &Node<u32>) -> Vec<u32> {
    let mut out = Vec::new();
    in_order(node, &mut out);
    out
}

/// A search tree on 1..=7 with 4 at the root.
fn seven() -> Node<u32> {
    tree(
        4,
        Some(tree(2, leaf(1), leaf(3))),
        Some(tree(6, leaf(5), leaf(7))),
    )
}

#[test]
fn new_node_has_no_children() {
    let node = Node::<u32>::new(9);
    assert_eq!(node.data, 9);
    assert!(node.left.is_none());
    assert!(node.right.is_none());
}

#[test]
fn rotate_right_gives_exact_shape() {
    let rotated = seven().rotate_right();
    assert_eq!(shape(&rotated), "(2 (1 . .) (4 (3 . .) (6 (5 . .) (7 . .))))");
}

#[test]
fn rotate_left_gives_exact_shape() {
    let rotated = seven().rotate_left();
    assert_eq!(shape(&rotated), "(6 (4 (2 (1 . .) (3 . .)) (5 . .)) (7 . .))");
}

#[test]
fn rotations_keep_count_and_payloads() {
    let before = payloads_in_order(&seven());
    assert_eq!(before.len(), 7);

    let right = payloads_in_order(&seven().rotate_right());
    assert_eq!(right.len(), 7);
    assert_eq!(right, before);

    let left = payloads_in_order(&seven().rotate_left());
    assert_eq!(left.len(), 7);
    assert_eq!(left, before);
}

#[test]
fn rotations_keep_duplicate_payloads() {
    let twins = tree(5, Some(tree(5, leaf(5), None)), leaf(5));
    let rotated = twins.rotate_right();
    assert_eq!(shape(&rotated), "(5 (5 . .) (5 . (5 . .)))");
    assert_eq!(payloads_in_order(&rotated), vec![5, 5, 5, 5]);
}

#[test]
fn right_then_left_restores_the_tree() {
    let original = shape(&seven());
    let back = seven().rotate_right().rotate_left();
    assert_eq!(shape(&back), original);
    assert_eq!(back.data, 4);
}

#[test]
fn left_then_right_restores_the_tree() {
    let original = shape(&seven());
    let back = seven().rotate_left().rotate_right();
    assert_eq!(shape(&back), original);
    assert_eq!(back.data, 4);
}

#[test]
fn rotate_right_without_left_child_changes_nothing() {
    let node = tree(1, None, Some(tree(3, leaf(2), leaf(4))));
    let rotated = node.rotate_right();
    assert_eq!(rotated.data, 1);
    assert!(rotated.left.is_none());
    assert_eq!(shape(&rotated), "(1 . (3 (2 . .) (4 . .)))");
}

#[test]
fn rotate_left_without_right_child_changes_nothing() {
    let node = tree(4, Some(tree(2, leaf(1), leaf(3))), None);
    let rotated = node.rotate_left();
    assert_eq!(rotated.data, 4);
    assert!(rotated.right.is_none());
    assert_eq!(shape(&rotated), "(4 (2 (1 . .) (3 . .)) .)");
}

#[test]
fn rotating_a_single_node_changes_nothing() {
    assert_eq!(shape(&Node::<u32>::new(8).rotate_right()), "(8 . .)");
    assert_eq!(shape(&Node::<u32>::new(8).rotate_left()), "(8 . .)");
}

#[test]
fn rotations_keep_search_tree_order() {
    let sorted: Vec<u32> = vec![1, 2, 3, 4, 5, 6, 7];
    assert_eq!(payloads_in_order(&seven()), sorted);
    assert_eq!(payloads_in_order(&seven().rotate_right()), sorted);
    assert_eq!(payloads_in_order(&seven().rotate_left()), sorted);
    assert_eq!(payloads_in_order(&seven().rotate_right().rotate_right()), sorted);
    assert_eq!(payloads_in_order(&seven().rotate_left().rotate_left()), sorted);
}

#[test]
fn rotate_right_child_clockwise() {
    let mut node = seven();
    node.rotate(Child::RIGHT, Direction::CLOCKWISE);
    assert_eq!(node.data, 4);
    assert_eq!(shape(&node), "(4 (2 (1 . .) (3 . .)) (5 . (6 . (7 . .))))");
}

#[test]
fn rotate_right_child_counterclockwise() {
    let mut node = seven();
    node.rotate(Child::RIGHT, Direction::COUNTERCLOCKWISE);
    assert_eq!(node.data, 4);
    assert_eq!(shape(&node), "(4 (2 (1 . .) (3 . .)) (7 (6 (5 . .) .) .))");
}

#[test]
fn rotate_left_child_clockwise() {
    let mut node = seven();
    node.rotate(Child::LEFT, Direction::CLOCKWISE);
    assert_eq!(node.data, 4);
    assert_eq!(shape(&node), "(4 (1 . (2 . (3 . .))) (6 (5 . .) (7 . .)))");
}

#[test]
fn rotate_left_child_counterclockwise() {
    let mut node = seven();
    node.rotate(Child::LEFT, Direction::COUNTERCLOCKWISE);
    assert_eq!(node.data, 4);
    assert_eq!(shape(&node), "(4 (3 (2 (1 . .) .) .) (6 (5 . .) (7 . .)))");
}

#[test]
fn rotate_touches_only_the_named_slot() {
    let mut node = seven();
    let left_before = shape(node.left.as_ref().unwrap());
    node.rotate(Child::RIGHT, Direction::CLOCKWISE);
    assert_eq!(node.data, 4);
    assert_eq!(shape(node.left.as_ref().unwrap()), left_before);
    assert_eq!(payloads_in_order(&node), vec![1, 2, 3, 4, 5, 6, 7]);

    let mut node = seven();
    let right_before = shape(node.right.as_ref().unwrap());
    node.rotate(Child::LEFT, Direction::COUNTERCLOCKWISE);
    assert_eq!(node.data, 4);
    assert_eq!(shape(node.right.as_ref().unwrap()), right_before);
    assert_eq!(payloads_in_order(&node), vec![1, 2, 3, 4, 5, 6, 7]);
}

#[test]
fn rotate_on_empty_slot_changes_nothing() {
    let mut node = tree(4, Some(tree(2, leaf(1), leaf(3))), None);
    let before = shape(&node);
    node.rotate(Child::RIGHT, Direction::CLOCKWISE);
    assert_eq!(shape(&node), before);
    node.rotate(Child::RIGHT, Direction::COUNTERCLOCKWISE);
    assert_eq!(shape(&node), before);

    let mut node = tree(4, None, Some(tree(6, leaf(5), leaf(7))));
    let before = shape(&node);
    node.rotate(Child::LEFT, Direction::CLOCKWISE);
    assert_eq!(shape(&node), before);
    node.rotate(Child::LEFT, Direction::COUNTERCLOCKWISE);
    assert_eq!(shape(&node), before);
}

#[test]
fn rotate_on_child_without_grandchild_changes_nothing() {
    let mut node = tree(2, leaf(1), leaf(3));
    node.rotate(Child::LEFT, Direction::CLOCKWISE);
    node.rotate(Child::RIGHT, Direction::COUNTERCLOCKWISE);
    assert_eq!(shape(&node), "(2 (1 . .) (3 . .))");
}
