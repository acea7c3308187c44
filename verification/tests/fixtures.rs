use trees::binary_tree::{root, stack_traversal, traversal, Node};

#[test]
fn perfect_tree_of_depth_two() {
    let mut counter = 1;
    let tree = Node::generate_perfect_tree(2, &mut counter);
    assert_eq!(counter, 4);
    assert_eq!(tree, Some(root(1).left(2).right(3)));
    let mut in_order = Vec::new();
    stack_traversal::in_order(tree.as_ref().unwrap(), &mut in_order);
    assert_eq!(in_order, vec![2, 1, 3]);
    let mut in_order = Vec::new();
    traversal::in_order(Node::generate_perfect_tree(2, &mut 1), &mut in_order);
    assert_eq!(in_order, vec![2, 1, 3]);
    let mut pre_order = Vec::new();
    traversal::pre_order(tree, &mut pre_order);
    assert_eq!(pre_order, vec![1, 2, 3]);
}

#[test]
fn perfect_tree_of_depth_zero_is_empty() {
    let mut counter = 5;
    assert_eq!(Node::generate_perfect_tree(0, &mut counter), None);
    assert_eq!(counter, 5);
}

#[test]
fn perfect_tree_counts_in_pre_order() {
    let mut counter = 10;
    let tree = Node::generate_perfect_tree(3, &mut counter);
    assert_eq!(counter, 17);
    assert_eq!(
        tree,
        Some(
            root(10)
                .left(root(11).left(12).right(13))
                .right(root(14).left(15).right(16))
        )
    );
    assert_eq!(tree.as_ref().unwrap().height(), 3);
    let mut pre_order = Vec::new();
    traversal::pre_order(tree, &mut pre_order);
    assert_eq!(pre_order, vec![10, 11, 12, 13, 14, 15, 16]);
}

#[test]
fn perfect_tree_up_to_the_last_integer() {
    let mut counter = i32::MAX - 1;
    let tree = Node::generate_perfect_tree(1, &mut counter);
    assert_eq!(tree, Some(Node::new(i32::MAX - 1)));
    assert_eq!(counter, i32::MAX);
}

#[test]
fn unbalanced_tree_is_the_fixed_shape() {
    assert_eq!(
        Node::<i32>::create_unbalanced_tree(),
        root(1).left(root(2).left(4).right(5)).right(3)
    );
    assert_eq!(Node::<i32>::create_unbalanced_tree().height(), 3);
}
