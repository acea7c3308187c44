use trees::binary_tree::{root, stack_traversal, traversal, Node};

#[test]
fn insert_fills_left_before_right() {
    let mut tree = Node::new('a');
    tree.insert('b');
    assert_eq!(tree, root('a').left('b'));
    tree.insert('c');
    assert_eq!(tree, root('a').left('b').right('c'));
}

#[test]
fn insert_keeps_the_tree_complete() {
    let mut tree = Node::new(1);
    for v in 2..=7 {
        tree.insert(v);
    }
    assert_eq!(
        tree,
        root(1)
            .left(root(2).left(4).right(5))
            .right(root(3).left(6).right(7))
    );
    assert_eq!(tree.height(), 3);
    tree.insert(8);
    assert_eq!(
        tree,
        root(1)
            .left(root(2).left(root(4).left(8)).right(5))
            .right(root(3).left(6).right(7))
    );
    assert_eq!(tree.height(), 4);
}

#[test]
fn insert_takes_the_first_gap_in_level_order() {
    let mut tree = root(1).right(root(3).left(6).right(7));
    tree.insert(2);
    assert_eq!(tree, root(1).left(2).right(root(3).left(6).right(7)));
    let mut tree = root(1).left(root(2).right(5)).right(3);
    tree.insert(4);
    assert_eq!(tree, root(1).left(root(2).left(4).right(5)).right(3));
    let mut tree = root(1).left(root(2).left(4).right(5)).right(root(3).right(7));
    tree.insert(6);
    assert_eq!(
        tree,
        root(1)
            .left(root(2).left(4).right(5))
            .right(root(3).left(6).right(7))
    );
}

#[test]
fn insert_reaches_deep_gaps() {
    let mut tree = Node::new(0u32);
    for v in 1..200u32 {
        tree.insert(v);
    }
    let mut values = Vec::new();
    stack_traversal::in_order(&tree, &mut values);
    assert_eq!(values.len(), 200);
    assert_eq!(tree.height(), 8);
    let mut by_level = Vec::new();
    traversal::pre_order(Some(tree), &mut by_level);
    assert_eq!(by_level[0], 0);
    assert_eq!(by_level[1], 1);
    assert_eq!(by_level[2], 3);
    assert_eq!(by_level[3], 7);
}

#[test]
fn builders_take_values_and_nodes() {
    let by_value = root(1).with_left(2).with_right(3);
    let by_node = root(1).with_left(Node::new(2)).with_right(Node::create(3));
    assert_eq!(by_value, by_node);
    assert_eq!(by_value, root(1).left(2).right(3));
    assert_eq!(
        by_value,
        Node {
            value: 1,
            left: Some(Box::new(Node {
                value: 2,
                left: None,
                right: None
            })),
            right: Some(Box::new(Node {
                value: 3,
                left: None,
                right: None
            })),
        }
    );
}

#[test]
fn builders_replace_what_was_there() {
    let tree = root(1).left(root(2).left(4)).left(9);
    assert_eq!(tree, root(1).left(9));
}

#[test]
fn height_of_a_single_node_is_one() {
    assert_eq!(Node::new(1).height(), 1);
    assert_eq!(root(1).left(root(2).right(3)).height(), 3);
}

#[test]
fn height_is_unchanged_by_the_stack_walk() {
    let tree = Node::<i32>::create_unbalanced_tree();
    let before = tree.height();
    let mut buffer = Vec::new();
    stack_traversal::in_order(&tree, &mut buffer);
    assert_eq!(tree.height(), before);
    assert_eq!(before, 3);
}

#[test]
fn stack_walk_equals_recursive_in_order() {
    let mut tree = Node::new(10);
    for v in [4, 17, 1, 6, 12, 20, 5, 3, 30, 2] {
        tree.insert(v);
        let mut iterative = vec![-1];
        stack_traversal::in_order(&tree, &mut iterative);
        let mut recursive = vec![-1];
        traversal::in_order(Some(rebuild(&tree)), &mut recursive);
        assert_eq!(iterative, recursive);
    }
    let mut iterative = Vec::new();
    stack_traversal::in_order(&tree, &mut iterative);
    assert_eq!(iterative, vec![5, 1, 3, 4, 30, 6, 2, 10, 12, 17, 20]);
}

fn rebuild(tree: &Node<i32>) -> Node<i32> {
    let mut copy = Node::new(tree.value);
    if let Some(left) = &tree.left {
        copy = copy.left(rebuild(left));
    }
    if let Some(right) = &tree.right {
        copy = copy.right(rebuild(right));
    }
    copy
}

#[test]
fn traversals_append_to_what_the_buffer_holds() {
    let mut buffer = vec![0, 0];
    traversal::pre_order(Some(root(1).left(2).right(3)), &mut buffer);
    assert_eq!(buffer, vec![0, 0, 1, 2, 3]);
    traversal::in_order(Some(root(1).left(2).right(3)), &mut buffer);
    assert_eq!(buffer, vec![0, 0, 1, 2, 3, 2, 1, 3]);
    traversal::post_order(Some(root(1).left(2).right(3)), &mut buffer);
    assert_eq!(buffer, vec![0, 0, 1, 2, 3, 2, 1, 3, 2, 3, 1]);
    stack_traversal::in_order(&root(1).left(2).right(3), &mut buffer);
    assert_eq!(buffer, vec![0, 0, 1, 2, 3, 2, 1, 3, 2, 3, 1, 2, 1, 3]);
}

#[test]
fn traversals_of_the_empty_tree_give_nothing() {
    let mut buffer: Vec<i32> = vec![9];
    traversal::pre_order(None, &mut buffer);
    traversal::in_order(None, &mut buffer);
    traversal::post_order(None, &mut buffer);
    assert_eq!(buffer, vec![9]);
}

#[test]
fn stack_walk_clones_values() {
    let tree = root(String::from("b"))
        .left(String::from("a"))
        .right(String::from("c"));
    let mut buffer = Vec::new();
    stack_traversal::in_order(&tree, &mut buffer);
    assert_eq!(buffer, vec!["a", "b", "c"]);
    assert_eq!(tree.value, "b");
}
