use trees::binary_tree::BinarySearchTree;

#[test]
fn test_new_bst() {
    assert_eq!(BinarySearchTree::<i32>::new(), BinarySearchTree::Empty);
}

#[test]
fn test_create_bst() {
    if let BinarySearchTree::Node {
        value,
        left: Some(left),
        right: Some(right),
    } = BinarySearchTree::create(1)
    {
        assert_eq!(value, 1);
        assert_eq!(*left, BinarySearchTree::Empty);
        assert_eq!(*right, BinarySearchTree::Empty);
    } else {
        panic!("BinarySearchTree::create returned Empty")
    }
}

#[test]
fn test_insert_bst() {
    let mut root = BinarySearchTree::create(1_usize);
    root.insert(2_usize);
    root.insert(3_usize);
    root.insert(4_usize);
    root.insert(5_usize);
    assert_eq!(
        root.sorted_values(),
        vec![&1_usize, &2_usize, &3_usize, &4_usize, &5_usize]
    );
}

#[test]
fn test_height_bst() {
    let mut root = BinarySearchTree::create(30);
    root.insert(18);
    root.insert(50);
    root.insert(24);
    root.insert(36);
    root.insert(51);
    root.insert(17);
    root.insert(16);
    root.insert(15);
    assert_eq!(root.height(), 5);
}

#[test]
fn test_match() {
    pub enum Choice {
        One { a: Option<bool>, b: Option<bool> },
    }
    let a = Choice::One {
        a: None,
        b: Some(true),
    };
    if let Choice::One {
        a: Some(a),
        b: Some(b),
    } = a
    {
        println!("{} {}", a, b);
    };
}

#[test]
fn test_print_bst() {
    let mut root = BinarySearchTree::create(30);
    root.insert(18);
    root.insert(50);
    root.insert(24);
    root.insert(36);
    root.insert(51);
    root.insert(17);
    root.insert(16);
    root.insert(15);
    root.insert(19);
    let lines = trees::binary_tree::render::render(&root).unwrap();
    for line in lines.iter() {
        println!("{}", line)
    }
    assert_eq!(
        lines,
        vec![
            "               30               ",
            "       18              50       ",
            "   17      24      36      51   ",
            " 16  19 ",
            "15",
        ]
    );
}

#[test]
fn default_is_the_empty_tree() {
    let tree: BinarySearchTree<u8> = Default::default();
    assert_eq!(tree, BinarySearchTree::Empty);
    assert_eq!(tree.height(), 0);
    assert!(tree.sorted_values().is_empty());
}

#[test]
fn height_of_empty_and_single_node() {
    assert_eq!(BinarySearchTree::<i32>::new().height(), 0);
    assert_eq!(BinarySearchTree::create(7).height(), 1);
}

#[test]
fn height_is_unchanged_by_reading() {
    let mut tree = BinarySearchTree::new();
    for v in [8, 3, 10, 1, 6, 14, 4, 7, 13] {
        tree.insert(v);
    }
    assert_eq!(tree.height(), 4);
    let _ = tree.sorted_values();
    let _ = tree.sorted_values_iterative();
    let _ = tree.levels();
    let _ = tree.search(&6);
    assert_eq!(tree.height(), 4);
}

#[test]
fn insert_into_empty_gives_leaf() {
    let mut tree = BinarySearchTree::new();
    tree.insert(5);
    assert_eq!(tree, BinarySearchTree::create(5));
}

#[test]
fn insert_fills_a_slot_that_is_none() {
    let mut tree = BinarySearchTree::Node {
        value: 5,
        left: None,
        right: None,
    };
    tree.insert(3);
    tree.insert(9);
    assert_eq!(
        tree,
        BinarySearchTree::Node {
            value: 5,
            left: Some(Box::new(BinarySearchTree::create(3))),
            right: Some(Box::new(BinarySearchTree::create(9))),
        }
    );
    assert_eq!(tree.sorted_values(), vec![&3, &5, &9]);
}

#[test]
fn insert_drops_a_value_already_held() {
    let mut tree = BinarySearchTree::create(5);
    tree.insert(3);
    tree.insert(8);
    let mut again = BinarySearchTree::create(5);
    again.insert(3);
    again.insert(8);
    again.insert(3);
    again.insert(5);
    again.insert(8);
    assert_eq!(tree, again);
    assert_eq!(again.sorted_values(), vec![&3, &5, &8]);
}

#[test]
fn sorted_values_are_the_distinct_inserts_in_order() {
    let inserts = [41, 7, 19, 7, 88, 3, 41, 56, 19, 1, 100, 64];
    let mut tree = BinarySearchTree::new();
    for v in inserts {
        tree.insert(v);
    }
    let mut expected = inserts.to_vec();
    expected.sort();
    expected.dedup();
    let values: Vec<i32> = tree.sorted_values().into_iter().copied().collect();
    assert_eq!(values, expected);
    assert_eq!(values, vec![1, 3, 7, 19, 41, 56, 64, 88, 100]);
}

#[test]
fn distinct_inserts_round_trip_in_any_order() {
    let orders = [
        [1, 2, 3, 4, 5, 6],
        [6, 5, 4, 3, 2, 1],
        [3, 1, 5, 2, 6, 4],
        [4, 6, 2, 5, 1, 3],
    ];
    for order in orders {
        let mut tree = BinarySearchTree::new();
        for v in order {
            tree.insert(v);
        }
        let values = tree.sorted_values();
        assert_eq!(values.len(), 6);
        assert_eq!(values, vec![&1, &2, &3, &4, &5, &6]);
        for pair in values.windows(2) {
            assert!(pair[0] < pair[1]);
        }
    }
}

#[test]
fn iterative_values_equal_recursive_values() {
    let mut tree = BinarySearchTree::new();
    assert_eq!(tree.sorted_values_iterative(), tree.sorted_values());
    for v in [50, 20, 70, 10, 30, 60, 80, 25, 35, 65] {
        tree.insert(v);
        assert_eq!(tree.sorted_values_iterative(), tree.sorted_values());
    }
    assert_eq!(
        tree.sorted_values_iterative(),
        vec![&10, &20, &25, &30, &35, &50, &60, &65, &70, &80]
    );
}

#[test]
fn search_finds_the_subtree_of_a_value() {
    let mut tree = BinarySearchTree::create(30);
    for v in [18, 50, 24, 36, 51, 17] {
        tree.insert(v);
    }
    let found = tree.search(&18).unwrap();
    assert_eq!(found.sorted_values(), vec![&17, &18, &24]);
    let found = tree.search(&51).unwrap();
    assert_eq!(*found, BinarySearchTree::create(51));
    let found = tree.search(&30).unwrap();
    assert_eq!(found, &tree);
}

#[test]
fn search_misses_without_failing() {
    let mut tree = BinarySearchTree::create(30);
    for v in [18, 50, 24] {
        tree.insert(v);
    }
    assert!(tree.search(&19).is_none());
    assert!(tree.search(&1).is_none());
    assert!(tree.search(&99).is_none());
    assert!(BinarySearchTree::<i32>::new().search(&30).is_none());
    let bare = BinarySearchTree::Node {
        value: 5,
        left: None,
        right: None,
    };
    assert!(bare.search(&4).is_none());
    assert!(bare.search(&6).is_none());
    assert!(bare.search(&5).is_some());
}

#[test]
fn equality_compares_shape_and_values() {
    let mut a = BinarySearchTree::create(2);
    a.insert(1);
    a.insert(3);
    let mut b = BinarySearchTree::create(2);
    b.insert(3);
    b.insert(1);
    assert_eq!(a, b);
    let mut c = BinarySearchTree::create(1);
    c.insert(2);
    c.insert(3);
    assert_ne!(a, c);
    assert_ne!(a, BinarySearchTree::Empty);
    assert_ne!(BinarySearchTree::Empty, a);
    let none_slots = BinarySearchTree::Node {
        value: 2,
        left: None,
        right: None,
    };
    assert_ne!(none_slots, BinarySearchTree::create(2));
    assert_ne!(BinarySearchTree::create(2), BinarySearchTree::create(4));
}

#[test]
fn levels_group_values_by_depth() {
    let mut tree = BinarySearchTree::new();
    assert!(tree.levels().is_empty());
    for v in [5, 3, 8, 1, 4, 100] {
        tree.insert(v);
    }
    assert_eq!(
        tree.levels(),
        vec![vec![&5], vec![&3, &8], vec![&1, &4, &100]]
    );
    assert_eq!(tree.levels().len(), tree.height());
}
