use trees::binary_tree::render::{centered, label_levels, render, render_levels};
use trees::binary_tree::BinarySearchTree;

#[test]
fn centered_pads_on_both_sides() {
    assert_eq!(centered("ab", 6), "  ab  ");
    assert_eq!(centered("ab", 5), " ab  ");
    assert_eq!(centered("abc", 4), "abc ");
    assert_eq!(centered("", 3), "   ");
}

#[test]
fn centered_leaves_a_long_label_alone() {
    assert_eq!(centered("abc", 3), "abc");
    assert_eq!(centered("abc", 1), "abc");
    assert_eq!(centered("abc", 0), "abc");
}

#[test]
fn centered_agrees_with_std_formatting() {
    for label in ["", "7", "42", "three", "añb", "日本"] {
        for width in 0..12usize {
            assert_eq!(centered(label, width), format!("{:^w$}", label, w = width));
        }
    }
}

#[test]
fn labels_follow_the_levels() {
    let mut tree = BinarySearchTree::new();
    for v in [5, 3, 8, 1, 4, 100] {
        tree.insert(v);
    }
    assert_eq!(
        label_levels(&tree),
        vec![vec!["5"], vec!["3", "8"], vec!["1", "4", "100"]]
    );
}

#[test]
fn render_centres_each_level() {
    let mut tree = BinarySearchTree::new();
    for v in [5, 3, 8, 1, 4, 100] {
        tree.insert(v);
    }
    assert_eq!(render(&tree), Some(vec![
        String::from(" 5  "),
        String::from("3 8 "),
        String::from("14100"),
    ]));
}

#[test]
fn render_of_small_trees() {
    assert_eq!(render(&BinarySearchTree::<i32>::new()), Some(vec![]));
    assert_eq!(
        render(&BinarySearchTree::create(7)),
        Some(vec![String::from("7")])
    );
    let mut tree = BinarySearchTree::create(2);
    tree.insert(1);
    tree.insert(3);
    assert_eq!(
        render(&tree),
        Some(vec![String::from("2 "), String::from("13")])
    );
}

#[test]
fn render_levels_widths_follow_label_bytes() {
    let labels = vec![
        vec![String::from("root")],
        vec![String::from("l"), String::from("rr")],
        vec![String::from("é")],
    ];
    assert_eq!(
        render_levels(&labels),
        Some(vec![
            String::from("      root      "),
            String::from("l  rr "),
            String::from("é "),
        ])
    );
}

#[test]
fn render_levels_gives_none_when_a_width_overflows() {
    let bits = usize::BITS as usize;
    let mut labels: Vec<Vec<String>> = Vec::new();
    for _ in 0..bits {
        labels.push(Vec::new());
    }
    assert_eq!(render_levels(&labels), Some(vec![String::new(); bits]));
    labels[bits - 1] = vec![String::from("xy")];
    assert_eq!(render_levels(&labels), None);
    labels[bits - 1] = Vec::new();
    labels.push(Vec::new());
    assert_eq!(render_levels(&labels), None);
}

#[test]
fn render_levels_of_empty_levels() {
    assert_eq!(render_levels(&Vec::new()), Some(Vec::new()));
    assert_eq!(
        render_levels(&vec![Vec::new(), Vec::new()]),
        Some(vec![String::new(), String::new()])
    );
}
