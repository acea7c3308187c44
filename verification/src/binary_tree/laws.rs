//! What holds of every search tree: insertion keeps the ordering and adds one value, the
//! values read from left to right ascend, and a tree grown by insertions holds exactly the
//! distinct values inserted, in ascending order.

use crate::binary_tree::order::{ascending, lemma_total_order, less, total_order};
use crate::binary_tree::BinarySearchTree;
use vstd::prelude::*;

verus! {

/// A sequence of one value contains that value and no other.
pub proof fn lemma_singleton_contains<T>(v: T, x: T)
    ensures
        seq![v].contains(x) <==> x == v,
{
    if x == v {
        assert(seq![v][0] == x);
    }
}

/// What the left-to-right values of a node contain: the values of the left subtree, the
/// node's own value, and the values of the right subtree.
pub proof fn lemma_node_contains<T: Ord>(tree: BinarySearchTree<T>, x: T)
    requires
        tree is Node,
    ensures
        tree.values().contains(x) <==> BinarySearchTree::slot_values(tree->left).contains(x) || x
            == tree->value || BinarySearchTree::slot_values(tree->right).contains(x),
{
    let l = BinarySearchTree::slot_values(tree->left);
    let r = BinarySearchTree::slot_values(tree->right);
    lemma_singleton_contains(tree->value, x);
    vstd::seq_lib::lemma_seq_concat_contains_all_elements(l, seq![tree->value], x);
    vstd::seq_lib::lemma_seq_concat_contains_all_elements(l + seq![tree->value], r, x);
}

/// Insertion adds the value to what the tree holds and nothing else, keeps the search-tree
/// ordering, and leaves a tree that already holds the value as it is.
pub proof fn lemma_inserted<T: Ord>(tree: BinarySearchTree<T>, v: T)
    requires
        total_order::<T>(),
    ensures
        forall|x: T|
            #![trigger tree.inserted(v).values().contains(x)]
            tree.inserted(v).values().contains(x) <==> tree.values().contains(x) || x == v,
        tree.is_bst() ==> tree.inserted(v).is_bst(),
        tree.is_bst() && tree.values().contains(v) ==> tree.inserted(v) == tree,
        !tree.values().contains(v) ==> tree.inserted(v).values().len() == tree.values().len() + 1,
    decreases tree,
{
    lemma_total_order::<T>();
    let after = tree.inserted(v);
    match tree {
        BinarySearchTree::Node { value, left, right } => {
            if less(v, value) {
                lemma_slot_inserted(left, v);
                let grown = BinarySearchTree::slot_inserted(left, v);
                assert(BinarySearchTree::slot_values(after->left) == grown.values());
                assert forall|x: T| #![trigger after.values().contains(x)]
                    after.values().contains(x) <==> tree.values().contains(x) || x == v by {
                    lemma_node_contains(tree, x);
                    lemma_node_contains(after, x);
                    assert(grown.values().contains(x) <==> BinarySearchTree::slot_values(
                        left,
                    ).contains(x) || x == v);
                }
                lemma_node_contains(tree, v);
                if tree.is_bst() && tree.values().contains(v) {
                    assert(!BinarySearchTree::slot_values(right).contains(v));
                }
            } else if less(value, v) {
                lemma_slot_inserted(right, v);
                let grown = BinarySearchTree::slot_inserted(right, v);
                assert(BinarySearchTree::slot_values(after->right) == grown.values());
                assert forall|x: T| #![trigger after.values().contains(x)]
                    after.values().contains(x) <==> tree.values().contains(x) || x == v by {
                    lemma_node_contains(tree, x);
                    lemma_node_contains(after, x);
                    assert(grown.values().contains(x) <==> BinarySearchTree::slot_values(
                        right,
                    ).contains(x) || x == v);
                }
                lemma_node_contains(tree, v);
                if tree.is_bst() && tree.values().contains(v) {
                    assert(!BinarySearchTree::slot_values(left).contains(v));
                }
            } else {
                assert(v == value);
                lemma_node_contains(tree, v);
            }
        },
        BinarySearchTree::Empty => {
            BinarySearchTree::lemma_leaf(v);
            assert forall|x: T| #![trigger after.values().contains(x)]
                after.values().contains(x) <==> tree.values().contains(x) || x == v by {
                lemma_singleton_contains(v, x);
            }
        },
    }
}

/// `lemma_inserted`, for the subtree in a child slot.
pub proof fn lemma_slot_inserted<T: Ord>(slot: Option<Box<BinarySearchTree<T>>>, v: T)
    requires
        total_order::<T>(),
    ensures
        forall|x: T|
            #![trigger BinarySearchTree::slot_inserted(slot, v).values().contains(x)]
            BinarySearchTree::slot_inserted(slot, v).values().contains(x)
                <==> BinarySearchTree::slot_values(slot).contains(x) || x == v,
        BinarySearchTree::slot_is_bst(slot) ==> BinarySearchTree::slot_inserted(slot, v).is_bst(),
        BinarySearchTree::slot_is_bst(slot) && BinarySearchTree::slot_values(slot).contains(v)
            ==> slot == Some(Box::new(BinarySearchTree::slot_inserted(slot, v))),
        !BinarySearchTree::slot_values(slot).contains(v) ==> BinarySearchTree::slot_inserted(
            slot,
            v,
        ).values().len() == BinarySearchTree::slot_values(slot).len() + 1,
    decreases slot,
{
    match slot {
        Some(tree) => lemma_inserted(*tree, v),
        None => {
            BinarySearchTree::lemma_leaf(v);
            let after = BinarySearchTree::leaf(v);
            assert forall|x: T| #![trigger after.values().contains(x)]
                after.values().contains(x) <==> x == v by {
                lemma_singleton_contains(v, x);
            }
        },
    }
}

/// The values of a search tree, read from left to right, ascend.
pub proof fn lemma_values_ascending<T: Ord>(tree: BinarySearchTree<T>)
    requires
        total_order::<T>(),
        tree.is_bst(),
    ensures
        ascending(tree.values()),
    decreases tree,
{
    lemma_total_order::<T>();
    match tree {
        BinarySearchTree::Node { value, left, right } => {
            let l = BinarySearchTree::slot_values(left);
            let r = BinarySearchTree::slot_values(right);
            if let Some(t) = left {
                lemma_values_ascending(*t);
            }
            if let Some(t) = right {
                lemma_values_ascending(*t);
            }
            let all = tree.values();
            assert forall|i: int, j: int| 0 <= i < j < all.len() implies less(
                #[trigger] all[i],
                #[trigger] all[j],
            ) by {
                if i < l.len() {
                    assert(l.contains(l[i]));
                }
                if j > l.len() {
                    assert(r.contains(r[j - l.len() - 1]));
                }
            }
        },
        BinarySearchTree::Empty => {},
    }
}

/// In a search tree the descent for `v` ends at a node exactly when the tree holds `v`, and
/// the node it ends at holds `v`.
pub proof fn lemma_find<T: Ord>(tree: BinarySearchTree<T>, v: T)
    requires
        total_order::<T>(),
    ensures
        tree.find(v) matches Some(node) ==> node matches BinarySearchTree::Node { value, .. }
            && value == v,
        tree.find(v) is Some ==> tree.values().contains(v),
        tree.is_bst() && tree.values().contains(v) ==> tree.find(v) is Some,
    decreases tree,
{
    lemma_total_order::<T>();
    match tree {
        BinarySearchTree::Node { value, left, right } => {
            lemma_node_contains(tree, v);
            if less(v, value) {
                if let Some(t) = left {
                    lemma_find(*t, v);
                }
            } else if less(value, v) {
                if let Some(t) = right {
                    lemma_find(*t, v);
                }
            } else {
                assert(v == value);
            }
        },
        BinarySearchTree::Empty => {},
    }
}

impl<T: Ord> BinarySearchTree<T> {
    /// The tree after the values of `inserts` have been inserted into it one after another,
    /// the first of them first.
    pub open spec fn grown(self, inserts: Seq<T>) -> Self
        decreases inserts.len(),
    {
        if inserts.len() == 0 {
            self
        } else {
            self.grown(inserts.drop_last()).inserted(inserts.last())
        }
    }
}

/// A search tree stays one however many values are inserted, and then holds what it held
/// before together with the values inserted.
pub proof fn lemma_grown<T: Ord>(tree: BinarySearchTree<T>, inserts: Seq<T>)
    requires
        total_order::<T>(),
        tree.is_bst(),
    ensures
        tree.grown(inserts).is_bst(),
        ascending(tree.grown(inserts).values()),
        forall|x: T|
            #![trigger tree.grown(inserts).values().contains(x)]
            tree.grown(inserts).values().contains(x) <==> tree.values().contains(x)
                || inserts.contains(x),
    decreases inserts.len(),
{
    let after = tree.grown(inserts);
    if inserts.len() > 0 {
        let earlier = inserts.drop_last();
        let before = tree.grown(earlier);
        lemma_grown(tree, earlier);
        lemma_inserted(before, inserts.last());
        assert forall|x: T| #![trigger after.values().contains(x)]
            after.values().contains(x) <==> tree.values().contains(x) || inserts.contains(x) by {
            assert(before.values().contains(x) <==> tree.values().contains(x) || earlier.contains(
                x,
            ));
            assert(earlier.push(inserts.last()) == inserts);
            vstd::seq_lib::lemma_seq_contains_after_push(earlier, inserts.last(), x);
        }
    }
    lemma_values_ascending(after);
}

/// Two ascending sequences that hold the same values are the same sequence.
pub proof fn lemma_ascending_unique<T: Ord>(a: Seq<T>, b: Seq<T>)
    requires
        total_order::<T>(),
        ascending(a),
        ascending(b),
        forall|x: T| a.contains(x) <==> b.contains(x),
    ensures
        a == b,
    decreases a.len(),
{
    lemma_total_order::<T>();
    if a.len() == 0 {
        if b.len() > 0 {
            assert(b.contains(b[0]));
        }
        assert(a =~= b);
    } else {
        assert(a.contains(a[0]));
        let k = choose|k: int| 0 <= k < b.len() && b[k] == a[0];
        assert(b.contains(b[0]));
        let m = choose|m: int| 0 <= m < a.len() && a[m] == b[0];
        if k > 0 && m > 0 {
            assert(less(b[0], b[k]));
            assert(less(a[0], a[m]));
        }
        if k > 0 && m == 0 {
            assert(less(b[0], b[k]));
        }
        if k == 0 && m > 0 {
            assert(less(a[0], a[m]));
        }
        assert(a[0] == b[0]);
        let a_rest = a.drop_first();
        let b_rest = b.drop_first();
        assert forall|x: T| a_rest.contains(x) <==> b_rest.contains(x) by {
            if a_rest.contains(x) {
                let i = choose|i: int| 0 <= i < a_rest.len() && a_rest[i] == x;
                assert(a[i + 1] == x);
                assert(less(a[0], a[i + 1]));
                assert(a.contains(x));
                let j = choose|j: int| 0 <= j < b.len() && b[j] == x;
                assert(j > 0);
                assert(b_rest[j - 1] == x);
            }
            if b_rest.contains(x) {
                let i = choose|i: int| 0 <= i < b_rest.len() && b_rest[i] == x;
                assert(b[i + 1] == x);
                assert(less(b[0], b[i + 1]));
                assert(b.contains(x));
                let j = choose|j: int| 0 <= j < a.len() && a[j] == x;
                assert(j > 0);
                assert(a_rest[j - 1] == x);
            }
        }
        assert forall|i: int, j: int| 0 <= i < j < a_rest.len() implies less(
            #[trigger] a_rest[i],
            #[trigger] a_rest[j],
        ) by {
            assert(less(a[i + 1], a[j + 1]));
        }
        assert forall|i: int, j: int| 0 <= i < j < b_rest.len() implies less(
            #[trigger] b_rest[i],
            #[trigger] b_rest[j],
        ) by {
            assert(less(b[i + 1], b[j + 1]));
        }
        lemma_ascending_unique(a_rest, b_rest);
        assert(a =~= seq![a[0]] + a_rest);
        assert(b =~= seq![b[0]] + b_rest);
    }
}

/// A tree built from the empty tree by inserting values one after another gives, read from
/// left to right, the ascending sequence of the distinct values inserted: whatever ascending
/// sequence `sorted` holds exactly the inserted values is the tree's sequence of values.
pub proof fn lemma_grown_values_sorted<T: Ord>(inserts: Seq<T>, sorted: Seq<T>)
    requires
        total_order::<T>(),
        ascending(sorted),
        forall|x: T| sorted.contains(x) <==> inserts.contains(x),
    ensures
        BinarySearchTree::<T>::Empty.grown(inserts).values() == sorted,
{
    let empty = BinarySearchTree::<T>::Empty;
    lemma_grown(empty, inserts);
    let values = empty.grown(inserts).values();
    assert forall|x: T| values.contains(x) <==> sorted.contains(x) by {
        assert(!empty.values().contains(x));
    }
    lemma_ascending_unique(values, sorted);
}

/// Inserting `n` distinct values into the empty tree, in any order, gives a tree whose
/// values from left to right strictly ascend, are `n` in number, and are the values
/// inserted: none twice and none left out.
pub proof fn lemma_grown_distinct<T: Ord>(inserts: Seq<T>)
    requires
        total_order::<T>(),
        inserts.no_duplicates(),
    ensures
        ascending(BinarySearchTree::<T>::Empty.grown(inserts).values()),
        BinarySearchTree::<T>::Empty.grown(inserts).values().len() == inserts.len(),
        forall|x: T|
            #![trigger BinarySearchTree::<T>::Empty.grown(inserts).values().contains(x)]
            BinarySearchTree::<T>::Empty.grown(inserts).values().contains(x) <==> inserts.contains(
                x,
            ),
    decreases inserts.len(),
{
    let empty = BinarySearchTree::<T>::Empty;
    let after = empty.grown(inserts);
    lemma_grown(empty, inserts);
    assert forall|x: T| #![trigger after.values().contains(x)]
        after.values().contains(x) <==> inserts.contains(x) by {
        assert(!empty.values().contains(x));
    }
    if inserts.len() > 0 {
        let earlier = inserts.drop_last();
        let before = empty.grown(earlier);
        lemma_grown_distinct(earlier);
        if before.values().contains(inserts.last()) {
            let i = choose|i: int| 0 <= i < earlier.len() && earlier[i] == inserts.last();
            assert(inserts[i] == inserts[inserts.len() - 1]);
        }
        lemma_inserted(before, inserts.last());
    }
}

} // verus!
