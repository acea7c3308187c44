//! Ready-made trees of integers: perfect trees numbered in pre-order, and one small
//! unbalanced tree.

use crate::binary_tree::node::{root, Node};
use crate::binary_tree::traversal::pre_order_of;
use vstd::arithmetic::power2::{lemma_pow2_pos, lemma_pow2_unfold, pow2};
use vstd::prelude::*;

verus! {

/// The integers `from`, `from + 1`, and so on, `count` of them.
pub open spec fn counting(from: int, count: nat) -> Seq<i32> {
    Seq::new(count, |i: int| (from + i) as i32)
}

/// The tree that may be empty is perfect and `depth` levels deep: all its levels are full.
pub open spec fn perfect<T>(tree: Option<Node<T>>, depth: nat) -> bool {
    match tree {
        Some(node) => node.is_perfect(depth),
        None => depth == 0,
    }
}

/// The tree with 1 at the root, 2 to its left with the children 4 and 5, and 3 to its right.
pub open spec fn unbalanced_tree() -> Node<i32> {
    Node {
        value: 1,
        left: Some(
            Box::new(
                Node {
                    value: 2,
                    left: Some(Box::new(Node::leaf(4))),
                    right: Some(Box::new(Node::leaf(5))),
                },
            ),
        ),
        right: Some(Box::new(Node::leaf(3))),
    }
}

impl<T> Node<T> {
    /// The tree is perfect and `depth` levels deep: either subtree is perfect and one level
    /// less deep.
    pub open spec fn is_perfect(self, depth: nat) -> bool
        decreases self,
    {
        &&& depth >= 1
        &&& Self::slot_is_perfect(self.left, (depth - 1) as nat)
        &&& Self::slot_is_perfect(self.right, (depth - 1) as nat)
    }

    /// The subtree in a child slot is perfect and `depth` levels deep.
    pub open spec fn slot_is_perfect(slot: Option<Box<Node<T>>>, depth: nat) -> bool
        decreases slot,
    {
        match slot {
            Some(node) => node.is_perfect(depth),
            None => depth == 0,
        }
    }
}

/// Puts a tree that may be empty into a child slot.
fn boxed<T>(tree: Option<Node<T>>) -> (slot: Option<Box<Node<T>>>)
    ensures
        slot == match tree {
            Some(node) => Some(Box::new(node)),
            None => None,
        },
{
    match tree {
        Some(node) => Some(Box::new(node)),
        None => None,
    }
}

impl Node<i32> {
    /// A perfect tree of `depth` levels whose values are taken from `counter` in pre-order:
    /// each node takes the counter's value and raises the counter by one, before its left
    /// subtree and then its right subtree are made. A depth of 0 gives the empty tree.
    pub fn generate_perfect_tree(depth: usize, counter: &mut i32) -> (tree: Option<Node<i32>>)
        requires
            *old(counter) + pow2(depth as nat) - 1 <= i32::MAX,
        ensures
            perfect(tree, depth as nat),
            pre_order_of(tree) == counting(*old(counter) as int, (pow2(depth as nat) - 1) as nat),
            *final(counter) == *old(counter) + pow2(depth as nat) - 1,
        decreases depth,
    {
        if depth == 0 {
            proof {
                vstd::arithmetic::power2::lemma2_to64();
                assert(pre_order_of(None::<Node<i32>>) == counting(*counter as int, 0));
            }
            return None;
        }
        proof {
            lemma_pow2_unfold(depth as nat);
            lemma_pow2_pos((depth - 1) as nat);
        }
        let ghost first = *counter as int;
        let ghost half = pow2((depth - 1) as nat);
        let value = *counter;
        *counter = *counter + 1;
        let left = Self::generate_perfect_tree(depth - 1, counter);
        let right = Self::generate_perfect_tree(depth - 1, counter);
        let node = Node { value, left: boxed(left), right: boxed(right) };
        proof {
            assert(Node::slot_pre_order(node.left) == counting(first + 1, (half - 1) as nat));
            assert(Node::slot_pre_order(node.right) == counting(first + half, (half - 1) as nat));
            assert(node.pre_order_values() == counting(first, (2 * half - 1) as nat));
        }
        Some(node)
    }

    /// A fixed tree for trying things out: 1 at the root, 2 to its left with the children 4
    /// and 5, and 3 to its right.
    pub fn create_unbalanced_tree() -> (tree: Node<i32>)
        ensures
            tree == unbalanced_tree(),
            tree.pre_order_values() == seq![1i32, 2, 4, 5, 3],
            tree.in_order_values() == seq![4i32, 2, 5, 1, 3],
            tree.post_order_values() == seq![4i32, 5, 2, 3, 1],
    {
        proof {
            lemma_unbalanced_tree_orders();
        }
        root(1).left(root(2).left(4).right(5)).right(3)
    }
}

/// The three traversals of the unbalanced tree.
pub proof fn lemma_unbalanced_tree_orders()
    ensures
        unbalanced_tree().pre_order_values() == seq![1i32, 2, 4, 5, 3],
        unbalanced_tree().in_order_values() == seq![4i32, 2, 5, 1, 3],
        unbalanced_tree().post_order_values() == seq![4i32, 5, 2, 3, 1],
{
    reveal_with_fuel(Node::pre_order_values, 4);
    reveal_with_fuel(Node::slot_pre_order, 4);
    reveal_with_fuel(Node::in_order_values, 4);
    reveal_with_fuel(Node::slot_in_order, 4);
    reveal_with_fuel(Node::post_order_values, 4);
    reveal_with_fuel(Node::slot_post_order, 4);
}

} // verus!
