//! The three recursive traversals. Each takes a tree and appends its values, in the
//! traversal's order, to a buffer that the caller supplies.

use crate::binary_tree::node::Node;
use vstd::prelude::*;

verus! {

impl<T> Node<T> {
    /// The values in pre-order: the node, then its left subtree, then its right subtree.
    pub open spec fn pre_order_values(self) -> Seq<T>
        decreases self,
    {
        seq![self.value] + Self::slot_pre_order(self.left) + Self::slot_pre_order(self.right)
    }

    /// The pre-order values of the subtree in a child slot.
    pub open spec fn slot_pre_order(slot: Option<Box<Node<T>>>) -> Seq<T>
        decreases slot,
    {
        match slot {
            Some(node) => node.pre_order_values(),
            None => Seq::empty(),
        }
    }

    /// The values in in-order: the left subtree, then the node, then the right subtree.
    pub open spec fn in_order_values(self) -> Seq<T>
        decreases self,
    {
        Self::slot_in_order(self.left) + seq![self.value] + Self::slot_in_order(self.right)
    }

    /// The in-order values of the subtree in a child slot.
    pub open spec fn slot_in_order(slot: Option<Box<Node<T>>>) -> Seq<T>
        decreases slot,
    {
        match slot {
            Some(node) => node.in_order_values(),
            None => Seq::empty(),
        }
    }

    /// The values in post-order: the left subtree, then the right subtree, then the node.
    pub open spec fn post_order_values(self) -> Seq<T>
        decreases self,
    {
        Self::slot_post_order(self.left) + Self::slot_post_order(self.right) + seq![self.value]
    }

    /// The post-order values of the subtree in a child slot.
    pub open spec fn slot_post_order(slot: Option<Box<Node<T>>>) -> Seq<T>
        decreases slot,
    {
        match slot {
            Some(node) => node.post_order_values(),
            None => Seq::empty(),
        }
    }
}

/// The pre-order values of a tree that may be empty.
pub open spec fn pre_order_of<T>(tree: Option<Node<T>>) -> Seq<T> {
    match tree {
        Some(node) => node.pre_order_values(),
        None => Seq::empty(),
    }
}

/// The in-order values of a tree that may be empty.
pub open spec fn in_order_of<T>(tree: Option<Node<T>>) -> Seq<T> {
    match tree {
        Some(node) => node.in_order_values(),
        None => Seq::empty(),
    }
}

/// The post-order values of a tree that may be empty.
pub open spec fn post_order_of<T>(tree: Option<Node<T>>) -> Seq<T> {
    match tree {
        Some(node) => node.post_order_values(),
        None => Seq::empty(),
    }
}

/// Takes the subtree out of a child slot.
fn unboxed<T>(slot: Option<Box<Node<T>>>) -> (tree: Option<Node<T>>)
    ensures
        tree == match slot {
            Some(node) => Some(*node),
            None => None,
        },
{
    match slot {
        Some(node) => Some(*node),
        None => None,
    }
}

/// Appends the values of `tree` to `buffer` in pre-order.
pub fn pre_order<T>(tree: Option<Node<T>>, buffer: &mut Vec<T>)
    ensures
        final(buffer)@ == old(buffer)@ + pre_order_of(tree),
    decreases tree,
{
    if let Some(node) = tree {
        let Node { value, left, right } = node;
        buffer.push(value);
        pre_order(unboxed(left), buffer);
        pre_order(unboxed(right), buffer);
    }
}

/// Appends the values of `tree` to `buffer` in in-order.
pub fn in_order<T>(tree: Option<Node<T>>, buffer: &mut Vec<T>)
    ensures
        final(buffer)@ == old(buffer)@ + in_order_of(tree),
    decreases tree,
{
    if let Some(node) = tree {
        let Node { value, left, right } = node;
        in_order(unboxed(left), buffer);
        buffer.push(value);
        in_order(unboxed(right), buffer);
    }
}

/// Appends the values of `tree` to `buffer` in post-order.
pub fn post_order<T>(tree: Option<Node<T>>, buffer: &mut Vec<T>)
    ensures
        final(buffer)@ == old(buffer)@ + post_order_of(tree),
    decreases tree,
{
    if let Some(node) = tree {
        let Node { value, left, right } = node;
        post_order(unboxed(left), buffer);
        post_order(unboxed(right), buffer);
        buffer.push(value);
    }
}

} // verus!
