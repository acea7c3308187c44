//! The plain binary tree: a node owns a value and up to two children, with no ordering
//! among the values.

use vstd::prelude::*;

verus! {

/// One vertex of a binary tree, with the subtrees below it.
#[derive(Debug, PartialEq, Eq)]
pub struct Node<T> {
    pub value: T,
    pub left: Option<Box<Node<T>>>,
    pub right: Option<Box<Node<T>>>,
}

/// What can be attached as a child: a node with its subtrees, or a bare value, which becomes
/// a leaf.
pub trait IntoNode<T>: Sized {
    /// The subtree that `self` stands for.
    spec fn as_node(self) -> Node<T>;

    fn into_node(self) -> (node: Node<T>)
        ensures
            node == self.as_node(),
    ;
}

impl<T> IntoNode<T> for Node<T> {
    open spec fn as_node(self) -> Node<T> {
        self
    }

    fn into_node(self) -> (node: Node<T>) {
        self
    }
}

impl<T> IntoNode<T> for T {
    open spec fn as_node(self) -> Node<T> {
        Node::leaf(self)
    }

    fn into_node(self) -> (node: Node<T>) {
        Node::new(self)
    }
}

impl<T> Node<T> {
    /// A node that holds `value` and has no children.
    pub open spec fn leaf(value: T) -> Node<T> {
        Node { value, left: None, right: None }
    }

    /// The child in the left slot (`false`) or in the right slot (`true`).
    pub open spec fn child(self, right: bool) -> Option<Box<Node<T>>> {
        if right {
            self.right
        } else {
            self.left
        }
    }

    /// The number of nodes on the longest way from this node down.
    pub open spec fn height_spec(self) -> nat
        decreases self,
    {
        let hl = Self::slot_height(self.left);
        let hr = Self::slot_height(self.right);
        1 + if hl >= hr {
            hl
        } else {
            hr
        }
    }

    /// The height of the subtree in a child slot; 0 where the slot is empty.
    pub open spec fn slot_height(slot: Option<Box<Node<T>>>) -> nat
        decreases slot,
    {
        match slot {
            Some(node) => node.height_spec(),
            None => 0,
        }
    }

    /// The number of nodes of the tree.
    pub open spec fn size(self) -> nat
        decreases self,
    {
        1 + Self::slot_size(self.left) + Self::slot_size(self.right)
    }

    /// The number of nodes of the subtree in a child slot.
    pub open spec fn slot_size(slot: Option<Box<Node<T>>>) -> nat
        decreases slot,
    {
        match slot {
            Some(node) => node.size(),
            None => 0,
        }
    }

    /// A tree of the single node `value`.
    pub fn new(value: T) -> (node: Self)
        ensures
            node == Self::leaf(value),
            node.height_spec() == 1,
    {
        Node { value, left: None, right: None }
    }

    /// A tree of the single node `value`.
    pub fn create(value: T) -> (node: Self)
        ensures
            node == Self::leaf(value),
            node.height_spec() == 1,
    {
        Self::new(value)
    }

    /// The same tree with `child` in the left slot, in place of what was there.
    pub fn with_left<N: IntoNode<T>>(self, child: N) -> (node: Self)
        ensures
            node == (Node { value: self.value, left: Some(Box::new(child.as_node())), right: self.right }),
    {
        let Node { value, left: _, right } = self;
        Node { value, left: Some(Box::new(child.into_node())), right }
    }

    /// The same tree with `child` in the right slot, in place of what was there.
    pub fn with_right<N: IntoNode<T>>(self, child: N) -> (node: Self)
        ensures
            node == (Node { value: self.value, left: self.left, right: Some(Box::new(child.as_node())) }),
    {
        let Node { value, left, right: _ } = self;
        Node { value, left, right: Some(Box::new(child.into_node())) }
    }

    /// Short for `with_left`.
    pub fn left<N: IntoNode<T>>(self, child: N) -> (node: Self)
        ensures
            node == (Node { value: self.value, left: Some(Box::new(child.as_node())), right: self.right }),
    {
        self.with_left(child)
    }

    /// Short for `with_right`.
    pub fn right<N: IntoNode<T>>(self, child: N) -> (node: Self)
        ensures
            node == (Node { value: self.value, left: self.left, right: Some(Box::new(child.as_node())) }),
    {
        self.with_right(child)
    }

    /// The height of the tree: one more than the greater of the heights of its two subtrees,
    /// an empty slot counting 0.
    pub fn height(&self) -> (h: usize)
        requires
            self.height_spec() <= usize::MAX,
        ensures
            h == self.height_spec(),
        decreases self,
    {
        let hl: usize = match &self.left {
            Some(node) => node.height(),
            None => 0,
        };
        let hr: usize = match &self.right {
            Some(node) => node.height(),
            None => 0,
        };
        if hl >= hr {
            hl + 1
        } else {
            hr + 1
        }
    }
}

/// A tree of the single node `value`, to build on with `left` and `right`.
pub fn root<T>(value: T) -> (node: Node<T>)
    ensures
        node == Node::leaf(value),
{
    Node::new(value)
}

} // verus!
