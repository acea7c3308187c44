//! Binary trees in two flavours.
//!
//! This module holds the binary search tree, [`BinarySearchTree`], over any ordered value
//! type: its model, its contracts and its operations. The plain binary tree, [`Node`], whose
//! values are in no particular order, the traversals, the breadth-first insertion and the
//! drawing of a tree as text are in the modules below it.

pub mod breadth_first;
pub mod fixtures;
pub mod laws;
pub mod levels;
pub mod node;
pub mod order;
pub mod positions;
pub mod render;
pub mod stack_traversal;
pub mod traversal;

pub use crate::binary_tree::node::{root, IntoNode, Node};

use crate::binary_tree::laws::{lemma_find, lemma_inserted, lemma_values_ascending};
use crate::binary_tree::order::{
    all_greater, all_less, ascending, lemma_total_order, less, tied, total_order,
};
use core::cmp::Ordering;
use vstd::prelude::*;
use vstd::std_specs::cmp::{PartialEqSpec, PartialEqSpecImpl};

verus! {

/// A binary search tree: either a node with a value and two child slots, or the empty tree.
///
/// A child slot that is `None` and one that holds an `Empty` tree both stand for an empty
/// subtree.
#[derive(Debug, Eq, PartialOrd, Ord)]
pub enum BinarySearchTree<T: Ord> {
    Node { value: T, left: Option<Box<BinarySearchTree<T>>>, right: Option<Box<BinarySearchTree<T>>> },
    Empty,
}

/// The values that a sequence of references points to, in the same order.
pub open spec fn referents<T>(refs: Seq<&T>) -> Seq<T> {
    refs.map_values(|r: &T| *r)
}

/// Two trees are the same to `==`: they have the same shape, a `None` slot matching only a
/// `None` slot, and at each node the two values are equal by `T`'s own `==`.
pub open spec fn same_tree<T: Ord>(a: BinarySearchTree<T>, b: BinarySearchTree<T>) -> bool
    decreases a,
{
    match (a, b) {
        (
            BinarySearchTree::Node { value: l_value, left: l_left, right: l_right },
            BinarySearchTree::Node { value: r_value, left: r_left, right: r_right },
        ) => l_value.eq_spec(&r_value) && same_slot(l_left, r_left) && same_slot(l_right, r_right),
        (BinarySearchTree::Empty, BinarySearchTree::Empty) => true,
        _ => false,
    }
}

/// Two child slots are the same to `==`.
pub open spec fn same_slot<T: Ord>(
    a: Option<Box<BinarySearchTree<T>>>,
    b: Option<Box<BinarySearchTree<T>>>,
) -> bool
    decreases a,
{
    match (a, b) {
        (Some(l), Some(r)) => same_tree(*l, *r),
        (None, None) => true,
        _ => false,
    }
}

impl<T: Ord> PartialEqSpecImpl for BinarySearchTree<T> {
    open spec fn obeys_eq_spec() -> bool {
        T::obeys_eq_spec()
    }

    open spec fn eq_spec(&self, other: &Self) -> bool {
        same_tree(*self, *other)
    }
}

/// `==` on trees: two nodes are equal when their values and both their slots are, two empty
/// trees are equal, and a node never equals an empty tree. What it returns is `eq_spec`,
/// where `T`'s own `==` returns its `eq_spec`.
impl<T: Ord> PartialEq for BinarySearchTree<T> {
    fn eq(&self, other: &Self) -> (r: bool)
        decreases *self,
    {
        match (self, other) {
            (
                BinarySearchTree::Node { value: l_value, left: l_left, right: l_right },
                BinarySearchTree::Node { value: r_value, left: r_left, right: r_right },
            ) => {
                let lefts = match (l_left, r_left) {
                    (Some(l), Some(r)) => (**l).eq(&**r),
                    (None, None) => true,
                    _ => false,
                };
                let rights = match (l_right, r_right) {
                    (Some(l), Some(r)) => (**l).eq(&**r),
                    (None, None) => true,
                    _ => false,
                };
                *l_value == *r_value && lefts && rights
            },
            (BinarySearchTree::Empty, BinarySearchTree::Empty) => true,
            _ => false,
        }
    }
}

/// The default tree is the empty tree.
impl<T: Ord> Default for BinarySearchTree<T> {
    fn default() -> (tree: Self)
        ensures
            tree == BinarySearchTree::<T>::Empty,
    {
        Self::new()
    }
}

impl<T: Ord> BinarySearchTree<T> {
    /// A single node holding `value`, with an empty tree in either slot.
    pub open spec fn leaf(value: T) -> Self {
        BinarySearchTree::Node {
            value,
            left: Some(Box::new(BinarySearchTree::Empty)),
            right: Some(Box::new(BinarySearchTree::Empty)),
        }
    }

    /// The values of the tree from left to right: left subtree, then the node, then the right
    /// subtree.
    pub open spec fn values(self) -> Seq<T>
        decreases self,
    {
        match self {
            BinarySearchTree::Node { value, left, right } => Self::slot_values(left) + seq![value]
                + Self::slot_values(right),
            BinarySearchTree::Empty => Seq::empty(),
        }
    }

    /// The values of the subtree in a child slot, from left to right.
    pub open spec fn slot_values(slot: Option<Box<Self>>) -> Seq<T>
        decreases slot,
    {
        match slot {
            Some(tree) => tree.values(),
            None => Seq::empty(),
        }
    }

    /// The number of nodes on the longest way from the root down; 0 for the empty tree.
    pub open spec fn height_spec(self) -> nat
        decreases self,
    {
        match self {
            BinarySearchTree::Node { left, right, .. } => {
                let hl = Self::slot_height(left);
                let hr = Self::slot_height(right);
                1 + if hl >= hr {
                    hl
                } else {
                    hr
                }
            },
            BinarySearchTree::Empty => 0,
        }
    }

    /// The height of the subtree in a child slot.
    pub open spec fn slot_height(slot: Option<Box<Self>>) -> nat
        decreases slot,
    {
        match slot {
            Some(tree) => tree.height_spec(),
            None => 0,
        }
    }

    /// The search-tree ordering: at every node, all values of the left subtree are less than
    /// the node's value and all values of the right subtree are greater.
    pub open spec fn is_bst(self) -> bool
        decreases self,
    {
        match self {
            BinarySearchTree::Node { value, left, right } => {
                &&& Self::slot_is_bst(left)
                &&& Self::slot_is_bst(right)
                &&& all_less(Self::slot_values(left), value)
                &&& all_greater(Self::slot_values(right), value)
            },
            BinarySearchTree::Empty => true,
        }
    }

    /// The search-tree ordering of the subtree in a child slot.
    pub open spec fn slot_is_bst(slot: Option<Box<Self>>) -> bool
        decreases slot,
    {
        match slot {
            Some(tree) => tree.is_bst(),
            None => true,
        }
    }

    /// The tree after `v` has been inserted: the descent goes left where `v` is less than the
    /// node's value and right where it is greater, and ends either at a node that holds `v`,
    /// which changes nothing, or at an empty place, which becomes a leaf holding `v`.
    pub open spec fn inserted(self, v: T) -> Self
        decreases self,
    {
        match self {
            BinarySearchTree::Node { value, left, right } => {
                if less(v, value) {
                    BinarySearchTree::Node {
                        value,
                        left: Some(Box::new(Self::slot_inserted(left, v))),
                        right,
                    }
                } else if less(value, v) {
                    BinarySearchTree::Node {
                        value,
                        left,
                        right: Some(Box::new(Self::slot_inserted(right, v))),
                    }
                } else {
                    self
                }
            },
            BinarySearchTree::Empty => Self::leaf(v),
        }
    }

    /// The subtree of a child slot after `v` has been inserted into it.
    pub open spec fn slot_inserted(slot: Option<Box<Self>>, v: T) -> Self
        decreases slot,
    {
        match slot {
            Some(tree) => tree.inserted(v),
            None => Self::leaf(v),
        }
    }

    /// The subtree at which the descent for `v` ends at a node holding `v`, if it does.
    pub open spec fn find(self, v: T) -> Option<Self>
        decreases self,
    {
        match self {
            BinarySearchTree::Node { value, left, right } => {
                if less(v, value) {
                    Self::slot_find(left, v)
                } else if less(value, v) {
                    Self::slot_find(right, v)
                } else {
                    Some(self)
                }
            },
            BinarySearchTree::Empty => None,
        }
    }

    /// The result of the descent for `v` in the subtree of a child slot.
    pub open spec fn slot_find(slot: Option<Box<Self>>, v: T) -> Option<Self>
        decreases slot,
    {
        match slot {
            Some(tree) => tree.find(v),
            None => None,
        }
    }

    /// The empty tree.
    pub fn new() -> (tree: Self)
        ensures
            tree == BinarySearchTree::<T>::Empty,
            tree.height_spec() == 0,
            tree.values() == Seq::<T>::empty(),
    {
        BinarySearchTree::Empty
    }

    /// The height of the tree: 0 when it is empty, else one more than the greater of the
    /// heights of its two subtrees.
    pub fn height(&self) -> (h: usize)
        requires
            self.height_spec() <= usize::MAX,
        ensures
            h == self.height_spec(),
        decreases self,
    {
        match self {
            BinarySearchTree::Node { left, right, .. } => {
                let hl: usize = match left {
                    Some(node) => node.height(),
                    None => 0,
                };
                let hr: usize = match right {
                    Some(node) => node.height(),
                    None => 0,
                };
                if hl >= hr {
                    hl + 1
                } else {
                    hr + 1
                }
            },
            BinarySearchTree::Empty => 0,
        }
    }

    /// A tree of one node that holds `value`.
    pub fn create(value: T) -> (tree: Self)
        ensures
            tree == Self::leaf(value),
            tree.height_spec() == 1,
            tree.values() == seq![value],
            tree.is_bst(),
    {
        proof {
            Self::lemma_leaf(value);
        }
        BinarySearchTree::Node {
            value,
            left: Some(Box::new(BinarySearchTree::Empty)),
            right: Some(Box::new(BinarySearchTree::Empty)),
        }
    }

    /// Inserts `new_value` where the search for it ends: in the empty place that the descent
    /// reaches, as a new leaf. A value that the tree already holds is dropped.
    ///
    /// The contract speaks of value types that are totally ordered (`total_order`): the tree
    /// becomes `inserted(new_value)`, holds the new value besides what it held, and stays a
    /// search tree if it was one.
    pub fn insert(&mut self, new_value: T)
        ensures
            total_order::<T>() ==> *final(self) == old(self).inserted(new_value),
            total_order::<T>() ==> forall|x: T|
                #![trigger final(self).values().contains(x)]
                final(self).values().contains(x) <==> old(self).values().contains(x) || x
                    == new_value,
            total_order::<T>() && old(self).is_bst() ==> final(self).is_bst(),
            total_order::<T>() && old(self).is_bst() && old(self).values().contains(new_value)
                ==> *final(self) == *old(self),
            total_order::<T>() && !old(self).values().contains(new_value)
                ==> final(self).values().len() == old(self).values().len() + 1,
        decreases *old(self),
    {
        proof {
            if total_order::<T>() {
                lemma_total_order::<T>();
                lemma_inserted(*self, new_value);
            }
        }
        match self {
            BinarySearchTree::Node { value, left, right } => match new_value.cmp(value) {
                Ordering::Less => match left {
                    Some(node) => node.insert(new_value),
                    None => *left = Some(Box::new(BinarySearchTree::create(new_value))),
                },
                Ordering::Greater => {
                    assert(total_order::<T>() ==> !tied(new_value, *value) && less(
                        *value,
                        new_value,
                    ));
                    match right {
                        Some(node) => node.insert(new_value),
                        None => *right = Some(Box::new(BinarySearchTree::create(new_value))),
                    }
                },
                Ordering::Equal => {
                    assert(total_order::<T>() ==> tied(new_value, *value) && !less(
                        *value,
                        new_value,
                    ));
                },
            },
            BinarySearchTree::Empty => *self = BinarySearchTree::create(new_value),
        }
    }

    /// The values of the tree from left to right, which for a search tree is in ascending
    /// order.
    pub fn sorted_values(&self) -> (values: Vec<&T>)
        ensures
            referents(values@) == self.values(),
            total_order::<T>() && self.is_bst() ==> ascending(referents(values@)),
        decreases self,
    {
        let mut values: Vec<&T> = Vec::new();
        match self {
            BinarySearchTree::Node { value, left, right } => {
                if let Some(left) = left {
                    let mut lower = left.sorted_values();
                    values.append(&mut lower);
                }
                assert(referents(values@) == Self::slot_values(*left));
                values.push(value);
                assert(referents(values@) == Self::slot_values(*left) + seq![*value]);
                if let Some(right) = right {
                    let mut upper = right.sorted_values();
                    let ghost before = values@;
                    values.append(&mut upper);
                    assert(referents(values@) == referents(before) + right.values());
                }
                assert(referents(values@) == self.values());
            },
            BinarySearchTree::Empty => {
                assert(referents(values@) == self.values());
            },
        }
        proof {
            if total_order::<T>() && self.is_bst() {
                lemma_values_ascending(*self);
            }
        }
        values
    }

    /// Looks for `value` by descending left where it is less than a node's value and right
    /// where it is greater. Returns the subtree whose root holds `value`, or `None` when the
    /// descent reaches an empty place.
    pub fn search(&self, value: &T) -> (found: Option<&BinarySearchTree<T>>)
        ensures
            total_order::<T>() ==> match found {
                Some(node) => self.find(*value) == Some(*node),
                None => self.find(*value) is None,
            },
            total_order::<T>() ==> (found matches Some(node) ==> node matches BinarySearchTree::Node {
                value: held,
                ..
            } && held == *value),
            total_order::<T>() && self.is_bst() ==> (found is Some <==> self.values().contains(
                *value,
            )),
        decreases self,
    {
        proof {
            if total_order::<T>() {
                lemma_total_order::<T>();
                lemma_find(*self, *value);
            }
        }
        match self {
            BinarySearchTree::Node { value: held, left, right } => match value.cmp(held) {
                Ordering::Less => match left {
                    Some(node) => node.search(value),
                    None => None,
                },
                Ordering::Greater => {
                    assert(total_order::<T>() ==> !tied(*value, *held) && less(*held, *value));
                    match right {
                        Some(node) => node.search(value),
                        None => None,
                    }
                },
                Ordering::Equal => {
                    assert(total_order::<T>() ==> tied(*value, *held) && !less(*held, *value));
                    Some(self)
                },
            },
            BinarySearchTree::Empty => None,
        }
    }

    /// A leaf has height 1, holds its one value, and is a search tree.
    pub proof fn lemma_leaf(value: T)
        ensures
            Self::leaf(value).height_spec() == 1,
            Self::leaf(value).values() == seq![value],
            Self::leaf(value).is_bst(),
    {
        let empty = Some(Box::new(BinarySearchTree::<T>::Empty));
        assert(Self::slot_height(empty) == 0);
        assert(Self::slot_values(empty) == Seq::<T>::empty());
        assert(Self::slot_is_bst(empty));
    }
}

} // verus!
