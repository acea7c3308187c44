//! The values of a search tree grouped by level: the root's level first, each level from
//! left to right.

use crate::binary_tree::{referents, BinarySearchTree};
use vstd::prelude::*;

verus! {

/// The values at the roots of `nodes`, in the same order.
pub open spec fn root_values<T: Ord>(nodes: Seq<BinarySearchTree<T>>) -> Seq<T> {
    nodes.map_values(|node: BinarySearchTree<T>| node->value)
}

/// The non-empty subtrees that hang directly below `nodes`: for each node in turn, its left
/// one and then its right one.
pub open spec fn children<T: Ord>(nodes: Seq<BinarySearchTree<T>>) -> Seq<BinarySearchTree<T>>
    decreases nodes.len(),
{
    if nodes.len() == 0 {
        Seq::empty()
    } else {
        children(nodes.drop_last()) + nodes.last().level_nodes(1)
    }
}

impl<T: Ord> BinarySearchTree<T> {
    /// The non-empty subtrees whose roots lie `depth` levels below the root of the tree,
    /// from left to right. Level 0 holds the tree itself, unless it is empty.
    pub open spec fn level_nodes(self, depth: nat) -> Seq<Self>
        decreases self,
    {
        match self {
            BinarySearchTree::Node { left, right, .. } => {
                if depth == 0 {
                    seq![self]
                } else {
                    Self::slot_level_nodes(left, (depth - 1) as nat) + Self::slot_level_nodes(
                        right,
                        (depth - 1) as nat,
                    )
                }
            },
            BinarySearchTree::Empty => Seq::empty(),
        }
    }

    /// The non-empty subtrees `depth` levels below the root of the subtree in a child slot.
    pub open spec fn slot_level_nodes(slot: Option<Box<Self>>, depth: nat) -> Seq<Self>
        decreases slot,
    {
        match slot {
            Some(tree) => tree.level_nodes(depth),
            None => Seq::empty(),
        }
    }

    /// The values `depth` levels below the root, from left to right.
    pub open spec fn level_values(self, depth: nat) -> Seq<T> {
        root_values(self.level_nodes(depth))
    }

    /// A level holds a node exactly when it lies above the height of the tree, and what it
    /// holds are nodes, not empty trees.
    pub proof fn lemma_level_nodes(self, depth: nat)
        ensures
            self.level_nodes(depth).len() > 0 <==> depth < self.height_spec(),
            forall|i: int|
                0 <= i < self.level_nodes(depth).len() ==> (#[trigger] self.level_nodes(
                    depth,
                )[i]) is Node,
        decreases self,
    {
        match self {
            BinarySearchTree::Node { left, right, .. } => {
                if depth > 0 {
                    let above = (depth - 1) as nat;
                    if let Some(tree) = left {
                        tree.lemma_level_nodes(above);
                    }
                    if let Some(tree) = right {
                        tree.lemma_level_nodes(above);
                    }
                }
            },
            BinarySearchTree::Empty => {},
        }
    }

    /// The next level holds the children of the nodes of this level.
    pub proof fn lemma_next_level(self, depth: nat)
        ensures
            self.level_nodes(depth + 1) == children(self.level_nodes(depth)),
        decreases self,
    {
        match self {
            BinarySearchTree::Node { left, right, .. } => {
                if depth == 0 {
                    assert(seq![self].drop_last() =~= Seq::<Self>::empty());
                    assert(children(Seq::<Self>::empty()).len() == 0);
                    assert(children(seq![self]) =~= self.level_nodes(1));
                } else {
                    let above = (depth - 1) as nat;
                    if let Some(tree) = left {
                        tree.lemma_next_level(above);
                    }
                    if let Some(tree) = right {
                        tree.lemma_next_level(above);
                    }
                    lemma_children_add(
                        Self::slot_level_nodes(left, above),
                        Self::slot_level_nodes(right, above),
                    );
                }
            },
            BinarySearchTree::Empty => {},
        }
    }

    /// The values of the tree by level, the root's level first and each level from left to
    /// right. The tree is walked breadth-first: the nodes of one level give their values and
    /// hand on their children, which are the next level.
    pub fn levels(&self) -> (levels: Vec<Vec<&T>>)
        ensures
            levels@.len() == self.height_spec(),
            forall|d: int|
                0 <= d < levels@.len() ==> referents(#[trigger] levels@[d]@) == self.level_values(
                    d as nat,
                ),
    {
        let mut levels: Vec<Vec<&T>> = Vec::new();
        let mut frontier: Vec<&BinarySearchTree<T>> = Vec::new();
        push_node(&mut frontier, self);
        while frontier.len() > 0
            invariant
                levels@.len() <= self.height_spec(),
                referents(frontier@) == self.level_nodes(levels@.len() as nat),
                forall|d: int|
                    0 <= d < levels@.len() ==> referents(#[trigger] levels@[d]@)
                        == self.level_values(d as nat),
            decreases self.height_spec() - levels@.len(),
        {
            proof {
                self.lemma_level_nodes(levels@.len() as nat);
                self.lemma_next_level(levels@.len() as nat);
            }
            let ghost level = referents(frontier@);
            let mut values: Vec<&T> = Vec::new();
            let mut next: Vec<&BinarySearchTree<T>> = Vec::new();
            let mut i: usize = 0;
            while i < frontier.len()
                invariant
                    i <= frontier.len(),
                    level == referents(frontier@),
                    forall|k: int| 0 <= k < level.len() ==> (#[trigger] level[k]) is Node,
                    referents(values@) == root_values(level.take(i as int)),
                    referents(next@) == children(level.take(i as int)),
                decreases frontier.len() - i,
            {
                let ghost seen = level.take(i as int);
                let ghost had = values@;
                proof {
                    assert(level.take(i + 1).drop_last() == seen);
                    assert(level.take(i + 1).last() == level[i as int]);
                    assert(level[i as int] is Node);
                    assert(level.take(i + 1) == seen.push(level[i as int]));
                }
                match frontier[i] {
                    BinarySearchTree::Node { value, left, right } => {
                        values.push(value);
                        if let Some(child) = left {
                            push_node(&mut next, &**child);
                        }
                        if let Some(child) = right {
                            push_node(&mut next, &**child);
                        }
                    },
                    BinarySearchTree::Empty => {},
                }
                proof {
                    assert(values@ == had.push(&level[i as int]->value));
                    assert(referents(values@) == referents(had).push(level[i as int]->value));
                    assert(referents(values@) == root_values(level.take(i + 1)));
                    assert(referents(next@) == children(level.take(i + 1)));
                }
                i += 1;
            }
            proof {
                assert(level.take(i as int) == level);
            }
            levels.push(values);
            frontier = next;
        }
        proof {
            self.lemma_level_nodes(levels@.len() as nat);
        }
        levels
    }
}

/// The children of two rows of nodes, one after the other, are the children of the first row
/// and then those of the second.
pub proof fn lemma_children_add<T: Ord>(
    a: Seq<BinarySearchTree<T>>,
    b: Seq<BinarySearchTree<T>>,
)
    ensures
        children(a + b) == children(a) + children(b),
    decreases b.len(),
{
    if b.len() == 0 {
        assert(a + b == a);
    } else {
        lemma_children_add(a, b.drop_last());
        assert((a + b).drop_last() == a + b.drop_last());
    }
}

/// Adds `tree` to the row `nodes` unless it is empty.
fn push_node<'a, T: Ord>(nodes: &mut Vec<&'a BinarySearchTree<T>>, tree: &'a BinarySearchTree<T>)
    ensures
        referents(final(nodes)@) == referents(old(nodes)@) + tree.level_nodes(0),
{
    match tree {
        BinarySearchTree::Node { .. } => {
            nodes.push(tree);
            assert(referents(nodes@) == referents(old(nodes)@) + seq![*tree]);
        },
        BinarySearchTree::Empty => {
            assert(referents(nodes@) == referents(old(nodes)@) + Seq::<BinarySearchTree<T>>::empty());
        },
    }
}

} // verus!
