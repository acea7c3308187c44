//! Places in a binary tree and their breadth-first order.
//!
//! A place is named by the turns that lead to it from the root, `false` for left and `true`
//! for right. In breadth-first order the root is place 1 and the children of place `n` are
//! places `2n` and `2n + 1`, so a place comes before another exactly when its number is
//! smaller.

use crate::binary_tree::node::Node;
use vstd::arithmetic::power2::{lemma_pow2_unfold, pow2};
use vstd::prelude::*;

verus! {

/// The breadth-first number of the place that `path` leads to.
pub open spec fn rank(path: Seq<bool>) -> nat
    decreases path.len(),
{
    if path.len() == 0 {
        1
    } else {
        2 * rank(path.drop_last()) + if path.last() {
            1nat
        } else {
            0nat
        }
    }
}

/// The path to the place whose breadth-first number is `rank`.
pub open spec fn place(rank: nat) -> Seq<bool>
    decreases rank,
{
    if rank <= 1 {
        Seq::empty()
    } else {
        place(rank / 2).push(rank % 2 == 1)
    }
}

impl<T> Node<T> {
    /// The subtree at the end of `path`, or `None` where the path leaves the tree.
    pub open spec fn at(self, path: Seq<bool>) -> Option<Node<T>>
        decreases path.len(),
    {
        if path.len() == 0 {
            Some(self)
        } else {
            match self.child(path[0]) {
                Some(child) => child.at(path.drop_first()),
                None => None,
            }
        }
    }

    /// `path` leads to an empty slot of a node of the tree.
    pub open spec fn vacant(self, path: Seq<bool>) -> bool {
        path.len() > 0 && self.at(path.drop_last()) is Some && self.at(path) is None
    }

    /// `path` leads to the empty slot that comes first in breadth-first order.
    pub open spec fn is_first_vacancy(self, path: Seq<bool>) -> bool {
        self.vacant(path) && forall|other: Seq<bool>| #[trigger]
            self.vacant(other) ==> rank(path) <= rank(other)
    }

    /// The path to the empty slot that comes first in breadth-first order.
    pub open spec fn first_vacancy(self) -> Seq<bool> {
        choose|path: Seq<bool>| self.is_first_vacancy(path)
    }

    /// The tree with a leaf holding `value` put into the slot that `path` leads to. A path
    /// that leaves the tree before its last turn changes nothing.
    pub open spec fn with_leaf(self, path: Seq<bool>, value: T) -> Node<T>
        decreases path.len(),
    {
        if path.len() == 0 {
            self
        } else {
            let below = if path.len() == 1 {
                Some(Node::leaf(value))
            } else {
                match self.child(path[0]) {
                    Some(child) => Some(child.with_leaf(path.drop_first(), value)),
                    None => None,
                }
            };
            match below {
                Some(subtree) => if path[0] {
                    Node { value: self.value, left: self.left, right: Some(Box::new(subtree)) }
                } else {
                    Node { value: self.value, left: Some(Box::new(subtree)), right: self.right }
                },
                None => self,
            }
        }
    }

    /// The tree is complete: its nodes fill the places in breadth-first order without a gap,
    /// so every level is full but perhaps the last, which is filled from the left.
    pub open spec fn is_complete(self) -> bool {
        forall|p: Seq<bool>, q: Seq<bool>|
            #![trigger self.at(p), self.at(q)]
            self.at(p) is Some && rank(q) < rank(p) ==> self.at(q) is Some
    }
}

/// The subtree in a child slot, out of its box.
pub open spec fn unbox<T>(slot: Option<Box<Node<T>>>) -> Option<Node<T>> {
    match slot {
        Some(node) => Some(*node),
        None => None,
    }
}

/// Taking one more turn doubles the number of the place, and adds one for a right turn.
pub proof fn lemma_rank_push(path: Seq<bool>, turn: bool)
    ensures
        rank(path.push(turn)) == 2 * rank(path) + if turn {
            1nat
        } else {
            0nat
        },
        rank(path) >= 1,
    decreases path.len(),
{
    assert(path.push(turn).drop_last() == path);
    if path.len() > 0 {
        lemma_rank_push(path.drop_last(), path.last());
        assert(path.drop_last().push(path.last()) == path);
    }
}

/// `place` undoes `rank`.
pub proof fn lemma_place_of_rank(path: Seq<bool>)
    ensures
        place(rank(path)) == path,
    decreases path.len(),
{
    if path.len() > 0 {
        lemma_place_of_rank(path.drop_last());
        lemma_rank_push(path.drop_last(), path.last());
        assert(path.drop_last().push(path.last()) == path);
    }
}

/// `rank` undoes `place`.
pub proof fn lemma_rank_of_place(n: nat)
    requires
        n >= 1,
    ensures
        rank(place(n)) == n,
    decreases n,
{
    if n > 1 {
        lemma_rank_of_place(n / 2);
        lemma_rank_push(place(n / 2), n % 2 == 1);
    }
}

/// A place at depth `d` below the root has a number from `2^d` up to, but not including,
/// `2^(d+1)`.
pub proof fn lemma_rank_bounds(path: Seq<bool>)
    ensures
        pow2(path.len()) <= rank(path) < pow2(path.len() + 1),
    decreases path.len(),
{
    lemma_pow2_unfold(path.len() + 1);
    if path.len() == 0 {
        vstd::arithmetic::power2::lemma2_to64();
    } else {
        lemma_rank_bounds(path.drop_last());
        lemma_pow2_unfold(path.len());
    }
}

/// Where a path ends after one more turn: at the child, in the slot of that turn, of the
/// node where it ended before.
pub proof fn lemma_at_push<T>(tree: Node<T>, path: Seq<bool>, turn: bool)
    ensures
        tree.at(path.push(turn)) == match tree.at(path) {
            Some(node) => unbox(node.child(turn)),
            None => None,
        },
    decreases path.len(),
{
    let longer = path.push(turn);
    if path.len() == 0 {
        assert(longer.drop_first() =~= Seq::<bool>::empty());
        match tree.child(turn) {
            Some(child) => {
                assert(child.at(longer.drop_first()) == Some(*child));
            },
            None => {},
        }
    } else {
        assert(longer[0] == path[0]);
        assert(longer.drop_first() == path.drop_first().push(turn));
        match tree.child(path[0]) {
            Some(child) => lemma_at_push(*child, path.drop_first(), turn),
            None => {},
        }
    }
}

/// A path that stays in the tree is shorter than the tree is high.
pub proof fn lemma_depth<T>(tree: Node<T>, path: Seq<bool>)
    requires
        tree.at(path) is Some,
    ensures
        path.len() < tree.height_spec(),
    decreases path.len(),
{
    if path.len() > 0 {
        match tree.child(path[0]) {
            Some(child) => lemma_depth(*child, path.drop_first()),
            None => {},
        }
    }
}

/// Putting a leaf into an empty slot occupies that one place more and no other.
pub proof fn lemma_with_leaf_at<T>(tree: Node<T>, slot: Seq<bool>, value: T, path: Seq<bool>)
    requires
        tree.vacant(slot),
    ensures
        tree.with_leaf(slot, value).at(path) is Some <==> tree.at(path) is Some || path == slot,
    decreases slot.len(),
{
    let after = tree.with_leaf(slot, value);
    let turn = slot[0];
    let rest = slot.drop_first();
    if path.len() == 0 {
    } else if path[0] != turn {
        assert(after.child(path[0]) == tree.child(path[0]));
    } else {
        let tail = path.drop_first();
        assert(path =~= seq![turn] + tail);
        assert(slot =~= seq![turn] + rest);
        if slot.len() == 1 {
            assert(rest =~= Seq::<bool>::empty());
            match tree.child(turn) {
                Some(child) => {
                    assert(child.at(rest) == Some(*child));
                },
                None => {},
            }
            assert(tree.child(turn) is None);
            assert(after.child(turn) == Some(Box::new(Node::leaf(value))));
            assert(after.at(path) == Node::leaf(value).at(tail));
            assert(tree.at(path) is None);
            if tail.len() > 0 {
                assert(Node::leaf(value).child(tail[0]) is None);
                assert(Node::leaf(value).at(tail) is None);
            } else {
                assert(path =~= slot);
            }
        } else {
            let shorter = slot.drop_last();
            assert(shorter[0] == turn);
            assert(shorter.drop_first() == rest.drop_last());
            match tree.child(turn) {
                Some(child) => {
                    assert(child.vacant(rest));
                    lemma_with_leaf_at(*child, rest, value, tail);
                    assert(after.child(turn) == Some(Box::new(child.with_leaf(rest, value))));
                            },
                None => {
                    assert(tree.at(shorter) is None);
                },
            }
        }
    }
}

/// A path that leaves the tree passes an empty slot on its way, at a place that comes no
/// later in breadth-first order than the place the path leads to.
pub proof fn lemma_vacant_prefix<T>(tree: Node<T>, path: Seq<bool>) -> (turns: int)
    requires
        tree.at(path) is None,
    ensures
        1 <= turns <= path.len(),
        tree.vacant(path.take(turns)),
        rank(path.take(turns)) <= rank(path),
    decreases path.len(),
{
    let shorter = path.drop_last();
    if tree.at(shorter) is Some {
        assert(path.take(path.len() as int) == path);
        path.len() as int
    } else {
        let turns = lemma_vacant_prefix(tree, shorter);
        assert(shorter.take(turns) == path.take(turns));
        lemma_rank_push(shorter, path.last());
        assert(shorter.push(path.last()) == path);
        turns
    }
}

/// Every tree has an empty slot: the one reached by turning left until there is no child.
pub proof fn lemma_leftmost_vacancy<T>(tree: Node<T>) -> (path: Seq<bool>)
    ensures
        tree.vacant(path),
    decreases tree,
{
    match tree.left {
        None => {
            let path = seq![false];
            assert(path.drop_last() =~= Seq::<bool>::empty());
            path
        },
        Some(child) => {
            let below = lemma_leftmost_vacancy(*child);
            let path = seq![false] + below;
            assert(path.drop_first() == below);
            assert(path.drop_last().drop_first() == below.drop_last());
            assert(path.drop_last()[0] == false);
            path
        },
    }
}

/// Among the empty slots of a tree one comes first in breadth-first order.
pub proof fn lemma_least_vacancy<T>(tree: Node<T>, some: Seq<bool>) -> (first: Seq<bool>)
    requires
        tree.vacant(some),
    ensures
        tree.is_first_vacancy(first),
    decreases rank(some),
{
    if tree.is_first_vacancy(some) {
        some
    } else {
        let earlier = choose|other: Seq<bool>| tree.vacant(other) && rank(other) < rank(some);
        lemma_least_vacancy(tree, earlier)
    }
}

/// `first_vacancy` names an empty slot, and no empty slot comes before it.
pub proof fn lemma_first_vacancy<T>(tree: Node<T>)
    ensures
        tree.is_first_vacancy(tree.first_vacancy()),
{
    let some = lemma_leftmost_vacancy(tree);
    let first = lemma_least_vacancy(tree, some);
}

} // verus!
