//! Breadth-first insertion into the plain binary tree: a new value goes into the first
//! empty slot in level order, which keeps a complete tree complete.

use crate::binary_tree::node::Node;
use crate::binary_tree::positions::{
    lemma_at_push, lemma_depth, lemma_first_vacancy, lemma_place_of_rank, lemma_rank_bounds,
    lemma_rank_of_place, lemma_rank_push, lemma_vacant_prefix, lemma_with_leaf_at, place, rank,
};
use std::collections::VecDeque;
use vstd::arithmetic::power2::{lemma_pow2_strictly_increases, pow2};
use vstd::prelude::*;

verus! {

/// No two places have the same breadth-first number, so the first vacancy is the only one
/// that is first.
pub proof fn lemma_first_vacancy_unique<T>(tree: Node<T>, path: Seq<bool>)
    requires
        tree.is_first_vacancy(path),
    ensures
        tree.first_vacancy() == path,
{
    let chosen = tree.first_vacancy();
    assert(tree.is_first_vacancy(chosen));
    assert(tree.vacant(chosen) && tree.vacant(path));
    assert(rank(chosen) == rank(path));
    lemma_place_of_rank(chosen);
    lemma_place_of_rank(path);
}

/// The turns from the root to the place with the breadth-first number `number`.
fn path_to(number: usize) -> (path: Vec<bool>)
    ensures
        path@ == place(number as nat),
    decreases number,
{
    if number <= 1 {
        Vec::new()
    } else {
        let mut path = path_to(number / 2);
        path.push(number % 2 == 1);
        path
    }
}

impl<T> Node<T> {
    /// Puts `value` into the first empty slot in breadth-first order: the nodes are visited
    /// level by level, each level from the left, and the first node found with an empty slot
    /// takes the new leaf, in its left slot if that is empty, else in its right slot.
    pub fn insert(&mut self, value: T)
        ensures
            old(self).is_first_vacancy(old(self).first_vacancy()),
            *final(self) == old(self).with_leaf(old(self).first_vacancy(), value),
    {
        let path = self.first_vacant_path();
        proof {
            lemma_first_vacancy_unique(*self, path@);
            assert(path@.skip(0) == path@);
        }
        self.attach(&path, 0, value);
    }

    /// Searches the tree breadth-first, with a queue of the nodes still to visit, for the
    /// first empty slot.
    fn first_vacant_path(&self) -> (path: Vec<bool>)
        ensures
            self.is_first_vacancy(path@),
    {
        let mut queue: VecDeque<&Node<T>> = VecDeque::new();
        queue.push_back(self);
        proof {
            assert forall|p: Seq<bool>| rank(p) < 2 implies #[trigger] self.at(p) is Some by {
                lemma_rank_bounds(p);
                if p.len() > 0 {
                    lemma_pow2_strictly_increases(0, p.len());
                    vstd::arithmetic::power2::lemma2_to64();
                }
            }
        }
        loop
            invariant
                queue@.len() >= 1,
                forall|i: int|
                    0 <= i < queue@.len() ==> self.at(place((queue@.len() + i) as nat)) == Some(
                        *#[trigger] queue@[i],
                    ),
                forall|p: Seq<bool>| rank(p) < 2 * queue@.len() ==> #[trigger] self.at(p) is Some,
            decreases pow2(self.height_spec()) - queue@.len(),
        {
            let number = queue.len();
            let ghost visited = place(number as nat);
            let ghost waiting = queue@;
            proof {
                assert(self.at(visited) == Some(*waiting[0]));
                lemma_depth(*self, visited);
                lemma_rank_bounds(visited);
                lemma_rank_of_place(number as nat);
                if visited.len() + 1 < self.height_spec() {
                    lemma_pow2_strictly_increases(visited.len() + 1, self.height_spec());
                }
                lemma_at_push(*self, visited, false);
                lemma_at_push(*self, visited, true);
                lemma_rank_push(visited, false);
                lemma_rank_push(visited, true);
                lemma_place_of_rank(visited.push(false));
                lemma_place_of_rank(visited.push(true));
            }
            let node = queue.pop_front().unwrap();
            match &node.left {
                None => {
                    let mut path = path_to(number);
                    path.push(false);
                    proof {
                        assert(path@.drop_last() == visited);
                        assert forall|other: Seq<bool>| #[trigger]
                            self.vacant(other) implies rank(path@) <= rank(other) by {
                            if rank(other) < 2 * number {
                                assert(self.at(other) is Some);
                            }
                        }
                    }
                    return path;
                },
                Some(child) => {
                    queue.push_back(child);
                },
            }
            match &node.right {
                None => {
                    let mut path = path_to(number);
                    path.push(true);
                    proof {
                        assert(path@.drop_last() == visited);
                        assert forall|other: Seq<bool>| #[trigger]
                            self.vacant(other) implies rank(path@) <= rank(other) by {
                            if rank(other) < 2 * number {
                                assert(self.at(other) is Some);
                            }
                            if rank(other) == 2 * number {
                                lemma_place_of_rank(other);
                            }
                        }
                    }
                    return path;
                },
                Some(child) => {
                    queue.push_back(child);
                },
            }
            proof {
                assert forall|i: int| 0 <= i < queue@.len() implies self.at(
                    place((queue@.len() + i) as nat),
                ) == Some(*#[trigger] queue@[i]) by {
                    if i < number - 1 {
                        assert(queue@[i] == waiting[i + 1]);
                    }
                }
                assert forall|p: Seq<bool>| rank(p) < 2 * queue@.len() implies #[trigger] self.at(
                    p,
                ) is Some by {
                    if rank(p) >= 2 * number {
                        lemma_place_of_rank(p);
                    }
                }
            }
        }
    }

    /// Follows `path` from its turn number `from` on and puts a leaf holding `value` into the
    /// slot where it ends.
    fn attach(&mut self, path: &Vec<bool>, from: usize, value: T)
        requires
            from < path.len(),
        ensures
            *final(self) == old(self).with_leaf(path@.skip(from as int), value),
        decreases path.len() - from,
    {
        let ghost rest = path@.skip(from as int);
        assert(rest[0] == path@[from as int]);
        assert(rest.drop_first() == path@.skip(from + 1));
        let last = from + 1 == path.len();
        if path[from] {
            if last {
                self.right = Some(Box::new(Node::new(value)));
            } else {
                match &mut self.right {
                    Some(child) => child.attach(path, from + 1, value),
                    None => {},
                }
            }
        } else {
            if last {
                self.left = Some(Box::new(Node::new(value)));
            } else {
                match &mut self.left {
                    Some(child) => child.attach(path, from + 1, value),
                    None => {},
                }
            }
        }
    }
}

/// Breadth-first insertion keeps a complete tree complete: the first empty slot of a
/// complete tree is the place right after its last node.
pub proof fn lemma_insert_keeps_complete<T>(tree: Node<T>, value: T)
    requires
        tree.is_complete(),
    ensures
        tree.with_leaf(tree.first_vacancy(), value).is_complete(),
{
    let slot = tree.first_vacancy();
    let after = tree.with_leaf(slot, value);
    lemma_first_vacancy(tree);
    assert forall|p: Seq<bool>, q: Seq<bool>|
        #![trigger after.at(p), after.at(q)]
        after.at(p) is Some && rank(q) < rank(p) implies after.at(q) is Some by {
        lemma_with_leaf_at(tree, slot, value, p);
        lemma_with_leaf_at(tree, slot, value, q);
        if tree.at(q) is None {
            let turns = lemma_vacant_prefix(tree, q);
            assert(rank(slot) <= rank(q.take(turns)));
            if tree.at(p) is Some {
                assert(tree.at(q) is Some);
            }
        }
    }
}

} // verus!
