//! In-order traversal without recursion: the nodes whose value and right subtree are still
//! to come wait on an explicit stack.

use crate::binary_tree::laws::lemma_values_ascending;
use crate::binary_tree::node::Node;
use crate::binary_tree::order::{ascending, total_order};
use crate::binary_tree::traversal::in_order_of;
use crate::binary_tree::{referents, BinarySearchTree};
use vstd::prelude::*;

verus! {

/// Each of `copies` is a clone of the value at the same index of `values`.
pub open spec fn clones_of<T: Clone>(values: Seq<T>, copies: Seq<T>) -> bool {
    &&& copies.len() == values.len()
    &&& forall|i: int| 0 <= i < values.len() ==> cloned(#[trigger] values[i], copies[i])
}

/// A clone of a `T` is always the same value as the one it was made from.
pub open spec fn clone_is_exact<T: Clone>() -> bool {
    forall|a: T, b: T| #[trigger] cloned(a, b) ==> a == b
}

/// What the nodes waiting on the stack will still give, from the top of the stack down: for
/// each, its own value and then the in-order values of its right subtree.
pub open spec fn pending<T>(stack: Seq<&Node<T>>) -> Seq<T>
    decreases stack.len(),
{
    if stack.len() == 0 {
        Seq::empty()
    } else {
        seq![stack.last().value] + Node::slot_in_order(stack.last().right) + pending(
            stack.drop_last(),
        )
    }
}

/// The number of steps that the nodes waiting on the stack still take.
pub open spec fn pending_steps<T>(stack: Seq<&Node<T>>) -> nat
    decreases stack.len(),
{
    if stack.len() == 0 {
        0
    } else {
        1 + 2 * Node::slot_size(stack.last().right) + pending_steps(stack.drop_last())
    }
}

/// The in-order values of the subtree that a reference to a child slot's node stands for.
pub open spec fn in_order_from<T>(current: Option<&Node<T>>) -> Seq<T> {
    match current {
        Some(node) => node.in_order_values(),
        None => Seq::empty(),
    }
}

/// The number of nodes of the subtree that the walk is about to descend into.
pub open spec fn size_from<T>(current: Option<&Node<T>>) -> nat {
    match current {
        Some(node) => node.size(),
        None => 0,
    }
}

/// The node in a child slot, by reference.
fn borrowed<T>(slot: &Option<Box<Node<T>>>) -> (node: Option<&Node<T>>)
    ensures
        in_order_from(node) == Node::slot_in_order(*slot),
        size_from(node) == Node::slot_size(*slot),
        node is Some <==> slot is Some,
{
    match slot {
        Some(child) => Some(&**child),
        None => None,
    }
}

/// Appends clones of the values of the tree to `buffer` in in-order, the order in which the
/// recursive `traversal::in_order` gives the values themselves. The walk descends to the
/// left and pushes each node it passes; where it can go no further it pops a node, gives its
/// value, and goes on into that node's right subtree; it ends when the stack is empty and
/// there is no subtree to descend into.
pub fn in_order<T: Clone>(root: &Node<T>, buffer: &mut Vec<T>)
    ensures
        final(buffer)@.len() == old(buffer)@.len() + root.in_order_values().len(),
        final(buffer)@.take(old(buffer)@.len() as int) == old(buffer)@,
        clones_of(root.in_order_values(), final(buffer)@.skip(old(buffer)@.len() as int)),
        clone_is_exact::<T>() ==> final(buffer)@ == old(buffer)@ + root.in_order_values(),
{
    let ghost before = buffer@;
    let ghost mut given: Seq<T> = Seq::empty();
    let mut stack: Vec<&Node<T>> = Vec::new();
    let mut current: Option<&Node<T>> = Some(root);
    while current.is_some() || stack.len() > 0
        invariant
            given + in_order_from(current) + pending(stack@) == root.in_order_values(),
            buffer@.len() == before.len() + given.len(),
            buffer@.take(before.len() as int) == before,
            clones_of(given, buffer@.skip(before.len() as int)),
        decreases 2 * size_from(current) + pending_steps(stack@),
    {
        match current {
            Some(node) => {
                let ghost waiting = stack@;
                stack.push(node);
                current = borrowed(&node.left);
                proof {
                    assert(stack@.drop_last() == waiting);
                }
            },
            None => {
                let ghost waiting = stack@;
                let node = stack.pop().unwrap();
                let ghost emitted = buffer@;
                buffer.push(node.value.clone());
                current = borrowed(&node.right);
                proof {
                    assert(stack@ == waiting.drop_last());
                    assert(buffer@.take(before.len() as int) == emitted.take(before.len() as int));
                    assert(buffer@.skip(before.len() as int) == emitted.skip(
                        before.len() as int,
                    ).push(buffer@.last()));
                    given = given.push(node.value);
                }
            },
        }
    }
    proof {
        assert(given == root.in_order_values());
        if clone_is_exact::<T>() {
            assert(buffer@.skip(before.len() as int) == given);
            assert(buffer@ == buffer@.take(before.len() as int) + buffer@.skip(before.len() as int));
        }
    }
}

/// The iterative walk gives what the recursive traversal gives. Started on buffers that hold
/// the same values `start`, `traversal::in_order` leaves `recursive` and
/// `stack_traversal::in_order` leaves `iterative`: the two are equally long, agree on
/// `start`, and after it each value of `iterative` is a clone of the value of `recursive` at
/// the same index; where clones are exact the two buffers are equal.
pub proof fn lemma_stack_walk_agrees<T: Clone>(
    tree: Node<T>,
    start: Seq<T>,
    recursive: Seq<T>,
    iterative: Seq<T>,
)
    requires
        recursive == start + in_order_of(Some(tree)),
        iterative.len() == start.len() + tree.in_order_values().len(),
        iterative.take(start.len() as int) == start,
        clones_of(tree.in_order_values(), iterative.skip(start.len() as int)),
    ensures
        iterative.len() == recursive.len(),
        forall|i: int| 0 <= i < start.len() ==> iterative[i] == recursive[i],
        forall|i: int|
            start.len() <= i < recursive.len() ==> cloned(#[trigger] recursive[i], iterative[i]),
        clone_is_exact::<T>() ==> iterative == recursive,
{
    let values = tree.in_order_values();
    let copies = iterative.skip(start.len() as int);
    assert forall|i: int| 0 <= i < start.len() implies iterative[i] == recursive[i] by {
        assert(iterative.take(start.len() as int)[i] == iterative[i]);
    }
    assert forall|i: int| start.len() <= i < recursive.len() implies cloned(
        #[trigger] recursive[i],
        iterative[i],
    ) by {
        assert(recursive[i] == values[i - start.len()]);
        assert(copies[i - start.len()] == iterative[i]);
    }
    if clone_is_exact::<T>() {
        assert(iterative =~= recursive);
    }
}

/// What the nodes of a search tree waiting on the stack will still give, from the top of the
/// stack down: for each, its own value and then the values of its right subtree.
pub open spec fn pending_values<T: Ord>(stack: Seq<&BinarySearchTree<T>>) -> Seq<T>
    decreases stack.len(),
{
    if stack.len() == 0 {
        Seq::empty()
    } else {
        seq![stack.last()->value] + BinarySearchTree::slot_values(stack.last()->right)
            + pending_values(stack.drop_last())
    }
}

/// The number of steps that the nodes of a search tree waiting on the stack still take.
pub open spec fn pending_work<T: Ord>(stack: Seq<&BinarySearchTree<T>>) -> nat
    decreases stack.len(),
{
    if stack.len() == 0 {
        0
    } else {
        1 + 2 * BinarySearchTree::slot_size(stack.last()->right) + pending_work(
            stack.drop_last(),
        )
    }
}

/// The values of the subtree that the walk is about to descend into, if there is one.
pub open spec fn values_from<T: Ord>(current: Option<&BinarySearchTree<T>>) -> Seq<T> {
    match current {
        Some(tree) => tree.values(),
        None => Seq::empty(),
    }
}

/// The number of nodes of the subtree that the walk is about to descend into.
pub open spec fn nodes_from<T: Ord>(current: Option<&BinarySearchTree<T>>) -> nat {
    match current {
        Some(tree) => tree.size(),
        None => 0,
    }
}

/// The tree itself where it has a node, `None` where it is empty.
fn nonempty<T: Ord>(tree: &BinarySearchTree<T>) -> (node: Option<&BinarySearchTree<T>>)
    ensures
        node matches Some(found) ==> found is Node,
        values_from(node) == tree.values(),
        nodes_from(node) == tree.size(),
{
    match tree {
        BinarySearchTree::Node { .. } => Some(tree),
        BinarySearchTree::Empty => None,
    }
}

/// The subtree in a child slot where it has a node.
fn nonempty_child<T: Ord>(slot: &Option<Box<BinarySearchTree<T>>>) -> (node: Option<
    &BinarySearchTree<T>,
>)
    ensures
        node matches Some(found) ==> found is Node,
        values_from(node) == BinarySearchTree::slot_values(*slot),
        nodes_from(node) == BinarySearchTree::slot_size(*slot),
{
    match slot {
        Some(child) => nonempty(&**child),
        None => None,
    }
}

impl<T: Ord> BinarySearchTree<T> {
    /// The number of nodes of the tree.
    pub open spec fn size(self) -> nat
        decreases self,
    {
        match self {
            BinarySearchTree::Node { left, right, .. } => 1 + Self::slot_size(left)
                + Self::slot_size(right),
            BinarySearchTree::Empty => 0,
        }
    }

    /// The number of nodes of the subtree in a child slot.
    pub open spec fn slot_size(slot: Option<Box<Self>>) -> nat
        decreases slot,
    {
        match slot {
            Some(tree) => tree.size(),
            None => 0,
        }
    }

    /// The values of the tree from left to right, as `sorted_values` gives them, found
    /// without recursion: the walk keeps the nodes whose value and right subtree are still
    /// to come on a stack.
    pub fn sorted_values_iterative(&self) -> (values: Vec<&T>)
        ensures
            referents(values@) == self.values(),
            total_order::<T>() && self.is_bst() ==> ascending(referents(values@)),
    {
        let mut values: Vec<&T> = Vec::new();
        let mut stack: Vec<&BinarySearchTree<T>> = Vec::new();
        let mut current: Option<&BinarySearchTree<T>> = nonempty(self);
        while current.is_some() || stack.len() > 0
            invariant
                current matches Some(tree) ==> tree is Node,
                forall|i: int| 0 <= i < stack@.len() ==> (#[trigger] stack@[i]) is Node,
                referents(values@) + values_from(current) + pending_values(stack@)
                    == self.values(),
            decreases 2 * nodes_from(current) + pending_work(stack@),
        {
            let ghost waiting = stack@;
            let ghost given = values@;
            match current {
                Some(tree) => {
                    stack.push(tree);
                    proof {
                        assert(stack@.drop_last() == waiting);
                    }
                    current = match tree {
                        BinarySearchTree::Node { left, .. } => nonempty_child(left),
                        BinarySearchTree::Empty => None,
                    };
                },
                None => {
                    let tree = stack.pop().unwrap();
                    proof {
                        assert(stack@ == waiting.drop_last());
                        assert(waiting.last() is Node);
                    }
                    current = match tree {
                        BinarySearchTree::Node { value, right, .. } => {
                            values.push(value);
                            proof {
                                assert(referents(values@) == referents(given).push(*value));
                            }
                            nonempty_child(right)
                        },
                        BinarySearchTree::Empty => None,
                    };
                },
            }
        }
        proof {
            assert(referents(values@) == self.values());
            if total_order::<T>() && self.is_bst() {
                lemma_values_ascending(*self);
            }
        }
        values
    }
}

} // verus!
