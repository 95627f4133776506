use vstd::prelude::*;

use crate::breadth_first_iter::BreadthFirstIter;
use crate::depth_first_iter::DepthFirstIter;
use crate::depth_first_order::DepthFirstOrder;
use crate::entry::Entry;
use crate::entry_mut::EntryMut;
use crate::node_child_iter::NodeChildIter;
use crate::traversal::{breadth_first_seq, subtree_seq, subtree_value_seq};
use crate::eytzinger_index_calculator::{
    in_subtree, spec_child_index, spec_parent_index, spec_split_index,
};
use crate::{EytzingerTree, Node};

verus! {

/// An exclusive-write cursor over one occupied position of a tree.  The cursor
/// records the position; each operation takes the tree it navigates, and asks
/// that the position be occupied there.  At most one such cursor should be in
/// use for a tree at a time, which the borrow on the tree enforces call by
/// call.
#[derive(Debug)]
pub struct NodeMut<N> {
    index: usize,
    marker: core::marker::PhantomData<N>,
}

impl<N> NodeMut<N> {
    /// The position this cursor points at.
    pub closed spec fn index_spec(self) -> int {
        self.index as int
    }

    /// Whether this cursor points at an occupied position of `tree`.
    pub open spec fn valid(self, tree: EytzingerTree<N>) -> bool {
        &&& tree.wf()
        &&& tree.occupied(self.index_spec())
    }

    pub(crate) fn at(index: usize) -> (r: Self)
        ensures
            r.index_spec() == index,
    {
        NodeMut { index, marker: core::marker::PhantomData }
    }

    /// The position this cursor points at, as the tree numbers positions.
    pub fn index(&self) -> (r: usize)
        ensures
            r == self.index_spec(),
    {
        self.index
    }

    /// Gets the value stored at this node.
    pub fn value<'a>(&self, tree: &'a EytzingerTree<N>) -> (r: &'a N)
        requires
            self.valid(*tree),
        ensures
            *r == tree.value_at(self.index_spec()),
    {
        tree.value_ref(self.index)
    }

    /// Gets the value stored at this node for writing.  The tree afterwards
    /// holds whatever the caller leaves behind the reference;
    /// `EytzingerTree::lemma_value_update` recovers well-formedness from that.
    pub fn value_mut<'a>(&self, tree: &'a mut EytzingerTree<N>) -> (r: &'a mut N)
        requires
            self.valid(*old(tree)),
        ensures
            *r == old(tree).value_at(self.index_spec()),
            final(tree).slots() == old(tree).slots().update(
                self.index_spec(),
                Some(*final(r)),
            ),
            final(tree).branching() == old(tree).branching(),
            final(tree).spec_len() == old(tree).spec_len(),
    {
        tree.value_mut_ref(self.index)
    }

    /// Gets the value stored at this node for writing, consuming the cursor.
    pub fn into_value_mut<'a>(self, tree: &'a mut EytzingerTree<N>) -> (r: &'a mut N)
        requires
            self.valid(*old(tree)),
        ensures
            *r == old(tree).value_at(self.index_spec()),
            final(tree).slots() == old(tree).slots().update(
                self.index_spec(),
                Some(*final(r)),
            ),
            final(tree).branching() == old(tree).branching(),
            final(tree).spec_len() == old(tree).spec_len(),
    {
        tree.value_mut_ref(self.index)
    }

    /// Gets the parent of this node, or `None` at the root.
    pub fn parent<'a>(&self, tree: &'a EytzingerTree<N>) -> (r: Option<Node<'a, N>>)
        requires
            self.valid(*tree),
        ensures
            r is Some <==> self.index_spec() != 0,
            r matches Some(p) ==> p.wf() && p.spec_tree() == *tree && p.index_spec()
                == spec_parent_index(tree.branching(), self.index_spec()),
    {
        tree.parent(self.index)
    }

    /// Moves this cursor to the parent node, handing the cursor back unmoved
    /// when it already stands at the root.
    pub fn to_parent(self, tree: &EytzingerTree<N>) -> (r: Result<Self, Self>)
        requires
            self.valid(*tree),
        ensures
            r is Ok <==> self.index_spec() != 0,
            r matches Ok(p) ==> p.valid(*tree) && p.index_spec() == spec_parent_index(
                tree.branching(),
                self.index_spec(),
            ),
            r matches Err(s) ==> s == self,
    {
        match tree.parent_mut(self.index) {
            Some(parent) => Ok(parent),
            None => Err(self),
        }
    }

    /// Gets the child of this node at the specified child slot, or `None` if
    /// no node is there.
    pub fn child<'a>(&self, tree: &'a EytzingerTree<N>, index: usize) -> (r: Option<
        Node<'a, N>,
    >)
        requires
            self.valid(*tree),
            index < tree.branching(),
        ensures
            r is Some <==> tree.occupied(
                spec_child_index(tree.branching(), self.index_spec(), index as int),
            ),
            r matches Some(c) ==> c.wf() && c.spec_tree() == *tree && c.index_spec()
                == spec_child_index(tree.branching(), self.index_spec(), index as int),
    {
        tree.child(self.index, index)
    }

    /// Gets a write cursor for the child of this node at the specified child
    /// slot, or `None` if no node is there.
    pub fn child_mut(&self, tree: &EytzingerTree<N>, index: usize) -> (r: Option<NodeMut<N>>)
        requires
            self.valid(*tree),
            index < tree.branching(),
        ensures
            r is Some <==> tree.occupied(
                spec_child_index(tree.branching(), self.index_spec(), index as int),
            ),
            r matches Some(c) ==> c.valid(*tree) && c.index_spec() == spec_child_index(
                tree.branching(),
                self.index_spec(),
                index as int,
            ),
    {
        tree.child_mut(self.index, index)
    }

    /// Moves this cursor to the child at the specified child slot, handing the
    /// cursor back unmoved when no node is there.
    pub fn to_child(self, tree: &EytzingerTree<N>, index: usize) -> (r: Result<Self, Self>)
        requires
            self.valid(*tree),
            index < tree.branching(),
        ensures
            r is Ok <==> tree.occupied(
                spec_child_index(tree.branching(), self.index_spec(), index as int),
            ),
            r matches Ok(c) ==> c.valid(*tree) && c.index_spec() == spec_child_index(
                tree.branching(),
                self.index_spec(),
                index as int,
            ),
            r matches Err(s) ==> s == self,
    {
        match tree.child_mut(self.index, index) {
            Some(child) => Ok(child),
            None => Err(self),
        }
    }

    /// Sets the value of the child at the specified child slot: any node that
    /// stood there is removed first, subtree and all, and a fresh node with
    /// the given value takes its place.
    pub fn set_child_value(&self, tree: &mut EytzingerTree<N>, index: usize, new_value: N) -> (r:
        NodeMut<N>)
        requires
            self.valid(*old(tree)),
            index < old(tree).branching(),
            spec_child_index(old(tree).branching(), self.index_spec(), index as int)
                < usize::MAX,
        ensures
            final(tree).wf(),
            final(tree).branching() == old(tree).branching(),
            r.valid(*final(tree)),
            r.index_spec() == spec_child_index(
                old(tree).branching(),
                self.index_spec(),
                index as int,
            ),
            forall|j: int|
                #[trigger] final(tree).occupied(j) == ((old(tree).occupied(j) && !in_subtree(
                    old(tree).branching(),
                    spec_child_index(old(tree).branching(), self.index_spec(), index as int),
                    j,
                )) || j == r.index_spec()),
            final(tree).value_at(r.index_spec()) == new_value,
            forall|j: int|
                final(tree).occupied(j) && j != r.index_spec() ==> final(tree).value_at(j)
                    == old(tree).value_at(j),
            final(tree).spec_len() == old(tree).spec_len() - old(tree).subtree_count(
                r.index_spec(),
            ) + 1,
    {
        let entry = self.child_entry_mut(tree, index);
        let (_old_value, node) = entry.set_value(tree, new_value);
        node
    }

    /// Removes the child value at the specified child slot together with that
    /// child's whole subtree, returning the removed child value, if any.
    pub fn remove_child_value(&self, tree: &mut EytzingerTree<N>, index: usize) -> (r: Option<N>)
        requires
            self.valid(*old(tree)),
            index < old(tree).branching(),
            spec_child_index(old(tree).branching(), self.index_spec(), index as int)
                <= usize::MAX,
        ensures
            final(tree).wf(),
            final(tree).branching() == old(tree).branching(),
            forall|j: int|
                #[trigger] final(tree).occupied(j) == (old(tree).occupied(j) && !in_subtree(
                    old(tree).branching(),
                    spec_child_index(old(tree).branching(), self.index_spec(), index as int),
                    j,
                )),
            forall|j: int|
                final(tree).occupied(j) ==> final(tree).value_at(j) == old(tree).value_at(j),
            final(tree).spec_len() == old(tree).spec_len() - old(tree).subtree_count(
                spec_child_index(old(tree).branching(), self.index_spec(), index as int),
            ),
            r == if old(tree).occupied(
                spec_child_index(old(tree).branching(), self.index_spec(), index as int),
            ) {
                Some(
                    old(tree).value_at(
                        spec_child_index(
                            old(tree).branching(),
                            self.index_spec(),
                            index as int,
                        ),
                    ),
                )
            } else {
                None::<N>
            },
    {
        let child_index = tree.index_calculator_ref().child_index(self.index, index);
        tree.remove(child_index)
    }

    /// Gets the read-only entry for the child at the specified child slot.
    pub fn child_entry<'a>(&self, tree: &'a EytzingerTree<N>, index: usize) -> (r: Entry<'a, N>)
        requires
            self.valid(*tree),
            index < tree.branching(),
            spec_child_index(tree.branching(), self.index_spec(), index as int) <= usize::MAX,
        ensures
            r.wf(),
            r.spec_tree() == *tree,
            r.index_spec() == spec_child_index(
                tree.branching(),
                self.index_spec(),
                index as int,
            ),
    {
        tree.child_entry(self.index, index)
    }

    /// Gets the read-only entry for the child at the specified child slot,
    /// consuming the cursor.
    pub fn to_child_entry<'a>(self, tree: &'a EytzingerTree<N>, index: usize) -> (r: Entry<
        'a,
        N,
    >)
        requires
            self.valid(*tree),
            index < tree.branching(),
            spec_child_index(tree.branching(), self.index_spec(), index as int) <= usize::MAX,
        ensures
            r.wf(),
            r.spec_tree() == *tree,
            r.index_spec() == spec_child_index(
                tree.branching(),
                self.index_spec(),
                index as int,
            ),
    {
        tree.child_entry(self.index, index)
    }

    /// Gets the write entry for the child at the specified child slot.
    pub fn child_entry_mut(&self, tree: &EytzingerTree<N>, index: usize) -> (r: EntryMut<N>)
        requires
            self.valid(*tree),
            index < tree.branching(),
            spec_child_index(tree.branching(), self.index_spec(), index as int) < usize::MAX,
        ensures
            r.valid(*tree),
            r.index_spec() == spec_child_index(
                tree.branching(),
                self.index_spec(),
                index as int,
            ),
    {
        tree.child_entry_mut(self.index, index)
    }

    /// Gets the write entry for the child at the specified child slot,
    /// consuming the cursor.
    pub fn to_child_entry_mut(self, tree: &EytzingerTree<N>, index: usize) -> (r: EntryMut<N>)
        requires
            self.valid(*tree),
            index < tree.branching(),
            spec_child_index(tree.branching(), self.index_spec(), index as int) < usize::MAX,
        ensures
            r.valid(*tree),
            r.index_spec() == spec_child_index(
                tree.branching(),
                self.index_spec(),
                index as int,
            ),
    {
        tree.child_entry_mut(self.index, index)
    }

    /// Removes this node from the tree together with its whole subtree, and
    /// returns the value that stood at the node.
    pub fn remove(self, tree: &mut EytzingerTree<N>) -> (r: N)
        requires
            self.valid(*old(tree)),
        ensures
            final(tree).wf(),
            final(tree).branching() == old(tree).branching(),
            forall|j: int|
                #[trigger] final(tree).occupied(j) == (old(tree).occupied(j) && !in_subtree(
                    old(tree).branching(),
                    self.index_spec(),
                    j,
                )),
            forall|j: int|
                final(tree).occupied(j) ==> final(tree).value_at(j) == old(tree).value_at(j),
            final(tree).spec_len() == old(tree).spec_len() - old(tree).subtree_count(
                self.index_spec(),
            ),
            r == old(tree).value_at(self.index_spec()),
    {
        match tree.remove(self.index) {
            Some(value) => value,
            None => unreached(),
        }
    }

    /// Gets a read-only cursor for this node.
    pub fn as_node<'a>(&self, tree: &'a EytzingerTree<N>) -> (r: Node<'a, N>)
        requires
            self.valid(*tree),
        ensures
            r.wf(),
            r.spec_tree() == *tree,
            r.index_spec() == self.index_spec(),
    {
        Node::at(tree, self.index)
    }

    /// Moves the whole subtree rooted at this node out into a brand-new tree
    /// with the same branching factor, renumbered so this node becomes the
    /// new tree's root.  The new tree reads, in depth-first pre-order,
    /// exactly as this subtree did; the source tree keeps everything outside
    /// the subtree.
    pub fn split_off(self, tree: &mut EytzingerTree<N>) -> (r: EytzingerTree<N>)
        requires
            self.valid(*old(tree)),
        ensures
            final(tree).wf(),
            r.wf(),
            final(tree).branching() == old(tree).branching(),
            r.branching() == old(tree).branching(),
            forall|j: int|
                #[trigger] final(tree).occupied(j) == (old(tree).occupied(j) && !in_subtree(
                    old(tree).branching(),
                    self.index_spec(),
                    j,
                )),
            forall|j: int|
                final(tree).occupied(j) ==> final(tree).value_at(j) == old(tree).value_at(j),
            final(tree).spec_len() == old(tree).spec_len() - old(tree).subtree_count(
                self.index_spec(),
            ),
            r.spec_len() == old(tree).subtree_count(self.index_spec()),
            forall|j: int|
                old(tree).occupied(j) && #[trigger] in_subtree(
                    old(tree).branching(),
                    self.index_spec(),
                    j,
                ) ==> r.occupied(spec_split_index(old(tree).branching(), self.index_spec(), j))
                    && r.value_at(spec_split_index(old(tree).branching(), self.index_spec(), j))
                    == old(tree).value_at(j),
            subtree_value_seq(r, DepthFirstOrder::PreOrder, 0) == subtree_value_seq(
                *old(tree),
                DepthFirstOrder::PreOrder,
                self.index_spec(),
            ),
    {
        tree.split_off(self.index())
    }

    /// Gets an iterator over the immediate children of this node, yielding
    /// only the children that hold a node.
    pub fn child_iter<'a>(&self, tree: &'a EytzingerTree<N>) -> (r: NodeChildIter<'a, N>)
        requires
            self.valid(*tree),
        ensures
            r.wf(),
            r.index_spec() == self.index_spec(),
            r.spec_tree() == *tree,
            r.offset_spec() == 0,
    {
        self.as_node(tree).child_iter()
    }

    /// Gets a depth-first iterator over this node and all of its descendants.
    pub fn depth_first_iter<'a>(&self, tree: &'a EytzingerTree<N>, order: DepthFirstOrder) -> (r:
        DepthFirstIter<'a, N>)
        requires
            self.valid(*tree),
        ensures
            r.wf(),
            r.spec_tree() == *tree,
            r.order_spec() == order,
            r.root_spec() matches Some(n) && n.spec_tree() == *tree && n.index_spec()
                == self.index_spec(),
            r.remaining() == subtree_seq(*tree, order, self.index_spec()),
    {
        self.as_node(tree).depth_first_iter(order)
    }

    /// Gets a breadth-first iterator over this node and all of its
    /// descendants.
    pub fn breadth_first_iter<'a>(&self, tree: &'a EytzingerTree<N>) -> (r: BreadthFirstIter<
        'a,
        N,
    >)
        requires
            self.valid(*tree),
        ensures
            r.wf(),
            r.spec_tree() == *tree,
            r.root_spec() matches Some(n) && n.spec_tree() == *tree && n.index_spec()
                == self.index_spec(),
            r.remaining() == breadth_first_seq(*tree, self.index_spec()),
    {
        self.as_node(tree).breadth_first_iter()
    }
}

} // verus!
