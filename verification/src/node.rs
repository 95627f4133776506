use vstd::prelude::*;

use crate::breadth_first_iter::BreadthFirstIter;
use crate::depth_first_iter::DepthFirstIter;
use crate::depth_first_order::DepthFirstOrder;
use crate::eytzinger_index_calculator::{spec_child_index, spec_parent_index};
use crate::node_child_iter::NodeChildIter;
use crate::traversal::{breadth_first_seq, subtree_seq};
use crate::EytzingerTree;

verus! {

/// A read-only cursor over one occupied position of a tree: the tree together
/// with the position's index.  The cursor can read the value there and move to
/// the parent or to a child.
#[derive(Debug)]
pub struct Node<'a, N> {
    pub(crate) tree: &'a EytzingerTree<N>,
    pub(crate) index: usize,
}

impl<'a, N> Clone for Node<'a, N> {
    fn clone(&self) -> (r: Self)
        ensures
            r == *self,
    {
        Node { tree: self.tree, index: self.index }
    }
}

impl<'a, N> Copy for Node<'a, N> {

}

impl<'a, N> Node<'a, N> {
    /// The tree this cursor reads.
    pub closed spec fn spec_tree(self) -> EytzingerTree<N> {
        *self.tree
    }

    /// The position this cursor points at.
    pub closed spec fn index_spec(self) -> int {
        self.index as int
    }

    /// A cursor is well formed when its tree is and its position is occupied.
    pub open spec fn wf(self) -> bool {
        &&& self.spec_tree().wf()
        &&& self.spec_tree().occupied(self.index_spec())
    }

    pub(crate) fn at(tree: &'a EytzingerTree<N>, index: usize) -> (r: Self)
        ensures
            r.spec_tree() == *tree,
            r.index_spec() == index,
    {
        Node { tree, index }
    }

    /// Gets the tree this node is for.
    pub fn tree(&self) -> (r: &'a EytzingerTree<N>)
        ensures
            *r == self.spec_tree(),
    {
        self.tree
    }

    /// Gets the position of this node in the tree's numbering.
    pub fn index(&self) -> (r: usize)
        ensures
            r == self.index_spec(),
    {
        self.index
    }

    /// Gets the value stored at this node.
    pub fn value(&self) -> (r: &'a N)
        requires
            self.wf(),
        ensures
            *r == self.spec_tree().value_at(self.index_spec()),
    {
        self.tree.value_ref(self.index)
    }

    /// Gets the parent of this node, or `None` at the root.
    pub fn parent(&self) -> (r: Option<Node<'a, N>>)
        requires
            self.wf(),
        ensures
            r is Some <==> self.index_spec() != 0,
            r matches Some(p) ==> p.wf() && p.spec_tree() == self.spec_tree() && p.index_spec()
                == spec_parent_index(self.spec_tree().branching(), self.index_spec()),
    {
        self.tree.parent(self.index)
    }

    /// Gets an iterator over the immediate children of this node, yielding
    /// only the children that hold a node.
    pub fn child_iter(&self) -> (r: NodeChildIter<'a, N>)
        requires
            self.wf(),
        ensures
            r.wf(),
            r.spec_node() == *self,
            r.offset_spec() == 0,
    {
        NodeChildIter::new(*self)
    }

    /// Gets a depth-first iterator over this node and all of its descendants.
    pub fn depth_first_iter(&self, order: DepthFirstOrder) -> (r: DepthFirstIter<'a, N>)
        requires
            self.wf(),
        ensures
            r.wf(),
            r.spec_tree() == self.spec_tree(),
            r.order_spec() == order,
            r.root_spec() == Some(*self),
            r.remaining() == subtree_seq(self.spec_tree(), order, self.index_spec()),
    {
        DepthFirstIter::new(self.tree(), Some(*self), order)
    }

    /// Gets a breadth-first iterator over this node and all of its
    /// descendants.
    pub fn breadth_first_iter(&self) -> (r: BreadthFirstIter<'a, N>)
        requires
            self.wf(),
        ensures
            r.wf(),
            r.spec_tree() == self.spec_tree(),
            r.root_spec() == Some(*self),
            r.remaining() == breadth_first_seq(self.spec_tree(), self.index_spec()),
    {
        BreadthFirstIter::new(self.tree(), Some(*self))
    }

    /// Gets the child of this node at the specified child slot, or `None` if
    /// no node is there.
    pub fn child(&self, index: usize) -> (r: Option<Node<'a, N>>)
        requires
            self.wf(),
            index < self.spec_tree().branching(),
        ensures
            r is Some <==> self.spec_tree().occupied(
                spec_child_index(self.spec_tree().branching(), self.index_spec(), index as int),
            ),
            r matches Some(c) ==> c.wf() && c.spec_tree() == self.spec_tree() && c.index_spec()
                == spec_child_index(self.spec_tree().branching(), self.index_spec(), index as int),
    {
        self.tree.child(self.index, index)
    }
}

} // verus!
