use vstd::prelude::*;

use crate::eytzinger_index_calculator::spec_child_index;
use crate::{EytzingerTree, Node};

verus! {

/// An iterator over the immediate children of a single node: it scans the
/// child slots in increasing order and yields the children that hold a node.
#[derive(Debug)]
pub struct NodeChildIter<'a, N> {
    node: Node<'a, N>,
    child_offset: usize,
}

impl<'a, N> Clone for NodeChildIter<'a, N> {
    fn clone(&self) -> (r: Self)
        ensures
            r == *self,
    {
        NodeChildIter { node: self.node, child_offset: self.child_offset }
    }
}

impl<'a, N> NodeChildIter<'a, N> {
    /// The tree this iterator walks.
    pub open spec fn spec_tree(self) -> EytzingerTree<N> {
        self.spec_node().spec_tree()
    }

    /// The position whose children this iterator yields.
    pub open spec fn index_spec(self) -> int {
        self.spec_node().index_spec()
    }

    /// The next child slot this iterator will look at.
    pub closed spec fn offset_spec(self) -> int {
        self.child_offset as int
    }

    /// The node this iterator reads.
    pub closed spec fn spec_node(self) -> Node<'a, N> {
        self.node
    }

    /// An iterator is well formed when its node is and the next child slot has
    /// not run past the branching factor.
    pub open spec fn wf(self) -> bool {
        &&& self.spec_node().wf()
        &&& 0 <= self.offset_spec() <= self.spec_tree().branching()
    }

    pub(crate) fn new(node: Node<'a, N>) -> (r: Self)
        requires
            node.wf(),
        ensures
            r.wf(),
            r.spec_node() == node,
            r.spec_tree() == node.spec_tree(),
            r.index_spec() == node.index_spec(),
            r.offset_spec() == 0,
    {
        Self { node, child_offset: 0 }
    }

    /// Gets the node this iterator is for.
    pub fn node(&self) -> (r: Node<'a, N>)
        ensures
            r == self.spec_node(),
    {
        self.node
    }

    /// Yields the next occupied child in increasing child slot order, `None`
    /// once no occupied child is left.
    #[verifier::loop_isolation(false)]
    pub fn next(&mut self) -> (r: Option<Node<'a, N>>)
        requires
            old(self).wf(),
        ensures
            final(self).wf(),
            final(self).spec_node() == old(self).spec_node(),
            final(self).spec_tree() == old(self).spec_tree(),
            final(self).index_spec() == old(self).index_spec(),
            old(self).offset_spec() <= final(self).offset_spec(),
            forall|o: int|
                old(self).offset_spec() <= o < final(self).offset_spec() - 1 ==> !old(
                    self,
                ).spec_tree().occupied(
                    #[trigger] spec_child_index(
                        old(self).spec_tree().branching(),
                        old(self).index_spec(),
                        o,
                    ),
                ),
            r matches Some(c) ==> {
                &&& old(self).offset_spec() <= final(self).offset_spec() - 1 < old(
                    self,
                ).spec_tree().branching()
                &&& c.wf()
                &&& c.spec_tree() == old(self).spec_tree()
                &&& c.index_spec() == spec_child_index(
                    old(self).spec_tree().branching(),
                    old(self).index_spec(),
                    final(self).offset_spec() - 1,
                )
            },
            r is None ==> final(self).offset_spec() == old(self).spec_tree().branching()
                && forall|o: int|
                old(self).offset_spec() <= o < old(self).spec_tree().branching() ==> !old(
                    self,
                ).spec_tree().occupied(
                    #[trigger] spec_child_index(
                        old(self).spec_tree().branching(),
                        old(self).index_spec(),
                        o,
                    ),
                ),
    {
        let ghost start = *self;
        let k = self.node.tree().max_children_per_node();
        while self.child_offset < k
            invariant
                self.node == start.spec_node(),
                self.node.wf(),
                k == start.spec_tree().branching(),
                start.offset_spec() <= self.offset_spec() <= k,
                forall|o: int|
                    start.offset_spec() <= o < self.offset_spec() ==> !start.spec_tree()
                        .occupied(
                        #[trigger] spec_child_index(
                            start.spec_tree().branching(),
                            start.index_spec(),
                            o,
                        ),
                    ),
            decreases k - self.child_offset,
        {
            let next_child = self.node.child(self.child_offset);
            self.child_offset = self.child_offset + 1;
            if let Some(next_child) = next_child {
                return Some(next_child);
            }
        }
        None
    }
}

} // verus!
