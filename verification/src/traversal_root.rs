use vstd::prelude::*;

use crate::{EytzingerTree, Node};

verus! {

/// Where a traversal started: at a particular node, or on a tree with no
/// nodes at all, in which case only the tree itself is kept.
#[derive(Debug)]
pub(crate) enum TraversalRoot<'a, N> {
    Tree(&'a EytzingerTree<N>),
    Node(Node<'a, N>),
}

impl<'a, N> Clone for TraversalRoot<'a, N> {
    fn clone(&self) -> (r: Self)
        ensures
            r == *self,
    {
        match self {
            TraversalRoot::Tree(tree) => TraversalRoot::Tree(tree),
            TraversalRoot::Node(node) => TraversalRoot::Node(*node),
        }
    }
}

impl<'a, N> Copy for TraversalRoot<'a, N> {

}

impl<'a, N> TraversalRoot<'a, N> {
    /// The tree the traversal walks.
    pub(crate) open spec fn spec_tree(self) -> EytzingerTree<N> {
        match self {
            TraversalRoot::Tree(tree) => *tree,
            TraversalRoot::Node(node) => node.spec_tree(),
        }
    }

    /// Gets the node the traversal started at, `None` when it started on a
    /// tree with no nodes.
    pub(crate) fn starting_node(&self) -> (r: Option<Node<'a, N>>)
        ensures
            r == (match *self {
                TraversalRoot::Node(node) => Some(node),
                TraversalRoot::Tree(_) => None::<Node<'a, N>>,
            }),
    {
        match self {
            TraversalRoot::Node(node) => Some(*node),
            TraversalRoot::Tree(_) => None,
        }
    }

    /// Gets the tree the traversal walks.
    pub(crate) fn tree(&self) -> (r: &'a EytzingerTree<N>)
        ensures
            *r == self.spec_tree(),
    {
        match self {
            TraversalRoot::Tree(tree) => tree,
            TraversalRoot::Node(node) => node.tree(),
        }
    }
}

} // verus!
