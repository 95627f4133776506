use vstd::prelude::*;

use crate::eytzinger_index_calculator::{in_subtree, lemma_subtree_above_root};
use crate::traversal::{breadth_first_seq, breadth_first_upto};
use crate::traversal_root::TraversalRoot;
use crate::{EytzingerTree, Node};

verus! {

/// The positions of the subtree rooted at `root` that lie in `[lo, hi)`, in
/// increasing position order.
pub open spec fn breadth_first_range<N>(
    t: EytzingerTree<N>,
    root: int,
    lo: int,
    hi: int,
) -> Seq<int>
    decreases hi - lo,
{
    if hi <= lo {
        Seq::empty()
    } else if t.occupied(hi - 1) && in_subtree(t.branching(), root, hi - 1) {
        breadth_first_range(t, root, lo, hi - 1) + seq![hi - 1]
    } else {
        breadth_first_range(t, root, lo, hi - 1)
    }
}

/// Reading a range of positions off its low end: the low position first when
/// it belongs to the subtree, the rest after it.
pub proof fn lemma_range_unfold_lo<N>(t: EytzingerTree<N>, root: int, lo: int, hi: int)
    requires
        lo < hi,
    ensures
        breadth_first_range(t, root, lo, hi) == (if t.occupied(lo) && in_subtree(
            t.branching(),
            root,
            lo,
        ) {
            seq![lo]
        } else {
            Seq::<int>::empty()
        }) + breadth_first_range(t, root, lo + 1, hi),
    decreases hi - lo,
{
    let head = if t.occupied(lo) && in_subtree(t.branching(), root, lo) {
        seq![lo]
    } else {
        Seq::<int>::empty()
    };
    if lo + 1 == hi {
        assert(breadth_first_range(t, root, lo + 1, hi) =~= Seq::<int>::empty());
        assert(breadth_first_range(t, root, lo, lo) =~= Seq::<int>::empty());
        assert(breadth_first_range(t, root, lo, hi) =~= head + breadth_first_range(
            t,
            root,
            lo + 1,
            hi,
        ));
    } else {
        lemma_range_unfold_lo(t, root, lo, hi - 1);
        assert(breadth_first_range(t, root, lo, hi) =~= head + breadth_first_range(
            t,
            root,
            lo + 1,
            hi,
        ));
    }
}

/// The whole breadth-first order of a subtree starts at the subtree's root
/// position, since nothing below that position belongs to the subtree.
pub proof fn lemma_range_skip_below_root<N>(t: EytzingerTree<N>, root: int, lo: int, hi: int)
    requires
        0 <= lo <= root,
    ensures
        breadth_first_range(t, root, lo, hi) == breadth_first_range(t, root, root, hi),
    decreases hi - lo,
{
    if lo < root && lo < hi {
        lemma_range_unfold_lo(t, root, lo, hi);
        if in_subtree(t.branching(), root, lo) {
            lemma_subtree_above_root(t.branching(), root, lo);
        }
        lemma_range_skip_below_root(t, root, lo + 1, hi);
    }
}

/// The breadth-first order of positions up to `n` is the range from zero.
pub proof fn lemma_upto_is_range<N>(t: EytzingerTree<N>, root: int, n: int)
    ensures
        breadth_first_upto(t, root, n) == breadth_first_range(t, root, 0, n),
    decreases n,
{
    if n > 0 {
        lemma_upto_is_range(t, root, n - 1);
        assert(breadth_first_upto(t, root, n) =~= breadth_first_range(t, root, 0, n));
    } else {
        assert(breadth_first_upto(t, root, n) =~= breadth_first_range(t, root, 0, n));
    }
}

/// A breadth-first iterator over a node and all of its descendants.  The tree
/// lays each level out after the one above it, children of earlier siblings
/// first, so the iterator just scans positions upward from the starting node
/// and yields the ones that hold a node of the subtree.
#[derive(Debug)]
pub struct BreadthFirstIter<'a, N> {
    root: TraversalRoot<'a, N>,
    cursor: usize,
}

impl<'a, N> Clone for BreadthFirstIter<'a, N> {
    fn clone(&self) -> (r: Self)
        ensures
            r == *self,
    {
        BreadthFirstIter { root: self.root, cursor: self.cursor }
    }
}

impl<'a, N> BreadthFirstIter<'a, N> {
    /// The tree this iterator walks.
    pub closed spec fn spec_tree(self) -> EytzingerTree<N> {
        self.root.spec_tree()
    }

    /// The node iteration started at, `None` when the tree had no nodes.
    pub closed spec fn root_spec(self) -> Option<Node<'a, N>> {
        match self.root {
            TraversalRoot::Node(n) => Some(n),
            TraversalRoot::Tree(_) => None,
        }
    }

    /// The positions this iterator has yet to yield, in yield order.
    pub closed spec fn remaining(self) -> Seq<int> {
        match self.root_spec() {
            Some(n) => breadth_first_range(
                self.spec_tree(),
                n.index_spec(),
                self.cursor as int,
                self.spec_tree().slots().len() as int,
            ),
            None => Seq::empty(),
        }
    }

    /// An iterator is well formed when its tree is and its starting node, if
    /// any, reads that tree.
    pub open spec fn wf(self) -> bool {
        &&& self.spec_tree().wf()
        &&& match self.root_spec() {
            Some(n) => n.wf() && n.spec_tree() == self.spec_tree(),
            None => true,
        }
    }

    pub(crate) fn new(tree: &'a EytzingerTree<N>, node: Option<Node<'a, N>>) -> (r: Self)
        requires
            tree.wf(),
            node matches Some(n) ==> n.wf() && n.spec_tree() == *tree,
        ensures
            r.wf(),
            r.spec_tree() == *tree,
            r.root_spec() == node,
            r.remaining() == (match node {
                Some(n) => breadth_first_seq(*tree, n.index_spec()),
                None => Seq::<int>::empty(),
            }),
    {
        match node {
            Some(node) => {
                let r = Self { root: TraversalRoot::Node(node), cursor: node.index() };
                proof {
                    lemma_upto_is_range(*tree, node.index_spec(), tree.slots().len() as int);
                    lemma_range_skip_below_root(
                        *tree,
                        node.index_spec(),
                        0,
                        tree.slots().len() as int,
                    );
                }
                r
            },
            None => Self { root: TraversalRoot::Tree(tree), cursor: 0 },
        }
    }

    /// Gets the node iteration started at, `None` when the tree had no nodes
    /// to start from.
    pub fn starting_node(&self) -> (r: Option<Node<'a, N>>)
        ensures
            r == self.root_spec(),
    {
        self.root.starting_node()
    }

    /// Gets the tree this iterator walks.
    pub fn tree(&self) -> (r: &'a EytzingerTree<N>)
        ensures
            *r == self.spec_tree(),
    {
        self.root.tree()
    }

    /// Yields the next node in breadth-first order, `None` once every node of
    /// the subtree iteration started at has been yielded.
    #[verifier::loop_isolation(false)]
    pub fn next(&mut self) -> (r: Option<Node<'a, N>>)
        requires
            old(self).wf(),
        ensures
            final(self).wf(),
            final(self).spec_tree() == old(self).spec_tree(),
            final(self).root_spec() == old(self).root_spec(),
            r is Some <==> old(self).remaining().len() > 0,
            r matches Some(n) ==> n.wf() && n.spec_tree() == old(self).spec_tree()
                && n.index_spec() == old(self).remaining()[0] && final(self).remaining() == old(
                self,
            ).remaining().drop_first(),
            r is None ==> final(self).remaining() == old(self).remaining()
                && old(self).remaining().len() == 0,
    {
        let ghost t = self.spec_tree();
        let tree = self.root.tree();
        let start = match self.root.starting_node() {
            Some(node) => node,
            None => {
                return None;
            },
        };
        let root_index = start.index();
        let slot_count = tree.slot_count();
        while self.cursor < slot_count
            invariant
                self.root == old(self).root,
                self.remaining() == old(self).remaining(),
                slot_count == t.slots().len(),
            decreases slot_count - self.cursor,
        {
            let index = self.cursor;
            let ghost pre = *self;
            proof {
                lemma_range_unfold_lo(t, root_index as int, index as int, slot_count as int);
            }
            if tree.is_in_subtree(root_index, index) {
                match tree.node(index) {
                    Some(node) => {
                        self.cursor = self.cursor + 1;
                        proof {
                            assert(pre.remaining() =~= seq![index as int]
                                + self.remaining());
                            assert(self.remaining() =~= pre.remaining().drop_first());
                        }
                        return Some(node);
                    },
                    None => {
                        self.cursor = self.cursor + 1;
                    },
                }
            } else {
                self.cursor = self.cursor + 1;
            }
        }
        proof {
            assert(self.remaining() =~= Seq::<int>::empty());
        }
        None
    }
}

} // verus!
