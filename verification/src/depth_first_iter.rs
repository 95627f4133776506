use vstd::prelude::*;

use crate::depth_first_order::DepthFirstOrder;
use crate::node_child_iter::NodeChildIter;
use crate::eytzinger_index_calculator::spec_child_index;
use crate::traversal::{
    children_seq, lemma_child_above, lemma_children_seq_skip, subtree_seq,
};
use crate::traversal_root::TraversalRoot;
use crate::{EytzingerTree, Node};

verus! {

/// What one stack entry of a depth-first traversal still has to yield: the
/// positions under the children its iterator has not visited yet, and, in
/// post-order, the entry's own position after them.
pub open spec fn entry_rem<N>(
    t: EytzingerTree<N>,
    order: DepthFirstOrder,
    e: NodeChildIter<N>,
) -> Seq<int> {
    children_seq(t, order, e.index_spec(), e.offset_spec()) + if order is PostOrder {
        seq![e.index_spec()]
    } else {
        Seq::empty()
    }
}

/// What a stack of depth-first entries still has to yield, topmost entry
/// first.
pub open spec fn stack_rem<N>(
    t: EytzingerTree<N>,
    order: DepthFirstOrder,
    s: Seq<NodeChildIter<N>>,
    j: int,
) -> Seq<int>
    decreases j,
{
    if j <= 0 {
        Seq::empty()
    } else {
        entry_rem(t, order, s[j - 1]) + stack_rem(t, order, s, j - 1)
    }
}

/// Stacks that agree below `j` have the same positions left to yield.
proof fn lemma_stack_rem_agree<N>(
    t: EytzingerTree<N>,
    order: DepthFirstOrder,
    s1: Seq<NodeChildIter<N>>,
    s2: Seq<NodeChildIter<N>>,
    j: int,
)
    requires
        forall|m: int| 0 <= m < j ==> s1[m] == s2[m],
    ensures
        stack_rem(t, order, s1, j) == stack_rem(t, order, s2, j),
    decreases j,
{
    if j > 0 {
        lemma_stack_rem_agree(t, order, s1, s2, j - 1);
    }
}

/// A depth-first iterator over a node and all of its descendants.  It keeps a
/// stack of child iterators, one per node on the path being walked, instead
/// of using the call stack, so arbitrarily deep trees can be walked.
#[derive(Debug)]
pub struct DepthFirstIter<'a, N> {
    order: DepthFirstOrder,
    root: TraversalRoot<'a, N>,
    first_pending: Option<Node<'a, N>>,
    nodes: Vec<NodeChildIter<'a, N>>,
}

impl<'a, N> Clone for DepthFirstIter<'a, N> {
    #[verifier::loop_isolation(false)]
    fn clone(&self) -> (r: Self)
        ensures
            r.spec_tree() == self.spec_tree(),
            r.order_spec() == self.order_spec(),
            r.remaining() == self.remaining(),
            self.wf() ==> r.wf(),
    {
        let mut nodes: Vec<NodeChildIter<'a, N>> = Vec::new();
        let mut m: usize = 0;
        let stack_size = self.nodes.len();
        while m < stack_size
            invariant
                m == nodes@.len(),
                m <= stack_size,
                forall|x: int| 0 <= x < m ==> nodes@[x] == self.nodes@[x],
            decreases stack_size - m,
        {
            nodes.push(self.nodes[m].clone());
            m = m + 1;
        }
        proof {
            assert(nodes@ =~= self.nodes@);
        }
        let r = DepthFirstIter {
            order: self.order,
            root: self.root,
            first_pending: self.first_pending,
            nodes,
        };
        proof {
            assert forall|x: int| 0 <= x < r.stack_len() implies #[trigger] r.stack_entry(x)
                == self.stack_entry(x) by {}
            if self.wf() {
                assert forall|x: int|
                    0 <= x < r.stack_len() implies (#[trigger] r.stack_entry(x)).wf()
                    && r.stack_entry(x).spec_tree() == r.spec_tree() by {
                    assert(self.stack_entry(x).wf());
                }
            }
        }
        r
    }
}

impl<'a, N> DepthFirstIter<'a, N> {
    /// The tree this iterator walks.
    pub closed spec fn spec_tree(self) -> EytzingerTree<N> {
        self.root.spec_tree()
    }

    /// The order this iterator yields nodes in.
    pub closed spec fn order_spec(self) -> DepthFirstOrder {
        self.order
    }

    /// The positions this iterator has yet to yield, in yield order.
    pub closed spec fn remaining(self) -> Seq<int> {
        match self.first_pending {
            Some(n) => subtree_seq(self.spec_tree(), self.order, n.index_spec()),
            None => stack_rem(self.spec_tree(), self.order, self.nodes@, self.nodes@.len() as int),
        }
    }

    /// The start node this iterator has not yet begun to walk, if any.
    pub closed spec fn pending_spec(self) -> Option<Node<'a, N>> {
        self.first_pending
    }

    /// The node iteration started at, `None` when the tree had no nodes.
    pub closed spec fn root_spec(self) -> Option<Node<'a, N>> {
        match self.root {
            TraversalRoot::Node(n) => Some(n),
            TraversalRoot::Tree(_) => None,
        }
    }

    /// An iterator is well formed when its tree is, every stack entry reads
    /// that tree at an occupied position, and a pending start node leaves the
    /// stack empty.
    pub open spec fn wf(self) -> bool {
        &&& self.spec_tree().wf()
        &&& match self.pending_spec() {
            Some(n) => n.wf() && n.spec_tree() == self.spec_tree() && self.stack_len() == 0,
            None => true,
        }
        &&& forall|m: int|
            0 <= m < self.stack_len() ==> (#[trigger] self.stack_entry(m)).wf()
                && self.stack_entry(m).spec_tree() == self.spec_tree()
    }

    /// How many entries the iterator's stack holds.
    pub closed spec fn stack_len(self) -> int {
        self.nodes@.len() as int
    }

    /// The stack entry at position `m`.
    pub closed spec fn stack_entry(self, m: int) -> NodeChildIter<'a, N> {
        self.nodes@[m]
    }

    pub(crate) fn new(
        tree: &'a EytzingerTree<N>,
        node: Option<Node<'a, N>>,
        order: DepthFirstOrder,
    ) -> (r: Self)
        requires
            tree.wf(),
            node matches Some(n) ==> n.wf() && n.spec_tree() == *tree,
        ensures
            r.wf(),
            r.spec_tree() == *tree,
            r.order_spec() == order,
            r.root_spec() == node,
            r.remaining() == (match node {
                Some(n) => subtree_seq(*tree, order, n.index_spec()),
                None => Seq::<int>::empty(),
            }),
    {
        let root = match node {
            Some(node) => TraversalRoot::Node(node),
            None => TraversalRoot::Tree(tree),
        };
        let r = Self { order, root, first_pending: node, nodes: Vec::new() };
        proof {
            if node is None {
                assert(r.remaining() =~= Seq::<int>::empty());
            }
        }
        r
    }

    /// Gets the order of depth-first iteration.
    pub fn order(&self) -> (r: DepthFirstOrder)
        ensures
            r == self.order_spec(),
    {
        self.order
    }

    /// Gets the node iteration started at, `None` when the tree had no nodes
    /// to start from.
    pub fn starting_node(&self) -> (r: Option<Node<'a, N>>)
        ensures
            r == self.root_spec(),
    {
        self.root.starting_node()
    }

    /// Gets the tree this iterator walks.
    pub fn tree(&self) -> (r: &'a EytzingerTree<N>)
        ensures
            *r == self.spec_tree(),
    {
        self.root.tree()
    }

    /// Yields the next node of the traversal, `None` once every node of the
    /// subtree iteration started at has been yielded.
    #[verifier::loop_isolation(false)]
    #[verifier::rlimit(100)]
    pub fn next(&mut self) -> (r: Option<Node<'a, N>>)
        requires
            old(self).wf(),
        ensures
            final(self).wf(),
            final(self).spec_tree() == old(self).spec_tree(),
            final(self).order_spec() == old(self).order_spec(),
            final(self).root_spec() == old(self).root_spec(),
            r is Some <==> old(self).remaining().len() > 0,
            r matches Some(n) ==> n.wf() && n.spec_tree() == old(self).spec_tree()
                && n.index_spec() == old(self).remaining()[0] && final(self).remaining() == old(
                self,
            ).remaining().drop_first(),
            r is None ==> final(self).remaining() == old(self).remaining()
                && old(self).remaining().len() == 0,
    {
        let ghost t = self.spec_tree();
        let ghost ord = self.order;
        match self.first_pending {
            Some(first_node) => {
                self.first_pending = None;
                let first_entry = NodeChildIter::new(first_node);
                self.nodes.push(first_entry);
                let ghost i = first_node.index_spec();
                proof {
                    assert(self.stack_entry(0) == first_entry);
                    assert(self.wf());
                    let e = self.nodes@[0];
                    assert(stack_rem(t, ord, self.nodes@, 0) =~= Seq::<int>::empty());
                    assert(stack_rem(t, ord, self.nodes@, 1) =~= entry_rem(t, ord, e));
                    if ord is PreOrder {
                        assert(old(self).remaining() =~= seq![i] + children_seq(t, ord, i, 0));
                        assert(self.remaining() =~= children_seq(t, ord, i, 0));
                        assert(self.remaining() =~= old(self).remaining().drop_first());
                    } else {
                        assert(old(self).remaining() =~= children_seq(t, ord, i, 0) + seq![i]);
                        assert(self.remaining() =~= old(self).remaining());
                    }
                    assert(old(self).remaining().len() > 0);
                }
                if matches!(self.order, DepthFirstOrder::PreOrder) {
                    return Some(first_node);
                }
            },
            None => {},
        }
        let ghost base = self.remaining();
        loop
            invariant
                self.wf(),
                self.spec_tree() == t,
                self.order == ord,
                self.root == old(self).root,
                self.first_pending is None,
                self.remaining() == base,
                base == old(self).remaining(),
            decreases (if ord is PreOrder {
                self.nodes@.len() as int
            } else {
                t.slots().len() + 2 - (if self.nodes@.len() > 0 {
                    self.nodes@.last().index_spec()
                } else {
                    -1
                })
            }),
        {
            let ghost head = *self;
            let ghost pre_nodes = self.nodes@;
            match self.nodes.pop() {
                None => {
                    proof {
                        assert(base =~= Seq::<int>::empty());
                    }
                    return None;
                },
                Some(mut current) => {
                    let ghost e0 = current;
                    let ghost i = e0.index_spec();
                    let ghost o0 = e0.offset_spec();
                    let ghost s = self.nodes@;
                    proof {
                        assert(head.stack_entry(head.stack_len() - 1).wf());
                        assert(pre_nodes[pre_nodes.len() - 1] == e0);
                        assert(e0.wf() && e0.spec_tree() == t);
                        lemma_stack_rem_agree(t, ord, pre_nodes, s, s.len() as int);
                        assert(base =~= entry_rem(t, ord, e0) + stack_rem(
                            t,
                            ord,
                            s,
                            s.len() as int,
                        ));
                    }
                    match current.next() {
                        Some(next_node) => {
                            let ghost o1 = current.offset_spec();
                            let ghost c = next_node.index_spec();
                            self.nodes.push(current);
                            let child_entry = NodeChildIter::new(next_node);
                            self.nodes.push(child_entry);
                            proof {
                                assert forall|m: int|
                                    0 <= m < self.stack_len() implies (#[trigger] self.stack_entry(
                                    m,
                                )).wf() && self.stack_entry(m).spec_tree() == t by {
                                    if m < s.len() {
                                        assert(self.stack_entry(m) == head.stack_entry(m));
                                        assert(head.stack_entry(m).wf());
                                    } else if m == s.len() {
                                        assert(self.stack_entry(m) == current);
                                    } else {
                                        assert(self.stack_entry(m) == child_entry);
                                    }
                                }
                                assert(self.wf());
                                lemma_children_seq_skip(t, ord, i, o0, o1 - 1);
                                assert(children_seq(t, ord, i, o1 - 1) =~= subtree_seq(t, ord, c)
                                    + children_seq(t, ord, i, o1));
                                let s2 = self.nodes@;
                                lemma_stack_rem_agree(t, ord, s, s2, s.len() as int);
                                assert(stack_rem(t, ord, s2, s2.len() - 1) =~= entry_rem(
                                    t,
                                    ord,
                                    s2[s2.len() - 2],
                                ) + stack_rem(t, ord, s2, s2.len() - 2));
                                assert(stack_rem(t, ord, s2, s2.len() as int) =~= entry_rem(
                                    t,
                                    ord,
                                    s2[s2.len() - 1],
                                ) + (entry_rem(t, ord, s2[s2.len() - 2]) + stack_rem(
                                    t,
                                    ord,
                                    s,
                                    s.len() as int,
                                )));
                                assert(s2[s2.len() - 1] == child_entry);
                                assert(s2[s2.len() - 2] == current);
                                lemma_child_above(t.branching(), i, o1 - 1);
                                if ord is PreOrder {
                                    assert(subtree_seq(t, ord, c) =~= seq![c] + children_seq(
                                        t,
                                        ord,
                                        c,
                                        0,
                                    ));
                                    assert(base =~= seq![c] + self.remaining());
                                    assert(self.remaining() =~= base.drop_first());
                                } else {
                                    assert(subtree_seq(t, ord, c) =~= children_seq(t, ord, c, 0)
                                        + seq![c]);
                                    assert(self.remaining() =~= base);
                                }
                            }
                            if matches!(self.order, DepthFirstOrder::PreOrder) {
                                return Some(next_node);
                            }
                        },
                        None => {
                            proof {
                                assert forall|m: int|
                                    0 <= m < self.stack_len() implies (#[trigger] self.stack_entry(
                                    m,
                                )).wf() && self.stack_entry(m).spec_tree() == t by {
                                    assert(self.stack_entry(m) == head.stack_entry(m));
                                    assert(head.stack_entry(m).wf());
                                }
                                assert(self.wf());
                                lemma_children_seq_skip(t, ord, i, o0, t.branching() as int);
                                assert(children_seq(t, ord, i, t.branching() as int)
                                    =~= Seq::<int>::empty());
                                if ord is PreOrder {
                                    assert(entry_rem(t, ord, e0) =~= Seq::<int>::empty());
                                    assert(self.remaining() =~= base);
                                } else {
                                    assert(entry_rem(t, ord, e0) =~= seq![i]);
                                    assert(base =~= seq![i] + self.remaining());
                                    assert(self.remaining() =~= base.drop_first());
                                }
                            }
                            if matches!(self.order, DepthFirstOrder::PostOrder) {
                                return Some(current.node());
                            }
                        },
                    }
                },
            }
        }
    }
}

} // verus!
