use vstd::prelude::*;

use crate::depth_first_order::DepthFirstOrder;
use crate::traversal::{
    lemma_subtree_seq_elems, lemma_subtree_seq_no_duplicates, subtree_seq, subtree_value_seq,
};
use crate::EytzingerTree;

verus! {

/// A depth-first iterator that owns its tree and drains the values out of it:
/// each yielded value is taken out of its slot at yield time.  The order to
/// visit is fixed when the iterator is built, from the tree as it then stands.
pub struct DepthFirstIterator<N> {
    order: DepthFirstOrder,
    tree: EytzingerTree<N>,
    indices: Vec<usize>,
    position: usize,
    initial: Ghost<EytzingerTree<N>>,
}

impl<N> DepthFirstIterator<N> {
    /// The order this iterator drains values in.
    pub closed spec fn order_spec(self) -> DepthFirstOrder {
        self.order
    }

    /// The values this iterator has yet to yield, in yield order.
    pub closed spec fn remaining_values(self) -> Seq<N> {
        self.indices@.skip(self.position as int).map_values(
            |u: usize| self.initial@.value_at(u as int),
        )
    }

    /// An iterator is well formed when its visit order is the depth-first
    /// order of the tree it was built from, and every slot not yet drained
    /// still holds its original value.
    pub closed spec fn wf(self) -> bool {
        &&& self.initial@.wf()
        &&& self.indices@.map_values(|u: usize| u as int) == subtree_seq(
            self.initial@,
            self.order,
            0,
        )
        &&& self.position <= self.indices@.len()
        &&& self.tree.slots().len() == self.initial@.slots().len()
        &&& forall|m: int|
            self.position <= m < self.indices@.len() ==> ((#[trigger] self.indices@[m]) as int)
                < self.tree.slots().len() && self.tree.slots()[self.indices@[m] as int]
                == self.initial@.slots()[self.indices@[m] as int]
    }

    pub(crate) fn new(tree: EytzingerTree<N>, order: DepthFirstOrder) -> (r: Self)
        requires
            tree.wf(),
        ensures
            r.wf(),
            r.order_spec() == order,
            r.remaining_values() == subtree_value_seq(tree, order, 0),
    {
        let indices = tree.collect_depth_first(order);
        let r = Self { order, tree, indices, position: 0, initial: Ghost(tree) };
        proof {
            lemma_subtree_seq_elems(tree, order, 0);
            assert forall|m: int|
                r.position <= m < r.indices@.len() implies ((#[trigger] r.indices@[m]) as int)
                < r.tree.slots().len() && r.tree.slots()[r.indices@[m] as int]
                == r.initial@.slots()[r.indices@[m] as int] by {
                let s = subtree_seq(tree, order, 0);
                assert(s[m] == r.indices@[m] as int);
                assert(s.contains(s[m]));
            }
            assert(r.remaining_values() =~= subtree_value_seq(tree, order, 0));
        }
        r
    }

    /// Gets the order of depth-first iteration.
    pub fn order(&self) -> (r: DepthFirstOrder)
        ensures
            r == self.order_spec(),
    {
        self.order
    }

    /// Takes the next value out of the tree, in depth-first order; `None`
    /// once every value has been drained.
    pub fn next(&mut self) -> (r: Option<N>)
        requires
            old(self).wf(),
        ensures
            final(self).wf(),
            final(self).order_spec() == old(self).order_spec(),
            r is Some <==> old(self).remaining_values().len() > 0,
            r matches Some(v) ==> v == old(self).remaining_values()[0]
                && final(self).remaining_values() == old(self).remaining_values().drop_first(),
            r is None ==> final(self).remaining_values() == old(self).remaining_values()
                && old(self).remaining_values().len() == 0,
    {
        if self.position >= self.indices.len() {
            proof {
                assert(self.remaining_values() =~= Seq::<N>::empty());
            }
            return None;
        }
        let index = self.indices[self.position];
        self.position = self.position + 1;
        let ghost pre = *old(self);
        let taken = self.tree.take_slot(index);
        proof {
            lemma_subtree_seq_no_duplicates(pre.initial@, pre.order, 0);
            let s = subtree_seq(pre.initial@, pre.order, 0);
            lemma_subtree_seq_elems(pre.initial@, pre.order, 0);
            assert(s.contains(s[pre.position as int]));
            assert(pre.initial@.occupied(index as int));
            assert forall|m: int|
                self.position <= m < self.indices@.len() implies ((#[trigger] self.indices@[m])
                as int) < self.tree.slots().len() && self.tree.slots()[self.indices@[m] as int]
                == self.initial@.slots()[self.indices@[m] as int] by {
                assert(s[m] == self.indices@[m] as int);
                assert(s[pre.position as int] == index as int);
                assert(s[m] != s[pre.position as int]);
            }
            assert(pre.remaining_values() =~= seq![pre.initial@.value_at(index as int)]
                + self.remaining_values());
            assert(self.remaining_values() =~= pre.remaining_values().drop_first());
        }
        match taken {
            Some(value) => Some(value),
            None => unreached(),
        }
    }
}

} // verus!
