use vstd::prelude::*;

use crate::traversal::{
    breadth_first_seq, breadth_first_value_seq, lemma_breadth_first_upto_props,
};
use crate::EytzingerTree;

verus! {

/// A breadth-first iterator that owns its tree and drains the values out of
/// it: each yielded value is taken out of its slot at yield time.  The order
/// to visit is fixed when the iterator is built, from the tree as it then
/// stands.
pub struct BreadthFirstIterator<N> {
    tree: EytzingerTree<N>,
    indices: Vec<usize>,
    position: usize,
    initial: Ghost<EytzingerTree<N>>,
}

impl<N> BreadthFirstIterator<N> {
    /// The values this iterator has yet to yield, in yield order.
    pub closed spec fn remaining_values(self) -> Seq<N> {
        self.indices@.skip(self.position as int).map_values(
            |u: usize| self.initial@.value_at(u as int),
        )
    }

    /// An iterator is well formed when its visit order is the breadth-first
    /// order of the tree it was built from, and every slot not yet drained
    /// still holds its original value.
    pub closed spec fn wf(self) -> bool {
        &&& self.initial@.wf()
        &&& self.indices@.map_values(|u: usize| u as int) == breadth_first_seq(self.initial@, 0)
        &&& self.position <= self.indices@.len()
        &&& self.tree.slots().len() == self.initial@.slots().len()
        &&& forall|m: int|
            self.position <= m < self.indices@.len() ==> ((#[trigger] self.indices@[m]) as int)
                < self.tree.slots().len() && self.tree.slots()[self.indices@[m] as int]
                == self.initial@.slots()[self.indices@[m] as int]
    }

    pub(crate) fn new(tree: EytzingerTree<N>) -> (r: Self)
        requires
            tree.wf(),
        ensures
            r.wf(),
            r.remaining_values() == breadth_first_value_seq(tree, 0),
    {
        let indices = tree.collect_breadth_first();
        let r = Self { tree, indices, position: 0, initial: Ghost(tree) };
        proof {
            lemma_breadth_first_upto_props(tree, 0, tree.slots().len() as int);
            assert forall|m: int|
                r.position <= m < r.indices@.len() implies ((#[trigger] r.indices@[m]) as int)
                < r.tree.slots().len() && r.tree.slots()[r.indices@[m] as int]
                == r.initial@.slots()[r.indices@[m] as int] by {
                let s = breadth_first_seq(tree, 0);
                assert(s[m] == r.indices@[m] as int);
                assert(s.contains(s[m]));
            }
            assert(r.remaining_values() =~= breadth_first_value_seq(tree, 0));
        }
        r
    }

    /// Takes the next value out of the tree, in breadth-first order; `None`
    /// once every value has been drained.
    pub fn next(&mut self) -> (r: Option<N>)
        requires
            old(self).wf(),
        ensures
            final(self).wf(),
            r is Some <==> old(self).remaining_values().len() > 0,
            r matches Some(v) ==> v == old(self).remaining_values()[0]
                && final(self).remaining_values() == old(self).remaining_values().drop_first(),
            r is None ==> final(self).remaining_values() == old(self).remaining_values()
                && old(self).remaining_values().len() == 0,
    {
        if self.position >= self.indices.len() {
            proof {
                assert(self.remaining_values() =~= Seq::<N>::empty());
            }
            return None;
        }
        let index = self.indices[self.position];
        self.position = self.position + 1;
        let ghost pre = *old(self);
        let taken = self.tree.take_slot(index);
        proof {
            lemma_breadth_first_upto_props(pre.initial@, 0, pre.initial@.slots().len() as int);
            let s = breadth_first_seq(pre.initial@, 0);
            assert(s.contains(s[pre.position as int]));
            assert(pre.initial@.occupied(index as int));
            assert forall|m: int|
                self.position <= m < self.indices@.len() implies ((#[trigger] self.indices@[m])
                as int) < self.tree.slots().len() && self.tree.slots()[self.indices@[m] as int]
                == self.initial@.slots()[self.indices@[m] as int] by {
                assert(s[m] == self.indices@[m] as int);
                assert(s[pre.position as int] == index as int);
                assert(s[m] != s[pre.position as int]);
            }
            assert(pre.remaining_values() =~= seq![pre.initial@.value_at(index as int)]
                + self.remaining_values());
            assert(self.remaining_values() =~= pre.remaining_values().drop_first());
        }
        match taken {
            Some(value) => Some(value),
            None => unreached(),
        }
    }
}

} // verus!
