use vstd::prelude::*;

use crate::breadth_first_iter::BreadthFirstIter;
use crate::depth_first_iter::DepthFirstIter;
use crate::depth_first_order::DepthFirstOrder;
use crate::eytzinger_index_calculator::{spec_child_index, spec_parent_index};
use crate::node_child_iter::NodeChildIter;
use crate::traversal::{breadth_first_seq, lemma_breadth_first_upto_props, subtree_seq};
use crate::{EytzingerTree, Node};

verus! {

/// A read-only view of one position of a tree, which may or may not hold a
/// node.
#[derive(Debug)]
pub enum Entry<'a, N> {
    /// The position holds a node.
    Occupied(Node<'a, N>),
    /// The position holds no node.
    Vacant(VacantEntry<'a, N>),
}

/// A read-only view of a position that holds no node.
#[derive(Debug)]
pub struct VacantEntry<'a, N> {
    pub(crate) tree: &'a EytzingerTree<N>,
    pub(crate) index: usize,
}

impl<'a, N> Clone for VacantEntry<'a, N> {
    fn clone(&self) -> (r: Self)
        ensures
            r == *self,
    {
        VacantEntry { tree: self.tree, index: self.index }
    }
}

impl<'a, N> Copy for VacantEntry<'a, N> {

}

impl<'a, N> Clone for Entry<'a, N> {
    fn clone(&self) -> (r: Self)
        ensures
            r == *self,
    {
        match self {
            Entry::Occupied(node) => Entry::Occupied(*node),
            Entry::Vacant(vacant_entry) => Entry::Vacant(*vacant_entry),
        }
    }
}

impl<'a, N> Copy for Entry<'a, N> {

}

impl<'a, N> VacantEntry<'a, N> {
    /// The tree this entry reads.
    pub closed spec fn spec_tree(self) -> EytzingerTree<N> {
        *self.tree
    }

    /// The position this entry points at.
    pub closed spec fn index_spec(self) -> int {
        self.index as int
    }

    /// A vacant view is well formed when its tree is and its position holds
    /// no node.
    pub open spec fn wf(self) -> bool {
        &&& self.spec_tree().wf()
        &&& !self.spec_tree().occupied(self.index_spec())
    }

    pub(crate) fn at(tree: &'a EytzingerTree<N>, index: usize) -> (r: Self)
        ensures
            r.spec_tree() == *tree,
            r.index_spec() == index,
    {
        VacantEntry { tree, index }
    }

    /// Gets the tree this entry is for.
    pub fn tree(&self) -> (r: &'a EytzingerTree<N>)
        ensures
            *r == self.spec_tree(),
    {
        self.tree
    }

    /// Gets the position of this entry in the tree's numbering.
    pub fn index(&self) -> (r: usize)
        ensures
            r == self.index_spec(),
    {
        self.index
    }

    /// Gets the parent node of this entry's position, or `None` when the
    /// entry is for the root or the parent position holds no node.
    pub fn parent(&self) -> (r: Option<Node<'a, N>>)
        requires
            self.spec_tree().wf(),
        ensures
            r is Some <==> (self.index_spec() != 0 && self.spec_tree().occupied(
                spec_parent_index(self.spec_tree().branching(), self.index_spec()),
            )),
            r matches Some(p) ==> p.wf() && p.spec_tree() == self.spec_tree() && p.index_spec()
                == spec_parent_index(self.spec_tree().branching(), self.index_spec()),
    {
        self.tree.parent(self.index)
    }
}

impl<'a, N> Entry<'a, N> {
    /// The tree this entry reads.
    pub open spec fn spec_tree(self) -> EytzingerTree<N> {
        match self {
            Entry::Occupied(node) => node.spec_tree(),
            Entry::Vacant(vacant_entry) => vacant_entry.spec_tree(),
        }
    }

    /// The position this entry points at.
    pub open spec fn index_spec(self) -> int {
        match self {
            Entry::Occupied(node) => node.index_spec(),
            Entry::Vacant(vacant_entry) => vacant_entry.index_spec(),
        }
    }

    /// An entry is well formed when its tree is and its variant agrees with
    /// whether its position holds a node.
    pub open spec fn wf(self) -> bool {
        match self {
            Entry::Occupied(node) => node.wf(),
            Entry::Vacant(vacant_entry) => vacant_entry.wf(),
        }
    }

    /// Gets the tree this entry is for.
    pub fn tree(&self) -> (r: &'a EytzingerTree<N>)
        ensures
            *r == self.spec_tree(),
    {
        match self {
            Entry::Occupied(node) => node.tree(),
            Entry::Vacant(vacant_entry) => vacant_entry.tree(),
        }
    }

    /// Gets the position of this entry in the tree's numbering.
    pub fn index(&self) -> (r: usize)
        ensures
            r == self.index_spec(),
    {
        match self {
            Entry::Occupied(node) => node.index(),
            Entry::Vacant(vacant_entry) => vacant_entry.index(),
        }
    }

    /// Gets the parent node of this entry's position, or `None` when the
    /// entry is for the root or the parent position holds no node.
    pub fn parent(&self) -> (r: Option<Node<'a, N>>)
        requires
            self.wf(),
        ensures
            r is Some <==> (self.index_spec() != 0 && self.spec_tree().occupied(
                spec_parent_index(self.spec_tree().branching(), self.index_spec()),
            )),
            r matches Some(p) ==> p.wf() && p.spec_tree() == self.spec_tree() && p.index_spec()
                == spec_parent_index(self.spec_tree().branching(), self.index_spec()),
    {
        match self {
            Entry::Occupied(node) => node.parent(),
            Entry::Vacant(vacant_entry) => vacant_entry.parent(),
        }
    }

    /// Gets the node this entry is for, `None` when the position holds none.
    pub fn node(&self) -> (r: Option<Node<'a, N>>)
        requires
            self.wf(),
        ensures
            r is Some <==> self.spec_tree().occupied(self.index_spec()),
            r matches Some(n) ==> n.wf() && n.spec_tree() == self.spec_tree() && n.index_spec()
                == self.index_spec(),
    {
        match self {
            Entry::Occupied(node) => Some(*node),
            Entry::Vacant(_) => None,
        }
    }

    /// Gets an iterator over the immediate children of this entry's node; an
    /// exhausted iterator when the position holds no node.
    pub fn child_iter(&self) -> (r: EntryIter<NodeChildIter<'a, N>>)
        requires
            self.wf(),
        ensures
            r.wf(),
            r matches EntryIter::Occupied(it) ==> self.spec_tree().occupied(self.index_spec())
                && it.spec_tree() == self.spec_tree() && it.index_spec() == self.index_spec()
                && it.offset_spec() == 0,
            r is Vacant <==> !self.spec_tree().occupied(self.index_spec()),
    {
        match self {
            Entry::Occupied(node) => EntryIter::Occupied(node.child_iter()),
            Entry::Vacant(_) => EntryIter::Vacant,
        }
    }

    /// Gets a depth-first iterator over this entry's node and all of its
    /// descendants; an exhausted iterator when the position holds no node.
    pub fn depth_first_iter(&self, order: DepthFirstOrder) -> (r: EntryIter<
        DepthFirstIter<'a, N>,
    >)
        requires
            self.wf(),
        ensures
            r.wf(),
            r.remaining() == subtree_seq(self.spec_tree(), order, self.index_spec()),
    {
        proof {
            if !self.spec_tree().occupied(self.index_spec()) {
                assert(subtree_seq(self.spec_tree(), order, self.index_spec())
                    =~= Seq::<int>::empty());
            }
        }
        match self {
            Entry::Occupied(node) => EntryIter::Occupied(node.depth_first_iter(order)),
            Entry::Vacant(_) => EntryIter::Vacant,
        }
    }

    /// Gets a breadth-first iterator over this entry's node and all of its
    /// descendants; an exhausted iterator when the position holds no node.
    pub fn breadth_first_iter(&self) -> (r: EntryIter<BreadthFirstIter<'a, N>>)
        requires
            self.wf(),
        ensures
            r.wf(),
            r.remaining() == breadth_first_seq(self.spec_tree(), self.index_spec()),
    {
        proof {
            if !self.spec_tree().occupied(self.index_spec()) {
                lemma_breadth_first_upto_props(self.spec_tree(), self.index_spec(), self.spec_tree().slots().len() as int);
                if breadth_first_seq(self.spec_tree(), self.index_spec()).len() > 0 {
                    let s = breadth_first_seq(self.spec_tree(), self.index_spec());
                    assert(s.contains(s[0]));
                    self.spec_tree().lemma_occupied_subtree_root_occupied(
                        self.index_spec(),
                        s[0],
                    );
                }
                assert(breadth_first_seq(self.spec_tree(), self.index_spec())
                    =~= Seq::<int>::empty());
            }
        }
        match self {
            Entry::Occupied(node) => EntryIter::Occupied(node.breadth_first_iter()),
            Entry::Vacant(_) => EntryIter::Vacant,
        }
    }

    /// Gets whether this entry's position holds a node.
    pub fn is_occupied(&self) -> (r: bool)
        requires
            self.wf(),
        ensures
            r == self.spec_tree().occupied(self.index_spec()),
    {
        match self {
            Entry::Occupied(_) => true,
            Entry::Vacant(_) => false,
        }
    }

    /// Gets whether this entry's position holds no node.
    pub fn is_vacant(&self) -> (r: bool)
        requires
            self.wf(),
        ensures
            r == !self.spec_tree().occupied(self.index_spec()),
    {
        match self {
            Entry::Occupied(_) => false,
            Entry::Vacant(_) => true,
        }
    }
}

/// An iterator handed out by an entry: the underlying iterator when the entry
/// was occupied, and an exhausted one when it was vacant.
#[derive(Debug, Clone)]
pub enum EntryIter<I> {
    Occupied(I),
    Vacant,
}

impl<'a, N> EntryIter<NodeChildIter<'a, N>> {
    /// An entry iterator is well formed when the iterator it wraps, if any, is.
    pub open spec fn wf(self) -> bool {
        match self {
            EntryIter::Occupied(it) => it.wf(),
            EntryIter::Vacant => true,
        }
    }

    /// Yields what the wrapped child iterator yields, nothing when the entry
    /// was vacant.
    pub fn next(&mut self) -> (r: Option<Node<'a, N>>)
        requires
            old(self).wf(),
        ensures
            final(self).wf(),
            *old(self) is Vacant ==> r is None && *final(self) == *old(self),
            *old(self) matches EntryIter::Occupied(it0) ==> (*final(self)) matches
                EntryIter::Occupied(it1) && {
                &&& it1.spec_node() == it0.spec_node()
                &&& it0.offset_spec() <= it1.offset_spec()
                &&& forall|o: int|
                    it0.offset_spec() <= o < it1.offset_spec() - 1 ==> !it0.spec_tree().occupied(
                        #[trigger] spec_child_index(
                            it0.spec_tree().branching(),
                            it0.index_spec(),
                            o,
                        ),
                    )
                &&& (r matches Some(c) ==> it0.offset_spec() <= it1.offset_spec() - 1
                    < it0.spec_tree().branching() && c.wf() && c.spec_tree() == it0.spec_tree()
                    && c.index_spec() == spec_child_index(
                    it0.spec_tree().branching(),
                    it0.index_spec(),
                    it1.offset_spec() - 1,
                ))
                &&& (r is None ==> it1.offset_spec() == it0.spec_tree().branching() && forall|
                    o: int,
                |
                    it0.offset_spec() <= o < it0.spec_tree().branching() ==> !it0.spec_tree()
                        .occupied(
                        #[trigger] spec_child_index(
                            it0.spec_tree().branching(),
                            it0.index_spec(),
                            o,
                        ),
                    ))
            },
    {
        match self {
            EntryIter::Occupied(iterator) => iterator.next(),
            EntryIter::Vacant => None,
        }
    }
}

impl<'a, N> EntryIter<DepthFirstIter<'a, N>> {
    /// An entry iterator is well formed when the iterator it wraps, if any, is.
    pub open spec fn wf(self) -> bool {
        match self {
            EntryIter::Occupied(it) => it.wf(),
            EntryIter::Vacant => true,
        }
    }

    /// The positions this iterator has yet to yield, in yield order.
    pub open spec fn remaining(self) -> Seq<int> {
        match self {
            EntryIter::Occupied(it) => it.remaining(),
            EntryIter::Vacant => Seq::empty(),
        }
    }

    /// Yields what the wrapped depth-first iterator yields, nothing when the
    /// entry was vacant.
    pub fn next(&mut self) -> (r: Option<Node<'a, N>>)
        requires
            old(self).wf(),
        ensures
            final(self).wf(),
            r is Some <==> old(self).remaining().len() > 0,
            r matches Some(n) ==> n.wf() && n.index_spec() == old(self).remaining()[0]
                && final(self).remaining() == old(self).remaining().drop_first(),
            r is None ==> final(self).remaining() == old(self).remaining()
                && old(self).remaining().len() == 0,
    {
        match self {
            EntryIter::Occupied(iterator) => iterator.next(),
            EntryIter::Vacant => None,
        }
    }
}

impl<'a, N> EntryIter<BreadthFirstIter<'a, N>> {
    /// An entry iterator is well formed when the iterator it wraps, if any, is.
    pub open spec fn wf(self) -> bool {
        match self {
            EntryIter::Occupied(it) => it.wf(),
            EntryIter::Vacant => true,
        }
    }

    /// The positions this iterator has yet to yield, in yield order.
    pub open spec fn remaining(self) -> Seq<int> {
        match self {
            EntryIter::Occupied(it) => it.remaining(),
            EntryIter::Vacant => Seq::empty(),
        }
    }

    /// Yields what the wrapped breadth-first iterator yields, nothing when the
    /// entry was vacant.
    pub fn next(&mut self) -> (r: Option<Node<'a, N>>)
        requires
            old(self).wf(),
        ensures
            final(self).wf(),
            r is Some <==> old(self).remaining().len() > 0,
            r matches Some(n) ==> n.wf() && n.index_spec() == old(self).remaining()[0]
                && final(self).remaining() == old(self).remaining().drop_first(),
            r is None ==> final(self).remaining() == old(self).remaining()
                && old(self).remaining().len() == 0,
    {
        match self {
            EntryIter::Occupied(iterator) => iterator.next(),
            EntryIter::Vacant => None,
        }
    }
}

} // verus!
