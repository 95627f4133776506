use vstd::prelude::*;

use crate::breadth_first_iter::BreadthFirstIter;
use crate::depth_first_iter::DepthFirstIter;
use crate::depth_first_order::DepthFirstOrder;
use crate::entry::{Entry, EntryIter, VacantEntry};
use crate::eytzinger_index_calculator::{in_subtree, spec_parent_index};
use crate::node_child_iter::NodeChildIter;
use crate::traversal::{breadth_first_seq, lemma_breadth_first_upto_props, subtree_seq};
use crate::{EytzingerTree, Node, NodeMut};

verus! {

/// A write cursor over one position of a tree, which may or may not hold a
/// node.
#[derive(Debug)]
pub enum EntryMut<N> {
    /// The position holds a node.
    Occupied(NodeMut<N>),
    /// The position holds no node.
    Vacant(VacantEntryMut<N>),
}

/// A write cursor over one vacant position of a tree whose parent position is
/// occupied (or which is the root position).  Inserting through it creates a
/// node there.
#[derive(Debug)]
pub struct VacantEntryMut<N> {
    index: usize,
    marker: core::marker::PhantomData<N>,
}

impl<N> VacantEntryMut<N> {
    /// The position this entry points at.
    pub closed spec fn index_spec(self) -> int {
        self.index as int
    }

    /// Whether this entry points at a vacant position of `tree` that a node
    /// could fill: the position is below the machine's address range, and its
    /// parent position is occupied unless the position is the root.
    pub open spec fn valid(self, tree: EytzingerTree<N>) -> bool {
        &&& tree.wf()
        &&& !tree.occupied(self.index_spec())
        &&& self.index_spec() < usize::MAX
        &&& self.index_spec() == 0 || tree.occupied(
            spec_parent_index(tree.branching(), self.index_spec()),
        )
    }

    pub(crate) fn at(index: usize) -> (r: Self)
        ensures
            r.index_spec() == index,
    {
        VacantEntryMut { index, marker: core::marker::PhantomData }
    }

    /// The position this entry points at, as the tree numbers positions.
    pub fn index(&self) -> (r: usize)
        ensures
            r == self.index_spec(),
    {
        self.index
    }

    /// Gets the parent node of this entry's position, or `None` when the
    /// entry is for the root.
    pub fn parent<'a>(&self, tree: &'a EytzingerTree<N>) -> (r: Option<Node<'a, N>>)
        requires
            self.valid(*tree),
        ensures
            r is Some <==> self.index_spec() != 0,
            r matches Some(p) ==> p.wf() && p.spec_tree() == *tree && p.index_spec()
                == spec_parent_index(tree.branching(), self.index_spec()),
    {
        tree.parent(self.index)
    }

    /// Moves to a write cursor on the parent node, handing the entry back when
    /// it is for the root.
    pub fn to_parent(self, tree: &EytzingerTree<N>) -> (r: Result<NodeMut<N>, Self>)
        requires
            self.valid(*tree),
        ensures
            r is Ok <==> self.index_spec() != 0,
            r matches Ok(p) ==> p.valid(*tree) && p.index_spec() == spec_parent_index(
                tree.branching(),
                self.index_spec(),
            ),
            r matches Err(s) ==> s == self,
    {
        match tree.parent_mut(self.index) {
            Some(parent) => Ok(parent),
            None => Err(self),
        }
    }

    /// Inserts a value at the entry's position and returns a write cursor for
    /// the new node.  The tree gains exactly that one node.
    pub fn insert(self, tree: &mut EytzingerTree<N>, value: N) -> (r: NodeMut<N>)
        requires
            self.valid(*old(tree)),
        ensures
            final(tree).wf(),
            final(tree).branching() == old(tree).branching(),
            r.valid(*final(tree)),
            r.index_spec() == self.index_spec(),
            forall|j: int|
                #[trigger] final(tree).occupied(j) == (old(tree).occupied(j) || j
                    == self.index_spec()),
            final(tree).value_at(self.index_spec()) == value,
            forall|j: int|
                old(tree).occupied(j) ==> final(tree).value_at(j) == old(tree).value_at(j),
            final(tree).spec_len() == old(tree).spec_len() + 1,
    {
        tree.set_value(self.index, value)
    }

    /// Inserts the value the factory makes at the entry's position and returns
    /// a write cursor for the new node.  The factory runs exactly once.
    pub fn insert_with<F: FnOnce() -> N>(self, tree: &mut EytzingerTree<N>, value_factory: F)
        -> (r: NodeMut<N>)
        requires
            self.valid(*old(tree)),
            call_requires(value_factory, ()),
        ensures
            final(tree).wf(),
            final(tree).branching() == old(tree).branching(),
            r.valid(*final(tree)),
            r.index_spec() == self.index_spec(),
            forall|j: int|
                #[trigger] final(tree).occupied(j) == (old(tree).occupied(j) || j
                    == self.index_spec()),
            call_ensures(value_factory, (), final(tree).value_at(self.index_spec())),
            forall|j: int|
                old(tree).occupied(j) ==> final(tree).value_at(j) == old(tree).value_at(j),
            final(tree).spec_len() == old(tree).spec_len() + 1,
    {
        tree.set_value(self.index, value_factory())
    }

    /// Gets a read-only view of this entry.
    pub fn as_vacant_entry<'a>(&self, tree: &'a EytzingerTree<N>) -> (r: VacantEntry<'a, N>)
        requires
            self.valid(*tree),
        ensures
            r.wf(),
            r.spec_tree() == *tree,
            r.index_spec() == self.index_spec(),
    {
        VacantEntry::at(tree, self.index)
    }
}

impl<N> EntryMut<N> {
    /// The position this entry points at.
    pub open spec fn index_spec(self) -> int {
        match self {
            EntryMut::Occupied(node) => node.index_spec(),
            EntryMut::Vacant(vacant_entry) => vacant_entry.index_spec(),
        }
    }

    /// Whether this entry matches `tree`: its variant agrees with whether its
    /// position holds a node there.
    pub open spec fn valid(self, tree: EytzingerTree<N>) -> bool {
        match self {
            EntryMut::Occupied(node) => node.valid(tree),
            EntryMut::Vacant(vacant_entry) => vacant_entry.valid(tree),
        }
    }

    /// The position this entry points at, as the tree numbers positions.
    pub fn index(&self) -> (r: usize)
        ensures
            r == self.index_spec(),
    {
        match self {
            EntryMut::Occupied(node) => node.index(),
            EntryMut::Vacant(vacant_entry) => vacant_entry.index(),
        }
    }

    /// Gets the parent node of this entry's position, or `None` when the
    /// entry is for the root.
    pub fn parent<'a>(&self, tree: &'a EytzingerTree<N>) -> (r: Option<Node<'a, N>>)
        requires
            self.valid(*tree),
        ensures
            r is Some <==> self.index_spec() != 0,
            r matches Some(p) ==> p.wf() && p.spec_tree() == *tree && p.index_spec()
                == spec_parent_index(tree.branching(), self.index_spec()),
    {
        match self {
            EntryMut::Occupied(node) => node.parent(tree),
            EntryMut::Vacant(vacant_entry) => vacant_entry.parent(tree),
        }
    }

    /// Moves to a write cursor on the parent node, handing the entry back when
    /// it is for the root.
    pub fn to_parent(self, tree: &EytzingerTree<N>) -> (r: Result<NodeMut<N>, Self>)
        requires
            self.valid(*tree),
        ensures
            r is Ok <==> self.index_spec() != 0,
            r matches Ok(p) ==> p.valid(*tree) && p.index_spec() == spec_parent_index(
                tree.branching(),
                self.index_spec(),
            ),
            r matches Err(s) ==> s == self,
    {
        match self {
            EntryMut::Occupied(node) => match node.to_parent(tree) {
                Ok(parent) => Ok(parent),
                Err(node) => Err(EntryMut::Occupied(node)),
            },
            EntryMut::Vacant(vacant_entry) => match vacant_entry.to_parent(tree) {
                Ok(parent) => Ok(parent),
                Err(vacant_entry) => Err(EntryMut::Vacant(vacant_entry)),
            },
        }
    }

    /// Inserts a value at the entry's position if no node is already there,
    /// and returns a write cursor for the node at the position.  A value
    /// already present is left untouched.
    pub fn or_insert(self, tree: &mut EytzingerTree<N>, value: N) -> (r: NodeMut<N>)
        requires
            self.valid(*old(tree)),
        ensures
            final(tree).wf(),
            final(tree).branching() == old(tree).branching(),
            r.valid(*final(tree)),
            r.index_spec() == self.index_spec(),
            forall|j: int|
                #[trigger] final(tree).occupied(j) == (old(tree).occupied(j) || j
                    == self.index_spec()),
            final(tree).value_at(self.index_spec()) == if old(tree).occupied(
                self.index_spec(),
            ) {
                old(tree).value_at(self.index_spec())
            } else {
                value
            },
            forall|j: int|
                old(tree).occupied(j) ==> final(tree).value_at(j) == old(tree).value_at(j),
            final(tree).spec_len() == old(tree).spec_len() + if old(tree).occupied(
                self.index_spec(),
            ) {
                0int
            } else {
                1int
            },
    {
        match self {
            EntryMut::Occupied(node) => node,
            EntryMut::Vacant(vacant) => vacant.insert(tree, value),
        }
    }

    /// Inserts the value the factory makes if no node is already at the
    /// entry's position, and returns a write cursor for the node there.  The
    /// factory runs only when the position was vacant.
    pub fn or_insert_with<F: FnOnce() -> N>(self, tree: &mut EytzingerTree<N>, value_factory: F)
        -> (r: NodeMut<N>)
        requires
            self.valid(*old(tree)),
            !old(tree).occupied(self.index_spec()) ==> call_requires(value_factory, ()),
        ensures
            final(tree).wf(),
            final(tree).branching() == old(tree).branching(),
            r.valid(*final(tree)),
            r.index_spec() == self.index_spec(),
            forall|j: int|
                #[trigger] final(tree).occupied(j) == (old(tree).occupied(j) || j
                    == self.index_spec()),
            old(tree).occupied(self.index_spec()) ==> final(tree).value_at(self.index_spec())
                == old(tree).value_at(self.index_spec()),
            !old(tree).occupied(self.index_spec()) ==> call_ensures(
                value_factory,
                (),
                final(tree).value_at(self.index_spec()),
            ),
            forall|j: int|
                old(tree).occupied(j) ==> final(tree).value_at(j) == old(tree).value_at(j),
            final(tree).spec_len() == old(tree).spec_len() + if old(tree).occupied(
                self.index_spec(),
            ) {
                0int
            } else {
                1int
            },
    {
        match self {
            EntryMut::Occupied(node) => node,
            EntryMut::Vacant(vacant) => vacant.insert_with(tree, value_factory),
        }
    }

    /// Removes the node at the entry's position, if one is there, together
    /// with its whole subtree.  Returns the removed value, if any, and the now
    /// vacant entry.  Removing an already vacant entry changes nothing.
    pub fn remove(self, tree: &mut EytzingerTree<N>) -> (r: (Option<N>, VacantEntryMut<N>))
        requires
            self.valid(*old(tree)),
        ensures
            final(tree).wf(),
            final(tree).branching() == old(tree).branching(),
            forall|j: int|
                #[trigger] final(tree).occupied(j) == (old(tree).occupied(j) && !in_subtree(
                    old(tree).branching(),
                    self.index_spec(),
                    j,
                )),
            forall|j: int|
                final(tree).occupied(j) ==> final(tree).value_at(j) == old(tree).value_at(j),
            final(tree).spec_len() == old(tree).spec_len() - old(tree).subtree_count(
                self.index_spec(),
            ),
            !old(tree).occupied(self.index_spec()) ==> *final(tree) == *old(tree),
            r.0 == if old(tree).occupied(self.index_spec()) {
                Some(old(tree).value_at(self.index_spec()))
            } else {
                None::<N>
            },
            r.1.valid(*final(tree)),
            r.1.index_spec() == self.index_spec(),
    {
        let ghost pre = *tree;
        let _slot_bound = tree.slot_count();
        let index = self.index();
        let r = match self {
            EntryMut::Occupied(_) => tree.remove(index),
            EntryMut::Vacant(_) => {
                proof {
                    pre.lemma_subtree_count_zero_of_vacant(index as int);
                    assert forall|j: int|
                        #[trigger] tree.occupied(j) == (pre.occupied(j) && !in_subtree(
                            pre.branching(),
                            index as int,
                            j,
                        )) by {
                        if pre.occupied(j) && in_subtree(pre.branching(), index as int, j) {
                            pre.lemma_occupied_subtree_root_occupied(index as int, j);
                        }
                    }
                }
                None
            },
        };
        proof {
            if !pre.occupied(index as int) {
                if index != 0 {
                    assert(pre.occupied(spec_parent_index(pre.branching(), index as int)));
                }
            } else {
                if index != 0 {
                    let p = spec_parent_index(pre.branching(), index as int);
                    assert(!in_subtree(pre.branching(), index as int, p)) by {
                        crate::eytzinger_index_calculator::lemma_subtree_above_root(
                            pre.branching(),
                            index as int,
                            p,
                        );
                        crate::eytzinger_index_calculator::lemma_parent_index_bounds(
                            pre.branching(),
                            index as int,
                        );
                    }
                }
            }
        }
        (r, VacantEntryMut::at(index))
    }

    /// Inserts a value at the entry's position if no node is already there,
    /// as `or_insert` does, leaving this entry occupied.
    pub fn or_insert_mut<'s>(&'s mut self, tree: &mut EytzingerTree<N>, value: N) -> (r: &'s mut
        Self)
        requires
            old(self).valid(*old(tree)),
        ensures
            final(tree).wf(),
            final(tree).branching() == old(tree).branching(),
            *r is Occupied,
            r.index_spec() == old(self).index_spec(),
            r.valid(*final(tree)),
            *final(self) == *final(r),
            forall|j: int|
                #[trigger] final(tree).occupied(j) == (old(tree).occupied(j) || j == old(
                    self,
                ).index_spec()),
            final(tree).value_at(old(self).index_spec()) == if old(tree).occupied(
                old(self).index_spec(),
            ) {
                old(tree).value_at(old(self).index_spec())
            } else {
                value
            },
            forall|j: int|
                old(tree).occupied(j) ==> final(tree).value_at(j) == old(tree).value_at(j),
            final(tree).spec_len() == old(tree).spec_len() + if old(tree).occupied(
                old(self).index_spec(),
            ) {
                0int
            } else {
                1int
            },
    {
        let index = self.index();
        let mut taken = EntryMut::Vacant(VacantEntryMut::at(index));
        core::mem::swap(self, &mut taken);
        let node = taken.or_insert(tree, value);
        *self = EntryMut::Occupied(node);
        self
    }

    /// Inserts the value the factory makes if no node is already at the
    /// entry's position, as `or_insert_with` does, leaving this entry
    /// occupied.  The factory runs only when the position was vacant.
    pub fn or_insert_with_mut<'s, F: FnOnce() -> N>(
        &'s mut self,
        tree: &mut EytzingerTree<N>,
        value_factory: F,
    ) -> (r: &'s mut Self)
        requires
            old(self).valid(*old(tree)),
            !old(tree).occupied(old(self).index_spec()) ==> call_requires(value_factory, ()),
        ensures
            final(tree).wf(),
            final(tree).branching() == old(tree).branching(),
            *r is Occupied,
            r.index_spec() == old(self).index_spec(),
            r.valid(*final(tree)),
            *final(self) == *final(r),
            forall|j: int|
                #[trigger] final(tree).occupied(j) == (old(tree).occupied(j) || j == old(
                    self,
                ).index_spec()),
            old(tree).occupied(old(self).index_spec()) ==> final(tree).value_at(
                old(self).index_spec(),
            ) == old(tree).value_at(old(self).index_spec()),
            !old(tree).occupied(old(self).index_spec()) ==> call_ensures(
                value_factory,
                (),
                final(tree).value_at(old(self).index_spec()),
            ),
            forall|j: int|
                old(tree).occupied(j) ==> final(tree).value_at(j) == old(tree).value_at(j),
            final(tree).spec_len() == old(tree).spec_len() + if old(tree).occupied(
                old(self).index_spec(),
            ) {
                0int
            } else {
                1int
            },
    {
        let index = self.index();
        let mut taken = EntryMut::Vacant(VacantEntryMut::at(index));
        core::mem::swap(self, &mut taken);
        let node = taken.or_insert_with(tree, value_factory);
        *self = EntryMut::Occupied(node);
        self
    }

    /// Rebuilds the value at the entry's position, if one is there: hands the
    /// value to `f` and stores what `f` returns in its place.  A vacant entry
    /// is left untouched and `f` does not run.
    pub fn and_modify<F: FnOnce(N) -> N>(self, tree: &mut EytzingerTree<N>, f: F) -> (r: Self)
        requires
            self.valid(*old(tree)),
            old(tree).occupied(self.index_spec()) ==> call_requires(
                f,
                (old(tree).value_at(self.index_spec()),),
            ),
        ensures
            final(tree).wf(),
            final(tree).branching() == old(tree).branching(),
            final(tree).spec_len() == old(tree).spec_len(),
            forall|j: int| #[trigger] final(tree).occupied(j) == old(tree).occupied(j),
            old(tree).occupied(self.index_spec()) ==> call_ensures(
                f,
                (old(tree).value_at(self.index_spec()),),
                final(tree).value_at(self.index_spec()),
            ),
            !old(tree).occupied(self.index_spec()) ==> *final(tree) == *old(tree),
            forall|j: int|
                old(tree).occupied(j) && j != self.index_spec()
                    ==> #[trigger] final(tree).value_at(j) == old(tree).value_at(j),
            r == self,
            r.valid(*final(tree)),
    {
        match self {
            EntryMut::Occupied(node) => {
                tree.apply_at(node.index(), f);
                EntryMut::Occupied(node)
            },
            EntryMut::Vacant(vacant) => EntryMut::Vacant(vacant),
        }
    }

    /// Rebuilds the value at the entry's position in place, as `and_modify`
    /// does, without consuming the entry.
    pub fn and_modify_mut<F: FnOnce(N) -> N>(&mut self, tree: &mut EytzingerTree<N>, f: F)
        requires
            old(self).valid(*old(tree)),
            old(tree).occupied(old(self).index_spec()) ==> call_requires(
                f,
                (old(tree).value_at(old(self).index_spec()),),
            ),
        ensures
            *final(self) == *old(self),
            final(tree).wf(),
            final(tree).branching() == old(tree).branching(),
            final(tree).spec_len() == old(tree).spec_len(),
            forall|j: int| #[trigger] final(tree).occupied(j) == old(tree).occupied(j),
            old(tree).occupied(old(self).index_spec()) ==> call_ensures(
                f,
                (old(tree).value_at(old(self).index_spec()),),
                final(tree).value_at(old(self).index_spec()),
            ),
            !old(tree).occupied(old(self).index_spec()) ==> *final(tree) == *old(tree),
            forall|j: int|
                old(tree).occupied(j) && j != old(self).index_spec()
                    ==> #[trigger] final(tree).value_at(j) == old(tree).value_at(j),
    {
        match self {
            EntryMut::Occupied(node) => {
                tree.apply_at(node.index(), f);
            },
            EntryMut::Vacant(_) => {},
        }
    }

    /// Sets the value at the entry's position, removing any node that stood
    /// there first, subtree and all.  Returns the replaced value, if any, and
    /// a write cursor for the new node.
    pub fn set_value(self, tree: &mut EytzingerTree<N>, value: N) -> (r: (Option<N>, NodeMut<N>))
        requires
            self.valid(*old(tree)),
        ensures
            final(tree).wf(),
            final(tree).branching() == old(tree).branching(),
            r.1.valid(*final(tree)),
            r.1.index_spec() == self.index_spec(),
            forall|j: int|
                #[trigger] final(tree).occupied(j) == ((old(tree).occupied(j) && !in_subtree(
                    old(tree).branching(),
                    self.index_spec(),
                    j,
                )) || j == self.index_spec()),
            final(tree).value_at(self.index_spec()) == value,
            forall|j: int|
                final(tree).occupied(j) && j != self.index_spec() ==> final(tree).value_at(j)
                    == old(tree).value_at(j),
            final(tree).spec_len() == old(tree).spec_len() - old(tree).subtree_count(
                self.index_spec(),
            ) + 1,
            r.0 == if old(tree).occupied(self.index_spec()) {
                Some(old(tree).value_at(self.index_spec()))
            } else {
                None::<N>
            },
    {
        let (old_value, vacant_entry) = self.remove(tree);
        let node = vacant_entry.insert(tree, value);
        (old_value, node)
    }

    /// Sets the value at the entry's position, as `set_value` does, leaving
    /// this entry occupied.  Returns the replaced value, if any.
    pub fn set_value_mut(&mut self, tree: &mut EytzingerTree<N>, value: N) -> (r: Option<N>)
        requires
            old(self).valid(*old(tree)),
        ensures
            final(tree).wf(),
            final(tree).branching() == old(tree).branching(),
            final(self).valid(*final(tree)),
            final(self).index_spec() == old(self).index_spec(),
            *final(self) is Occupied,
            forall|j: int|
                #[trigger] final(tree).occupied(j) == ((old(tree).occupied(j) && !in_subtree(
                    old(tree).branching(),
                    old(self).index_spec(),
                    j,
                )) || j == old(self).index_spec()),
            final(tree).value_at(old(self).index_spec()) == value,
            forall|j: int|
                final(tree).occupied(j) && j != old(self).index_spec()
                    ==> final(tree).value_at(j) == old(tree).value_at(j),
            final(tree).spec_len() == old(tree).spec_len() - old(tree).subtree_count(
                old(self).index_spec(),
            ) + 1,
            r == if old(tree).occupied(old(self).index_spec()) {
                Some(old(tree).value_at(old(self).index_spec()))
            } else {
                None::<N>
            },
    {
        let index = self.index();
        let mut taken = EntryMut::Vacant(VacantEntryMut::at(index));
        core::mem::swap(self, &mut taken);
        let (old_value, node) = taken.set_value(tree, value);
        *self = EntryMut::Occupied(node);
        old_value
    }

    /// Removes the node at the entry's position, as `remove` does, leaving
    /// this entry vacant.  Returns the removed value, if any.
    pub fn remove_mut(&mut self, tree: &mut EytzingerTree<N>) -> (r: Option<N>)
        requires
            old(self).valid(*old(tree)),
        ensures
            final(tree).wf(),
            final(tree).branching() == old(tree).branching(),
            final(self).valid(*final(tree)),
            final(self).index_spec() == old(self).index_spec(),
            *final(self) is Vacant,
            forall|j: int|
                #[trigger] final(tree).occupied(j) == (old(tree).occupied(j) && !in_subtree(
                    old(tree).branching(),
                    old(self).index_spec(),
                    j,
                )),
            forall|j: int|
                final(tree).occupied(j) ==> final(tree).value_at(j) == old(tree).value_at(j),
            final(tree).spec_len() == old(tree).spec_len() - old(tree).subtree_count(
                old(self).index_spec(),
            ),
            !old(tree).occupied(old(self).index_spec()) ==> *final(tree) == *old(tree),
            r == if old(tree).occupied(old(self).index_spec()) {
                Some(old(tree).value_at(old(self).index_spec()))
            } else {
                None::<N>
            },
    {
        let index = self.index();
        let mut taken = EntryMut::Vacant(VacantEntryMut::at(index));
        core::mem::swap(self, &mut taken);
        let (old_value, vacant_entry) = taken.remove(tree);
        *self = EntryMut::Vacant(vacant_entry);
        old_value
    }

    /// Gets the value at the entry's position for writing, `None` when the
    /// position holds no node.  The tree afterwards holds whatever the caller
    /// leaves behind the reference; `EytzingerTree::lemma_value_update`
    /// recovers well-formedness from that.
    pub fn value_mut<'a>(&self, tree: &'a mut EytzingerTree<N>) -> (r: Option<&'a mut N>)
        requires
            self.valid(*old(tree)),
        ensures
            r is Some <==> old(tree).occupied(self.index_spec()),
            r matches Some(m) ==> *m == old(tree).value_at(self.index_spec())
                && final(tree).slots() == old(tree).slots().update(
                self.index_spec(),
                Some(*final(m)),
            ) && final(tree).branching() == old(tree).branching() && final(tree).spec_len()
                == old(tree).spec_len(),
            r is None ==> *final(tree) == *old(tree),
    {
        match self {
            EntryMut::Occupied(node) => Some(node.value_mut(tree)),
            EntryMut::Vacant(_) => None,
        }
    }

    /// Gets the value at the entry's position for writing, consuming the
    /// entry; `None` when the position holds no node.
    pub fn into_value_mut<'a>(self, tree: &'a mut EytzingerTree<N>) -> (r: Option<&'a mut N>)
        requires
            self.valid(*old(tree)),
        ensures
            r is Some <==> old(tree).occupied(self.index_spec()),
            r matches Some(m) ==> *m == old(tree).value_at(self.index_spec())
                && final(tree).slots() == old(tree).slots().update(
                self.index_spec(),
                Some(*final(m)),
            ) && final(tree).branching() == old(tree).branching() && final(tree).spec_len()
                == old(tree).spec_len(),
            r is None ==> *final(tree) == *old(tree),
    {
        match self {
            EntryMut::Occupied(node) => Some(node.into_value_mut(tree)),
            EntryMut::Vacant(_) => None,
        }
    }

    /// Gets the node this entry is for, `None` when the position holds none.
    pub fn node<'a>(&self, tree: &'a EytzingerTree<N>) -> (r: Option<Node<'a, N>>)
        requires
            self.valid(*tree),
        ensures
            r is Some <==> tree.occupied(self.index_spec()),
            r matches Some(n) ==> n.wf() && n.spec_tree() == *tree && n.index_spec()
                == self.index_spec(),
    {
        match self {
            EntryMut::Occupied(node) => Some(node.as_node(tree)),
            EntryMut::Vacant(_) => None,
        }
    }

    /// Gets the write cursor this entry holds, `None` when the position holds
    /// no node.
    pub fn node_mut(&mut self) -> (r: Option<&mut NodeMut<N>>)
        ensures
            r is Some <==> *old(self) is Occupied,
            r matches Some(m) ==> *old(self) == EntryMut::Occupied(*m) && *final(self)
                == EntryMut::Occupied(*final(m)),
            r is None ==> *final(self) == *old(self),
    {
        match self {
            EntryMut::Occupied(node) => Some(node),
            EntryMut::Vacant(_) => None,
        }
    }

    /// Gets the write cursor this entry holds, consuming the entry; `None`
    /// when the position holds no node.
    pub fn to_node_mut(self) -> (r: Option<NodeMut<N>>)
        ensures
            r is Some <==> self is Occupied,
            r matches Some(n) ==> self == EntryMut::Occupied(n),
    {
        match self {
            EntryMut::Occupied(node) => Some(node),
            EntryMut::Vacant(_) => None,
        }
    }

    /// Gets the vacant entry this entry holds, `None` when the position holds
    /// a node.
    pub fn vacant_entry_mut(&mut self) -> (r: Option<&mut VacantEntryMut<N>>)
        ensures
            r is Some <==> *old(self) is Vacant,
            r matches Some(v) ==> *old(self) == EntryMut::Vacant(*v) && *final(self)
                == EntryMut::Vacant(*final(v)),
            r is None ==> *final(self) == *old(self),
    {
        match self {
            EntryMut::Occupied(_) => None,
            EntryMut::Vacant(vacant_entry) => Some(vacant_entry),
        }
    }

    /// Gets the vacant entry this entry holds, consuming the entry; `None`
    /// when the position holds a node.
    pub fn to_vacant_entry_mut(self) -> (r: Option<VacantEntryMut<N>>)
        ensures
            r is Some <==> self is Vacant,
            r matches Some(v) ==> self == EntryMut::Vacant(v),
    {
        match self {
            EntryMut::Occupied(_) => None,
            EntryMut::Vacant(vacant_entry) => Some(vacant_entry),
        }
    }

    /// Gets a read-only view of this entry.
    pub fn as_entry<'a>(&self, tree: &'a EytzingerTree<N>) -> (r: Entry<'a, N>)
        requires
            self.valid(*tree),
        ensures
            r.wf(),
            r.spec_tree() == *tree,
            r.index_spec() == self.index_spec(),
            r is Occupied <==> tree.occupied(self.index_spec()),
    {
        match self {
            EntryMut::Occupied(node) => Entry::Occupied(node.as_node(tree)),
            EntryMut::Vacant(vacant_entry) => Entry::Vacant(
                vacant_entry.as_vacant_entry(tree),
            ),
        }
    }

    /// Gets an iterator over the immediate children of this entry's node; an
    /// exhausted iterator when the position holds no node.
    pub fn child_iter<'a>(&self, tree: &'a EytzingerTree<N>) -> (r: EntryIter<
        NodeChildIter<'a, N>,
    >)
        requires
            self.valid(*tree),
        ensures
            r.wf(),
            r matches EntryIter::Occupied(it) ==> tree.occupied(self.index_spec())
                && it.spec_tree() == *tree && it.index_spec() == self.index_spec()
                && it.offset_spec() == 0,
            r is Vacant <==> !tree.occupied(self.index_spec()),
    {
        match self {
            EntryMut::Occupied(node) => EntryIter::Occupied(node.child_iter(tree)),
            EntryMut::Vacant(_) => EntryIter::Vacant,
        }
    }

    /// Gets a depth-first iterator over this entry's node and all of its
    /// descendants; an exhausted iterator when the position holds no node.
    pub fn depth_first_iter<'a>(&self, tree: &'a EytzingerTree<N>, order: DepthFirstOrder) -> (r:
        EntryIter<DepthFirstIter<'a, N>>)
        requires
            self.valid(*tree),
        ensures
            r.wf(),
            r.remaining() == subtree_seq(*tree, order, self.index_spec()),
    {
        proof {
            if !tree.occupied(self.index_spec()) {
                assert(subtree_seq(*tree, order, self.index_spec()) =~= Seq::<int>::empty());
            }
        }
        match self {
            EntryMut::Occupied(node) => EntryIter::Occupied(node.depth_first_iter(tree, order)),
            EntryMut::Vacant(_) => EntryIter::Vacant,
        }
    }

    /// Gets a breadth-first iterator over this entry's node and all of its
    /// descendants; an exhausted iterator when the position holds no node.
    pub fn breadth_first_iter<'a>(&self, tree: &'a EytzingerTree<N>) -> (r: EntryIter<
        BreadthFirstIter<'a, N>,
    >)
        requires
            self.valid(*tree),
        ensures
            r.wf(),
            r.remaining() == breadth_first_seq(*tree, self.index_spec()),
    {
        proof {
            if !tree.occupied(self.index_spec()) {
                lemma_breadth_first_upto_props(*tree, self.index_spec(), tree.slots().len() as int);
                let s = breadth_first_seq(*tree, self.index_spec());
                if s.len() > 0 {
                    assert(s.contains(s[0]));
                    tree.lemma_occupied_subtree_root_occupied(self.index_spec(), s[0]);
                }
                assert(s =~= Seq::<int>::empty());
            }
        }
        match self {
            EntryMut::Occupied(node) => EntryIter::Occupied(node.breadth_first_iter(tree)),
            EntryMut::Vacant(_) => EntryIter::Vacant,
        }
    }

    /// Gets whether this entry's position holds a node.
    pub fn is_occupied(&self) -> (r: bool)
        ensures
            r == self is Occupied,
    {
        match self {
            EntryMut::Occupied(_) => true,
            EntryMut::Vacant(_) => false,
        }
    }

    /// Gets whether this entry's position holds no node.
    pub fn is_vacant(&self) -> (r: bool)
        ensures
            r == self is Vacant,
    {
        match self {
            EntryMut::Occupied(_) => false,
            EntryMut::Vacant(_) => true,
        }
    }
}

} // verus!
