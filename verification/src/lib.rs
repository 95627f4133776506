use vstd::prelude::*;

pub mod breadth_first_iter;
pub mod breadth_first_iterator;
pub mod depth_first_iter;
pub mod depth_first_iterator;
pub mod depth_first_order;
pub mod entry;
pub mod entry_mut;
pub mod eytzinger_index_calculator;
pub mod node;
pub mod node_child_iter;
pub mod node_mut;
pub mod traversal;
pub(crate) mod traversal_root;
pub mod walk;

pub use crate::breadth_first_iter::BreadthFirstIter;
pub use crate::breadth_first_iterator::BreadthFirstIterator;
pub use crate::depth_first_iterator::DepthFirstIterator;
pub use crate::depth_first_iter::DepthFirstIter;
pub use crate::depth_first_order::DepthFirstOrder;
pub use crate::entry::{Entry, EntryIter, VacantEntry};
pub use crate::entry_mut::{EntryMut, VacantEntryMut};
pub use crate::node::Node;
pub use crate::node_child_iter::NodeChildIter;
pub use crate::node_mut::NodeMut;
pub use crate::walk::{WalkAction, WalkHandler, WalkMutHandler, Walkable, WalkableMut};

use crate::eytzinger_index_calculator::{
    in_subtree, lemma_child_offset_recovers, lemma_index_bijection, lemma_parent_index_bounds,
    lemma_split_index_injective, lemma_split_index_le, lemma_split_index_step,
    lemma_subtree_above_root, spec_child_index, spec_child_offset, spec_parent_index,
    spec_split_index, EytzingerIndexCalculator,
};
use crate::traversal::{
    breadth_first_seq, breadth_first_value_seq, lemma_breadth_first_upto_props, subtree_seq,
    subtree_value_seq,
};

verus! {

/// An N-ary tree stored flat in a growable array.  A node's children live at
/// positions computed from the node's own position and a child slot number, so
/// the tree stores no parent or child pointers.  Slot 0 is the root; a `None`
/// slot is a position with no node.
#[derive(Debug, Clone)]
pub struct EytzingerTree<N> {
    nodes: Vec<Option<N>>,
    index_calculator: EytzingerIndexCalculator,
    len: usize,
}

impl<N> EytzingerTree<N> {
    /// The backing array of optional values.
    pub closed spec fn slots(self) -> Seq<Option<N>> {
        self.nodes@
    }

    /// The branching factor: the maximum number of children per node.
    pub closed spec fn branching(self) -> nat {
        self.index_calculator.spec_k()
    }

    /// The cached number of occupied slots.
    pub closed spec fn spec_len(self) -> nat {
        self.len as nat
    }

    /// Whether position `i` currently holds a node.
    pub open spec fn occupied(self, i: int) -> bool {
        0 <= i < self.slots().len() && self.slots()[i] is Some
    }

    /// The value held at position `i`.
    pub open spec fn value_at(self, i: int) -> N
        recommends
            self.occupied(i),
    {
        self.slots()[i]->0
    }

    /// How many positions in `[0, n)` hold a node.
    pub open spec fn count_upto(self, n: int) -> nat
        decreases n,
    {
        if n <= 0 {
            0
        } else {
            self.count_upto(n - 1) + if self.occupied(n - 1) { 1nat } else { 0nat }
        }
    }

    /// How many positions in `[0, n)` hold a node of the subtree rooted at `root`.
    pub open spec fn subtree_count_upto(self, root: int, n: int) -> nat
        decreases n,
    {
        if n <= 0 {
            0
        } else {
            self.subtree_count_upto(root, n - 1) + if self.occupied(n - 1) && in_subtree(
                self.branching(),
                root,
                n - 1,
            ) {
                1nat
            } else {
                0nat
            }
        }
    }

    /// How many nodes the subtree rooted at `root` holds.
    pub open spec fn subtree_count(self, root: int) -> nat {
        self.subtree_count_upto(root, self.slots().len() as int)
    }

    /// The structural invariant: the branching factor is at least one, the root
    /// slot always exists, the cached length counts the occupied slots, and
    /// every occupied slot other than the root has an occupied parent, so the
    /// occupied slots form one tree hanging from the root.
    pub open spec fn wf(self) -> bool {
        &&& self.branching() >= 1
        &&& self.slots().len() >= 1
        &&& self.spec_len() == self.count_upto(self.slots().len() as int)
        &&& forall|i: int|
            1 <= i < self.slots().len() && #[trigger] self.occupied(i) ==> self.occupied(
                spec_parent_index(self.branching(), i),
            )
    }

    /// Creates a tree with the given maximum number of child nodes per parent,
    /// holding no nodes yet.
    pub fn new(max_children_per_node: usize) -> (r: Self)
        requires
            max_children_per_node >= 1,
        ensures
            r.wf(),
            r.branching() == max_children_per_node,
            r.spec_len() == 0,
            forall|i: int| !r.occupied(i),
    {
        let mut nodes: Vec<Option<N>> = Vec::new();
        nodes.push(None);
        let r = EytzingerTree {
            nodes,
            index_calculator: EytzingerIndexCalculator::new(max_children_per_node),
            len: 0,
        };
        proof {
            assert forall|i: int| !r.occupied(i) by {}
            assert(r.count_upto(0) == 0);
            assert(r.count_upto(1) == 0);
        }
        r
    }

    /// Gets whether the tree holds no nodes.
    pub fn is_empty(&self) -> (r: bool)
        ensures
            r == (self.spec_len() == 0),
    {
        self.len() == 0
    }

    /// Gets the number of nodes in the tree.
    pub fn len(&self) -> (r: usize)
        ensures
            r == self.spec_len(),
    {
        self.len
    }

    /// Gets the maximum number of children per parent node.
    pub fn max_children_per_node(&self) -> (r: usize)
        ensures
            r == self.branching(),
    {
        self.index_calculator.max_children_per_node()
    }

    /// Grows the backing array with empty slots until position `index` exists.
    fn ensure_size(&mut self, index: usize)
        requires
            index < usize::MAX,
        ensures
            final(self).slots().len() == if old(self).slots().len() >= index + 1 {
                old(self).slots().len() as int
            } else {
                index + 1
            },
            forall|j: int|
                0 <= j < final(self).slots().len() ==> final(self).slots()[j] == if j < old(
                    self,
                ).slots().len() {
                    old(self).slots()[j]
                } else {
                    None::<N>
                },
            final(self).branching() == old(self).branching(),
            final(self).spec_len() == old(self).spec_len(),
    {
        let desired_len = index + 1;
        let mut grown = self.nodes.len();
        while grown < desired_len
            invariant
                self.nodes@.len() == grown,
                old(self).nodes@.len() <= grown,
                grown <= desired_len || grown == old(self).nodes@.len(),
                self.index_calculator == old(self).index_calculator,
                self.len == old(self).len,
                forall|j: int|
                    0 <= j < grown ==> self.nodes@[j] == if j < old(self).nodes@.len() {
                        old(self).nodes@[j]
                    } else {
                        None::<N>
                    },
            decreases desired_len - grown,
        {
            self.nodes.push(None);
            grown = grown + 1;
        }
    }

    /// Counting never exceeds the number of positions counted over.
    proof fn lemma_count_le(self, n: int)
        ensures
            n >= 0 ==> self.count_upto(n) <= n,
        decreases n,
    {
        if n > 0 {
            self.lemma_count_le(n - 1);
        }
    }

    /// An occupied position below `n` makes the count up to `n` positive.
    proof fn lemma_count_pos(self, x: int, n: int)
        requires
            0 <= x < n,
            self.occupied(x),
        ensures
            self.count_upto(n) >= 1,
        decreases n,
    {
        if x < n - 1 {
            self.lemma_count_pos(x, n - 1);
        }
    }

    /// A vacant position below `n` keeps the count up to `n` below `n`.
    proof fn lemma_count_missing(self, x: int, n: int)
        requires
            0 <= x < n,
            !self.occupied(x),
        ensures
            self.count_upto(n) < n,
        decreases n,
    {
        if x < n - 1 {
            self.lemma_count_missing(x, n - 1);
        } else {
            self.lemma_count_le(n - 1);
        }
    }

    /// Counting over a stretch of vacant positions adds nothing.
    proof fn lemma_count_tail_empty(self, m: int, n: int)
        requires
            0 <= m <= n,
            forall|j: int| m <= j < n ==> !self.occupied(j),
        ensures
            self.count_upto(n) == self.count_upto(m),
        decreases n,
    {
        if n > m {
            self.lemma_count_tail_empty(m, n - 1);
        }
    }

    /// Trees that agree on occupancy below `n` count alike there.
    proof fn lemma_count_agree(self, other: Self, n: int)
        requires
            forall|j: int| 0 <= j < n ==> self.occupied(j) == other.occupied(j),
        ensures
            self.count_upto(n) == other.count_upto(n),
        decreases n,
    {
        if n > 0 {
            self.lemma_count_agree(other, n - 1);
        }
    }

    /// Changing occupancy at one position shifts the count by that position's
    /// change alone.
    proof fn lemma_count_change_one(self, other: Self, x: int, n: int)
        requires
            forall|j: int| 0 <= j < n && j != x ==> self.occupied(j) == other.occupied(j),
        ensures
            other.count_upto(n) == self.count_upto(n) + if 0 <= x < n {
                (if other.occupied(x) { 1int } else { 0int }) - (if self.occupied(x) {
                    1int
                } else {
                    0int
                })
            } else {
                0int
            },
        decreases n,
    {
        if n > 0 {
            self.lemma_count_change_one(other, x, n - 1);
        }
    }

    /// Trees with one branching factor that agree on occupancy below `n` count
    /// alike over any subtree there.
    proof fn lemma_subtree_count_agree(self, other: Self, root: int, n: int)
        requires
            self.branching() == other.branching(),
            forall|j: int| 0 <= j < n ==> self.occupied(j) == other.occupied(j),
        ensures
            self.subtree_count_upto(root, n) == other.subtree_count_upto(root, n),
        decreases n,
    {
        if n > 0 {
            self.lemma_subtree_count_agree(other, root, n - 1);
        }
    }

    /// A subtree holds no more nodes than all positions counted over.
    proof fn lemma_subtree_count_le_count(self, root: int, n: int)
        ensures
            self.subtree_count_upto(root, n) <= self.count_upto(n),
        decreases n,
    {
        if n > 0 {
            self.lemma_subtree_count_le_count(root, n - 1);
        }
    }

    /// Clearing exactly the positions of one subtree lowers the total count by
    /// that subtree's count.
    proof fn lemma_count_minus_subtree(self, other: Self, root: int, n: int)
        requires
            forall|j: int|
                0 <= j < n ==> other.occupied(j) == (self.occupied(j) && !in_subtree(
                    self.branching(),
                    root,
                    j,
                )),
        ensures
            other.count_upto(n) == self.count_upto(n) - self.subtree_count_upto(root, n),
        decreases n,
    {
        if n > 0 {
            self.lemma_count_minus_subtree(other, root, n - 1);
        }
    }

    /// Positions counted for a subtree only lie at or above the subtree's root.
    proof fn lemma_subtree_count_below_root(self, root: int, n: int)
        requires
            n <= root,
        ensures
            self.subtree_count_upto(root, n) == 0,
        decreases n,
    {
        if n > 0 {
            self.lemma_subtree_count_below_root(root, n - 1);
            lemma_subtree_above_root(self.branching(), root, n - 1);
        }
    }

    /// Counting a subtree over more positions never counts less.
    proof fn lemma_subtree_count_mono(self, root: int, m: int, n: int)
        requires
            0 <= m <= n,
        ensures
            self.subtree_count_upto(root, m) <= self.subtree_count_upto(root, n),
        decreases n,
    {
        if m < n {
            self.lemma_subtree_count_mono(root, m, n - 1);
        }
    }

    /// Whether position `i` lies in the subtree rooted at `root`, decided by
    /// walking the parent chain from `i` upward.
    fn is_in_subtree(&self, root: usize, i: usize) -> (r: bool)
        requires
            self.branching() >= 1,
        ensures
            r == in_subtree(self.branching(), root as int, i as int),
    {
        let k = self.index_calculator.max_children_per_node();
        let mut cur = i;
        while cur > root
            invariant
                self.branching() >= 1,
                k == self.branching(),
                in_subtree(self.branching(), root as int, i as int) == in_subtree(
                    self.branching(),
                    root as int,
                    cur as int,
                ),
            decreases cur,
        {
            proof {
                lemma_parent_index_bounds(self.branching(), cur as int);
            }
            cur = (cur - 1) / k;
        }
        cur == root
    }

    /// Removes the value at `index` together with every value in the subtree
    /// below it, and returns the value that stood at `index`, if any.
    /// Removing a vacant position removes nothing and returns nothing.
    pub(crate) fn remove(&mut self, index: usize) -> (r: Option<N>)
        requires
            old(self).wf(),
        ensures
            final(self).wf(),
            final(self).branching() == old(self).branching(),
            final(self).slots().len() == old(self).slots().len(),
            forall|j: int|
                #[trigger] final(self).occupied(j) == (old(self).occupied(j) && !in_subtree(
                    old(self).branching(),
                    index as int,
                    j,
                )),
            forall|j: int|
                final(self).occupied(j) ==> final(self).value_at(j) == old(self).value_at(j),
            final(self).spec_len() == old(self).spec_len() - old(self).subtree_count(
                index as int,
            ),
            r == if old(self).occupied(index as int) {
                Some(old(self).value_at(index as int))
            } else {
                None::<N>
            },
    {
        let ghost orig = *self;
        let ghost k = orig.branching();
        let slot_count = self.nodes.len();
        if index >= slot_count {
            proof {
                assert forall|j: int| 0 <= j < orig.slots().len() && in_subtree(
                    k,
                    index as int,
                    j,
                ) implies false by {
                    lemma_subtree_above_root(k, index as int, j);
                }
                orig.lemma_subtree_count_zero_when_unoccupied(index as int, slot_count as int);
            }
            return None;
        }
        let removed = self.nodes[index].take();
        proof {
            orig.lemma_subtree_count_below_root(index as int, index as int);
            if orig.occupied(index as int) {
                orig.lemma_count_pos(index as int, slot_count as int);
            }
        }
        if removed.is_some() {
            self.len = self.len - 1;
        }
        proof {
            assert forall|x: int| x < index && in_subtree(k, index as int, x) implies false by {
                lemma_subtree_above_root(k, index as int, x);
            }
        }
        let mut j = index + 1;
        while j < slot_count
            invariant
                self.nodes@.len() == slot_count,
                orig.slots().len() == slot_count,
                self.index_calculator == orig.index_calculator,
                orig.wf(),
                k == orig.branching(),
                index < slot_count,
                index < j <= slot_count,
                forall|x: int|
                    #[trigger] self.occupied(x) == (orig.occupied(x) && !(x < j && in_subtree(
                        k,
                        index as int,
                        x,
                    ))),
                forall|x: int|
                    self.occupied(x) ==> #[trigger] self.value_at(x) == orig.value_at(x),
                self.len as int == orig.count_upto(slot_count as int)
                    - orig.subtree_count_upto(index as int, j as int),
            decreases slot_count - j,
        {
            let ghost prev = *self;
            let inside = self.is_in_subtree(index, j);
            if inside {
                let taken = self.nodes[j].take();
                if taken.is_some() {
                    proof {
                        assert(prev.occupied(j as int));
                        assert(orig.occupied(j as int));
                        assert(orig.subtree_count_upto(index as int, j + 1)
                            == orig.subtree_count_upto(index as int, j as int) + 1);
                        orig.lemma_subtree_count_mono(index as int, j + 1, slot_count as int);
                        orig.lemma_subtree_count_le_count(index as int, slot_count as int);
                    }
                    self.len = self.len - 1;
                }
            }
            proof {
                assert forall|x: int|
                    #[trigger] self.occupied(x) == (orig.occupied(x) && !(x < j + 1
                        && in_subtree(k, index as int, x))) by {
                    assert(prev.occupied(x) == (orig.occupied(x) && !(x < j && in_subtree(
                        k,
                        index as int,
                        x,
                    ))));
                    if !(inside && x == j) {
                        assert(self.slots()[x] == prev.slots()[x] || !(0 <= x
                            < self.slots().len()));
                    }
                }
                assert forall|x: int| self.occupied(x) implies #[trigger] self.value_at(x)
                    == orig.value_at(x) by {
                    assert(prev.occupied(x) && prev.value_at(x) == orig.value_at(x));
                }
                assert(prev.occupied(j as int) == (orig.occupied(j as int) && !(j < j
                    && in_subtree(k, index as int, j as int))));
                assert(orig.subtree_count_upto(index as int, j + 1)
                    == orig.subtree_count_upto(index as int, j as int) + if orig.occupied(
                    j as int,
                ) && in_subtree(k, index as int, j as int) {
                    1int
                } else {
                    0int
                });
            }
            j = j + 1;
        }
        proof {
            orig.lemma_count_minus_subtree(*self, index as int, slot_count as int);
            assert forall|i: int|
                1 <= i < self.slots().len() && #[trigger] self.occupied(i) implies self.occupied(
                spec_parent_index(k, i),
            ) by {
                lemma_parent_index_bounds(k, i);
                let p = spec_parent_index(k, i);
                assert(orig.occupied(i));
                assert(orig.occupied(p));
                if in_subtree(k, index as int, p) {
                    lemma_subtree_above_root(k, index as int, p);
                    assert(in_subtree(k, index as int, i));
                }
            }
        }
        removed
    }

    /// A subtree whose root position is vacant holds no nodes, since every
    /// node's chain of parents is occupied up to the tree's root.
    proof fn lemma_subtree_count_zero_when_unoccupied(self, root: int, n: int)
        requires
            self.wf(),
            !self.occupied(root),
            n <= self.slots().len(),
        ensures
            self.subtree_count_upto(root, n) == 0,
        decreases n,
    {
        if n > 0 {
            self.lemma_subtree_count_zero_when_unoccupied(root, n - 1);
            if self.occupied(n - 1) && in_subtree(self.branching(), root, n - 1) {
                self.lemma_occupied_subtree_root_occupied(root, n - 1);
            }
        }
    }

    /// An occupied position inside a subtree forces the subtree's root to be
    /// occupied: occupancy is connected upward.
    pub proof fn lemma_occupied_subtree_root_occupied(self, root: int, i: int)
        requires
            self.wf(),
            self.occupied(i),
            in_subtree(self.branching(), root, i),
        ensures
            self.occupied(root),
        decreases i,
    {
        if i != root {
            lemma_subtree_above_root(self.branching(), root, i);
            lemma_parent_index_bounds(self.branching(), i);
            self.lemma_occupied_subtree_root_occupied(root, spec_parent_index(self.branching(), i));
        }
    }

    /// Sets the value at `index`, replacing any value already there, growing
    /// the backing array as needed, and returns a handle to the position.
    /// Callable only for the root position or for a position whose parent is
    /// occupied, which keeps the occupied slots connected.
    pub(crate) fn set_value(&mut self, index: usize, new_value: N) -> (r: NodeMut<N>)
        requires
            old(self).wf(),
            index < usize::MAX,
            index == 0 || old(self).occupied(
                spec_parent_index(old(self).branching(), index as int),
            ),
        ensures
            final(self).wf(),
            final(self).branching() == old(self).branching(),
            r.index_spec() == index,
            forall|j: int|
                #[trigger] final(self).occupied(j) == (old(self).occupied(j) || j == index),
            final(self).value_at(index as int) == new_value,
            forall|j: int|
                old(self).occupied(j) && j != index ==> final(self).value_at(j) == old(
                    self,
                ).value_at(j),
            final(self).spec_len() == old(self).spec_len() + if old(self).occupied(index as int) {
                0int
            } else {
                1int
            },
    {
        proof {
            if index >= 1 {
                lemma_parent_index_bounds(self.branching(), index as int);
            }
        }
        self.ensure_size(index);
        let ghost mid = *self;
        proof {
            old(self).lemma_count_tail_empty(
                old(self).slots().len() as int,
                mid.slots().len() as int,
            );
            old(self).lemma_count_agree(mid, mid.slots().len() as int);
            old(self).lemma_count_le(old(self).slots().len() as int);
        }
        let slot_count = self.nodes.len();
        let was_occupied = self.nodes[index].is_some();
        if !was_occupied {
            proof {
                mid.lemma_count_missing(index as int, slot_count as int);
            }
            self.len = self.len + 1;
        }
        self.nodes[index] = Some(new_value);
        proof {
            mid.lemma_count_change_one(*self, index as int, self.slots().len() as int);
            assert forall|i: int|
                1 <= i < self.slots().len() && #[trigger] self.occupied(i) implies self.occupied(
                spec_parent_index(self.branching(), i),
            ) by {
                lemma_parent_index_bounds(self.branching(), i);
                if i != index {
                    assert(old(self).occupied(i));
                }
            }
        }
        NodeMut::at(index)
    }

    /// After replacing the value at an occupied position, the tree is still
    /// well formed and every other position is untouched.
    pub proof fn lemma_value_update(self, post: Self, i: int, v: N)
        requires
            self.wf(),
            self.occupied(i),
            post.slots() == self.slots().update(i, Some(v)),
            post.branching() == self.branching(),
            post.spec_len() == self.spec_len(),
        ensures
            post.wf(),
            forall|j: int| #[trigger] post.occupied(j) == self.occupied(j),
            forall|j: int|
                self.occupied(j) && j != i ==> #[trigger] post.value_at(j) == self.value_at(j),
            post.value_at(i) == v,
    {
        assert forall|j: int| #[trigger] post.occupied(j) == self.occupied(j) by {}
        self.lemma_count_agree(post, self.slots().len() as int);
    }

    /// Gets a reference to the value at an occupied position.
    pub(crate) fn value_ref(&self, index: usize) -> (r: &N)
        requires
            self.occupied(index as int),
        ensures
            *r == self.value_at(index as int),
    {
        self.nodes[index].as_ref().unwrap()
    }

    /// Gets an exclusive reference to the value at an occupied position.  The
    /// tree afterwards holds whatever the caller leaves behind the reference;
    /// `lemma_value_update` recovers well-formedness from that.
    pub(crate) fn value_mut_ref(&mut self, index: usize) -> (r: &mut N)
        requires
            old(self).occupied(index as int),
        ensures
            *r == old(self).value_at(index as int),
            final(self).slots() == old(self).slots().update(index as int, Some(*final(r))),
            final(self).branching() == old(self).branching(),
            final(self).spec_len() == old(self).spec_len(),
    {
        let slot = &mut self.nodes[index];
        match slot.as_mut() {
            Some(v) => v,
            None => unreached(),
        }
    }

    /// Computes the index of the child of `parent` at `child_offset`, `None`
    /// when that position lies beyond the machine's address range and so can
    /// never be occupied.
    pub(crate) fn child_index_checked(&self, parent: usize, child_offset: usize) -> (r: Option<usize>)
        requires
            self.branching() >= 1,
            child_offset < self.branching(),
        ensures
            r matches Some(ci) ==> ci == spec_child_index(
                self.branching(),
                parent as int,
                child_offset as int,
            ),
            r is None ==> spec_child_index(self.branching(), parent as int, child_offset as int)
                > usize::MAX,
    {
        let k = self.index_calculator.max_children_per_node();
        match parent.checked_mul(k) {
            Some(m) => match m.checked_add(child_offset) {
                Some(s) => s.checked_add(1),
                None => None,
            },
            None => {
                proof {
                    assert(parent * k + child_offset + 1 > usize::MAX);
                }
                None
            },
        }
    }

    /// Gets the node at `index`, `None` when the position holds no value.
    pub(crate) fn node(&self, index: usize) -> (r: Option<Node<N>>)
        requires
            self.wf(),
        ensures
            r is Some <==> self.occupied(index as int),
            r matches Some(n) ==> n.wf() && n.spec_tree() == *self && n.index_spec() == index,
    {
        if index < self.nodes.len() {
            if self.nodes[index].is_some() {
                Some(Node::at(self, index))
            } else {
                None
            }
        } else {
            None
        }
    }

    /// Gets a write cursor for the node at `index`, `None` when the position
    /// holds no value.
    pub(crate) fn node_mut(&self, index: usize) -> (r: Option<NodeMut<N>>)
        requires
            self.wf(),
        ensures
            r is Some <==> self.occupied(index as int),
            r matches Some(n) ==> n.valid(*self) && n.index_spec() == index,
    {
        if index < self.nodes.len() {
            if self.nodes[index].is_some() {
                Some(NodeMut::at(index))
            } else {
                None
            }
        } else {
            None
        }
    }

    /// Gets the parent node of position `child`, `None` at the root or when
    /// the parent position holds no value.
    pub(crate) fn parent(&self, child: usize) -> (r: Option<Node<N>>)
        requires
            self.wf(),
        ensures
            r is Some <==> (child != 0 && self.occupied(
                spec_parent_index(self.branching(), child as int),
            )),
            r matches Some(p) ==> p.wf() && p.spec_tree() == *self && p.index_spec()
                == spec_parent_index(self.branching(), child as int),
    {
        match self.index_calculator.parent_index(child) {
            Some(p) => self.node(p),
            None => None,
        }
    }

    /// Gets a write cursor for the parent of position `child`, `None` at the
    /// root or when the parent position holds no value.
    pub(crate) fn parent_mut(&self, child: usize) -> (r: Option<NodeMut<N>>)
        requires
            self.wf(),
        ensures
            r is Some <==> (child != 0 && self.occupied(
                spec_parent_index(self.branching(), child as int),
            )),
            r matches Some(p) ==> p.valid(*self) && p.index_spec() == spec_parent_index(
                self.branching(),
                child as int,
            ),
    {
        match self.index_calculator.parent_index(child) {
            Some(p) => self.node_mut(p),
            None => None,
        }
    }

    /// Gets the child node of `parent` at `child_offset`, `None` when the
    /// child position holds no value.
    pub(crate) fn child(&self, parent: usize, child_offset: usize) -> (r: Option<Node<N>>)
        requires
            self.wf(),
            child_offset < self.branching(),
        ensures
            r is Some <==> self.occupied(
                spec_child_index(self.branching(), parent as int, child_offset as int),
            ),
            r matches Some(c) ==> c.wf() && c.spec_tree() == *self && c.index_spec()
                == spec_child_index(self.branching(), parent as int, child_offset as int),
    {
        let _slot_count = self.nodes.len();
        match self.child_index_checked(parent, child_offset) {
            Some(ci) => self.node(ci),
            None => None,
        }
    }

    /// Gets a write cursor for the child of `parent` at `child_offset`,
    /// `None` when the child position holds no value.
    pub(crate) fn child_mut(&self, parent: usize, child_offset: usize) -> (r: Option<NodeMut<N>>)
        requires
            self.wf(),
            child_offset < self.branching(),
        ensures
            r is Some <==> self.occupied(
                spec_child_index(self.branching(), parent as int, child_offset as int),
            ),
            r matches Some(c) ==> c.valid(*self) && c.index_spec() == spec_child_index(
                self.branching(),
                parent as int,
                child_offset as int,
            ),
    {
        let _slot_count = self.nodes.len();
        match self.child_index_checked(parent, child_offset) {
            Some(ci) => self.node_mut(ci),
            None => None,
        }
    }

    /// Gets the root node, `None` when the tree is empty.
    pub fn root(&self) -> (r: Option<Node<N>>)
        requires
            self.wf(),
        ensures
            r is Some <==> self.occupied(0),
            r matches Some(n) ==> n.wf() && n.spec_tree() == *self && n.index_spec() == 0,
    {
        self.node(0)
    }

    /// Gets a write cursor for the root node, `None` when the tree is empty.
    pub fn root_mut(&self) -> (r: Option<NodeMut<N>>)
        requires
            self.wf(),
        ensures
            r is Some <==> self.occupied(0),
            r matches Some(n) ==> n.valid(*self) && n.index_spec() == 0,
    {
        self.node_mut(0)
    }

    /// Sets the value of the root node, leaving any children as they are.
    pub fn set_root_value(&mut self, new_value: N) -> (r: NodeMut<N>)
        requires
            old(self).wf(),
        ensures
            final(self).wf(),
            final(self).branching() == old(self).branching(),
            r.valid(*final(self)),
            r.index_spec() == 0,
            forall|j: int|
                #[trigger] final(self).occupied(j) == (old(self).occupied(j) || j == 0),
            final(self).value_at(0) == new_value,
            forall|j: int|
                old(self).occupied(j) && j != 0 ==> final(self).value_at(j) == old(
                    self,
                ).value_at(j),
            final(self).spec_len() == old(self).spec_len() + if old(self).occupied(0) {
                0int
            } else {
                1int
            },
    {
        self.set_value(0, new_value)
    }

    /// Removes the root value together with every other node, and shrinks the
    /// backing array back to the lone root slot.
    pub fn remove_root_value(&mut self) -> (r: (Option<N>, VacantEntryMut<N>))
        requires
            old(self).wf(),
        ensures
            final(self).wf(),
            final(self).branching() == old(self).branching(),
            final(self).spec_len() == 0,
            forall|j: int| !final(self).occupied(j),
            r.0 == if old(self).occupied(0) {
                Some(old(self).value_at(0))
            } else {
                None::<N>
            },
            r.1.valid(*final(self)),
            r.1.index_spec() == 0,
    {
        self.nodes.truncate(1);
        self.len = 0;
        let slot = &mut self.nodes[0];
        let value = slot.take();
        proof {
            assert(self.count_upto(0) == 0);
            assert(self.count_upto(1) == 0);
            assert forall|j: int| !self.occupied(j) by {}
        }
        (value, VacantEntryMut::at(0))
    }

    /// Rebuilds the value at an occupied position: hands the value to `f` and
    /// stores what `f` returns in its place.  Everything else stays as it was.
    pub(crate) fn apply_at<F: FnOnce(N) -> N>(&mut self, index: usize, f: F)
        requires
            old(self).wf(),
            old(self).occupied(index as int),
            call_requires(f, (old(self).value_at(index as int),)),
        ensures
            final(self).wf(),
            final(self).branching() == old(self).branching(),
            final(self).spec_len() == old(self).spec_len(),
            forall|j: int| #[trigger] final(self).occupied(j) == old(self).occupied(j),
            call_ensures(
                f,
                (old(self).value_at(index as int),),
                final(self).value_at(index as int),
            ),
            forall|j: int|
                old(self).occupied(j) && j != index ==> #[trigger] final(self).value_at(j)
                    == old(self).value_at(j),
    {
        let ghost pre = *self;
        let slot = &mut self.nodes[index];
        let value = match slot.take() {
            Some(value) => value,
            None => unreached(),
        };
        let new_value = f(value);
        *slot = Some(new_value);
        proof {
            pre.lemma_value_update(*self, index as int, self.slots()[index as int]->0);
        }
    }

    /// The number of slots the backing array currently holds.
    pub(crate) fn slot_count(&self) -> (r: usize)
        ensures
            r == self.slots().len(),
    {
        self.nodes.len()
    }

    /// The index calculator this tree computes positions with.
    pub(crate) fn index_calculator_ref(&self) -> (r: &EytzingerIndexCalculator)
        ensures
            r.spec_k() == self.branching(),
    {
        &self.index_calculator
    }

    /// A subtree rooted at a vacant position holds no nodes.
    pub proof fn lemma_subtree_count_zero_of_vacant(self, root: int)
        requires
            self.wf(),
            !self.occupied(root),
        ensures
            self.subtree_count(root) == 0,
    {
        self.lemma_subtree_count_zero_when_unoccupied(root, self.slots().len() as int);
    }

    /// Gets the read-only entry for position `index`.
    pub(crate) fn entry(&self, index: usize) -> (r: Entry<N>)
        requires
            self.wf(),
        ensures
            r.wf(),
            r.spec_tree() == *self,
            r.index_spec() == index,
    {
        match self.node(index) {
            Some(node) => Entry::Occupied(node),
            None => Entry::Vacant(VacantEntry::at(self, index)),
        }
    }

    /// Gets the write entry for position `index`.  The position must be one a
    /// node could stand at: the root, or a child position of an occupied node.
    pub(crate) fn entry_mut(&self, index: usize) -> (r: EntryMut<N>)
        requires
            self.wf(),
            index < usize::MAX,
            index == 0 || self.occupied(index as int) || self.occupied(
                spec_parent_index(self.branching(), index as int),
            ),
        ensures
            r.valid(*self),
            r.index_spec() == index,
    {
        match self.node_mut(index) {
            Some(node) => EntryMut::Occupied(node),
            None => EntryMut::Vacant(VacantEntryMut::at(index)),
        }
    }

    /// Gets the read-only entry for the child of `parent` at `child_offset`.
    pub(crate) fn child_entry(&self, parent: usize, child_offset: usize) -> (r: Entry<N>)
        requires
            self.wf(),
            child_offset < self.branching(),
            spec_child_index(self.branching(), parent as int, child_offset as int)
                <= usize::MAX,
        ensures
            r.wf(),
            r.spec_tree() == *self,
            r.index_spec() == spec_child_index(
                self.branching(),
                parent as int,
                child_offset as int,
            ),
    {
        let child_index = self.index_calculator.child_index(parent, child_offset);
        self.entry(child_index)
    }

    /// Gets the write entry for the child of `parent` at `child_offset`.  The
    /// parent must be occupied, so a node could stand at the child position.
    pub(crate) fn child_entry_mut(&self, parent: usize, child_offset: usize) -> (r: EntryMut<N>)
        requires
            self.wf(),
            self.occupied(parent as int),
            child_offset < self.branching(),
            spec_child_index(self.branching(), parent as int, child_offset as int) < usize::MAX,
        ensures
            r.valid(*self),
            r.index_spec() == spec_child_index(
                self.branching(),
                parent as int,
                child_offset as int,
            ),
    {
        proof {
            lemma_index_bijection(self.branching(), parent as int, child_offset as int);
        }
        let child_index = self.index_calculator.child_index(parent, child_offset);
        self.entry_mut(child_index)
    }

    /// Gets the read-only entry for the root position.
    pub fn root_entry(&self) -> (r: Entry<N>)
        requires
            self.wf(),
        ensures
            r.wf(),
            r.spec_tree() == *self,
            r.index_spec() == 0,
    {
        self.entry(0)
    }

    /// Gets the write entry for the root position.
    pub fn root_entry_mut(&self) -> (r: EntryMut<N>)
        requires
            self.wf(),
        ensures
            r.valid(*self),
            r.index_spec() == 0,
    {
        self.entry_mut(0)
    }

    /// Takes the value out of position `index`, leaving the slot empty and
    /// all bookkeeping untouched.  Only the draining iterators use this, on a
    /// tree they own outright, so the tree's invariant need not be kept.
    pub(crate) fn take_slot(&mut self, index: usize) -> (r: Option<N>)
        requires
            index < old(self).slots().len(),
        ensures
            final(self).slots() == old(self).slots().update(index as int, None::<N>),
            final(self).branching() == old(self).branching(),
            r == old(self).slots()[index as int],
    {
        self.nodes[index].take()
    }

    /// Gets a depth-first iterator over all nodes.
    pub fn depth_first_iter(&self, order: DepthFirstOrder) -> (r: DepthFirstIter<N>)
        requires
            self.wf(),
        ensures
            r.wf(),
            r.spec_tree() == *self,
            r.order_spec() == order,
            r.root_spec() is Some <==> self.occupied(0),
            r.root_spec() matches Some(n) ==> n.wf() && n.spec_tree() == *self
                && n.index_spec() == 0,
            r.remaining() == subtree_seq(*self, order, 0),
    {
        let r = DepthFirstIter::new(self, self.root(), order);
        proof {
            if !self.occupied(0) {
                assert(subtree_seq(*self, order, 0) =~= Seq::<int>::empty());
            }
        }
        r
    }

    /// Gets a breadth-first iterator over all nodes.
    pub fn breadth_first_iter(&self) -> (r: BreadthFirstIter<N>)
        requires
            self.wf(),
        ensures
            r.wf(),
            r.spec_tree() == *self,
            r.root_spec() is Some <==> self.occupied(0),
            r.root_spec() matches Some(n) ==> n.wf() && n.spec_tree() == *self
                && n.index_spec() == 0,
            r.remaining() == breadth_first_seq(*self, 0),
    {
        let r = BreadthFirstIter::new(self, self.root());
        proof {
            if !self.occupied(0) {
                lemma_breadth_first_upto_props(*self, 0, self.slots().len() as int);
                let s = breadth_first_seq(*self, 0);
                if s.len() > 0 {
                    assert(s.contains(s[0]));
                    self.lemma_occupied_subtree_root_occupied(0, s[0]);
                }
                assert(s =~= Seq::<int>::empty());
            }
        }
        r
    }

    /// Walks the whole tree depth first and collects the positions visited,
    /// in visit order.
    #[verifier::loop_isolation(false)]
    fn collect_depth_first(&self, order: DepthFirstOrder) -> (r: Vec<usize>)
        requires
            self.wf(),
        ensures
            r@.map_values(|u: usize| u as int) == subtree_seq(*self, order, 0),
    {
        let ghost full = subtree_seq(*self, order, 0);
        let mut out: Vec<usize> = Vec::new();
        let mut it = self.depth_first_iter(order);
        proof {
            assert(out@.map_values(|u: usize| u as int) + it.remaining() =~= full);
        }
        loop
            invariant
                it.wf(),
                it.spec_tree() == *self,
                self.wf(),
                out@.map_values(|u: usize| u as int) + it.remaining() == full,
            decreases it.remaining().len(),
        {
            let ghost pre_out = out@;
            let ghost pre_rem = it.remaining();
            match it.next() {
                Some(node) => {
                    out.push(node.index());
                    proof {
                        assert(out@.map_values(|u: usize| u as int) =~= pre_out.map_values(
                            |u: usize| u as int,
                        ).push(pre_rem[0]));
                        assert(out@.map_values(|u: usize| u as int) + it.remaining() =~= full);
                    }
                },
                None => {
                    proof {
                        assert(out@.map_values(|u: usize| u as int) =~= full);
                    }
                    return out;
                },
            }
        }
    }

    /// Walks the whole tree breadth first and collects the positions visited,
    /// in visit order.
    #[verifier::loop_isolation(false)]
    fn collect_breadth_first(&self) -> (r: Vec<usize>)
        requires
            self.wf(),
        ensures
            r@.map_values(|u: usize| u as int) == breadth_first_seq(*self, 0),
    {
        let ghost full = breadth_first_seq(*self, 0);
        let mut out: Vec<usize> = Vec::new();
        let mut it = self.breadth_first_iter();
        proof {
            assert(out@.map_values(|u: usize| u as int) + it.remaining() =~= full);
        }
        loop
            invariant
                it.wf(),
                it.spec_tree() == *self,
                self.wf(),
                out@.map_values(|u: usize| u as int) + it.remaining() == full,
            decreases it.remaining().len(),
        {
            let ghost pre_out = out@;
            let ghost pre_rem = it.remaining();
            match it.next() {
                Some(node) => {
                    out.push(node.index());
                    proof {
                        assert(out@.map_values(|u: usize| u as int) =~= pre_out.map_values(
                            |u: usize| u as int,
                        ).push(pre_rem[0]));
                        assert(out@.map_values(|u: usize| u as int) + it.remaining() =~= full);
                    }
                },
                None => {
                    proof {
                        assert(out@.map_values(|u: usize| u as int) =~= full);
                    }
                    return out;
                },
            }
        }
    }

    /// Turns the tree into an iterator that drains the values out in
    /// depth-first order.
    pub fn into_depth_first_iterator(self, order: DepthFirstOrder) -> (r: DepthFirstIterator<N>)
        requires
            self.wf(),
        ensures
            r.wf(),
            r.order_spec() == order,
            r.remaining_values() == subtree_value_seq(self, order, 0),
    {
        DepthFirstIterator::new(self, order)
    }

    /// Turns the tree into an iterator that drains the values out in
    /// breadth-first order.
    pub fn into_breadth_first_iterator(self) -> (r: BreadthFirstIterator<N>)
        requires
            self.wf(),
        ensures
            r.wf(),
            r.remaining_values() == breadth_first_value_seq(self, 0),
    {
        BreadthFirstIterator::new(self)
    }

    /// Computes where position `j` of the subtree rooted at `root` lands when
    /// the subtree is renumbered as a tree of its own: it walks the chain of
    /// parents from `j` up to `root`, then rebuilds the same chain of child
    /// slots down from position 0.
    fn split_index(&self, root: usize, j: usize) -> (r: usize)
        requires
            self.branching() >= 1,
            in_subtree(self.branching(), root as int, j as int),
        ensures
            r == spec_split_index(self.branching(), root as int, j as int),
    {
        let ghost k_spec = self.branching();
        let k = self.index_calculator.max_children_per_node();
        let mut chain: Vec<usize> = Vec::new();
        let mut cur = j;
        chain.push(cur);
        proof {
            lemma_subtree_above_root(k_spec, root as int, j as int);
        }
        while cur > root
            invariant
                k == k_spec,
                chain@.len() >= 1,
                chain@[0] == j,
                chain@[chain@.len() - 1] == cur,
                in_subtree(k_spec, root as int, cur as int),
                forall|m: int|
                    0 <= m < chain@.len() - 1 ==> (#[trigger] chain@[m]) as int > root
                        && chain@[m + 1] as int == spec_parent_index(k_spec, chain@[m] as int),
                forall|m: int|
                    0 <= m < chain@.len() ==> in_subtree(
                        k_spec,
                        root as int,
                        (#[trigger] chain@[m]) as int,
                    ),
            decreases cur,
        {
            proof {
                lemma_parent_index_bounds(k_spec, cur as int);
            }
            cur = (cur - 1) / k;
            chain.push(cur);
        }
        let mut d: usize = 0;
        let mut m = chain.len() - 1;
        while m > 0
            invariant
                k == k_spec,
                chain@.len() >= 1,
                0 <= m < chain@.len(),
                chain@[0] == j,
                forall|x: int|
                    0 <= x < chain@.len() - 1 ==> (#[trigger] chain@[x]) as int > root
                        && chain@[x + 1] as int == spec_parent_index(k_spec, chain@[x] as int),
                forall|x: int|
                    0 <= x < chain@.len() ==> in_subtree(
                        k_spec,
                        root as int,
                        (#[trigger] chain@[x]) as int,
                    ),
                d == spec_split_index(k_spec, root as int, chain@[m as int] as int),
            decreases m,
        {
            m = m - 1;
            let here = chain[m];
            let parent = chain[m + 1];
            proof {
                lemma_subtree_above_root(k_spec, root as int, here as int);
                lemma_child_offset_recovers(k_spec, here as int);
                lemma_split_index_le(k_spec, root as int, parent as int);
                lemma_split_index_le(k_spec, root as int, here as int);
                assert(spec_split_index(k_spec, root as int, here as int) == spec_child_index(
                    k_spec,
                    spec_split_index(k_spec, root as int, parent as int),
                    spec_child_offset(k_spec, here as int),
                ));
                assert(d * k <= parent * k && parent * k + 1 <= here) by (nonlinear_arith)
                    requires
                        k >= 1 && 0 <= d <= parent && parent as int == spec_parent_index(
                            k_spec,
                            here as int,
                        ) && k == k_spec && here >= 1 && 0 <= spec_child_offset(
                            k_spec,
                            here as int,
                        ) && here as int == spec_child_index(
                            k_spec,
                            parent as int,
                            spec_child_offset(k_spec, here as int),
                        ),
                ;
            }
            let offset = here - (parent * k + 1);
            d = d * k + offset + 1;
        }
        d
    }

    /// Moves the whole subtree rooted at `index` into a brand-new tree with
    /// the same branching factor, renumbered so the subtree's root is the new
    /// tree's root and every node keeps its child slot under its parent.  The
    /// subtree's positions are emptied in this tree without dropping any
    /// value.  Splitting at a vacant position returns an empty tree and
    /// changes nothing.
    pub(crate) fn split_off(&mut self, index: usize) -> (r: EytzingerTree<N>)
        requires
            old(self).wf(),
        ensures
            final(self).wf(),
            r.wf(),
            final(self).branching() == old(self).branching(),
            r.branching() == old(self).branching(),
            forall|j: int|
                #[trigger] final(self).occupied(j) == (old(self).occupied(j) && !in_subtree(
                    old(self).branching(),
                    index as int,
                    j,
                )),
            forall|j: int|
                final(self).occupied(j) ==> final(self).value_at(j) == old(self).value_at(j),
            final(self).spec_len() == old(self).spec_len() - old(self).subtree_count(
                index as int,
            ),
            r.spec_len() == old(self).subtree_count(index as int),
            forall|j: int|
                old(self).occupied(j) && #[trigger] in_subtree(
                    old(self).branching(),
                    index as int,
                    j,
                ) ==> r.occupied(spec_split_index(old(self).branching(), index as int, j))
                    && r.value_at(spec_split_index(old(self).branching(), index as int, j))
                    == old(self).value_at(j),
            forall|y: int|
                #[trigger] r.occupied(y) ==> exists|j: int|
                    old(self).occupied(j) && in_subtree(old(self).branching(), index as int, j)
                        && y == spec_split_index(old(self).branching(), index as int, j),
            old(self).occupied(index as int) ==> subtree_value_seq(
                r,
                DepthFirstOrder::PreOrder,
                0,
            ) == subtree_value_seq(*old(self), DepthFirstOrder::PreOrder, index as int),
    {
        let ghost orig = *self;
        let ghost k = orig.branching();
        let k_exec = self.index_calculator.max_children_per_node();
        let mut new_tree = EytzingerTree::new(k_exec);
        let slot_count = self.nodes.len();
        proof {
            orig.lemma_subtree_count_below_root(index as int, if index < slot_count {
                index as int
            } else {
                slot_count as int
            });
            assert forall|x: int| x < index && in_subtree(k, index as int, x) implies false by {
                lemma_subtree_above_root(k, index as int, x);
            }
        }
        let mut j: usize = 0;
        while j < slot_count
            invariant
                self.nodes@.len() == slot_count,
                orig.slots().len() == slot_count,
                self.index_calculator == orig.index_calculator,
                orig.wf(),
                k == orig.branching(),
                k_exec == k,
                j <= slot_count,
                new_tree.wf(),
                new_tree.branching() == k,
                forall|x: int|
                    #[trigger] self.occupied(x) == (orig.occupied(x) && !(x < j && in_subtree(
                        k,
                        index as int,
                        x,
                    ))),
                forall|x: int|
                    self.occupied(x) ==> #[trigger] self.value_at(x) == orig.value_at(x),
                self.len as int == orig.count_upto(slot_count as int)
                    - orig.subtree_count_upto(index as int, j as int),
                forall|x: int|
                    x < j && orig.occupied(x) && #[trigger] in_subtree(k, index as int, x)
                        ==> new_tree.occupied(spec_split_index(k, index as int, x))
                        && new_tree.value_at(spec_split_index(k, index as int, x))
                        == orig.value_at(x),
                forall|y: int|
                    #[trigger] new_tree.occupied(y) ==> exists|x: int|
                        x < j && orig.occupied(x) && in_subtree(k, index as int, x) && y
                            == spec_split_index(k, index as int, x),
                new_tree.spec_len() == orig.subtree_count_upto(index as int, j as int),
            decreases slot_count - j,
        {
            let ghost prev = *self;
            let ghost prev_new = new_tree;
            let inside = self.is_in_subtree(index, j);
            let mut moved = false;
            if inside {
                let slot = &mut self.nodes[j];
                match slot.take() {
                    Some(value) => {
                        proof {
                            assert(prev.occupied(j as int));
                            assert(orig.occupied(j as int));
                            orig.lemma_subtree_count_mono(index as int, j + 1, slot_count as int);
                            orig.lemma_subtree_count_le_count(index as int, slot_count as int);
                            if j != index {
                                lemma_subtree_above_root(k, index as int, j as int);
                                lemma_parent_index_bounds(k, j as int);
                                lemma_split_index_step(k, index as int, j as int);
                                lemma_split_index_le(
                                    k,
                                    index as int,
                                    spec_parent_index(k, j as int),
                                );
                                let p = spec_parent_index(k, j as int);
                                assert(in_subtree(k, index as int, p));
                                assert(orig.occupied(p));
                                assert(p < j);
                                assert(new_tree.occupied(spec_split_index(k, index as int, p)));
                                assert(spec_parent_index(
                                    k,
                                    spec_split_index(k, index as int, j as int),
                                ) == spec_split_index(k, index as int, p));
                            }
                            lemma_split_index_le(k, index as int, j as int);
                        }
                        self.len = self.len - 1;
                        let d = self.split_index(index, j);
                        proof {
                            if new_tree.occupied(d as int) {
                                let x = choose|x: int|
                                    x < j && orig.occupied(x) && in_subtree(k, index as int, x)
                                        && d as int == spec_split_index(k, index as int, x);
                                lemma_split_index_injective(k, index as int, x, j as int);
                            }
                            assert(!new_tree.occupied(d as int));
                        }
                        let _ = new_tree.set_value(d, value);
                        moved = true;
                    },
                    None => {},
                }
            }
            proof {
                assert forall|x: int|
                    #[trigger] self.occupied(x) == (orig.occupied(x) && !(x < j + 1
                        && in_subtree(k, index as int, x))) by {
                    assert(prev.occupied(x) == (orig.occupied(x) && !(x < j && in_subtree(
                        k,
                        index as int,
                        x,
                    ))));
                    if !(inside && x == j) {
                        assert(self.slots()[x] == prev.slots()[x] || !(0 <= x
                            < self.slots().len()));
                    }
                }
                assert forall|x: int| self.occupied(x) implies #[trigger] self.value_at(x)
                    == orig.value_at(x) by {
                    assert(prev.occupied(x) && prev.value_at(x) == orig.value_at(x));
                }
                assert(prev.occupied(j as int) == (orig.occupied(j as int) && !(j < j
                    && in_subtree(k, index as int, j as int))));
                assert(orig.subtree_count_upto(index as int, j + 1)
                    == orig.subtree_count_upto(index as int, j as int) + if orig.occupied(
                    j as int,
                ) && in_subtree(k, index as int, j as int) {
                    1int
                } else {
                    0int
                });
                if moved {
                    let d = spec_split_index(k, index as int, j as int);
                    assert(prev.occupied(j as int) && prev.value_at(j as int) == orig.value_at(
                        j as int,
                    ));
                    assert(new_tree.occupied(d) && new_tree.value_at(d) == orig.value_at(
                        j as int,
                    ));
                    assert forall|x: int|
                        x < j + 1 && orig.occupied(x) && #[trigger] in_subtree(
                            k,
                            index as int,
                            x,
                        ) implies new_tree.occupied(spec_split_index(k, index as int, x))
                        && new_tree.value_at(spec_split_index(k, index as int, x))
                        == orig.value_at(x) by {
                        if x < j {
                            assert(prev_new.occupied(spec_split_index(k, index as int, x)));
                            assert(prev_new.value_at(spec_split_index(k, index as int, x))
                                == orig.value_at(x));
                            if spec_split_index(k, index as int, x) == d {
                                lemma_split_index_injective(k, index as int, x, j as int);
                            }
                            assert(new_tree.occupied(spec_split_index(k, index as int, x)));
                            assert(new_tree.value_at(spec_split_index(k, index as int, x))
                                == orig.value_at(x));
                        }
                    }
                    assert forall|y: int| #[trigger] new_tree.occupied(y) implies exists|x: int|
                        x < j + 1 && orig.occupied(x) && in_subtree(k, index as int, x) && y
                            == spec_split_index(k, index as int, x) by {
                        if y != d {
                            assert(prev_new.occupied(y));
                        } else {
                            assert(orig.occupied(j as int) && in_subtree(k, index as int, j as int)
                                && d == spec_split_index(k, index as int, j as int));
                        }
                    }
                }
            }
            j = j + 1;
        }
        proof {
            orig.lemma_count_minus_subtree(*self, index as int, slot_count as int);
            assert forall|i: int|
                1 <= i < self.slots().len() && #[trigger] self.occupied(i) implies self.occupied(
                spec_parent_index(k, i),
            ) by {
                lemma_parent_index_bounds(k, i);
                let p = spec_parent_index(k, i);
                assert(orig.occupied(i));
                assert(orig.occupied(p));
                if in_subtree(k, index as int, p) {
                    lemma_subtree_above_root(k, index as int, p);
                    assert(in_subtree(k, index as int, i));
                }
            }
            if orig.occupied(index as int) {
                assert(crate::traversal::split_image(orig, new_tree, index as int));
                crate::traversal::lemma_split_preserves_order(
                    orig,
                    new_tree,
                    DepthFirstOrder::PreOrder,
                    index as int,
                );
                assert(subtree_value_seq(new_tree, DepthFirstOrder::PreOrder, 0)
                    =~= subtree_value_seq(orig, DepthFirstOrder::PreOrder, index as int));
            }
        }
        new_tree
    }

    /// Builds a new tree with the values rebuilt by the selector, one call
    /// per node, keeping every node at its position.
    #[verifier::loop_isolation(false)]
    pub fn map<U, F: Fn(N) -> U>(self, f: F) -> (r: EytzingerTree<U>)
        requires
            self.wf(),
            forall|j: int|
                self.occupied(j) ==> call_requires(f, (#[trigger] self.value_at(j),)),
        ensures
            r.wf(),
            r.branching() == self.branching(),
            r.spec_len() == self.spec_len(),
            forall|j: int| #[trigger] r.occupied(j) == self.occupied(j),
            forall|j: int|
                self.occupied(j) ==> call_ensures(
                    f,
                    (#[trigger] self.value_at(j),),
                    r.value_at(j),
                ),
    {
        let mut source = self;
        let mut nodes: Vec<Option<U>> = Vec::new();
        let slot_count = source.nodes.len();
        let mut i: usize = 0;
        while i < slot_count
            invariant
                source.nodes@.len() == slot_count,
                source.index_calculator == self.index_calculator,
                source.len == self.len,
                i == nodes@.len(),
                i <= slot_count,
                forall|j: int|
                    i <= j < slot_count ==> #[trigger] source.nodes@[j] == self.slots()[j],
                forall|j: int|
                    0 <= j < i ==> (#[trigger] nodes@[j] is Some) == self.slots()[j] is Some,
                forall|j: int|
                    0 <= j < i && self.occupied(j) ==> call_ensures(
                        f,
                        (#[trigger] self.value_at(j),),
                        nodes@[j]->0,
                    ),
            decreases slot_count - i,
        {
            proof {
                assert(source.nodes@[i as int] == self.slots()[i as int]);
            }
            let slot = &mut source.nodes[i];
            match slot.take() {
                Some(value) => {
                    proof {
                        assert(self.occupied(i as int));
                        assert(value == self.value_at(i as int));
                    }
                    nodes.push(Some(f(value)));
                },
                None => {
                    nodes.push(None);
                },
            }
            i = i + 1;
        }
        let r = EytzingerTree::<U> {
            nodes,
            index_calculator: source.index_calculator,
            len: source.len,
        };
        proof {
            assert(r.branching() == self.branching());
            assert forall|j: int| #[trigger] r.occupied(j) == self.occupied(j) by {}
            lemma_count_agree_across(self, r, slot_count as int);
            assert forall|i2: int|
                1 <= i2 < r.slots().len() && #[trigger] r.occupied(i2) implies r.occupied(
                spec_parent_index(r.branching(), i2),
            ) by {
                assert(self.occupied(i2));
                assert(self.occupied(spec_parent_index(self.branching(), i2)));
                assert(r.occupied(spec_parent_index(self.branching(), i2)) == self.occupied(
                    spec_parent_index(self.branching(), i2),
                ));
            }
        }
        r
    }

    /// Clears the tree, removing all nodes.
    pub fn clear(&mut self)
        requires
            old(self).wf(),
        ensures
            final(self).wf(),
            final(self).branching() == old(self).branching(),
            final(self).spec_len() == 0,
            forall|j: int| !final(self).occupied(j),
    {
        let _ = self.remove_root_value();
    }
}

/// Trees with the same occupancy pattern below `n` count their nodes alike,
/// whatever types their values have.
proof fn lemma_count_agree_across<A, B>(a: EytzingerTree<A>, b: EytzingerTree<B>, n: int)
    requires
        forall|j: int| 0 <= j < n ==> a.occupied(j) == b.occupied(j),
    ensures
        a.count_upto(n) == b.count_upto(n),
    decreases n,
{
    if n > 0 {
        lemma_count_agree_across(a, b, n - 1);
    }
}

impl<N: PartialEq> PartialEq for EytzingerTree<N> {
    /// Two trees are equal when they have one branching factor and hold equal
    /// values at exactly the same positions; spare empty slots play no part.
    fn eq(&self, other: &Self) -> bool {
        if self.index_calculator.max_children_per_node()
            != other.index_calculator.max_children_per_node() {
            return false;
        }
        if self.len != other.len {
            return false;
        }
        let n1 = self.nodes.len();
        let n2 = other.nodes.len();
        let longer = if n1 > n2 {
            n1
        } else {
            n2
        };
        let mut i: usize = 0;
        while i < longer
            invariant
                n1 == self.nodes@.len(),
                n2 == other.nodes@.len(),
                i <= longer,
            decreases longer - i,
        {
            let here = if i < n1 {
                self.nodes[i].is_some()
            } else {
                false
            };
            let there = if i < n2 {
                other.nodes[i].is_some()
            } else {
                false
            };
            if here != there {
                return false;
            }
            if here {
                if !(self.nodes[i].as_ref().unwrap() == other.nodes[i].as_ref().unwrap()) {
                    return false;
                }
            }
            i = i + 1;
        }
        true
    }
}

impl<N: PartialEq> vstd::std_specs::cmp::PartialEqSpecImpl for EytzingerTree<N> {
    open spec fn obeys_eq_spec() -> bool {
        false
    }

    open spec fn eq_spec(&self, other: &Self) -> bool {
        true
    }
}

} // verus!

