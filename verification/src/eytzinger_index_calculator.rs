use vstd::prelude::*;

verus! {

/// The index of the child of `parent` at child slot `offset`, for branching
/// factor `k`: children of a node are packed right after the block of the
/// node's siblings, so the mapping is `parent * k + offset + 1`.
pub open spec fn spec_child_index(k: nat, parent: int, offset: int) -> int {
    parent * k + offset + 1
}

/// The index of the parent of `child`, for branching factor `k`.  Meaningful
/// for `child >= 1`; the root at index 0 has no parent.
pub open spec fn spec_parent_index(k: nat, child: int) -> int {
    (child - 1) / (k as int)
}

/// The child slot that `child` fills under its parent, for branching factor `k`.
pub open spec fn spec_child_offset(k: nat, child: int) -> int {
    child - 1 - spec_parent_index(k, child) * k
}

/// Whether `i` lies in the subtree rooted at `r`: either `i` is `r` itself, or
/// the chain of parent indexes starting at `i` passes through `r`.
pub open spec fn in_subtree(k: nat, r: int, i: int) -> bool
    decreases i,
{
    if i == r {
        true
    } else if k < 1 || i <= r || i <= 0 {
        false
    } else {
        in_subtree(k, r, spec_parent_index(k, i))
    }
}

/// Parent indexes come strictly before their children, so a subtree never
/// reaches below its root.
pub proof fn lemma_subtree_above_root(k: nat, r: int, i: int)
    ensures
        in_subtree(k, r, i) ==> i >= r,
    decreases i,
{
    if i != r && !(k < 1 || i <= r || i <= 0) {
        lemma_subtree_above_root(k, r, spec_parent_index(k, i));
    }
}

/// The parent of a valid child index is nonnegative and strictly smaller.
pub proof fn lemma_parent_index_bounds(k: nat, child: int)
    requires
        k >= 1,
        child >= 1,
    ensures
        0 <= spec_parent_index(k, child) < child,
{
    assert(0 <= (child - 1) / (k as int) <= child - 1) by (nonlinear_arith)
        requires k >= 1 && child >= 1;
}

/// The two index mappings are exact inverses: mapping a parent to any of its
/// child slots and back recovers the parent, and the offset is recovered too.
/// Distinct offsets under one parent land on distinct child indexes, since
/// `spec_child_index` is strictly increasing in the offset.
pub proof fn lemma_index_bijection(k: nat, parent: int, offset: int)
    requires
        k >= 1,
        parent >= 0,
        0 <= offset < k,
    ensures
        spec_child_index(k, parent, offset) >= 1,
        spec_parent_index(k, spec_child_index(k, parent, offset)) == parent,
        spec_child_offset(k, spec_child_index(k, parent, offset)) == offset,
{
    let c = spec_child_index(k, parent, offset);
    assert(c == parent * k + offset + 1);
    assert(c >= 1 && (c - 1) / (k as int) == parent) by (nonlinear_arith)
        requires k >= 1 && parent >= 0 && 0 <= offset < k && c == parent * k + offset + 1;
}

/// Every index at least one is the child index of its own parent at its own
/// child slot: the decomposition into parent and offset loses nothing.
pub proof fn lemma_child_offset_recovers(k: nat, x: int)
    requires
        k >= 1,
        x >= 1,
    ensures
        0 <= spec_child_offset(k, x) < k,
        spec_child_index(k, spec_parent_index(k, x), spec_child_offset(k, x)) == x,
{
    vstd::arithmetic::div_mod::lemma_fundamental_div_mod(x - 1, k as int);
    vstd::arithmetic::div_mod::lemma_mod_bound(x - 1, k as int);
    vstd::arithmetic::mul::lemma_mul_is_commutative(k as int, spec_parent_index(k, x));
}

/// Sibling subtrees never meet: no index lies in the subtrees of two distinct
/// children of one parent.
pub proof fn lemma_sibling_subtrees_disjoint(k: nat, c1: int, c2: int, x: int)
    requires
        k >= 1,
        c1 >= 1,
        c2 >= 1,
        c1 != c2,
        spec_parent_index(k, c1) == spec_parent_index(k, c2),
    ensures
        !(in_subtree(k, c1, x) && in_subtree(k, c2, x)),
    decreases x,
{
    lemma_parent_index_bounds(k, c1);
    lemma_parent_index_bounds(k, c2);
    if in_subtree(k, c1, x) && in_subtree(k, c2, x) {
        if x == c1 {
            lemma_subtree_above_root(k, c2, x);
            lemma_subtree_step(k, c2, c1);
            lemma_subtree_above_root(k, c2, spec_parent_index(k, c1));
        } else if x == c2 {
            lemma_subtree_above_root(k, c1, x);
            lemma_subtree_step(k, c1, c2);
            lemma_subtree_above_root(k, c1, spec_parent_index(k, c2));
        } else {
            lemma_subtree_above_root(k, c1, x);
            lemma_sibling_subtrees_disjoint(k, c1, c2, spec_parent_index(k, x));
        }
    }
}

/// Lying in a subtree is transitive: a subtree of a subtree is a subtree.
pub proof fn lemma_subtree_transitive(k: nat, a: int, b: int, x: int)
    requires
        k >= 1,
        a >= 0,
        in_subtree(k, a, b),
        in_subtree(k, b, x),
    ensures
        in_subtree(k, a, x),
    decreases x,
{
    lemma_subtree_above_root(k, a, b);
    if x != b {
        lemma_subtree_above_root(k, b, x);
        lemma_subtree_transitive(k, a, b, spec_parent_index(k, x));
    }
}

/// An index strictly inside a subtree lies under one of the subtree root's
/// children.
pub proof fn lemma_in_subtree_through_child(k: nat, r: int, x: int)
    requires
        k >= 1,
        r >= 0,
        x != r,
        in_subtree(k, r, x),
    ensures
        exists|o: int|
            0 <= o < k && #[trigger] in_subtree(k, spec_child_index(k, r, o), x),
    decreases x,
{
    lemma_subtree_above_root(k, r, x);
    let p = spec_parent_index(k, x);
    lemma_parent_index_bounds(k, x);
    if p == r {
        lemma_child_offset_recovers(k, x);
        let o = spec_child_offset(k, x);
        assert(in_subtree(k, spec_child_index(k, r, o), x));
    } else {
        lemma_in_subtree_through_child(k, r, p);
        let o = choose|o: int|
            0 <= o < k && #[trigger] in_subtree(k, spec_child_index(k, r, o), p);
        let c = spec_child_index(k, r, o);
        lemma_index_bijection(k, r, o);
        lemma_subtree_above_root(k, c, p);
        assert(in_subtree(k, c, x));
    }
}

/// A node in a subtree, other than the subtree's root, has its parent in the
/// same subtree.
pub proof fn lemma_subtree_step(k: nat, r: int, i: int)
    requires
        k >= 1,
        r >= 0,
        i > r,
        in_subtree(k, r, i),
    ensures
        in_subtree(k, r, spec_parent_index(k, i)),
{
}

/// Where a position of the subtree rooted at `root` lands when the subtree is
/// renumbered as a tree of its own: the subtree's root lands on position 0,
/// and every other position keeps its child slot under its renumbered parent.
pub open spec fn spec_split_index(k: nat, root: int, j: int) -> int
    decreases j,
{
    if j == root || k < 1 || j <= root || j <= 0 {
        0
    } else {
        spec_child_index(
            k,
            spec_split_index(k, root, spec_parent_index(k, j)),
            spec_child_offset(k, j),
        )
    }
}

/// Renumbering moves no position further out: the new position never exceeds
/// the old one.
pub proof fn lemma_split_index_le(k: nat, root: int, j: int)
    requires
        k >= 1,
        root >= 0,
        in_subtree(k, root, j),
    ensures
        0 <= spec_split_index(k, root, j) <= j,
    decreases j,
{
    if j != root {
        lemma_subtree_above_root(k, root, j);
        let p = spec_parent_index(k, j);
        lemma_parent_index_bounds(k, j);
        lemma_split_index_le(k, root, p);
        lemma_child_offset_recovers(k, j);
        assert(spec_split_index(k, root, p) * k <= p * k) by (nonlinear_arith)
            requires
                k >= 1 && 0 <= spec_split_index(k, root, p) <= p,
        ;
    }
}

/// Renumbering keeps the tree shape: away from the subtree's root, the
/// renumbered parent is the parent of the renumbered position, at the same
/// child slot.
pub proof fn lemma_split_index_step(k: nat, root: int, j: int)
    requires
        k >= 1,
        root >= 0,
        j != root,
        in_subtree(k, root, j),
    ensures
        spec_split_index(k, root, j) >= 1,
        spec_parent_index(k, spec_split_index(k, root, j)) == spec_split_index(
            k,
            root,
            spec_parent_index(k, j),
        ),
        spec_child_offset(k, spec_split_index(k, root, j)) == spec_child_offset(k, j),
    decreases j,
{
    lemma_subtree_above_root(k, root, j);
    let p = spec_parent_index(k, j);
    lemma_parent_index_bounds(k, j);
    lemma_child_offset_recovers(k, j);
    lemma_split_index_le(k, root, p);
    lemma_index_bijection(k, spec_split_index(k, root, p), spec_child_offset(k, j));
}

/// Renumbering the child of a subtree position at a given child slot gives
/// the child of the renumbered position at that same slot.
pub proof fn lemma_split_index_child(k: nat, root: int, j: int, o: int)
    requires
        k >= 1,
        root >= 0,
        in_subtree(k, root, j),
        0 <= o < k,
    ensures
        in_subtree(k, root, spec_child_index(k, j, o)),
        spec_split_index(k, root, spec_child_index(k, j, o)) == spec_child_index(
            k,
            spec_split_index(k, root, j),
            o,
        ),
{
    lemma_subtree_above_root(k, root, j);
    let c = spec_child_index(k, j, o);
    lemma_index_bijection(k, j, o);
    assert(c > j) by (nonlinear_arith)
        requires
            k >= 1 && j >= 0 && o >= 0 && c == j * k + o + 1,
    ;
    assert(in_subtree(k, root, c));
}

/// Renumbering tells subtree positions apart: two distinct positions of the
/// subtree never land on one new position.
pub proof fn lemma_split_index_injective(k: nat, root: int, a: int, b: int)
    requires
        k >= 1,
        root >= 0,
        in_subtree(k, root, a),
        in_subtree(k, root, b),
        spec_split_index(k, root, a) == spec_split_index(k, root, b),
    ensures
        a == b,
    decreases a + b,
{
    lemma_subtree_above_root(k, root, a);
    lemma_subtree_above_root(k, root, b);
    if a == root && b == root {
    } else if a == root {
        lemma_split_index_step(k, root, b);
    } else if b == root {
        lemma_split_index_step(k, root, a);
    } else {
        lemma_split_index_step(k, root, a);
        lemma_split_index_step(k, root, b);
        lemma_parent_index_bounds(k, a);
        lemma_parent_index_bounds(k, b);
        lemma_split_index_injective(
            k,
            root,
            spec_parent_index(k, a),
            spec_parent_index(k, b),
        );
        lemma_child_offset_recovers(k, a);
        lemma_child_offset_recovers(k, b);
    }
}

/// Maps between parent positions and child positions for a fixed branching
/// factor.  Stateless but for the branching factor itself.
#[derive(Debug, Clone, Copy, Eq, PartialEq, Hash, Structural)]
pub struct EytzingerIndexCalculator {
    max_children_per_node: usize,
}

impl EytzingerIndexCalculator {
    /// The branching factor this calculator was built with.
    pub closed spec fn spec_k(self) -> nat {
        self.max_children_per_node as nat
    }

    pub fn new(max_children_per_node: usize) -> (r: Self)
        requires
            max_children_per_node >= 1,
        ensures
            r.spec_k() == max_children_per_node,
    {
        Self { max_children_per_node }
    }

    pub fn max_children_per_node(&self) -> (r: usize)
        ensures
            r == self.spec_k(),
    {
        self.max_children_per_node
    }

    pub fn child_index(&self, parent_index: usize, child_offset: usize) -> (r: usize)
        requires
            self.spec_k() >= 1,
            child_offset < self.spec_k(),
            spec_child_index(self.spec_k(), parent_index as int, child_offset as int)
                <= usize::MAX,
        ensures
            r == spec_child_index(self.spec_k(), parent_index as int, child_offset as int),
    {
        (parent_index * self.max_children_per_node) + child_offset + 1
    }

    pub fn parent_index(&self, child_index: usize) -> (r: Option<usize>)
        requires
            self.spec_k() >= 1,
        ensures
            child_index == 0 ==> r is None,
            child_index >= 1 ==> r == Some(
                (spec_parent_index(self.spec_k(), child_index as int)) as usize,
            ),
    {
        if child_index == 0 {
            None
        } else {
            proof {
                lemma_parent_index_bounds(self.spec_k(), child_index as int);
            }
            Some((child_index - 1) / self.max_children_per_node)
        }
    }

    /// The half-open range of indexes where the children of `parent_index` live.
    pub fn child_indexes(&self, parent_index: usize) -> (r: core::ops::Range<usize>)
        requires
            self.spec_k() >= 1,
            spec_child_index(self.spec_k(), parent_index as int, 0) + self.spec_k()
                <= usize::MAX,
        ensures
            r.start == spec_child_index(self.spec_k(), parent_index as int, 0),
            r.end == r.start + self.spec_k(),
    {
        let first_child_index = self.child_index(parent_index, 0);
        first_child_index..(first_child_index + self.max_children_per_node)
    }
}

} // verus!
