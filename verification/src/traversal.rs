use vstd::prelude::*;
use vstd::seq_lib::lemma_no_dup_in_concat;

use crate::depth_first_order::DepthFirstOrder;
use crate::eytzinger_index_calculator::{
    in_subtree, lemma_in_subtree_through_child, lemma_index_bijection,
    lemma_parent_index_bounds, lemma_sibling_subtrees_disjoint, lemma_split_index_child,
    lemma_split_index_injective, lemma_split_index_le, lemma_subtree_above_root,
    lemma_subtree_transitive, spec_child_index, spec_parent_index, spec_split_index,
};
use crate::EytzingerTree;

verus! {

/// A child position comes strictly after its parent position.
pub proof fn lemma_child_above(k: nat, i: int, o: int)
    requires
        k >= 1,
        i >= 0,
        o >= 0,
    ensures
        spec_child_index(k, i, o) > i,
{
    assert(i * k >= i) by (nonlinear_arith)
        requires
            k >= 1 && i >= 0,
    ;
}

/// The positions of the subtree rooted at `i`, in depth-first order: the root
/// before its children's subtrees for pre-order, after them for post-order,
/// the children's subtrees in increasing child slot order either way.  Empty
/// when `i` holds no node.
pub open spec fn subtree_seq<N>(t: EytzingerTree<N>, order: DepthFirstOrder, i: int) -> Seq<int>
    decreases t.slots().len() - i, t.branching() + 1,
{
    if !t.occupied(i) {
        Seq::empty()
    } else if order is PreOrder {
        seq![i] + children_seq(t, order, i, 0)
    } else {
        children_seq(t, order, i, 0) + seq![i]
    }
}

/// The positions of the subtrees of the children of `i` at child slots `o`
/// and beyond, each subtree in depth-first order, in increasing slot order.
pub open spec fn children_seq<N>(
    t: EytzingerTree<N>,
    order: DepthFirstOrder,
    i: int,
    o: int,
) -> Seq<int>
    decreases t.slots().len() - i, t.branching() - o,
{
    if i < 0 || o < 0 || o >= t.branching() {
        Seq::empty()
    } else {
        let c = spec_child_index(t.branching(), i, o);
        (if t.occupied(c) {
            proof {
                lemma_child_above(t.branching(), i, o);
            }
            subtree_seq(t, order, c)
        } else {
            Seq::empty()
        }) + children_seq(t, order, i, o + 1)
    }
}

/// The positions of the subtree rooted at `root` that lie below `n`, in
/// increasing position order.  Since all positions of one tree level come
/// before all positions of the next level, increasing position order is
/// breadth-first order.
pub open spec fn breadth_first_upto<N>(t: EytzingerTree<N>, root: int, n: int) -> Seq<int>
    decreases n,
{
    if n <= 0 {
        Seq::empty()
    } else if t.occupied(n - 1) && in_subtree(t.branching(), root, n - 1) {
        breadth_first_upto(t, root, n - 1) + seq![n - 1]
    } else {
        breadth_first_upto(t, root, n - 1)
    }
}

/// The positions of the subtree rooted at `root`, in breadth-first order.
pub open spec fn breadth_first_seq<N>(t: EytzingerTree<N>, root: int) -> Seq<int> {
    breadth_first_upto(t, root, t.slots().len() as int)
}

/// Skipping over child slots with no node leaves the children's positions
/// unchanged.
pub proof fn lemma_children_seq_skip<N>(
    t: EytzingerTree<N>,
    order: DepthFirstOrder,
    i: int,
    o1: int,
    o2: int,
)
    requires
        i >= 0,
        0 <= o1 <= o2,
        forall|o: int|
            o1 <= o < o2 ==> !t.occupied(#[trigger] spec_child_index(t.branching(), i, o)),
    ensures
        children_seq(t, order, i, o1) == children_seq(t, order, i, o2),
    decreases o2 - o1,
{
    if o1 < o2 {
        if o1 < t.branching() {
            assert(children_seq(t, order, i, o1) =~= children_seq(t, order, i, o1 + 1));
        }
        lemma_children_seq_skip(t, order, i, o1 + 1, o2);
    }
}

/// Every position the depth-first order of a subtree lists holds a node and
/// lies in the subtree.
pub proof fn lemma_subtree_seq_elems<N>(t: EytzingerTree<N>, order: DepthFirstOrder, i: int)
    requires
        t.branching() >= 1,
        i >= 0,
    ensures
        forall|x: int|
            #[trigger] subtree_seq(t, order, i).contains(x) ==> t.occupied(x) && in_subtree(
                t.branching(),
                i,
                x,
            ),
    decreases t.slots().len() - i, t.branching() + 1,
{
    if t.occupied(i) {
        lemma_children_seq_elems(t, order, i, 0);
        assert forall|x: int| #[trigger] subtree_seq(t, order, i).contains(x) implies t.occupied(
            x,
        ) && in_subtree(t.branching(), i, x) by {
            if x != i {
                let s = subtree_seq(t, order, i);
                let cs = children_seq(t, order, i, 0);
                let idx = choose|idx: int| 0 <= idx < s.len() && s[idx] == x;
                if order is PreOrder {
                    assert(cs[idx - 1] == x);
                } else {
                    assert(cs[idx] == x);
                }
                assert(children_seq(t, order, i, 0).contains(x));
                let o = choose|o: int|
                    0 <= o < t.branching() && #[trigger] in_subtree(
                        t.branching(),
                        spec_child_index(t.branching(), i, o),
                        x,
                    );
                let c = spec_child_index(t.branching(), i, o);
                lemma_index_bijection(t.branching(), i, o);
                lemma_child_above(t.branching(), i, o);
                assert(in_subtree(t.branching(), i, i));
                assert(in_subtree(t.branching(), i, c));
                lemma_subtree_transitive(t.branching(), i, c, x);
            }
        }
    }
}

/// Every position the children's depth-first order lists holds a node and
/// lies in the subtree of a child at slot `o` or beyond.
pub proof fn lemma_children_seq_elems<N>(
    t: EytzingerTree<N>,
    order: DepthFirstOrder,
    i: int,
    o: int,
)
    requires
        t.branching() >= 1,
        i >= 0,
    ensures
        forall|x: int|
            #[trigger] children_seq(t, order, i, o).contains(x) ==> t.occupied(x) && exists|
                oo: int,
            |
                o <= oo < t.branching() && in_subtree(
                    t.branching(),
                    #[trigger] spec_child_index(t.branching(), i, oo),
                    x,
                ),
    decreases t.slots().len() - i, t.branching() - o,
{
    if 0 <= o < t.branching() {
        let c = spec_child_index(t.branching(), i, o);
        lemma_child_above(t.branching(), i, o);
        if t.occupied(c) {
            lemma_subtree_seq_elems(t, order, c);
        }
        lemma_children_seq_elems(t, order, i, o + 1);
        assert forall|x: int| #[trigger] children_seq(t, order, i, o).contains(x) implies t
            .occupied(x) && exists|oo: int|
            o <= oo < t.branching() && in_subtree(
                t.branching(),
                #[trigger] spec_child_index(t.branching(), i, oo),
                x,
            ) by {
            if t.occupied(c) && subtree_seq(t, order, c).contains(x) {
                assert(in_subtree(t.branching(), spec_child_index(t.branching(), i, o), x));
            } else {
                assert(children_seq(t, order, i, o + 1).contains(x));
            }
        }
    }
}

/// Every node of a subtree appears in the subtree's depth-first order.
pub proof fn lemma_subtree_seq_complete<N>(t: EytzingerTree<N>, order: DepthFirstOrder, i: int)
    requires
        t.wf(),
        i >= 0,
    ensures
        forall|x: int|
            t.occupied(x) && #[trigger] in_subtree(t.branching(), i, x) ==> subtree_seq(
                t,
                order,
                i,
            ).contains(x),
    decreases t.slots().len() - i, t.branching() + 1,
{
    let k = t.branching();
    let s = subtree_seq(t, order, i);
    assert forall|x: int|
        t.occupied(x) && #[trigger] in_subtree(k, i, x) implies s.contains(x) by {
        t.lemma_occupied_subtree_root_occupied(i, x);
        if x == i {
            if order is PreOrder {
                assert(s[0] == i);
            } else {
                assert(s[s.len() - 1] == i);
            }
        } else {
            lemma_in_subtree_through_child(k, i, x);
            lemma_children_seq_complete(t, order, i, 0);
            let cs = children_seq(t, order, i, 0);
            assert(cs.contains(x));
            let idx = choose|idx: int| 0 <= idx < cs.len() && cs[idx] == x;
            if order is PreOrder {
                assert(s[idx + 1] == x);
            } else {
                assert(s[idx] == x);
            }
        }
    }
}

/// Every node under a child at slot `o` or beyond appears in the children's
/// depth-first order.
pub proof fn lemma_children_seq_complete<N>(
    t: EytzingerTree<N>,
    order: DepthFirstOrder,
    i: int,
    o: int,
)
    requires
        t.wf(),
        i >= 0,
        o >= 0,
    ensures
        forall|x: int, oo: int|
            t.occupied(x) && o <= oo < t.branching() && #[trigger] in_subtree(
                t.branching(),
                spec_child_index(t.branching(), i, oo),
                x,
            ) ==> children_seq(t, order, i, o).contains(x),
    decreases t.slots().len() - i, t.branching() - o,
{
    let k = t.branching();
    if 0 <= o < k {
        let c = spec_child_index(k, i, o);
        lemma_child_above(k, i, o);
        lemma_children_seq_complete(t, order, i, o + 1);
        let cs = children_seq(t, order, i, o);
        let left = if t.occupied(c) {
            subtree_seq(t, order, c)
        } else {
            Seq::<int>::empty()
        };
        let right = children_seq(t, order, i, o + 1);
        assert forall|x: int, oo: int|
            t.occupied(x) && o <= oo < k && #[trigger] in_subtree(
                k,
                spec_child_index(k, i, oo),
                x,
            ) implies cs.contains(x) by {
            if oo == o {
                t.lemma_occupied_subtree_root_occupied(c, x);
                lemma_subtree_seq_complete(t, order, c);
                assert(left.contains(x));
                let idx = choose|idx: int| 0 <= idx < left.len() && left[idx] == x;
                assert(cs[idx] == x);
            } else {
                assert(right.contains(x));
                let idx = choose|idx: int| 0 <= idx < right.len() && right[idx] == x;
                assert(cs[left.len() + idx] == x);
            }
        }
    }
}

/// The breadth-first order of a subtree up to `n` lists exactly the subtree's
/// nodes below `n`, each once, so its length is the subtree's node count
/// below `n`.
pub proof fn lemma_breadth_first_upto_props<N>(t: EytzingerTree<N>, root: int, n: int)
    ensures
        breadth_first_upto(t, root, n).len() == t.subtree_count_upto(root, n),
        breadth_first_upto(t, root, n).no_duplicates(),
        forall|x: int|
            #[trigger] breadth_first_upto(t, root, n).contains(x) <==> (0 <= x < n
                && t.occupied(x) && in_subtree(t.branching(), root, x)),
    decreases n,
{
    if n > 0 {
        lemma_breadth_first_upto_props(t, root, n - 1);
        let prev = breadth_first_upto(t, root, n - 1);
        let cur = breadth_first_upto(t, root, n);
        if t.occupied(n - 1) && in_subtree(t.branching(), root, n - 1) {
            assert forall|x: int|
                #[trigger] cur.contains(x) implies (0 <= x < n && t.occupied(x) && in_subtree(
                t.branching(),
                root,
                x,
            )) by {
                let idx = choose|idx: int| 0 <= idx < cur.len() && cur[idx] == x;
                if idx < prev.len() {
                    assert(prev.contains(x));
                }
            }
            assert forall|x: int|
                (0 <= x < n && t.occupied(x) && in_subtree(t.branching(), root, x)) implies
                #[trigger] cur.contains(x) by {
                if x < n - 1 {
                    assert(prev.contains(x));
                    let idx = choose|idx: int| 0 <= idx < prev.len() && prev[idx] == x;
                    assert(cur[idx] == x);
                } else {
                    assert(cur[cur.len() - 1] == x);
                }
            }
            assert forall|a: int| 0 <= a < prev.len() implies #[trigger] prev[a] != n - 1 by {
                assert(prev.contains(prev[a]));
            }
            lemma_no_dup_in_concat(prev, seq![n - 1]);
        } else {
            assert(cur =~= prev);
        }
    }
}

/// Every position lies in the subtree of the root position.
pub proof fn lemma_in_subtree_of_root(k: nat, j: int)
    requires
        k >= 1,
        j >= 0,
    ensures
        in_subtree(k, 0, j),
    decreases j,
{
    if j > 0 {
        lemma_parent_index_bounds(k, j);
        lemma_in_subtree_of_root(k, spec_parent_index(k, j));
    }
}

/// The whole tree is the subtree of the root position: counting the root's
/// subtree counts every node.
pub proof fn lemma_count_is_root_subtree_count<N>(t: EytzingerTree<N>, n: int)
    requires
        t.branching() >= 1,
    ensures
        t.subtree_count_upto(0, n) == t.count_upto(n),
    decreases n,
{
    if n > 0 {
        lemma_count_is_root_subtree_count(t, n - 1);
        if t.occupied(n - 1) {
            lemma_in_subtree_of_root(t.branching(), n - 1);
        }
    }
}

/// A depth-first order of a subtree lists exactly as many positions as the
/// subtree holds nodes: no node is missed and none is listed twice.
pub proof fn lemma_subtree_seq_len<N>(t: EytzingerTree<N>, order: DepthFirstOrder, i: int)
    requires
        t.wf(),
        i >= 0,
    ensures
        subtree_seq(t, order, i).len() == t.subtree_count(i),
{
    let s = subtree_seq(t, order, i);
    let b = breadth_first_seq(t, i);
    lemma_subtree_seq_elems(t, order, i);
    lemma_subtree_seq_complete(t, order, i);
    lemma_subtree_seq_no_duplicates(t, order, i);
    lemma_breadth_first_upto_props(t, i, t.slots().len() as int);
    assert forall|x: int| #[trigger] s.contains(x) implies b.contains(x) by {
        assert(t.occupied(x) && in_subtree(t.branching(), i, x));
    }
    assert forall|x: int| #[trigger] b.contains(x) implies s.contains(x) by {
        assert(t.occupied(x) && in_subtree(t.branching(), i, x));
    }
    assert(s.to_set() =~= b.to_set());
    s.unique_seq_to_set();
    b.unique_seq_to_set();
}

/// The values of the subtree rooted at `i`, in depth-first order.
pub open spec fn subtree_value_seq<N>(
    t: EytzingerTree<N>,
    order: DepthFirstOrder,
    i: int,
) -> Seq<N> {
    subtree_seq(t, order, i).map_values(|x: int| t.value_at(x))
}

/// The values of the subtree rooted at `root`, in breadth-first order.
pub open spec fn breadth_first_value_seq<N>(t: EytzingerTree<N>, root: int) -> Seq<N> {
    breadth_first_seq(t, root).map_values(|x: int| t.value_at(x))
}

/// Every traversal of a whole tree lists exactly as many positions as the
/// tree holds nodes, so an iterator that follows it yields each node exactly
/// once before it runs out.
pub proof fn lemma_traversal_is_exhaustive<N>(t: EytzingerTree<N>, order: DepthFirstOrder)
    requires
        t.wf(),
    ensures
        subtree_seq(t, order, 0).len() == t.spec_len(),
        breadth_first_seq(t, 0).len() == t.spec_len(),
{
    lemma_subtree_seq_len(t, order, 0);
    lemma_count_is_root_subtree_count(t, t.slots().len() as int);
    lemma_breadth_first_upto_props(t, 0, t.slots().len() as int);
}

/// The hypotheses under which `dst` holds exactly the subtree of `src` rooted
/// at `root`, renumbered by `spec_split_index`: every node of the subtree
/// reappears at its renumbered position with its value, and nothing else is
/// occupied in `dst`.
pub open spec fn split_image<N>(src: EytzingerTree<N>, dst: EytzingerTree<N>, root: int) -> bool {
    &&& src.wf()
    &&& dst.wf()
    &&& src.branching() == dst.branching()
    &&& root >= 0
    &&& forall|x: int|
        src.occupied(x) && #[trigger] in_subtree(src.branching(), root, x) ==> dst.occupied(
            spec_split_index(src.branching(), root, x),
        ) && dst.value_at(spec_split_index(src.branching(), root, x)) == src.value_at(x)
    &&& forall|y: int|
        #[trigger] dst.occupied(y) ==> exists|x: int|
            src.occupied(x) && in_subtree(src.branching(), root, x) && y == spec_split_index(
                src.branching(),
                root,
                x,
            )
}

/// Splitting a subtree off into its own tree keeps the depth-first order of
/// values: the new tree reads, in pre-order, exactly as the subtree read in
/// the old tree (and likewise for post-order).
pub proof fn lemma_split_subtree_value_seq<N>(
    src: EytzingerTree<N>,
    dst: EytzingerTree<N>,
    order: DepthFirstOrder,
    root: int,
    j: int,
)
    requires
        split_image(src, dst, root),
        src.occupied(j),
        in_subtree(src.branching(), root, j),
    ensures
        subtree_value_seq(dst, order, spec_split_index(src.branching(), root, j))
            == subtree_value_seq(src, order, j),
    decreases src.slots().len() - j, src.branching() + 1,
{
    let k = src.branching();
    let dj = spec_split_index(k, root, j);
    lemma_subtree_above_root(k, root, j);
    lemma_split_children_value_seq(src, dst, order, root, j, 0);
    assert(dst.occupied(dj) && dst.value_at(dj) == src.value_at(j));
    let sl = subtree_seq(dst, order, dj).map_values(|x: int| dst.value_at(x));
    let sr = subtree_seq(src, order, j).map_values(|x: int| src.value_at(x));
    let cl = children_seq(dst, order, dj, 0).map_values(|x: int| dst.value_at(x));
    let cr = children_seq(src, order, j, 0).map_values(|x: int| src.value_at(x));
    if order is PreOrder {
        assert(sl =~= seq![dst.value_at(dj)] + cl);
        assert(sr =~= seq![src.value_at(j)] + cr);
    } else {
        assert(sl =~= cl + seq![dst.value_at(dj)]);
        assert(sr =~= cr + seq![src.value_at(j)]);
    }
    assert(sl =~= sr);
}

/// Splitting a subtree off keeps the depth-first order of the values under
/// each node's children, child slots `o` and beyond.
pub proof fn lemma_split_children_value_seq<N>(
    src: EytzingerTree<N>,
    dst: EytzingerTree<N>,
    order: DepthFirstOrder,
    root: int,
    j: int,
    o: int,
)
    requires
        split_image(src, dst, root),
        src.occupied(j),
        in_subtree(src.branching(), root, j),
    ensures
        children_seq(dst, order, spec_split_index(src.branching(), root, j), o).map_values(
            |x: int| dst.value_at(x),
        ) == children_seq(src, order, j, o).map_values(|x: int| src.value_at(x)),
    decreases src.slots().len() - j, src.branching() - o,
{
    let k = src.branching();
    let dj = spec_split_index(k, root, j);
    lemma_subtree_above_root(k, root, j);
    lemma_split_index_le(k, root, j);
    let cl = children_seq(dst, order, dj, o).map_values(|x: int| dst.value_at(x));
    let cr = children_seq(src, order, j, o).map_values(|x: int| src.value_at(x));
    if o < 0 || o >= k {
        assert(cl =~= Seq::<N>::empty());
        assert(cr =~= Seq::<N>::empty());
    } else {
        let c = spec_child_index(k, j, o);
        let dc = spec_child_index(k, dj, o);
        lemma_split_index_child(k, root, j, o);
        lemma_child_above(k, j, o);
        lemma_child_above(k, dj, o);
        assert(dc == spec_split_index(k, root, c));
        if dst.occupied(dc) && !src.occupied(c) {
            let x = choose|x: int|
                src.occupied(x) && in_subtree(k, root, x) && dc == spec_split_index(k, root, x);
            lemma_split_index_injective(k, root, c, x);
        }
        assert(src.occupied(c) <==> dst.occupied(dc));
        lemma_split_children_value_seq(src, dst, order, root, j, o + 1);
        if src.occupied(c) {
            lemma_split_subtree_value_seq(src, dst, order, root, c);
            assert(cl =~= subtree_seq(dst, order, dc).map_values(|x: int| dst.value_at(x))
                + children_seq(dst, order, dj, o + 1).map_values(|x: int| dst.value_at(x)));
            assert(cr =~= subtree_seq(src, order, c).map_values(|x: int| src.value_at(x))
                + children_seq(src, order, j, o + 1).map_values(|x: int| src.value_at(x)));
        } else {
            assert(cl =~= children_seq(dst, order, dj, o + 1).map_values(
                |x: int| dst.value_at(x),
            ));
            assert(cr =~= children_seq(src, order, j, o + 1).map_values(
                |x: int| src.value_at(x),
            ));
        }
        assert(cl =~= cr);
    }
}

/// A tree holding the renumbered image of a subtree reads, in either
/// depth-first order, exactly as that subtree read in the tree it came from.
pub proof fn lemma_split_preserves_order<N>(
    src: EytzingerTree<N>,
    dst: EytzingerTree<N>,
    order: DepthFirstOrder,
    root: int,
)
    requires
        split_image(src, dst, root),
        src.occupied(root),
    ensures
        subtree_value_seq(dst, order, 0) == subtree_value_seq(src, order, root),
{
    assert(spec_split_index(src.branching(), root, root) == 0);
    assert(in_subtree(src.branching(), root, root));
    lemma_split_subtree_value_seq(src, dst, order, root, root);
}

/// The depth-first order of a subtree lists each position at most once.
pub proof fn lemma_subtree_seq_no_duplicates<N>(
    t: EytzingerTree<N>,
    order: DepthFirstOrder,
    i: int,
)
    requires
        t.branching() >= 1,
        i >= 0,
    ensures
        subtree_seq(t, order, i).no_duplicates(),
    decreases t.slots().len() - i, t.branching() + 1,
{
    if t.occupied(i) {
        lemma_children_seq_no_duplicates(t, order, i, 0);
        lemma_children_seq_elems(t, order, i, 0);
        let cs = children_seq(t, order, i, 0);
        assert forall|x: int| cs.contains(x) implies x != i by {
            let oo = choose|oo: int|
                0 <= oo < t.branching() && in_subtree(
                    t.branching(),
                    #[trigger] spec_child_index(t.branching(), i, oo),
                    x,
                );
            lemma_child_above(t.branching(), i, oo);
            lemma_subtree_above_root(t.branching(), spec_child_index(t.branching(), i, oo), x);
        }
        assert forall|m: int, n: int|
            0 <= m < seq![i].len() && 0 <= n < cs.len() implies seq![i][m] != cs[n] by {
            assert(cs.contains(cs[n]));
        }
        if order is PreOrder {
            lemma_no_dup_in_concat(seq![i], cs);
        } else {
            assert forall|m: int, n: int|
                0 <= m < cs.len() && 0 <= n < seq![i].len() implies cs[m] != seq![i][n] by {
                assert(cs.contains(cs[m]));
            }
            lemma_no_dup_in_concat(cs, seq![i]);
        }
    }
}

/// The children's depth-first order lists each position at most once.
pub proof fn lemma_children_seq_no_duplicates<N>(
    t: EytzingerTree<N>,
    order: DepthFirstOrder,
    i: int,
    o: int,
)
    requires
        t.branching() >= 1,
        i >= 0,
    ensures
        children_seq(t, order, i, o).no_duplicates(),
    decreases t.slots().len() - i, t.branching() - o,
{
    if 0 <= o < t.branching() {
        let k = t.branching();
        let c = spec_child_index(k, i, o);
        lemma_child_above(k, i, o);
        let left = if t.occupied(c) {
            subtree_seq(t, order, c)
        } else {
            Seq::<int>::empty()
        };
        let right = children_seq(t, order, i, o + 1);
        if t.occupied(c) {
            lemma_subtree_seq_no_duplicates(t, order, c);
            lemma_subtree_seq_elems(t, order, c);
        }
        lemma_children_seq_no_duplicates(t, order, i, o + 1);
        lemma_children_seq_elems(t, order, i, o + 1);
        assert forall|m: int, n: int|
            0 <= m < left.len() && 0 <= n < right.len() implies left[m] != right[n] by {
            let x = left[m];
            assert(left.contains(x));
            if right.contains(x) {
                let oo = choose|oo: int|
                    o + 1 <= oo < k && in_subtree(t.branching(), #[trigger] spec_child_index(k, i, oo), x);
                lemma_index_bijection(k, i, o);
                lemma_index_bijection(k, i, oo);
                lemma_sibling_subtrees_disjoint(k, c, spec_child_index(k, i, oo), x);
            } else {
                assert(!right.contains(right[n]) == false);
            }
        }
        lemma_no_dup_in_concat(left, right);
    }
}

} // verus!
