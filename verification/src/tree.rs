//! Finite key spaces as trees, and the two orders in which a tree is
//! walked.

use crate::walk::WalkNodeView;
use vstd::prelude::*;

verus! {

/// A finite key space: a node and, below it, the trees of its children in
/// listing order.
pub struct Tree {
    pub node: WalkNodeView,
    pub children: Seq<Tree>,
}

/// Only containers have children, here and below.
pub open spec fn well_formed(t: Tree) -> bool
    decreases t,
{
    &&& t.node.is_container || t.children.len() == 0
    &&& forall|i: int| 0 <= i < t.children.len() ==> well_formed(#[trigger] t.children[i])
}

/// Every tree of `trees` is well-formed.
pub open spec fn all_well_formed(trees: Seq<Tree>) -> bool {
    forall|i: int| 0 <= i < trees.len() ==> well_formed(#[trigger] trees[i])
}

/// The nodes at the roots of `trees`, in order.
pub open spec fn roots(trees: Seq<Tree>) -> Seq<WalkNodeView> {
    trees.map_values(|t: Tree| t.node)
}

/// Number of nodes in `t`.
pub open spec fn size(t: Tree) -> nat
    decreases t,
{
    1 + size_all(t.children)
}

/// Number of nodes in `trees` together.
pub open spec fn size_all(trees: Seq<Tree>) -> nat
    decreases trees,
{
    if trees.len() == 0 {
        0
    } else {
        size(trees.first()) + size_all(trees.drop_first())
    }
}

/// The nodes of `t` parents first: the root, then each child's tree in
/// listing order.
pub open spec fn top_down(t: Tree) -> Seq<WalkNodeView>
    decreases t,
{
    seq![t.node] + top_down_all(t.children)
}

/// The nodes of `trees` parents first, tree after tree.
pub open spec fn top_down_all(trees: Seq<Tree>) -> Seq<WalkNodeView>
    decreases trees,
{
    if trees.len() == 0 {
        Seq::empty()
    } else {
        top_down(trees.first()) + top_down_all(trees.drop_first())
    }
}

/// The nodes of `t` children first: each child's tree in listing order,
/// then the root.
pub open spec fn bottom_up(t: Tree) -> Seq<WalkNodeView>
    decreases t,
{
    bottom_up_all(t.children).push(t.node)
}

/// The nodes of `trees` children first, tree after tree.
pub open spec fn bottom_up_all(trees: Seq<Tree>) -> Seq<WalkNodeView>
    decreases trees,
{
    if trees.len() == 0 {
        Seq::empty()
    } else {
        bottom_up(trees.first()) + bottom_up_all(trees.drop_first())
    }
}

/// Walking two lists of trees one after the other is walking the joined
/// list, in either order; and their sizes add up.
pub proof fn lemma_walk_concat(a: Seq<Tree>, b: Seq<Tree>)
    ensures
        top_down_all(a + b) == top_down_all(a) + top_down_all(b),
        bottom_up_all(a + b) == bottom_up_all(a) + bottom_up_all(b),
        size_all(a + b) == size_all(a) + size_all(b),
    decreases a.len(),
{
    if a.len() == 0 {
        assert(a + b =~= b);
        assert(top_down_all(a) + top_down_all(b) =~= top_down_all(b));
        assert(bottom_up_all(a) + bottom_up_all(b) =~= bottom_up_all(b));
    } else {
        lemma_walk_concat(a.drop_first(), b);
        assert((a + b).drop_first() =~= a.drop_first() + b);
        assert((a + b).first() == a.first());
        assert(top_down(a.first()) + (top_down_all(a.drop_first()) + top_down_all(b)) =~= (
        top_down(a.first()) + top_down_all(a.drop_first())) + top_down_all(b));
        assert(bottom_up(a.first()) + (bottom_up_all(a.drop_first()) + bottom_up_all(b)) =~= (
        bottom_up(a.first()) + bottom_up_all(a.drop_first())) + bottom_up_all(b));
    }
}

/// Either walk yields as many nodes as the tree has.
pub proof fn lemma_walk_len(t: Tree)
    ensures
        top_down(t).len() == size(t),
        bottom_up(t).len() == size(t),
    decreases t,
{
    lemma_walk_all_len(t.children);
}

/// Either walk of a list of trees yields as many nodes as they have.
pub proof fn lemma_walk_all_len(trees: Seq<Tree>)
    ensures
        top_down_all(trees).len() == size_all(trees),
        bottom_up_all(trees).len() == size_all(trees),
    decreases trees,
{
    if trees.len() > 0 {
        lemma_walk_len(trees.first());
        lemma_walk_all_len(trees.drop_first());
    }
}

/// A list of one tree walks and counts as that tree.
pub proof fn lemma_single_tree(t: Tree)
    ensures
        size_all(seq![t]) == size(t),
        top_down_all(seq![t]) == top_down(t),
        bottom_up_all(seq![t]) == bottom_up(t),
{
    let one = seq![t];
    let none = Seq::<Tree>::empty();
    assert(one.drop_first() =~= none);
    assert(size_all(none) == 0);
    assert(top_down_all(none) =~= Seq::<WalkNodeView>::empty());
    assert(bottom_up_all(none) =~= Seq::<WalkNodeView>::empty());
    assert(top_down(t) + Seq::<WalkNodeView>::empty() =~= top_down(t));
    assert(bottom_up(t) + Seq::<WalkNodeView>::empty() =~= bottom_up(t));
}

} // verus!
