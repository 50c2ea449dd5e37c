//! Where each node of a tree stands in a walk.
//!
//! A node is named by its path: the child indices that lead to it from
//! the root. In either walk the nodes of every subtree stand together in
//! one block. Top-down the block starts with the subtree's root, so a
//! container comes before everything below it; bottom-up the block ends
//! with it, so a container comes after everything below it. Different
//! nodes stand at different places, so every node is yielded once.

use crate::tree::{
    bottom_up, bottom_up_all, lemma_single_tree, lemma_walk_all_len, lemma_walk_concat,
    lemma_walk_len, size, size_all, top_down, top_down_all, Tree,
};
use vstd::prelude::*;

verus! {

/// Whether `path` leads to a node of `t`.
pub open spec fn valid_path(t: Tree, path: Seq<int>) -> bool
    decreases path.len(),
{
    path.len() == 0 || (0 <= path[0] < t.children.len() && valid_path(
        t.children[path[0]],
        path.drop_first(),
    ))
}

/// The tree below the node that `path` leads to, that node at its root.
pub open spec fn subtree(t: Tree, path: Seq<int>) -> Tree
    recommends
        valid_path(t, path),
    decreases path.len(),
{
    if path.len() == 0 {
        t
    } else {
        subtree(t.children[path[0]], path.drop_first())
    }
}

/// Number of nodes that a walk yields before the first node of the
/// subtree at `path`. `root_first` tells the two walks apart: top-down
/// the root of each tree on the way comes before the subtree, bottom-up
/// it comes after.
pub open spec fn block_start(t: Tree, path: Seq<int>, root_first: bool) -> nat
    recommends
        valid_path(t, path),
    decreases path.len(),
{
    if path.len() == 0 {
        0
    } else {
        size_all(t.children.take(path[0])) + block_start(
            t.children[path[0]],
            path.drop_first(),
            root_first,
        ) + if root_first {
            1nat
        } else {
            0nat
        }
    }
}

/// Index in the top-down walk of `t` of the node that `path` leads to.
pub open spec fn top_down_index(t: Tree, path: Seq<int>) -> nat
    recommends
        valid_path(t, path),
{
    block_start(t, path, true)
}

/// Index in the bottom-up walk of `t` of the node that `path` leads to.
pub open spec fn bottom_up_index(t: Tree, path: Seq<int>) -> nat
    recommends
        valid_path(t, path),
{
    (block_start(t, path, false) + size(subtree(t, path)) - 1) as nat
}

proof fn lemma_size_positive(t: Tree)
    ensures
        size(t) >= 1,
{
}

/// The children before child `i`, child `i`, and the children after it
/// make up the walk of all children, in that order.
proof fn lemma_split_children(trees: Seq<Tree>, i: int)
    requires
        0 <= i < trees.len(),
    ensures
        size_all(trees) == size_all(trees.take(i)) + size(trees[i]) + size_all(trees.skip(i + 1)),
        size_all(trees.take(i + 1)) == size_all(trees.take(i)) + size(trees[i]),
        top_down_all(trees) == top_down_all(trees.take(i)) + top_down(trees[i]) + top_down_all(
            trees.skip(i + 1),
        ),
        bottom_up_all(trees) == bottom_up_all(trees.take(i)) + bottom_up(trees[i])
            + bottom_up_all(trees.skip(i + 1)),
{
    let before = trees.take(i);
    let one = seq![trees[i]];
    let after = trees.skip(i + 1);
    assert(trees =~= (before + one) + after);
    assert(trees.take(i + 1) =~= before + one);
    lemma_walk_concat(before, one);
    lemma_walk_concat(before + one, after);
    lemma_single_tree(trees[i]);
}

/// More children hold at least as many nodes.
proof fn lemma_take_grows(trees: Seq<Tree>, i: int, j: int)
    requires
        0 <= i <= j <= trees.len(),
    ensures
        size_all(trees.take(i)) <= size_all(trees.take(j)),
        size_all(trees.take(j)) <= size_all(trees),
    decreases j - i,
{
    assert(trees =~= trees.take(j) + trees.skip(j));
    lemma_walk_concat(trees.take(j), trees.skip(j));
    if i < j {
        lemma_split_children(trees, j - 1);
        lemma_take_grows(trees, i, j - 1);
    }
}

/// In either walk the nodes of the subtree at `path` stand together, in
/// the order of that subtree's own walk.
pub proof fn lemma_subtree_block(t: Tree, path: Seq<int>)
    requires
        valid_path(t, path),
    ensures
        block_start(t, path, true) + size(subtree(t, path)) <= size(t),
        block_start(t, path, false) + size(subtree(t, path)) <= size(t),
        top_down(t).len() == size(t),
        bottom_up(t).len() == size(t),
        top_down(t).subrange(
            block_start(t, path, true) as int,
            (block_start(t, path, true) + size(subtree(t, path))) as int,
        ) == top_down(subtree(t, path)),
        bottom_up(t).subrange(
            block_start(t, path, false) as int,
            (block_start(t, path, false) + size(subtree(t, path))) as int,
        ) == bottom_up(subtree(t, path)),
    decreases path.len(),
{
    lemma_walk_len(t);
    if path.len() == 0 {
        assert(top_down(t).subrange(0, size(t) as int) =~= top_down(t));
        assert(bottom_up(t).subrange(0, size(t) as int) =~= bottom_up(t));
    } else {
        let i = path[0];
        let child = t.children[i];
        let rest = path.drop_first();
        let sub = subtree(t, path);
        lemma_subtree_block(child, rest);
        lemma_split_children(t.children, i);
        lemma_walk_all_len(t.children.take(i));
        lemma_walk_len(child);
        let before = size_all(t.children.take(i)) as int;
        let n = size(sub) as int;
        let a = block_start(child, rest, true) as int;
        let b = block_start(child, rest, false) as int;
        assert(top_down(t).subrange(1 + before, 1 + before + size(child)) =~= top_down(child));
        assert(top_down(t).subrange(1 + before + a, 1 + before + a + n) =~= top_down(
            child,
        ).subrange(a, a + n));
        assert(bottom_up(t).subrange(before, before + size(child)) =~= bottom_up(child));
        assert(bottom_up(t).subrange(before + b, before + b + n) =~= bottom_up(child).subrange(
            b,
            b + n,
        ));
    }
}

/// The node that `path` leads to stands at its index in either walk.
pub proof fn lemma_node_at_index(t: Tree, path: Seq<int>)
    requires
        valid_path(t, path),
    ensures
        top_down_index(t, path) < top_down(t).len() == size(t),
        bottom_up_index(t, path) < bottom_up(t).len() == size(t),
        top_down(t)[top_down_index(t, path) as int] == subtree(t, path).node,
        bottom_up(t)[bottom_up_index(t, path) as int] == subtree(t, path).node,
{
    lemma_subtree_block(t, path);
    let sub = subtree(t, path);
    lemma_walk_len(sub);
    let a = block_start(t, path, true) as int;
    let b = block_start(t, path, false) as int;
    let n = size(sub) as int;
    assert(top_down(t).subrange(a, a + n)[0] == top_down(t)[a]);
    assert(bottom_up(t).subrange(b, b + n)[n - 1] == bottom_up(t)[b + n - 1]);
}

/// A path followed by another leads into the subtree of the first.
pub proof fn lemma_path_concat(t: Tree, path: Seq<int>, below: Seq<int>, root_first: bool)
    requires
        valid_path(t, path + below),
    ensures
        valid_path(t, path),
        valid_path(subtree(t, path), below),
        subtree(t, path + below) == subtree(subtree(t, path), below),
        block_start(t, path + below, root_first) == block_start(t, path, root_first)
            + block_start(subtree(t, path), below, root_first),
    decreases path.len(),
{
    if path.len() == 0 {
        assert(path + below =~= below);
    } else {
        let whole = path + below;
        assert(whole[0] == path[0]);
        assert(whole.drop_first() =~= path.drop_first() + below);
        lemma_path_concat(t.children[path[0]], path.drop_first(), below, root_first);
    }
}

/// Top-down a container is yielded strictly before every node below it,
/// bottom-up strictly after; and what lies below it is yielded before
/// the walk goes on to anything else.
pub proof fn lemma_container_and_descendant(t: Tree, path: Seq<int>, below: Seq<int>)
    requires
        valid_path(t, path + below),
        below.len() > 0,
    ensures
        top_down_index(t, path) < top_down_index(t, path + below),
        top_down_index(t, path + below) < top_down_index(t, path) + size(subtree(t, path)),
        bottom_up_index(t, path + below) < bottom_up_index(t, path),
        bottom_up_index(t, path) - size(subtree(t, path)) < bottom_up_index(t, path + below),
{
    lemma_path_concat(t, path, below, true);
    lemma_path_concat(t, path, below, false);
    let sub = subtree(t, path);
    lemma_subtree_block(sub, below);
    lemma_size_positive(subtree(sub, below));
    lemma_below_root(sub, below);
}

proof fn lemma_below_root(t: Tree, path: Seq<int>)
    requires
        valid_path(t, path),
        path.len() > 0,
    ensures
        block_start(t, path, true) >= 1,
        block_start(t, path, false) + size(subtree(t, path)) <= size(t) - 1,
{
    let i = path[0];
    let child = t.children[i];
    lemma_subtree_block(child, path.drop_first());
    lemma_split_children(t.children, i);
}

/// Different nodes stand at different places, in either walk.
pub proof fn lemma_index_injective(t: Tree, p: Seq<int>, q: Seq<int>)
    requires
        valid_path(t, p),
        valid_path(t, q),
        p != q,
    ensures
        top_down_index(t, p) != top_down_index(t, q),
        bottom_up_index(t, p) != bottom_up_index(t, q),
    decreases p.len(),
{
    lemma_subtree_block(t, p);
    lemma_subtree_block(t, q);
    lemma_size_positive(subtree(t, p));
    lemma_size_positive(subtree(t, q));
    if p.len() == 0 {
        assert(q.len() > 0) by {
            if q.len() == 0 {
                assert(p =~= q);
            }
        }
        lemma_below_root(t, q);
    } else if q.len() == 0 {
        lemma_below_root(t, p);
    } else if p[0] == q[0] {
        assert(p.drop_first() != q.drop_first()) by {
            if p.drop_first() == q.drop_first() {
                assert(p =~= seq![p[0]] + p.drop_first());
                assert(q =~= seq![q[0]] + q.drop_first());
            }
        }
        lemma_index_injective(t.children[p[0]], p.drop_first(), q.drop_first());
    } else {
        lemma_subtree_block(t.children[p[0]], p.drop_first());
        lemma_subtree_block(t.children[q[0]], q.drop_first());
        lemma_split_children(t.children, p[0]);
        lemma_split_children(t.children, q[0]);
        if p[0] < q[0] {
            lemma_take_grows(t.children, p[0] + 1, q[0]);
        } else {
            lemma_take_grows(t.children, q[0] + 1, p[0]);
        }
    }
}

proof fn lemma_find_child(trees: Seq<Tree>, m: nat) -> (i: int)
    requires
        m < size_all(trees),
    ensures
        0 <= i < trees.len(),
        size_all(trees.take(i)) <= m < size_all(trees.take(i + 1)),
    decreases trees.len(),
{
    let last = trees.len() - 1;
    assert(trees.len() > 0);
    lemma_split_children(trees, last);
    assert(trees.take(last + 1) =~= trees);
    if m >= size_all(trees.take(last)) {
        last
    } else {
        let front = trees.take(last);
        let i = lemma_find_child(front, m);
        assert(front.take(i) =~= trees.take(i));
        assert(front.take(i + 1) =~= trees.take(i + 1));
        i
    }
}

/// Every place in the top-down walk belongs to a node of the tree: the
/// result is a path to the node that stands at index `k`.
pub proof fn lemma_top_down_path(t: Tree, k: nat) -> (path: Seq<int>)
    requires
        k < size(t),
    ensures
        valid_path(t, path),
        top_down_index(t, path) == k,
    decreases t,
{
    if k == 0 {
        Seq::empty()
    } else {
        let i = lemma_find_child(t.children, (k - 1) as nat);
        lemma_split_children(t.children, i);
        let before = size_all(t.children.take(i));
        let rest = lemma_top_down_path(t.children[i], (k - 1 - before) as nat);
        let path = seq![i] + rest;
        assert(path[0] == i);
        assert(path.drop_first() =~= rest);
        path
    }
}

/// Every place in the bottom-up walk belongs to a node of the tree: the
/// result is a path to the node that stands at index `k`.
pub proof fn lemma_bottom_up_path(t: Tree, k: nat) -> (path: Seq<int>)
    requires
        k < size(t),
    ensures
        valid_path(t, path),
        bottom_up_index(t, path) == k,
    decreases t,
{
    if k == size(t) - 1 {
        Seq::empty()
    } else {
        let i = lemma_find_child(t.children, k);
        lemma_split_children(t.children, i);
        let before = size_all(t.children.take(i));
        let child = t.children[i];
        let rest = lemma_bottom_up_path(child, (k - before) as nat);
        let path = seq![i] + rest;
        assert(path[0] == i);
        assert(path.drop_first() =~= rest);
        lemma_subtree_block(child, rest);
        lemma_size_positive(subtree(child, rest));
        path
    }
}

} // verus!
