//! What the walkers yield on a finite key space: exactly the nodes of the
//! tree, in the order of their mode.

use crate::tree::{
    all_well_formed, bottom_up, bottom_up_all, lemma_single_tree, lemma_walk_concat, roots, size,
    size_all, top_down, top_down_all, well_formed, Tree,
};
use crate::walk::{
    bottom_up_listed, bottom_up_next, bottom_up_waits, fresh_frame, top_down_listed,
    top_down_next, BottomUpView, FrameView, TopDownView, WalkNodeView, WalkStepView,
};
use vstd::prelude::*;

verus! {

/// The node that a step yields, if it yields one.
pub open spec fn yielded(step: WalkStepView) -> Seq<WalkNodeView> {
    match step {
        WalkStepView::Yield(node) => seq![node],
        _ => Seq::empty(),
    }
}

/// A top-down walker that waits for nothing and whose stack holds the
/// roots of `forest`, the next one last.
pub open spec fn top_down_at(w: TopDownView, forest: Seq<Tree>) -> bool {
    w.pending is None && w.stack == roots(forest)
}

/// A top-down walk on a key space. In each round the walker is asked for
/// the next node, and where it then waits for a listing it is handed the
/// children that the tree on top of `forest` has. The result is the
/// walker and the trees still to walk after `rounds` rounds, and the
/// nodes yielded in them.
pub open spec fn top_down_walk(w: TopDownView, forest: Seq<Tree>, rounds: nat) -> (
    TopDownView,
    Seq<Tree>,
    Seq<WalkNodeView>,
)
    decreases rounds,
{
    if rounds == 0 || forest.len() == 0 {
        (w, forest, Seq::empty())
    } else {
        let asked = top_down_next(w);
        let top = forest.last();
        let told = if asked.0.pending is Some {
            top_down_listed(asked.0, roots(top.children))
        } else {
            asked.0
        };
        let rest = top_down_walk(
            told,
            forest.drop_last() + top.children.reverse(),
            (rounds - 1) as nat,
        );
        (rest.0, rest.1, yielded(asked.1) + rest.2)
    }
}

/// Trees read backwards have the same number of nodes.
pub proof fn lemma_size_reverse(trees: Seq<Tree>)
    ensures
        size_all(trees.reverse()) == size_all(trees),
    decreases trees.len(),
{
    if trees.len() > 0 {
        let rest = trees.drop_first();
        lemma_size_reverse(rest);
        assert(trees.reverse() =~= rest.reverse() + seq![trees.first()]);
        lemma_walk_concat(rest.reverse(), seq![trees.first()]);
        lemma_single_tree(trees.first());
    }
}

proof fn lemma_top_down_walk(w: TopDownView, forest: Seq<Tree>, rounds: nat)
    requires
        top_down_at(w, forest),
        all_well_formed(forest),
        rounds == size_all(forest),
    ensures
        top_down_walk(w, forest, rounds).2 == top_down_all(forest.reverse()),
        top_down_walk(w, forest, rounds).1.len() == 0,
        top_down_at(top_down_walk(w, forest, rounds).0, Seq::empty()),
    decreases rounds,
{
    if forest.len() == 0 {
        assert(forest.reverse() =~= forest);
        assert(forest =~= Seq::<Tree>::empty());
    } else {
        let top = forest.last();
        let under = forest.drop_last();
        assert(forest =~= under + seq![top]);
        lemma_walk_concat(under, seq![top]);
        lemma_single_tree(top);
        let asked = top_down_next(w);
        assert(w.stack.last() == top.node);
        assert(asked.1 == WalkStepView::Yield(top.node));
        let told = if asked.0.pending is Some {
            top_down_listed(asked.0, roots(top.children))
        } else {
            asked.0
        };
        let next = under + top.children.reverse();
        assert(well_formed(top));
        assert(top_down_at(told, next)) by {
            assert(w.stack.drop_last() =~= roots(under));
            assert(roots(top.children).reverse() =~= roots(top.children.reverse()));
            assert(roots(under) + roots(top.children.reverse()) =~= roots(next));
            if !top.node.is_container {
                assert(top.children.reverse() =~= Seq::<Tree>::empty());
                assert(roots(under) =~= roots(next));
            }
        }
        assert(all_well_formed(next)) by {
            assert forall|i: int| 0 <= i < next.len() implies well_formed(#[trigger] next[i]) by {
                if i < under.len() {
                    assert(next[i] == forest[i]);
                } else {
                    let k = i - under.len();
                    assert(next[i] == top.children[top.children.len() - 1 - k]);
                }
            }
        }
        lemma_walk_concat(under, top.children.reverse());
        lemma_size_reverse(top.children);
        assert(size_all(next) == rounds - 1);
        lemma_top_down_walk(told, next, (rounds - 1) as nat);
        assert(forest.reverse() =~= seq![top] + under.reverse());
        assert(next.reverse() =~= top.children + under.reverse());
        lemma_walk_concat(seq![top], under.reverse());
        lemma_walk_concat(top.children, under.reverse());
        assert(seq![top.node] + (top_down_all(top.children) + top_down_all(under.reverse()))
            =~= (seq![top.node] + top_down_all(top.children)) + top_down_all(under.reverse()));
    }
}

/// On a finite key space a top-down walk yields the nodes of the tree,
/// parents first, each once, and is then done: after as many rounds as
/// the tree has nodes nothing is left to walk.
pub proof fn lemma_top_down_walks_tree(t: Tree)
    requires
        well_formed(t),
    ensures
        ({
            let start = TopDownView { stack: seq![t.node], pending: None };
            let end = top_down_walk(start, seq![t], size(t));
            &&& end.2 == top_down(t)
            &&& end.1.len() == 0
            &&& top_down_next(end.0).1 == WalkStepView::Done
        }),
{
    let start = TopDownView { stack: seq![t.node], pending: None };
    let forest = seq![t];
    assert(roots(forest) =~= seq![t.node]);
    lemma_single_tree(t);
    lemma_top_down_walk(start, forest, size(t));
    assert(forest.reverse() =~= forest);
    assert(roots(Seq::<Tree>::empty()) =~= Seq::<WalkNodeView>::empty());
}

/// A tree on the stack of a bottom-up walk, and whether its children are
/// on the stack above it already.
pub struct Visit {
    pub tree: Tree,
    pub expanded: bool,
}

/// The stack entries that stand for `visits`.
pub open spec fn frames(visits: Seq<Visit>) -> Seq<FrameView> {
    visits.map_values(|v: Visit| FrameView { node: v.tree.node, expanded: v.expanded })
}

/// Trees whose children were not asked for yet.
pub open spec fn fresh_visits(trees: Seq<Tree>) -> Seq<Visit> {
    trees.map_values(|t: Tree| Visit { tree: t, expanded: false })
}

/// A bottom-up walker whose stack stands for `visits`, the next one last.
pub open spec fn bottom_up_at(w: BottomUpView, visits: Seq<Visit>) -> bool {
    w.stack == frames(visits)
}

/// Every tree of `visits` is well-formed.
pub open spec fn visits_well_formed(visits: Seq<Visit>) -> bool {
    forall|i: int| 0 <= i < visits.len() ==> well_formed((#[trigger] visits[i]).tree)
}

/// Number of containers in `t`.
pub open spec fn containers(t: Tree) -> nat
    decreases t,
{
    containers_all(t.children) + if t.node.is_container {
        1nat
    } else {
        0nat
    }
}

/// Number of containers in `trees` together.
pub open spec fn containers_all(trees: Seq<Tree>) -> nat
    decreases trees,
{
    if trees.len() == 0 {
        0
    } else {
        containers(trees.first()) + containers_all(trees.drop_first())
    }
}

/// The nodes that a bottom-up walk still owes for `visits`, in the order
/// in which it will yield them: for a tree whose children are on the
/// stack already its root only, else the whole tree, children first.
pub open spec fn owed(visits: Seq<Visit>) -> Seq<WalkNodeView>
    decreases visits.len(),
{
    if visits.len() == 0 {
        Seq::empty()
    } else {
        let top = visits.last();
        if top.expanded {
            seq![top.tree.node] + owed(visits.drop_last())
        } else {
            bottom_up(top.tree) + owed(visits.drop_last())
        }
    }
}

/// The rounds that a bottom-up walk still needs for `visits`: one for
/// each node to yield and one for each listing to ask for.
pub open spec fn rounds_owed(visits: Seq<Visit>) -> nat
    decreases visits.len(),
{
    if visits.len() == 0 {
        0
    } else {
        let top = visits.last();
        rounds_owed(visits.drop_last()) + if top.expanded {
            1
        } else {
            size(top.tree) + containers(top.tree)
        }
    }
}

/// A bottom-up walk on a key space. In each round the walker is asked for
/// the next node, and where it asks for a listing instead it is handed
/// the children that the tree on top of `visits` has. The result is the
/// walker and the trees still to walk after `rounds` rounds, and the
/// nodes yielded in them.
pub open spec fn bottom_up_walk(w: BottomUpView, visits: Seq<Visit>, rounds: nat) -> (
    BottomUpView,
    Seq<Visit>,
    Seq<WalkNodeView>,
)
    decreases rounds,
{
    if rounds == 0 || visits.len() == 0 {
        (w, visits, Seq::empty())
    } else {
        let asked = bottom_up_next(w);
        let top = visits.last();
        if asked.1 is List {
            bottom_up_walk(
                bottom_up_listed(asked.0, roots(top.tree.children)),
                visits.drop_last().push(Visit { tree: top.tree, expanded: true }) + fresh_visits(
                    top.tree.children.reverse(),
                ),
                (rounds - 1) as nat,
            )
        } else {
            let rest = bottom_up_walk(asked.0, visits.drop_last(), (rounds - 1) as nat);
            (rest.0, rest.1, yielded(asked.1) + rest.2)
        }
    }
}

proof fn lemma_owed_fresh(under: Seq<Visit>, children: Seq<Tree>)
    ensures
        owed(under + fresh_visits(children.reverse())) == bottom_up_all(children) + owed(under),
        rounds_owed(under + fresh_visits(children.reverse())) == rounds_owed(under) + size_all(
            children,
        ) + containers_all(children),
    decreases children.len(),
{
    let all = under + fresh_visits(children.reverse());
    if children.len() == 0 {
        assert(all =~= under);
        assert(bottom_up_all(children) + owed(under) =~= owed(under));
    } else {
        let first = children.first();
        let rest = children.drop_first();
        lemma_owed_fresh(under, rest);
        assert(children.reverse() =~= rest.reverse().push(first));
        assert(all.drop_last() =~= under + fresh_visits(rest.reverse()));
        assert(all.last() == Visit { tree: first, expanded: false });
        assert(bottom_up(first) + (bottom_up_all(rest) + owed(under)) =~= (bottom_up(first)
            + bottom_up_all(rest)) + owed(under));
    }
}

proof fn lemma_bottom_up_walk(w: BottomUpView, visits: Seq<Visit>, rounds: nat)
    requires
        bottom_up_at(w, visits),
        visits_well_formed(visits),
        rounds == rounds_owed(visits),
    ensures
        bottom_up_walk(w, visits, rounds).2 == owed(visits),
        bottom_up_walk(w, visits, rounds).1.len() == 0,
        bottom_up_at(bottom_up_walk(w, visits, rounds).0, Seq::empty()),
    decreases rounds,
{
    if visits.len() == 0 {
        assert(visits =~= Seq::<Visit>::empty());
    } else {
        let top = visits.last();
        let under = visits.drop_last();
        let asked = bottom_up_next(w);
        assert(w.stack.last() == FrameView { node: top.tree.node, expanded: top.expanded });
        assert(well_formed(top.tree));
        assert(visits_well_formed(under)) by {
            assert forall|i: int| 0 <= i < under.len() implies well_formed(
                (#[trigger] under[i]).tree,
            ) by {
                assert(under[i] == visits[i]);
            }
        }
        if bottom_up_waits(w) {
            let seen = under.push(Visit { tree: top.tree, expanded: true });
            let next = seen + fresh_visits(top.tree.children.reverse());
            let told = bottom_up_listed(asked.0, roots(top.tree.children));
            assert(bottom_up_at(told, next)) by {
                assert(roots(top.tree.children).reverse() =~= roots(top.tree.children.reverse()));
                assert(told.stack =~= frames(next));
            }
            assert(visits_well_formed(next)) by {
                assert forall|i: int| 0 <= i < next.len() implies well_formed(
                    (#[trigger] next[i]).tree,
                ) by {
                    if i < under.len() {
                        assert(next[i] == visits[i]);
                    } else if i == under.len() {
                    } else {
                        let k = i - seen.len();
                        assert(next[i].tree == top.tree.children[top.tree.children.len() - 1 - k]);
                    }
                }
            }
            lemma_owed_fresh(seen, top.tree.children);
            assert(seen.drop_last() =~= under);
            assert(rounds_owed(next) == rounds - 1);
            lemma_bottom_up_walk(told, next, (rounds - 1) as nat);
            assert(bottom_up_all(top.tree.children) + (seq![top.tree.node] + owed(under)) =~= (
            bottom_up_all(top.tree.children).push(top.tree.node)) + owed(under));
        } else {
            assert(asked.1 == WalkStepView::Yield(top.tree.node));
            assert(asked.0.stack =~= frames(under));
            if !top.expanded {
                assert(top.tree.children =~= Seq::<Tree>::empty());
                assert(bottom_up(top.tree) =~= seq![top.tree.node]);
                assert(size_all(top.tree.children) == 0);
                assert(containers_all(top.tree.children) == 0);
            }
            lemma_bottom_up_walk(asked.0, under, (rounds - 1) as nat);
        }
    }
}

/// On a finite key space a bottom-up walk yields the nodes of the tree,
/// children first, each once, and is then done: after one round for each
/// node and one for each container nothing is left to walk.
pub proof fn lemma_bottom_up_walks_tree(t: Tree)
    requires
        well_formed(t),
    ensures
        ({
            let start = BottomUpView { stack: seq![fresh_frame(t.node)] };
            let visits = seq![Visit { tree: t, expanded: false }];
            let end = bottom_up_walk(start, visits, size(t) + containers(t));
            &&& end.2 == bottom_up(t)
            &&& end.1.len() == 0
            &&& bottom_up_next(end.0).1 == WalkStepView::Done
        }),
{
    let start = BottomUpView { stack: seq![fresh_frame(t.node)] };
    let visits = seq![Visit { tree: t, expanded: false }];
    assert(frames(visits) =~= seq![fresh_frame(t.node)]);
    assert(visits.drop_last() =~= Seq::<Visit>::empty());
    assert(rounds_owed(visits.drop_last()) == 0);
    assert(owed(visits.drop_last()) =~= Seq::<WalkNodeView>::empty());
    assert(owed(visits) =~= bottom_up(t));
    lemma_bottom_up_walk(start, visits, size(t) + containers(t));
    assert(frames(Seq::<Visit>::empty()) =~= Seq::<FrameView>::empty());
}

} // verus!
