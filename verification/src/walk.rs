//! Walking a hierarchical key space, parents first or children first.
//!
//! A walker does not list anything itself. It yields nodes, and where it
//! needs the children of a container it asks for them by key; the caller
//! lists the container and hands the children over.

use vstd::prelude::*;

verus! {

/// One key of the key space, and whether it can hold others.
#[derive(Debug, Clone, PartialEq, Eq)]
pub struct WalkNode {
    pub key: String,
    pub is_container: bool,
}

/// Mathematical model of a [`WalkNode`].
pub struct WalkNodeView {
    pub key: Seq<char>,
    pub is_container: bool,
}

impl View for WalkNode {
    type V = WalkNodeView;

    open spec fn view(&self) -> WalkNodeView {
        WalkNodeView { key: self.key@, is_container: self.is_container }
    }
}

/// What a walker says when asked for the next node.
#[derive(Debug, Clone, PartialEq, Eq)]
pub enum WalkStep {
    /// The next node of the walk.
    Yield(WalkNode),
    /// The walker needs the children of the container with this key.
    List(String),
    /// The walk is over.
    Done,
}

/// Mathematical model of a [`WalkStep`].
pub enum WalkStepView {
    Yield(WalkNodeView),
    List(Seq<char>),
    Done,
}

impl View for WalkStep {
    type V = WalkStepView;

    open spec fn view(&self) -> WalkStepView {
        match *self {
            WalkStep::Yield(node) => WalkStepView::Yield(node@),
            WalkStep::List(key) => WalkStepView::List(key@),
            WalkStep::Done => WalkStepView::Done,
        }
    }
}

/// The models of a list of nodes, in order.
pub open spec fn node_views(nodes: Seq<WalkNode>) -> Seq<WalkNodeView> {
    nodes.map_values(|node: WalkNode| node@)
}

/// Mathematical model of a top-down walker: the nodes still to yield, the
/// next one last, and the key of the container whose children it waits
/// for.
pub struct TopDownView {
    pub stack: Seq<WalkNodeView>,
    pub pending: Option<Seq<char>>,
}

/// What a top-down walker does when asked for the next node. While it
/// waits for a listing it asks for it again. Else it yields the node on
/// top of its stack, and waits for that node's children if it is a
/// container. With nothing left it is done.
pub open spec fn top_down_next(w: TopDownView) -> (TopDownView, WalkStepView) {
    match w.pending {
        Some(key) => (w, WalkStepView::List(key)),
        None => if w.stack.len() == 0 {
            (w, WalkStepView::Done)
        } else {
            let node = w.stack.last();
            (
                TopDownView {
                    stack: w.stack.drop_last(),
                    pending: if node.is_container {
                        Some(node.key)
                    } else {
                        None
                    },
                },
                WalkStepView::Yield(node),
            )
        },
    }
}

/// What a listing does to a top-down walker that waits for one: the
/// children go on the stack, the first of them on top. A walker that does
/// not wait for a listing ignores it.
pub open spec fn top_down_listed(w: TopDownView, children: Seq<WalkNodeView>) -> TopDownView {
    match w.pending {
        Some(_) => TopDownView { stack: w.stack + children.reverse(), pending: None },
        None => w,
    }
}

/// Walks a key space parents first: every container is yielded before
/// anything below it.
pub struct TopDownWalker {
    stack: Vec<WalkNode>,
    pending: Option<String>,
}

impl View for TopDownWalker {
    type V = TopDownView;

    closed spec fn view(&self) -> TopDownView {
        TopDownView {
            stack: node_views(self.stack@),
            pending: match self.pending {
                Some(key) => Some(key@),
                None => None,
            },
        }
    }
}

impl TopDownWalker {
    /// A walk that starts at `root`.
    pub fn new(root: WalkNode) -> (w: Self)
        ensures
            w@ == (TopDownView { stack: seq![root@], pending: None }),
    {
        let mut stack: Vec<WalkNode> = Vec::new();
        stack.push(root);
        let w = TopDownWalker { stack, pending: None };
        assert(w@.stack =~= seq![root@]);
        w
    }

    /// The next step of the walk.
    pub fn next(&mut self) -> (step: WalkStep)
        ensures
            final(self)@ == top_down_next(old(self)@).0,
            step@ == top_down_next(old(self)@).1,
    {
        if let Some(key) = &self.pending {
            return WalkStep::List(key.clone());
        }
        match self.stack.pop() {
            None => {
                assert(self@.stack =~= old(self)@.stack);
                WalkStep::Done
            },
            Some(node) => {
                if node.is_container {
                    self.pending = Some(node.key.clone());
                }
                assert(self@.stack =~= old(self)@.stack.drop_last());
                WalkStep::Yield(node)
            },
        }
    }

    /// Hands over the children of the container that the walker asked
    /// for, in listing order.
    pub fn listed(&mut self, children: Vec<WalkNode>)
        ensures
            final(self)@ == top_down_listed(old(self)@, node_views(children@)),
    {
        if self.pending.is_none() {
            return ;
        }
        self.pending = None;
        let mut children = children;
        let ghost all = children@;
        let ghost before = self.stack@;
        while children.len() > 0
            invariant
                children@ == all.take(children@.len() as int),
                children@.len() <= all.len(),
                self.pending is None,
                self.stack@ == before + all.skip(children@.len() as int).reverse(),
            decreases children@.len(),
        {
            let ghost n = children@.len() as int;
            let child = children.pop().unwrap();
            self.stack.push(child);
            proof {
                assert(children@ =~= all.take(n - 1));
                assert(all.skip(n - 1).reverse() =~= all.skip(n).reverse().push(all[n - 1]));
                assert(self.stack@ =~= before + all.skip(n - 1).reverse());
            }
        }
        proof {
            assert(all.skip(0) =~= all);
            assert(node_views(before + all.reverse()) =~= node_views(before) + node_views(
                all,
            ).reverse());
        }
    }
}

/// A node on the stack of a bottom-up walker, and whether its children
/// were asked for already.
pub struct FrameView {
    pub node: WalkNodeView,
    pub expanded: bool,
}

/// Mathematical model of a bottom-up walker: the nodes still to yield,
/// the next one last.
pub struct BottomUpView {
    pub stack: Seq<FrameView>,
}

/// A node whose children were not asked for yet.
pub open spec fn fresh_frame(node: WalkNodeView) -> FrameView {
    FrameView { node, expanded: false }
}

/// Whether the walker waits for the children of the node on top.
pub open spec fn bottom_up_waits(w: BottomUpView) -> bool {
    w.stack.len() > 0 && w.stack.last().node.is_container && !w.stack.last().expanded
}

/// What a bottom-up walker does when asked for the next node. Where the
/// node on top is a container whose children it has not seen, it asks for
/// them. Else it yields the node on top. With nothing left it is done.
pub open spec fn bottom_up_next(w: BottomUpView) -> (BottomUpView, WalkStepView) {
    if w.stack.len() == 0 {
        (w, WalkStepView::Done)
    } else if bottom_up_waits(w) {
        (w, WalkStepView::List(w.stack.last().node.key))
    } else {
        (BottomUpView { stack: w.stack.drop_last() }, WalkStepView::Yield(w.stack.last().node))
    }
}

/// What a listing does to a bottom-up walker that waits for one: the
/// container stays, marked as seen, and its children go on top of it, the
/// first of them on top. A walker that does not wait for a listing
/// ignores it.
pub open spec fn bottom_up_listed(w: BottomUpView, children: Seq<WalkNodeView>) -> BottomUpView {
    if bottom_up_waits(w) {
        BottomUpView {
            stack: w.stack.drop_last().push(
                FrameView { node: w.stack.last().node, expanded: true },
            ) + children.reverse().map_values(|node: WalkNodeView| fresh_frame(node)),
        }
    } else {
        w
    }
}

struct Frame {
    node: WalkNode,
    expanded: bool,
}

spec fn new_frame(node: WalkNode) -> Frame {
    Frame { node, expanded: false }
}

impl View for Frame {
    type V = FrameView;

    closed spec fn view(&self) -> FrameView {
        FrameView { node: self.node@, expanded: self.expanded }
    }
}

/// Walks a key space children first: everything below a container is
/// yielded before the container.
pub struct BottomUpWalker {
    stack: Vec<Frame>,
}

impl View for BottomUpWalker {
    type V = BottomUpView;

    closed spec fn view(&self) -> BottomUpView {
        BottomUpView { stack: self.stack@.map_values(|frame: Frame| frame@) }
    }
}

impl BottomUpWalker {
    /// A walk that starts at `root`.
    pub fn new(root: WalkNode) -> (w: Self)
        ensures
            w@ == (BottomUpView { stack: seq![fresh_frame(root@)] }),
    {
        let mut stack: Vec<Frame> = Vec::new();
        stack.push(Frame { node: root, expanded: false });
        let w = BottomUpWalker { stack };
        assert(w@.stack =~= seq![fresh_frame(root@)]);
        w
    }

    /// The next step of the walk.
    pub fn next(&mut self) -> (step: WalkStep)
        ensures
            final(self)@ == bottom_up_next(old(self)@).0,
            step@ == bottom_up_next(old(self)@).1,
    {
        let n: usize = self.stack.len();
        if n == 0 {
            return WalkStep::Done;
        }
        if self.stack[n - 1].node.is_container && !self.stack[n - 1].expanded {
            return WalkStep::List(self.stack[n - 1].node.key.clone());
        }
        let frame = self.stack.pop().unwrap();
        assert(self@.stack =~= old(self)@.stack.drop_last());
        WalkStep::Yield(frame.node)
    }

    /// Hands over the children of the container that the walker asked
    /// for, in listing order.
    pub fn listed(&mut self, children: Vec<WalkNode>)
        ensures
            final(self)@ == bottom_up_listed(old(self)@, node_views(children@)),
    {
        let n: usize = self.stack.len();
        if n == 0 || !self.stack[n - 1].node.is_container || self.stack[n - 1].expanded {
            return ;
        }
        let top = self.stack.pop().unwrap();
        self.stack.push(Frame { node: top.node, expanded: true });
        let mut children = children;
        let ghost all = children@;
        let ghost before = self.stack@;
        while children.len() > 0
            invariant
                children@ == all.take(children@.len() as int),
                children@.len() <= all.len(),
                self.stack@ == before + all.skip(children@.len() as int).reverse().map_values(
                    |node: WalkNode| new_frame(node),
                ),
            decreases children@.len(),
        {
            let ghost n = children@.len() as int;
            let ghost under = self.stack@;
            let child = children.pop().unwrap();
            self.stack.push(Frame { node: child, expanded: false });
            proof {
                assert(children@ =~= all.take(n - 1));
                assert(all.skip(n - 1).reverse() =~= all.skip(n).reverse().push(all[n - 1]));
                assert(child == all[n - 1]);
                assert(self.stack@ == under.push(new_frame(all[n - 1])));
                assert(self.stack@ =~= before + all.skip(n - 1).reverse().map_values(
                    |node: WalkNode| new_frame(node),
                ));
            }
        }
        proof {
            assert(all.skip(0) =~= all);
            assert(before =~= old(self).stack@.drop_last().push(
                Frame { node: top.node, expanded: true },
            ));
            assert(self@.stack =~= bottom_up_listed(old(self)@, node_views(all)).stack);
        }
    }
}

} // verus!
