use upload_engine::walk::{BottomUpWalker, TopDownWalker, WalkNode, WalkStep};

fn dir(key: &str) -> WalkNode {
    WalkNode { key: String::from(key), is_container: true }
}

fn file(key: &str) -> WalkNode {
    WalkNode { key: String::from(key), is_container: false }
}

/// The key space of these tests:
///
/// ```text
/// /
/// ├── a/
/// │   ├── a/x
/// │   └── a/b/
/// │       └── a/b/y
/// ├── c
/// └── d/
/// ```
fn list(key: &str) -> Vec<WalkNode> {
    match key {
        "/" => vec![dir("a/"), file("c"), dir("d/")],
        "a/" => vec![file("a/x"), dir("a/b/")],
        "a/b/" => vec![file("a/b/y")],
        "d/" => vec![],
        other => panic!("{} was listed but is no container", other),
    }
}

fn walk_top_down(root: WalkNode) -> (Vec<String>, Vec<String>) {
    let mut w = TopDownWalker::new(root);
    let mut yielded: Vec<String> = Vec::new();
    let mut listed: Vec<String> = Vec::new();
    loop {
        match w.next() {
            WalkStep::Yield(node) => yielded.push(node.key),
            WalkStep::List(key) => {
                w.listed(list(&key));
                listed.push(key);
            }
            WalkStep::Done => return (yielded, listed),
        }
    }
}

fn walk_bottom_up(root: WalkNode) -> (Vec<String>, Vec<String>) {
    let mut w = BottomUpWalker::new(root);
    let mut yielded: Vec<String> = Vec::new();
    let mut listed: Vec<String> = Vec::new();
    loop {
        match w.next() {
            WalkStep::Yield(node) => yielded.push(node.key),
            WalkStep::List(key) => {
                w.listed(list(&key));
                listed.push(key);
            }
            WalkStep::Done => return (yielded, listed),
        }
    }
}

#[test]
fn top_down_yields_parents_first() {
    let (yielded, listed) = walk_top_down(dir("/"));
    assert_eq!(yielded, vec!["/", "a/", "a/x", "a/b/", "a/b/y", "c", "d/"]);
    assert_eq!(listed, vec!["/", "a/", "a/b/", "d/"]);
}

#[test]
fn bottom_up_yields_children_first() {
    let (yielded, listed) = walk_bottom_up(dir("/"));
    assert_eq!(yielded, vec!["a/x", "a/b/y", "a/b/", "a/", "c", "d/", "/"]);
    assert_eq!(listed, vec!["/", "a/", "a/b/", "d/"]);
}

#[test]
fn both_walks_yield_every_node_once() {
    let (mut down, _) = walk_top_down(dir("/"));
    let (mut up, _) = walk_bottom_up(dir("/"));
    down.sort();
    up.sort();
    assert_eq!(down, up);
    assert_eq!(down, vec!["/", "a/", "a/b/", "a/b/y", "a/x", "c", "d/"]);
}

#[test]
fn walk_of_a_single_file_yields_it_and_lists_nothing() {
    assert_eq!(walk_top_down(file("c")), (vec![String::from("c")], Vec::new()));
    assert_eq!(walk_bottom_up(file("c")), (vec![String::from("c")], Vec::new()));
}

#[test]
fn walk_of_an_empty_container_yields_it_alone() {
    assert_eq!(walk_top_down(dir("d/")), (vec![String::from("d/")], vec![String::from("d/")]));
    assert_eq!(walk_bottom_up(dir("d/")), (vec![String::from("d/")], vec![String::from("d/")]));
}

#[test]
fn top_down_asks_again_until_it_is_told() {
    let mut w = TopDownWalker::new(dir("/"));
    assert_eq!(w.next(), WalkStep::Yield(dir("/")));
    assert_eq!(w.next(), WalkStep::List(String::from("/")));
    assert_eq!(w.next(), WalkStep::List(String::from("/")));
    w.listed(vec![file("c")]);
    assert_eq!(w.next(), WalkStep::Yield(file("c")));
    assert_eq!(w.next(), WalkStep::Done);
    assert_eq!(w.next(), WalkStep::Done);
}

#[test]
fn bottom_up_asks_again_until_it_is_told() {
    let mut w = BottomUpWalker::new(dir("/"));
    assert_eq!(w.next(), WalkStep::List(String::from("/")));
    assert_eq!(w.next(), WalkStep::List(String::from("/")));
    w.listed(vec![file("c")]);
    assert_eq!(w.next(), WalkStep::Yield(file("c")));
    assert_eq!(w.next(), WalkStep::Yield(dir("/")));
    assert_eq!(w.next(), WalkStep::Done);
}

#[test]
fn listing_that_was_not_asked_for_is_ignored() {
    let mut w = TopDownWalker::new(file("c"));
    w.listed(vec![file("stray")]);
    assert_eq!(w.next(), WalkStep::Yield(file("c")));
    assert_eq!(w.next(), WalkStep::Done);

    let mut w = BottomUpWalker::new(file("c"));
    w.listed(vec![file("stray")]);
    assert_eq!(w.next(), WalkStep::Yield(file("c")));
    assert_eq!(w.next(), WalkStep::Done);
}
