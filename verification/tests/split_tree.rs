use bcon::pane::split_tree::{Node, SplitTree};
use bcon::pane::{Direction, PaneId};

/// The resize the terminal front end performs: the nearest matching split's
/// ratio moved by `delta` and clamped to 0.1..=0.9.
fn resize(tree: &mut SplitTree<f32>, pane: PaneId, delta: f32, dir: Direction) -> bool {
    let nid = match tree.resize_target(pane, dir) {
        Some(n) => n,
        None => return false,
    };
    let ratio = match tree.get(nid) {
        Some(Node::Split { ratio, .. }) => *ratio,
        _ => return false,
    };
    tree.set_ratio(nid, (ratio + delta).clamp(0.1, 0.9))
}

#[test]
fn test_single_leaf() {
    let tree = SplitTree::<f32>::new(PaneId(0));
    assert_eq!(tree.leaves(), vec![PaneId(0)]);
    assert_eq!(tree.leaf_count(), 1);
}

#[test]
fn test_split() {
    let mut tree = SplitTree::<f32>::new(PaneId(0));
    tree.split(PaneId(0), PaneId(1), Direction::Horizontal, 0.5);
    let leaves = tree.leaves();
    assert_eq!(leaves.len(), 2);
    assert!(leaves.contains(&PaneId(0)));
    assert!(leaves.contains(&PaneId(1)));
}

#[test]
fn test_nested_split() {
    let mut tree = SplitTree::<f32>::new(PaneId(0));
    tree.split(PaneId(0), PaneId(1), Direction::Horizontal, 0.5);
    tree.split(PaneId(1), PaneId(2), Direction::Vertical, 0.5);
    let leaves = tree.leaves();
    assert_eq!(leaves.len(), 3);
    assert!(leaves.contains(&PaneId(0)));
    assert!(leaves.contains(&PaneId(1)));
    assert!(leaves.contains(&PaneId(2)));
}

#[test]
fn test_remove() {
    let mut tree = SplitTree::<f32>::new(PaneId(0));
    tree.split(PaneId(0), PaneId(1), Direction::Horizontal, 0.5);

    let focus = tree.remove(PaneId(1));
    assert_eq!(focus, Some(PaneId(0)));
    assert_eq!(tree.leaves(), vec![PaneId(0)]);
}

#[test]
fn test_remove_first_child() {
    let mut tree = SplitTree::<f32>::new(PaneId(0));
    tree.split(PaneId(0), PaneId(1), Direction::Horizontal, 0.5);

    let focus = tree.remove(PaneId(0));
    assert_eq!(focus, Some(PaneId(1)));
    assert_eq!(tree.leaves(), vec![PaneId(1)]);
}

#[test]
fn test_cannot_remove_last_pane() {
    let mut tree = SplitTree::<f32>::new(PaneId(0));
    assert_eq!(tree.remove(PaneId(0)), None);
}

#[test]
fn test_resize_ratio() {
    let mut tree = SplitTree::<f32>::new(PaneId(0));
    tree.split(PaneId(0), PaneId(1), Direction::Horizontal, 0.5);

    assert!(resize(&mut tree, PaneId(0), 0.1, Direction::Horizontal));
    if let Some(Node::Split { ratio, .. }) = tree.get(tree.root.unwrap()) {
        assert!((ratio - 0.6).abs() < 0.001);
    }

    assert!(resize(&mut tree, PaneId(0), 1.0, Direction::Horizontal));
    if let Some(Node::Split { ratio, .. }) = tree.get(tree.root.unwrap()) {
        assert!((ratio - 0.9).abs() < 0.001);
    }

    let mut tree2 = SplitTree::<f32>::new(PaneId(0));
    tree2.split(PaneId(0), PaneId(1), Direction::Horizontal, 0.5);
    assert!(!resize(&mut tree2, PaneId(0), 0.1, Direction::Vertical));
}

#[test]
fn test_resize_nested_finds_ancestor() {
    let mut tree = SplitTree::<f32>::new(PaneId(0));
    tree.split(PaneId(0), PaneId(1), Direction::Horizontal, 0.5);
    tree.split(PaneId(1), PaneId(2), Direction::Vertical, 0.5);

    let root = tree.root.unwrap();
    let orig_ratio = if let Some(Node::Split { ratio, .. }) = tree.get(root) {
        *ratio
    } else {
        panic!("root should be split");
    };

    assert!(resize(&mut tree, PaneId(1), 0.1, Direction::Horizontal));
    if let Some(Node::Split { ratio, .. }) = tree.get(root) {
        assert!((ratio - (orig_ratio + 0.1)).abs() < 0.001);
    }

    assert!(resize(&mut tree, PaneId(2), -0.1, Direction::Horizontal));
    if let Some(Node::Split { ratio, .. }) = tree.get(root) {
        assert!((ratio - orig_ratio).abs() < 0.001);
    }
}

#[test]
fn test_remove_from_triple_split() {
    let mut tree = SplitTree::<f32>::new(PaneId(0));
    tree.split(PaneId(0), PaneId(1), Direction::Horizontal, 0.5);
    tree.split(PaneId(1), PaneId(2), Direction::Vertical, 0.5);
    assert_eq!(tree.leaf_count(), 3);

    let focus = tree.remove(PaneId(1));
    assert!(focus.is_some());
    assert_eq!(tree.leaf_count(), 2);
    let leaves = tree.leaves();
    assert!(leaves.contains(&PaneId(0)));
    assert!(leaves.contains(&PaneId(2)));
}

#[test]
fn test_split_no_self_reference() {
    let mut tree = SplitTree::<f32>::new(PaneId(0));
    tree.split(PaneId(0), PaneId(1), Direction::Horizontal, 0.5);

    let root = tree.root.unwrap();
    if let Some(Node::Split { first, second, .. }) = tree.get(root) {
        assert_ne!(*first, root, "first child must not point to itself");
        assert_ne!(*second, root, "second child must not point to itself");
        assert_ne!(first, second, "children must be different nodes");
    } else {
        panic!("root should be a Split node after split()");
    }
}

#[test]
fn removed_slots_are_reused_by_the_next_split() {
    let mut tree = SplitTree::<f32>::new(PaneId(0));
    assert_eq!(tree.split(PaneId(0), PaneId(1), Direction::Horizontal, 0.5), Some(0));
    assert_eq!(tree.split(PaneId(9), PaneId(2), Direction::Horizontal, 0.5), None);
    tree.remove(PaneId(1));
    assert_eq!(tree.leaves(), vec![PaneId(0)]);
    assert_eq!(tree.split(PaneId(0), PaneId(3), Direction::Vertical, 0.5), Some(0));
    assert_eq!(tree.leaves(), vec![PaneId(0), PaneId(3)]);
}
