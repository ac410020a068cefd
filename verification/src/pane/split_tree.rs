//! Arena-based binary split tree for pane layout.
//!
//! Each leaf holds a [`PaneId`], each internal node is a split with a
//! direction and a ratio. Ratios are the caller's own values (the layout
//! computes with them); the tree only stores and returns them.

use vstd::prelude::*;

use crate::pane::{Direction, PaneId};

verus! {

/// Index into the arena
pub type NodeId = usize;

/// Tree node: either a leaf (pane) or a split (two children)
#[derive(Debug, Clone, Copy)]
pub enum Node<R> {
    Leaf { pane_id: PaneId },
    Split {
        direction: Direction,
        /// Fraction allocated to `first`
        ratio: R,
        first: NodeId,
        second: NodeId,
    },
}

/// The tree as a value: every node with the arena slot that holds it.
pub enum TreeModel<R> {
    Leaf(NodeId, PaneId),
    Split(NodeId, Direction, R, Box<TreeModel<R>>, Box<TreeModel<R>>),
}

impl<R> TreeModel<R> {
    /// The first subtree of a split.
    pub open spec fn left(self) -> TreeModel<R> {
        match self {
            TreeModel::Split(_, _, _, a, _) => *a,
            TreeModel::Leaf(_, _) => self,
        }
    }

    /// The second subtree of a split.
    pub open spec fn right(self) -> TreeModel<R> {
        match self {
            TreeModel::Split(_, _, _, _, b) => *b,
            TreeModel::Leaf(_, _) => self,
        }
    }

    /// The slot of the root.
    pub open spec fn id(self) -> NodeId {
        match self {
            TreeModel::Leaf(i, _) => i,
            TreeModel::Split(i, _, _, _, _) => i,
        }
    }

    /// The slots of all nodes.
    pub open spec fn ids(self) -> Set<NodeId>
        decreases self,
    {
        match self {
            TreeModel::Leaf(i, _) => set![i],
            TreeModel::Split(i, _, _, a, b) => set![i] + a.ids() + b.ids(),
        }
    }

    /// No two nodes share a slot.
    pub open spec fn distinct(self) -> bool
        decreases self,
    {
        match self {
            TreeModel::Leaf(_, _) => true,
            TreeModel::Split(i, _, _, a, b) => {
                &&& !a.ids().contains(i)
                &&& !b.ids().contains(i)
                &&& a.ids().disjoint(b.ids())
                &&& a.distinct()
                &&& b.distinct()
            },
        }
    }

    /// The panes, left to right (top to bottom).
    pub open spec fn leaves(self) -> Seq<PaneId>
        decreases self,
    {
        match self {
            TreeModel::Leaf(_, p) => seq![p],
            TreeModel::Split(_, _, _, a, b) => a.leaves() + b.leaves(),
        }
    }

    /// The first pane (leftmost / topmost).
    pub open spec fn first_leaf(self) -> PaneId
        decreases self,
    {
        match self {
            TreeModel::Leaf(_, p) => p,
            TreeModel::Split(_, _, _, a, _) => a.first_leaf(),
        }
    }

    /// The slot of the first leaf holding `p`.
    pub open spec fn find_leaf(self, p: PaneId) -> Option<NodeId>
        decreases self,
    {
        match self {
            TreeModel::Leaf(i, q) => if q == p {
                Some(i)
            } else {
                None
            },
            TreeModel::Split(_, _, _, a, b) => match a.find_leaf(p) {
                Some(i) => Some(i),
                None => b.find_leaf(p),
            },
        }
    }

    /// The split whose child is the leaf holding `p`, and whether that
    /// leaf is its first child: a split's own children are looked at
    /// before its subtrees.
    pub open spec fn find_parent(self, p: PaneId) -> Option<(NodeId, bool)>
        decreases self,
    {
        match self {
            TreeModel::Leaf(_, _) => None,
            TreeModel::Split(i, _, _, a, b) => {
                if (*a matches TreeModel::Leaf(_, q) && q == p) {
                    Some((i, true))
                } else if (*b matches TreeModel::Leaf(_, q) && q == p) {
                    Some((i, false))
                } else {
                    match a.find_parent(p) {
                        Some(r) => Some(r),
                        None => b.find_parent(p),
                    }
                }
            },
        }
    }

    /// The subtree rooted at slot `id`.
    pub open spec fn subtree(self, id: NodeId) -> Option<TreeModel<R>>
        decreases self,
    {
        if self.id() == id {
            Some(self)
        } else {
            match self {
                TreeModel::Leaf(_, _) => None,
                TreeModel::Split(_, _, _, a, b) => match a.subtree(id) {
                    Some(t) => Some(t),
                    None => b.subtree(id),
                },
            }
        }
    }

    /// The tree with the subtree rooted at slot `id` replaced by `sub`.
    pub open spec fn replace(self, id: NodeId, sub: TreeModel<R>) -> TreeModel<R>
        decreases self,
    {
        if self.id() == id {
            sub
        } else {
            match self {
                TreeModel::Leaf(i, p) => TreeModel::Leaf(i, p),
                TreeModel::Split(i, d, r, a, b) => TreeModel::Split(
                    i,
                    d,
                    r,
                    Box::new(a.replace(id, sub)),
                    Box::new(b.replace(id, sub)),
                ),
            }
        }
    }

    /// The tree with its root moved to slot `id`.
    pub open spec fn with_id(self, id: NodeId) -> TreeModel<R> {
        match self {
            TreeModel::Leaf(_, p) => TreeModel::Leaf(id, p),
            TreeModel::Split(_, d, r, a, b) => TreeModel::Split(id, d, r, a, b),
        }
    }

    /// The slots from the root down to the first leaf holding `p`.
    pub open spec fn path_to(self, p: PaneId) -> Option<Seq<NodeId>>
        decreases self,
    {
        match self {
            TreeModel::Leaf(i, q) => if q == p {
                Some(seq![i])
            } else {
                None
            },
            TreeModel::Split(i, _, _, a, b) => match a.path_to(p) {
                Some(x) => Some(seq![i] + x),
                None => match b.path_to(p) {
                    Some(y) => Some(seq![i] + y),
                    None => None,
                },
            },
        }
    }
}

/// The arena holds the tree: each node of `t` sits in its slot, a split
/// naming its children's slots.
pub open spec fn repr<R>(nodes: Seq<Option<Node<R>>>, t: TreeModel<R>) -> bool
    decreases t,
{
    match t {
        TreeModel::Leaf(i, p) => i < nodes.len() && nodes[i as int] == Some(
            Node::<R>::Leaf { pane_id: p },
        ),
        TreeModel::Split(i, d, r, a, b) => {
            &&& i < nodes.len()
            &&& nodes[i as int] == Some(
                Node::Split { direction: d, ratio: r, first: a.id(), second: b.id() },
            )
            &&& repr(nodes, *a)
            &&& repr(nodes, *b)
        },
    }
}

/// The first empty slot, or the end of the arena.
pub open spec fn first_free<R>(nodes: Seq<Option<Node<R>>>, from: int) -> int
    decreases nodes.len() - from,
{
    if from < 0 || from >= nodes.len() {
        nodes.len() as int
    } else if nodes[from] is None {
        from
    } else {
        first_free(nodes, from + 1)
    }
}

/// The split that [`SplitTree::split`] puts in place of the leaf at slot
/// `leaf` holding `target`: the old pane first (moved to slot `old_slot`),
/// the new pane second (in slot `new_slot`).
pub open spec fn split_node<R>(
    leaf: NodeId,
    direction: Direction,
    ratio: R,
    old_slot: NodeId,
    target: PaneId,
    new_slot: NodeId,
    new_pane: PaneId,
) -> TreeModel<R> {
    TreeModel::Split(
        leaf,
        direction,
        ratio,
        Box::new(TreeModel::Leaf(old_slot, target)),
        Box::new(TreeModel::Leaf(new_slot, new_pane)),
    )
}

/// What removing pane `p` from `t` does: `None` when `t` is that single
/// pane or holds no split with a leaf child holding it; otherwise the
/// tree with that split replaced by its other child (moved into the
/// split's slot), and the first pane of that child, which takes the focus.
pub open spec fn removed<R>(t: TreeModel<R>, p: PaneId) -> Option<(TreeModel<R>, PaneId)> {
    if (t matches TreeModel::Leaf(_, q) && q == p) {
        None
    } else {
        match t.find_parent(p) {
            None => None,
            Some((i, first)) => match t.subtree(i) {
                Some(TreeModel::Split(_, _, _, a, b)) => {
                    let kept = if first {
                        *b
                    } else {
                        *a
                    };
                    Some((t.replace(i, kept.with_id(i)), kept.first_leaf()))
                },
                _ => None,
            },
        }
    }
}

// ============================================================================
// Lemmas on the arena
// ============================================================================
/// The slots of a held tree are filled.
proof fn lemma_repr_filled<R>(nodes: Seq<Option<Node<R>>>, t: TreeModel<R>, j: NodeId)
    requires
        repr(nodes, t),
        t.ids().contains(j),
    ensures
        j < nodes.len(),
        nodes[j as int] is Some,
    decreases t,
{
    match t {
        TreeModel::Leaf(_, _) => {},
        TreeModel::Split(i, _, _, a, b) => {
            if j != i {
                if a.ids().contains(j) {
                    lemma_repr_filled(nodes, *a, j);
                } else {
                    lemma_repr_filled(nodes, *b, j);
                }
            }
        },
    }
}

/// A tree stays held when the slots it uses are kept.
proof fn lemma_repr_frame<R>(nodes: Seq<Option<Node<R>>>, nodes2: Seq<Option<Node<R>>>, t: TreeModel<R>)
    requires
        repr(nodes, t),
        forall|j: NodeId| #[trigger] t.ids().contains(j) ==> j < nodes2.len() && nodes2[j as int] == nodes[j as int],
    ensures
        repr(nodes2, t),
    decreases t,
{
    assert(t.ids().contains(t.id()));
    match t {
        TreeModel::Leaf(_, _) => {},
        TreeModel::Split(i, _, _, a, b) => {
            assert forall|j: NodeId| #[trigger] (*a).ids().contains(j) implies j < nodes2.len() && nodes2[j as int]
                == nodes[j as int] by {
                assert(t.ids().contains(j));
            }
            assert forall|j: NodeId| #[trigger] (*b).ids().contains(j) implies j < nodes2.len() && nodes2[j as int]
                == nodes[j as int] by {
                assert(t.ids().contains(j));
            }
            lemma_repr_frame(nodes, nodes2, *a);
            lemma_repr_frame(nodes, nodes2, *b);
        },
    }
}

/// The subtree at a slot of the tree holds that slot and part of the
/// tree's slots.
proof fn lemma_subtree<R>(t: TreeModel<R>, id: NodeId)
    ensures
        t.subtree(id) is Some <==> t.ids().contains(id),
        t.subtree(id) matches Some(s) ==> s.id() == id && s.ids().subset_of(t.ids()),
    decreases t,
{
    match t {
        TreeModel::Leaf(_, _) => {},
        TreeModel::Split(i, _, _, a, b) => {
            lemma_subtree(*a, id);
            lemma_subtree(*b, id);
        },
    }
}

/// Replacing a subtree by one whose slots are new to the rest of the tree
/// gives a tree held by an arena that holds the new subtree and keeps the
/// slots of the rest.
proof fn lemma_replace<R>(
    nodes: Seq<Option<Node<R>>>,
    nodes2: Seq<Option<Node<R>>>,
    t: TreeModel<R>,
    id: NodeId,
    sub: TreeModel<R>,
)
    requires
        repr(nodes, t),
        t.distinct(),
        t.subtree(id) is Some,
        sub.id() == id,
        repr(nodes2, sub),
        sub.distinct(),
        forall|j: NodeId|
            #[trigger] t.ids().contains(j) && !t.subtree(id).unwrap().ids().contains(j) ==> j < nodes2.len()
                && nodes2[j as int] == nodes[j as int] && !sub.ids().contains(j),
    ensures
        repr(nodes2, t.replace(id, sub)),
        t.replace(id, sub).distinct(),
        t.replace(id, sub).id() == t.id(),
        t.replace(id, sub).ids() == t.ids().difference(t.subtree(id).unwrap().ids()) + sub.ids(),
    decreases t,
{
    lemma_subtree(t, id);
    if t.id() == id {
        assert(t.ids().difference(t.ids()) + sub.ids() =~= sub.ids());
    } else {
        match t {
            TreeModel::Leaf(_, _) => {},
            TreeModel::Split(i, d, r, a, b) => {
                lemma_subtree(*a, id);
                lemma_subtree(*b, id);
                let s = t.subtree(id).unwrap();
                assert(t.ids().contains(i));
                if a.subtree(id) is Some {
                    assert(s == a.subtree(id).unwrap());
                    assert(!s.ids().contains(i));
                    assert forall|j: NodeId|
                        #[trigger] (*a).ids().contains(j) && !s.ids().contains(j) implies j < nodes2.len()
                            && nodes2[j as int] == nodes[j as int] && !sub.ids().contains(j) by {
                        assert(t.ids().contains(j));
                    }
                    assert forall|j: NodeId| #[trigger] (*b).ids().contains(j) implies j < nodes2.len()
                        && nodes2[j as int] == nodes[j as int] && !sub.ids().contains(j) by {
                        assert(t.ids().contains(j));
                        assert(!a.ids().contains(j));
                    }
                    lemma_replace(nodes, nodes2, *a, id, sub);
                    lemma_replace_absent(*b, id, sub);
                    lemma_repr_frame(nodes, nodes2, *b);
                    let ra = a.replace(id, sub);
                    assert(ra.ids() == a.ids().difference(s.ids()) + sub.ids());
                    assert(!ra.ids().contains(i));
                    assert(ra.ids().disjoint(b.ids()));
                    assert(t.replace(id, sub) == TreeModel::Split(i, d, r, Box::new(ra), b));
                    assert(t.replace(id, sub).ids() =~= t.ids().difference(s.ids()) + sub.ids());
                } else {
                    assert(s == b.subtree(id).unwrap());
                    assert(!s.ids().contains(i));
                    assert forall|j: NodeId|
                        #[trigger] (*b).ids().contains(j) && !s.ids().contains(j) implies j < nodes2.len()
                            && nodes2[j as int] == nodes[j as int] && !sub.ids().contains(j) by {
                        assert(t.ids().contains(j));
                    }
                    assert forall|j: NodeId| #[trigger] (*a).ids().contains(j) implies j < nodes2.len()
                        && nodes2[j as int] == nodes[j as int] && !sub.ids().contains(j) by {
                        assert(t.ids().contains(j));
                        assert(!b.ids().contains(j));
                    }
                    lemma_replace(nodes, nodes2, *b, id, sub);
                    lemma_replace_absent(*a, id, sub);
                    lemma_repr_frame(nodes, nodes2, *a);
                    let rb = b.replace(id, sub);
                    assert(rb.ids() == b.ids().difference(s.ids()) + sub.ids());
                    assert(!rb.ids().contains(i));
                    assert(a.ids().disjoint(rb.ids()));
                    assert(t.replace(id, sub) == TreeModel::Split(i, d, r, a, Box::new(rb)));
                    assert(t.replace(id, sub).ids() =~= t.ids().difference(s.ids()) + sub.ids());
                }
            },
        }
    }
}

/// Replacing at a slot the tree does not use changes nothing.
proof fn lemma_replace_absent<R>(t: TreeModel<R>, id: NodeId, sub: TreeModel<R>)
    requires
        !t.ids().contains(id),
    ensures
        t.replace(id, sub) == t,
    decreases t,
{
    match t {
        TreeModel::Leaf(_, _) => {},
        TreeModel::Split(i, d, r, a, b) => {
            lemma_replace_absent(*a, id, sub);
            lemma_replace_absent(*b, id, sub);
        },
    }
}

/// The subtree at a slot of a held tree is held, and has distinct slots
/// when the tree has.
proof fn lemma_subtree_repr<R>(nodes: Seq<Option<Node<R>>>, t: TreeModel<R>, id: NodeId)
    requires
        repr(nodes, t),
        t.subtree(id) is Some,
    ensures
        repr(nodes, t.subtree(id).unwrap()),
        t.distinct() ==> t.subtree(id).unwrap().distinct(),
    decreases t,
{
    if t.id() != id {
        match t {
            TreeModel::Leaf(_, _) => {},
            TreeModel::Split(_, _, _, a, b) => {
                if a.subtree(id) is Some {
                    lemma_subtree_repr(nodes, *a, id);
                } else {
                    lemma_subtree_repr(nodes, *b, id);
                }
            },
        }
    }
}

/// A tree whose root node is copied to slot `id`, its other slots kept, is
/// held with its root at `id`.
proof fn lemma_moved_root_repr<R>(
    nodes: Seq<Option<Node<R>>>,
    nodes2: Seq<Option<Node<R>>>,
    t: TreeModel<R>,
    id: NodeId,
)
    requires
        repr(nodes, t),
        t.distinct(),
        id < nodes2.len(),
        nodes2[id as int] == nodes[t.id() as int],
        forall|j: NodeId| #[trigger] t.ids().contains(j) && j != t.id() ==> j < nodes2.len()
            && nodes2[j as int] == nodes[j as int],
    ensures
        repr(nodes2, t.with_id(id)),
{
    match t {
        TreeModel::Leaf(_, _) => {},
        TreeModel::Split(i, _, _, a, b) => {
            assert forall|j: NodeId| #[trigger] (*a).ids().contains(j) implies j < nodes2.len()
                && nodes2[j as int] == nodes[j as int] by {
                assert(t.ids().contains(j));
            }
            assert forall|j: NodeId| #[trigger] (*b).ids().contains(j) implies j < nodes2.len()
                && nodes2[j as int] == nodes[j as int] by {
                assert(t.ids().contains(j));
            }
            lemma_repr_frame(nodes, nodes2, *a);
            lemma_repr_frame(nodes, nodes2, *b);
        },
    }
}

/// The first free slot is empty or the end of the arena.
proof fn lemma_first_free<R>(nodes: Seq<Option<Node<R>>>, from: int)
    requires
        0 <= from,
    ensures
        from <= first_free(nodes, from) <= nodes.len() || (from > nodes.len() && first_free(nodes, from) == nodes.len()),
        first_free(nodes, from) < nodes.len() ==> nodes[first_free(nodes, from)] is None,
    decreases nodes.len() - from,
{
    if from < nodes.len() && nodes[from] is Some {
        lemma_first_free(nodes, from + 1);
    }
}

/// Moving a tree's root to another slot: the slots, with the root's
/// replaced, and the first pane.
proof fn lemma_with_id<R>(t: TreeModel<R>, id: NodeId)
    ensures
        t.with_id(id).id() == id,
        t.distinct() ==> t.with_id(id).ids() == t.ids().remove(t.id()).insert(id),
        t.with_id(id).first_leaf() == t.first_leaf(),
        t.with_id(id).leaves() == t.leaves(),
        t.distinct() && !t.ids().remove(t.id()).contains(id) ==> t.with_id(id).distinct(),
{
    match t {
        TreeModel::Leaf(i, p) => {
            assert(t.ids().remove(i).insert(id) =~= set![id]);
        },
        TreeModel::Split(i, d, r, a, b) => {
            if t.distinct() {
                assert(t.ids().remove(i) =~= a.ids() + b.ids());
                assert(t.with_id(id).ids() =~= t.ids().remove(t.id()).insert(id));
            }
        },
    }
}

/// A found leaf is a leaf subtree holding the pane.
proof fn lemma_find_leaf<R>(t: TreeModel<R>, p: PaneId)
    requires
        t.distinct(),
    ensures
        t.find_leaf(p) matches Some(i) ==> t.ids().contains(i) && t.subtree(i) == Some(
            TreeModel::<R>::Leaf(i, p),
        ),
    decreases t,
{
    match t {
        TreeModel::Leaf(i, q) => {
            if q == p {
                assert(t.subtree(i) == Some(t));
            }
        },
        TreeModel::Split(i, _, _, a, b) => {
            lemma_find_leaf(*a, p);
            lemma_find_leaf(*b, p);
            match a.find_leaf(p) {
                Some(j) => {
                    lemma_subtree(*a, j);
                    assert(j != i);
                },
                None => match b.find_leaf(p) {
                    Some(j) => {
                        lemma_subtree(*a, j);
                        lemma_subtree(*b, j);
                        assert(j != i);
                        assert(!a.ids().contains(j));
                    },
                    None => {},
                },
            }
        },
    }
}

/// A found parent is a split subtree whose first or second child is the
/// leaf holding the pane.
proof fn lemma_find_parent<R>(t: TreeModel<R>, p: PaneId)
    requires
        t.distinct(),
    ensures
        t.find_parent(p) matches Some((i, first)) ==> t.ids().contains(i) && (t.subtree(i) matches Some(
            TreeModel::Split(_, _, _, a, b),
        ) && (if first {
            *a matches TreeModel::Leaf(_, q) && q == p
        } else {
            *b matches TreeModel::Leaf(_, q) && q == p
        })),
    decreases t,
{
    match t {
        TreeModel::Leaf(_, _) => {},
        TreeModel::Split(i, _, _, a, b) => {
            lemma_find_parent(*a, p);
            lemma_find_parent(*b, p);
            if (*a matches TreeModel::Leaf(_, q) && q == p) {
                assert(t.subtree(i) == Some(t));
            } else if (*b matches TreeModel::Leaf(_, q) && q == p) {
                assert(t.subtree(i) == Some(t));
            } else {
                match a.find_parent(p) {
                    Some((j, _)) => {
                        lemma_subtree(*a, j);
                        assert(j != i);
                    },
                    None => match b.find_parent(p) {
                        Some((j, _)) => {
                            lemma_subtree(*a, j);
                            lemma_subtree(*b, j);
                            assert(j != i);
                            assert(!a.ids().contains(j));
                        },
                        None => {},
                    },
                }
            }
        },
    }
}

/// The last of the splits on `path` that has direction `dir`.
pub open spec fn last_split_with<R: Copy>(tree: SplitTree<R>, path: Seq<NodeId>, dir: Direction) -> Option<NodeId>
    decreases path.len(),
{
    if path.len() == 0 {
        None
    } else {
        let id = path.last();
        if (tree.node_at(id) matches Some(Node::Split { direction, .. }) && direction == dir) {
            Some(id)
        } else {
            last_split_with(tree, path.drop_last(), dir)
        }
    }
}

/// The tree with the split at slot `id` given ratio `ratio` (unchanged when
/// no split of the tree sits there).
pub open spec fn with_ratio<R>(t: TreeModel<R>, id: NodeId, ratio: R) -> TreeModel<R> {
    match t.subtree(id) {
        Some(TreeModel::Split(i, d, _, a, b)) => t.replace(id, TreeModel::Split(i, d, ratio, a, b)),
        _ => t,
    }
}

/// The panes of a tree with one subtree replaced: those before it, the
/// new subtree's, those after it.
proof fn lemma_replace_leaves<R>(t: TreeModel<R>, id: NodeId, sub: TreeModel<R>)
    requires
        t.distinct(),
        t.subtree(id) is Some,
    ensures
        t.replace(id, sub).leaves().len() == t.leaves().len() - t.subtree(id).unwrap().leaves().len()
            + sub.leaves().len(),
    decreases t,
{
    lemma_subtree(t, id);
    if t.id() != id {
        match t {
            TreeModel::Leaf(_, _) => {},
            TreeModel::Split(_, _, _, a, b) => {
                lemma_subtree(*a, id);
                lemma_subtree(*b, id);
                if a.subtree(id) is Some {
                    lemma_replace_leaves(*a, id, sub);
                    assert(!b.ids().contains(id));
                    lemma_replace_absent(*b, id, sub);
                } else {
                    lemma_replace_absent(*a, id, sub);
                    lemma_replace_leaves(*b, id, sub);
                }
            },
        }
    }
}

/// The first pane of a tree is the first of its panes in order (left to
/// right, top to bottom).
pub proof fn lemma_first_leaf_is_first<R>(t: TreeModel<R>)
    ensures
        t.leaves().len() >= 1,
        t.first_leaf() == t.leaves()[0],
    decreases t,
{
    match t {
        TreeModel::Leaf(_, _) => {},
        TreeModel::Split(_, _, _, a, b) => {
            lemma_first_leaf_is_first(*a);
            lemma_first_leaf_is_first(*b);
            assert((a.leaves() + b.leaves())[0] == a.leaves()[0]);
        },
    }
}

/// When a pane is removed, the pane that takes the focus is the first of
/// the panes of the subtree kept in place of the removed pane's split (the
/// removed pane's sibling).
pub proof fn lemma_remove_focus_is_first_of_sibling<R>(t: TreeModel<R>, p: PaneId)
    ensures
        removed(t, p) matches Some((_, focus)) ==> (t.find_parent(p) matches Some((i, first)) && t.subtree(i) matches Some(TreeModel::Split(_, _, _, a, b)) && focus == (if first {
            b.leaves()[0]
        } else {
            a.leaves()[0]
        })),
{
    match removed(t, p) {
        Some((_, focus)) => {
            match t.find_parent(p) {
                Some((i, first)) => match t.subtree(i) {
                    Some(TreeModel::Split(_, _, _, a, b)) => {
                        lemma_first_leaf_is_first(*a);
                        lemma_first_leaf_is_first(*b);
                    },
                    _ => {},
                },
                None => {},
            }
        },
        None => {},
    }
}

/// Splitting a pane adds exactly one pane; removing one, when it is
/// removed, takes exactly one away, and the pane taking the focus is one
/// the tree still holds.
pub proof fn lemma_split_remove_counts<R>(
    t: TreeModel<R>,
    target: PaneId,
    new_pane: PaneId,
    direction: Direction,
    ratio: R,
    old_slot: NodeId,
    new_slot: NodeId,
)
    requires
        t.distinct(),
    ensures
        t.find_leaf(target) matches Some(leaf) ==> t.replace(
            leaf,
            split_node(leaf, direction, ratio, old_slot, target, new_slot, new_pane),
        ).leaves().len() == t.leaves().len() + 1,
        removed(t, target) matches Some((t2, _)) ==> t2.leaves().len() + 1 == t.leaves().len(),
{
    lemma_find_leaf(t, target);
    match t.find_leaf(target) {
        Some(leaf) => {
            let sn = split_node(leaf, direction, ratio, old_slot, target, new_slot, new_pane);
            assert(sn.left().leaves().len() == 1 && sn.right().leaves().len() == 1);
            assert(sn.leaves().len() == 2);
            assert(t.subtree(leaf).unwrap().leaves().len() == 1);
            lemma_replace_leaves(t, leaf, sn);
        },
        None => {},
    }
    lemma_find_parent(t, target);
    match removed(t, target) {
        Some((t2, _)) => {
            let (i, first) = t.find_parent(target).unwrap();
            let s = t.subtree(i).unwrap();
            let kept = if first {
                s.right()
            } else {
                s.left()
            };
            assert(s.leaves() == s.left().leaves() + s.right().leaves());
            if first {
                assert(s.left().leaves().len() == 1);
            } else {
                assert(s.right().leaves().len() == 1);
            }
            assert(s.leaves().len() == kept.leaves().len() + 1);
            lemma_with_id(kept, i);
            lemma_replace_leaves(t, i, kept.with_id(i));
        },
        None => {},
    }
}

// ============================================================================
// The tree
// ============================================================================
/// Arena-based binary tree for pane splits
pub struct SplitTree<R> {
    nodes: Vec<Option<Node<R>>>,
    pub root: Option<NodeId>,
    model: Ghost<Option<TreeModel<R>>>,
}

impl<R: Copy> SplitTree<R> {
    /// The tree as a value.
    pub closed spec fn model(&self) -> Option<TreeModel<R>> {
        self.model@
    }

    /// The slot of the root.
    pub closed spec fn root_id(&self) -> Option<NodeId> {
        self.root
    }

    /// The node in arena slot `id`.
    pub closed spec fn node_at(&self, id: NodeId) -> Option<Node<R>> {
        if id < self.nodes@.len() {
            self.nodes@[id as int]
        } else {
            None
        }
    }

    /// The slot the next allocation takes.
    pub closed spec fn free_slot(&self) -> NodeId {
        first_free(self.nodes@, 0) as NodeId
    }

    /// The number of slots.
    pub closed spec fn slot_count(&self) -> nat {
        self.nodes@.len()
    }

    /// The arena holds the tree, whose root is `root`.
    pub closed spec fn wf(&self) -> bool {
        match (self.root, self.model@) {
            (Some(r), Some(t)) => t.id() == r && repr(self.nodes@, t) && t.distinct()
                && self.nodes@.len() < usize::MAX,
            (None, None) => self.nodes@.len() < usize::MAX,
            _ => false,
        }
    }

    /// Every slot of the tree holds its node.
    pub proof fn lemma_nodes(&self)
        requires
            self.wf(),
        ensures
            self.model() matches Some(t) ==> forall|i: NodeId| #[trigger]
                t.ids().contains(i) ==> self.node_at(i) is Some,
            self.model() matches Some(t) ==> self.root_id() == Some(t.id()),
            self.model() is None ==> self.root_id() is None,
    {
        match self.model@ {
            Some(t) => {
                assert forall|i: NodeId| #[trigger] t.ids().contains(i) implies self.node_at(i) is Some by {
                    lemma_repr_filled(self.nodes@, t, i);
                }
            },
            None => {},
        }
    }

    /// Create a tree with a single leaf
    pub fn new(pane_id: PaneId) -> (r: Self)
        ensures
            r.wf(),
            r.model() == Some(TreeModel::<R>::Leaf(0, pane_id)),
            r.root_id() == Some(0usize),
    {
        let mut nodes: Vec<Option<Node<R>>> = Vec::new();
        nodes.push(Some(Node::Leaf { pane_id }));
        SplitTree { nodes, root: Some(0), model: Ghost(Some(TreeModel::Leaf(0, pane_id))) }
    }

    /// Allocate a node in the arena, reusing free slots
    fn alloc_node(&mut self, node: Node<R>) -> (id: NodeId)
        requires
            old(self).nodes@.len() + 1 < usize::MAX,
        ensures
            id == first_free(old(self).nodes@, 0),
            id < final(self).nodes@.len(),
            final(self).nodes@ == (if id < old(self).nodes@.len() {
                old(self).nodes@.update(id as int, Some(node))
            } else {
                old(self).nodes@.push(Some(node))
            }),
            final(self).root == old(self).root,
            final(self).model == old(self).model,
    {
        let mut i: usize = 0;
        while i < self.nodes.len()
            invariant
                0 <= i <= self.nodes@.len(),
                self.nodes@ == old(self).nodes@,
                self.root == old(self).root,
                self.model == old(self).model,
                first_free(self.nodes@, 0) == first_free(self.nodes@, i as int),
            decreases self.nodes@.len() - i,
        {
            if self.nodes[i].is_none() {
                self.nodes.set(i, Some(node));
                return i;
            }
            i = i + 1;
        }
        let id = self.nodes.len();
        self.nodes.push(Some(node));
        id
    }

    /// Get a reference to a node
    pub fn get(&self, id: NodeId) -> (r: Option<&Node<R>>)
        ensures
            match r {
                Some(n) => self.node_at(id) == Some(*n),
                None => self.node_at(id) is None,
            },
    {
        if id < self.nodes.len() {
            match &self.nodes[id] {
                Some(n) => Some(n),
                None => None,
            }
        } else {
            None
        }
    }

    /// The slot of the first leaf holding `pane_id` below `node_id`.
    fn find_leaf_recursive(&self, node_id: NodeId, pane_id: PaneId, Ghost(t): Ghost<TreeModel<R>>) -> (r: Option<NodeId>)
        requires
            repr(self.nodes@, t),
            t.id() == node_id,
        ensures
            r == t.find_leaf(pane_id),
        decreases t,
    {
        match self.get(node_id) {
            Some(Node::Leaf { pane_id: pid }) => {
                if *pid == pane_id {
                    Some(node_id)
                } else {
                    None
                }
            },
            Some(Node::Split { first, second, .. }) => {
                let f = *first;
                let s = *second;
                let ghost a = t.left();
                let ghost b = t.right();
                let found = self.find_leaf_recursive(f, pane_id, Ghost(a));
                if found.is_some() {
                    found
                } else {
                    self.find_leaf_recursive(s, pane_id, Ghost(b))
                }
            },
            None => None,
        }
    }

    /// Find the NodeId of the leaf with the given PaneId
    fn find_leaf(&self, pane_id: PaneId) -> (r: Option<NodeId>)
        requires
            self.wf(),
        ensures
            r == (match self.model() {
                Some(t) => t.find_leaf(pane_id),
                None => None,
            }),
    {
        match self.root {
            Some(root) => self.find_leaf_recursive(root, pane_id, Ghost(self.model@.unwrap())),
            None => None,
        }
    }

    /// Find the parent of a leaf. Returns (parent_id, is_first_child).
    fn find_parent(&self, node_id: NodeId, pane_id: PaneId, Ghost(t): Ghost<TreeModel<R>>) -> (r: Option<(NodeId, bool)>)
        requires
            repr(self.nodes@, t),
            t.id() == node_id,
        ensures
            r == t.find_parent(pane_id),
        decreases t,
    {
        match self.get(node_id) {
            Some(Node::Leaf { .. }) => None,
            Some(Node::Split { first, second, .. }) => {
                let f = *first;
                let s = *second;
                let ghost a = t.left();
                let ghost b = t.right();
                {
                    {
                        proof {
                            assert(repr(self.nodes@, a));
                            assert(repr(self.nodes@, b));
                            assert(a.id() == f && b.id() == s);
                        }
                        match self.get(f) {
                            Some(Node::Leaf { pane_id: pid }) => {
                                if *pid == pane_id {
                                    proof {
                                        assert(a == TreeModel::<R>::Leaf(f, *pid));
                                    }
                                    return Some((node_id, true));
                                }
                            },
                            _ => {},
                        }
                        match self.get(s) {
                            Some(Node::Leaf { pane_id: pid }) => {
                                if *pid == pane_id {
                                    proof {
                                        assert(b == TreeModel::<R>::Leaf(s, *pid));
                                        assert(!(a matches TreeModel::Leaf(_, q) && q == pane_id));
                                    }
                                    return Some((node_id, false));
                                }
                            },
                            _ => {},
                        }
                        let found = self.find_parent(f, pane_id, Ghost(a));
                        if found.is_some() {
                            found
                        } else {
                            self.find_parent(s, pane_id, Ghost(b))
                        }
                    }
                }
            },
            None => None,
        }
    }

    /// Get the first leaf PaneId in a subtree (leftmost/topmost)
    fn first_leaf(&self, node_id: NodeId, Ghost(t): Ghost<TreeModel<R>>) -> (r: Option<PaneId>)
        requires
            repr(self.nodes@, t),
            t.id() == node_id,
        ensures
            r == Some(t.first_leaf()),
        decreases t,
    {
        match self.get(node_id) {
            Some(Node::Leaf { pane_id }) => Some(*pane_id),
            Some(Node::Split { first, .. }) => self.first_leaf(*first, Ghost(t.left())),
            None => None,
        }
    }

    /// Collect all leaf PaneIds
    pub fn leaves(&self) -> (r: Vec<PaneId>)
        requires
            self.wf(),
        ensures
            r@ == (match self.model() {
                Some(t) => t.leaves(),
                None => Seq::empty(),
            }),
    {
        let mut result: Vec<PaneId> = Vec::new();
        match self.root {
            Some(root) => {
                self.collect_leaves(root, &mut result, Ghost(self.model@.unwrap()));
                proof {
                    assert(result@ =~= self.model@.unwrap().leaves());
                }
            },
            None => {},
        }
        result
    }

    fn collect_leaves(&self, node_id: NodeId, out: &mut Vec<PaneId>, Ghost(t): Ghost<TreeModel<R>>)
        requires
            repr(self.nodes@, t),
            t.id() == node_id,
        ensures
            final(out)@ == old(out)@ + t.leaves(),
        decreases t,
    {
        match self.get(node_id) {
            Some(Node::Leaf { pane_id }) => {
                out.push(*pane_id);
            },
            Some(Node::Split { first, second, .. }) => {
                let f = *first;
                let s = *second;
                let ghost mid = out@;
                self.collect_leaves(f, out, Ghost(t.left()));
                self.collect_leaves(s, out, Ghost(t.right()));
                proof {
                    assert(out@ =~= old(out)@ + t.leaves());
                }
            },
            None => {},
        }
    }

    /// Split the leaf containing `pane_id` into two panes.
    /// The existing pane goes to `first`, the new pane to `second`.
    /// Returns the NodeId of the new split node (the leaf's slot).
    pub fn split(&mut self, target_pane: PaneId, new_pane: PaneId, direction: Direction, ratio: R) -> (r: Option<NodeId>)
        requires
            old(self).wf(),
            old(self).slot_count() + 2 < usize::MAX,
        ensures
            final(self).wf(),
            match old(self).model() {
                Some(t) => match t.find_leaf(target_pane) {
                    Some(leaf) => {
                        let new_slot = old(self).free_slot();
                        let old_slot: NodeId = if new_slot < old(self).slot_count() {
                            old(self).slot_count() as NodeId
                        } else {
                            (old(self).slot_count() + 1) as NodeId
                        };
                        &&& r == Some(leaf)
                        &&& final(self).model() == Some(
                            t.replace(
                                leaf,
                                split_node(leaf, direction, ratio, old_slot, target_pane, new_slot, new_pane),
                            ),
                        )
                    },
                    None => r is None && *final(self) == *old(self),
                },
                None => r is None && *final(self) == *old(self),
            },
    {
        let leaf_id = match self.find_leaf(target_pane) {
            Some(i) => i,
            None => {
                return None;
            },
        };
        let ghost t = self.model@.unwrap();
        let ghost nodes0 = self.nodes@;
        proof {
            lemma_find_leaf(t, target_pane);
            lemma_subtree(t, leaf_id);
            lemma_repr_filled(nodes0, t, leaf_id);
            lemma_first_free(nodes0, 0);
        }
        let new_leaf = self.alloc_node(Node::Leaf { pane_id: new_pane });
        // The old leaf moves to a fresh slot at the end; reusing a free slot
        // here could make the split its own child.
        let old_leaf_id = self.nodes.len();
        self.nodes.push(Some(Node::Leaf { pane_id: target_pane }));
        let ghost sub = split_node(leaf_id, direction, ratio, old_leaf_id, target_pane, new_leaf, new_pane);
        self.nodes.set(leaf_id, Some(Node::Split { direction, ratio, first: old_leaf_id, second: new_leaf }));
        proof {
            let nodes2 = self.nodes@;
            assert(new_leaf != leaf_id);
            assert(new_leaf != old_leaf_id);
            assert(old_leaf_id != leaf_id);
            assert(nodes2[leaf_id as int] == Some(
                Node::Split { direction, ratio, first: old_leaf_id, second: new_leaf },
            ));
            assert(nodes2[old_leaf_id as int] == Some(Node::<R>::Leaf { pane_id: target_pane }));
            assert(nodes2[new_leaf as int] == Some(Node::<R>::Leaf { pane_id: new_pane }));
            assert(repr(nodes2, sub.left()));
            assert(repr(nodes2, sub.right()));
            assert(repr(nodes2, sub));
            assert(sub.left().ids() =~= set![old_leaf_id]);
            assert(sub.right().ids() =~= set![new_leaf]);
            assert(sub.left().ids().disjoint(sub.right().ids()));
            assert(!sub.left().ids().contains(leaf_id));
            assert(!sub.right().ids().contains(leaf_id));
            assert(sub.left().distinct());
            assert(sub.right().distinct());
            assert(sub.distinct());
            assert forall|j: NodeId|
                #[trigger] t.ids().contains(j) && !t.subtree(leaf_id).unwrap().ids().contains(j) implies j
                    < nodes2.len() && nodes2[j as int] == nodes0[j as int] && !sub.ids().contains(j) by {
                lemma_repr_filled(nodes0, t, j);
            }
            lemma_replace(nodes0, nodes2, t, leaf_id, sub);
        }
        self.model = Ghost(Some(t.replace(leaf_id, sub)));
        Some(leaf_id)
    }

    /// Free a node slot
    fn free(&mut self, id: NodeId)
        ensures
            final(self).nodes@ == (if id < old(self).nodes@.len() {
                old(self).nodes@.update(id as int, None)
            } else {
                old(self).nodes@
            }),
            final(self).root == old(self).root,
            final(self).model == old(self).model,
    {
        if id < self.nodes.len() {
            self.nodes.set(id, None);
        }
    }

    /// Remove a pane, collapsing its parent split.
    /// Returns the PaneId of the sibling that takes over (for focus).
    pub fn remove(&mut self, pane_id: PaneId) -> (r: Option<PaneId>)
        requires
            old(self).wf(),
        ensures
            final(self).wf(),
            match old(self).model() {
                Some(t) => match removed(t, pane_id) {
                    Some((t2, focus)) => r == Some(focus) && final(self).model() == Some(t2),
                    None => r is None && *final(self) == *old(self),
                },
                None => r is None && *final(self) == *old(self),
            },
    {
        let root = match self.root {
            Some(r) => r,
            None => {
                return None;
            },
        };
        let ghost t = self.model@.unwrap();
        let ghost nodes0 = self.nodes@;
        // Special case: removing the only pane
        match self.get(root) {
            Some(Node::Leaf { pane_id: pid }) => {
                if *pid == pane_id {
                    return None;
                }
            },
            _ => {},
        }
        // Find parent of the leaf
        let (parent_id, is_first) = match self.find_parent(root, pane_id, Ghost(t)) {
            Some(x) => x,
            None => {
                return None;
            },
        };
        proof {
            lemma_find_parent(t, pane_id);
            lemma_subtree(t, parent_id);
        }
        let ghost s = t.subtree(parent_id).unwrap();
        let ghost a = s.left();
        let ghost b = s.right();
        proof {
            lemma_subtree_repr(nodes0, t, parent_id);
            lemma_repr_filled(nodes0, t, parent_id);
        }
        proof {
            assert(s.ids().subset_of(t.ids()));
            assert(s.ids().contains(a.id()) && s.ids().contains(b.id()));
            assert(a.ids().contains(a.id()) && b.ids().contains(b.id()));
            lemma_repr_filled(nodes0, t, a.id());
            lemma_repr_filled(nodes0, t, b.id());
        }
        let parent = self.nodes[parent_id];
        let (first, second) = match parent {
            Some(Node::Split { first, second, .. }) => (first, second),
            _ => {
                proof {
                    assert(false);
                }
                return None;
            },
        };
        let (remove_id, keep_id) = if is_first {
            (first, second)
        } else {
            (second, first)
        };
        let ghost kept = if is_first {
            b
        } else {
            a
        };
        let kept_node = self.nodes[keep_id];
        self.nodes.set(parent_id, kept_node);
        self.free(remove_id);
        self.free(keep_id);
        let ghost nk = kept.with_id(parent_id);
        proof {
            let nodes2 = self.nodes@;
            lemma_with_id(kept, parent_id);
            lemma_repr_filled(nodes0, t, parent_id);
            assert(s.ids().contains(a.id()) && s.ids().contains(b.id()));
            assert(a.ids().contains(a.id()) && b.ids().contains(b.id()));
            assert(!a.ids().contains(parent_id) && !b.ids().contains(parent_id));
            assert(first == a.id() && second == b.id());
            assert(nodes2[parent_id as int] == nodes0[kept.id() as int]);
            assert(remove_id != parent_id && keep_id != parent_id && remove_id != keep_id);
            assert forall|j: NodeId| #[trigger] kept.ids().contains(j) && j != kept.id() implies j < nodes2.len()
                && nodes2[j as int] == nodes0[j as int] by {
                assert(s.ids().contains(j));
                assert(j != parent_id);
                if is_first {
                    assert(b.ids().contains(j));
                    assert(!a.ids().contains(j));
                } else {
                    assert(a.ids().contains(j));
                    assert(!b.ids().contains(j));
                }
                assert(j != remove_id);
                lemma_repr_filled(nodes0, t, j);
            }
            lemma_moved_root_repr(nodes0, nodes2, kept, parent_id);
            assert forall|j: NodeId|
                #[trigger] t.ids().contains(j) && !t.subtree(parent_id).unwrap().ids().contains(j) implies j
                    < nodes2.len() && nodes2[j as int] == nodes0[j as int] && !nk.ids().contains(j) by {
                lemma_repr_filled(nodes0, t, j);
            }
            lemma_replace(nodes0, nodes2, t, parent_id, nk);
        }
        self.model = Ghost(Some(t.replace(parent_id, nk)));
        // Return the first leaf in the kept subtree for focus
        self.first_leaf(parent_id, Ghost(nk))
    }

    /// Collect the path of node IDs from root to a leaf with the given PaneId.
    fn path_to_leaf(&self, node_id: NodeId, pane_id: PaneId, path: &mut Vec<NodeId>, Ghost(t): Ghost<TreeModel<R>>) -> (r: bool)
        requires
            repr(self.nodes@, t),
            t.id() == node_id,
        ensures
            match t.path_to(pane_id) {
                Some(p) => r && final(path)@ == old(path)@ + p,
                None => !r && final(path)@ == old(path)@,
            },
        decreases t,
    {
        path.push(node_id);
        match self.get(node_id) {
            Some(Node::Leaf { pane_id: pid }) => {
                if *pid == pane_id {
                    proof {
                        assert(path@ =~= old(path)@ + seq![node_id]);
                    }
                    return true;
                }
                path.pop();
                proof {
                    assert(path@ =~= old(path)@);
                }
                false
            },
            Some(Node::Split { first, second, .. }) => {
                let f = *first;
                let s = *second;
                let ghost mid = path@;
                if self.path_to_leaf(f, pane_id, path, Ghost(t.left())) {
                    proof {
                        assert(path@ =~= old(path)@ + seq![node_id] + t.left().path_to(pane_id).unwrap());
                        assert(path@ =~= old(path)@ + t.path_to(pane_id).unwrap());
                    }
                    return true;
                }
                if self.path_to_leaf(s, pane_id, path, Ghost(t.right())) {
                    proof {
                        assert(path@ =~= old(path)@ + seq![node_id] + t.right().path_to(pane_id).unwrap());
                        assert(path@ =~= old(path)@ + t.path_to(pane_id).unwrap());
                    }
                    return true;
                }
                path.pop();
                proof {
                    assert(path@ =~= old(path)@);
                }
                false
            },
            None => {
                path.pop();
                proof {
                    assert(path@ =~= old(path)@);
                }
                false
            },
        }
    }

    /// The split a resize of `pane_id` in direction `target_dir` adjusts:
    /// the nearest ancestor of the pane's leaf that splits that way.
    pub fn resize_target(&self, pane_id: PaneId, target_dir: Direction) -> (r: Option<NodeId>)
        requires
            self.wf(),
        ensures
            r == (match self.model() {
                Some(t) => match t.path_to(pane_id) {
                    Some(p) => last_split_with(*self, p, target_dir),
                    None => None,
                },
                None => None,
            }),
    {
        let root = match self.root {
            Some(r) => r,
            None => {
                return None;
            },
        };
        let mut path: Vec<NodeId> = Vec::new();
        if !self.path_to_leaf(root, pane_id, &mut path, Ghost(self.model@.unwrap())) {
            return None;
        }
        proof {
            assert(path@ =~= self.model@.unwrap().path_to(pane_id).unwrap());
        }
        // Walk path from leaf towards root
        let mut i = path.len();
        proof {
            assert(path@.take(path@.len() as int) =~= path@);
        }
        while i > 0
            invariant
                0 <= i <= path@.len(),
                self.model() matches Some(t) && t.path_to(pane_id) == Some(path@),
                last_split_with(*self, path@, target_dir) == last_split_with(*self, path@.take(i as int), target_dir),
            decreases i,
        {
            let nid = path[i - 1];
            proof {
                assert(path@.take(i as int).drop_last() =~= path@.take(i - 1));
                assert(path@.take(i as int).last() == nid);
            }
            match self.get(nid) {
                Some(Node::Split { direction, .. }) => {
                    if *direction == target_dir {
                        return Some(nid);
                    }
                },
                _ => {},
            }
            i = i - 1;
        }
        proof {
            assert(path@.take(0) =~= Seq::<NodeId>::empty());
        }
        None
    }

    /// Sets the ratio of the split in slot `id`; false when the slot holds
    /// no split.
    pub fn set_ratio(&mut self, id: NodeId, ratio: R) -> (r: bool)
        requires
            old(self).wf(),
        ensures
            final(self).wf(),
            r == (old(self).node_at(id) matches Some(Node::Split { .. })),
            final(self).model() == (match old(self).model() {
                Some(t) => Some(with_ratio(t, id, ratio)),
                None => None,
            }),
            !r ==> *final(self) == *old(self),
    {
        let (direction, first, second) = match self.get(id) {
            Some(Node::Split { direction, first, second, .. }) => (*direction, *first, *second),
            _ => {
                proof {
                    match self.model@ {
                        Some(t) => {
                            lemma_subtree(t, id);
                            if t.ids().contains(id) {
                                lemma_subtree_repr(self.nodes@, t, id);
                                lemma_repr_filled(self.nodes@, t, id);
                            }
                        },
                        None => {},
                    }
                }
                return false;
            },
        };
        let ghost nodes0 = self.nodes@;
        let ghost m = self.model@;
        self.nodes.set(id, Some(Node::Split { direction, ratio, first, second }));
        proof {
            let nodes2 = self.nodes@;
            match m {
                Some(t) => {
                    lemma_subtree(t, id);
                    if t.ids().contains(id) {
                        lemma_subtree_repr(nodes0, t, id);
                        let sb = t.subtree(id).unwrap();
                        let a = sb.left();
                        let b = sb.right();
                        let sub = TreeModel::Split(id, direction, ratio, Box::new(a), Box::new(b));
                        lemma_repr_filled(nodes0, t, id);
                        assert(repr(nodes0, sb) && sb.id() == id && sb.distinct());
                        assert(sb matches TreeModel::Split(..));
                        assert(!a.ids().contains(id) && !b.ids().contains(id));
                        assert forall|j: NodeId| #[trigger] a.ids().contains(j) implies j < nodes2.len()
                            && nodes2[j as int] == nodes0[j as int] by {
                            assert(sb.ids().contains(j));
                            lemma_repr_filled(nodes0, sb, j);
                        }
                        assert forall|j: NodeId| #[trigger] b.ids().contains(j) implies j < nodes2.len()
                            && nodes2[j as int] == nodes0[j as int] by {
                            assert(sb.ids().contains(j));
                            lemma_repr_filled(nodes0, sb, j);
                        }
                        lemma_repr_frame(nodes0, nodes2, a);
                        lemma_repr_frame(nodes0, nodes2, b);
                        assert(sub.ids() =~= sb.ids());
                        assert forall|j: NodeId|
                            #[trigger] t.ids().contains(j) && !t.subtree(id).unwrap().ids().contains(j) implies j
                                < nodes2.len() && nodes2[j as int] == nodes0[j as int] && !sub.ids().contains(j) by {
                            lemma_repr_filled(nodes0, t, j);
                        }
                        lemma_replace(nodes0, nodes2, t, id, sub);
                        assert(with_ratio(t, id, ratio) == t.replace(id, sub));
                    } else {
                        assert forall|j: NodeId| #[trigger] t.ids().contains(j) implies j < nodes2.len()
                            && nodes2[j as int] == nodes0[j as int] by {
                            lemma_repr_filled(nodes0, t, j);
                        }
                        lemma_repr_frame(nodes0, nodes2, t);
                    }
                },
                None => {},
            }
        }
        self.model = Ghost(
            match m {
                Some(t) => Some(with_ratio(t, id, ratio)),
                None => None,
            },
        );
        true
    }

    /// Count total leaves
    pub fn leaf_count(&self) -> (r: usize)
        requires
            self.wf(),
        ensures
            r == (match self.model() {
                Some(t) => t.leaves().len(),
                None => 0,
            }),
    {
        self.leaves().len()
    }
}

} // verus!
