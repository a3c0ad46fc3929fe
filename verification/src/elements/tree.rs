//! Tree: the caller's hierarchical model, the visible-node flattening that
//! turns it into a 1-D focus ring, and the keyboard navigation over that ring.
//!
//! Expansion is caller-owned: a node is expanded iff its id is in the
//! `expanded` set, and a node's children are visible only when every ancestor
//! (including itself) is expanded. Flattening is depth-first, so the visible
//! order matches what the user sees top-to-bottom.
use vstd::prelude::*;

use std::collections::HashSet;

verus! {

broadcast use vstd::std_specs::hash::group_hash_axioms;

/// One node of a tree's caller-owned model: a stable id, a label, and zero or
/// more children.
#[derive(Debug)]
pub struct TreeNode {
    /// Stable, caller-assigned id (unique within the tree).
    pub id: u64,
    /// Visible text and accessible name of the node.
    pub label: String,
    /// Child nodes (empty for a leaf).
    pub children: Vec<TreeNode>,
}

impl TreeNode {
    /// A leaf node with the given id and label.
    pub fn new(id: u64, label: &str) -> (r: TreeNode)
        ensures
            r.id == id,
            r.label@ == label@,
            r.children@.len() == 0,
    {
        TreeNode { id, label: label.to_owned(), children: Vec::new() }
    }

    /// Append a child node (builder style).
    pub fn child(self, child: TreeNode) -> (r: TreeNode)
        ensures
            r.id == self.id,
            r.label == self.label,
            r.children@ == self.children@.push(child),
    {
        let mut s = self;
        s.children.push(child);
        s
    }

    /// Append several child nodes (builder style).
    pub fn children(self, children: Vec<TreeNode>) -> (r: TreeNode)
        ensures
            r.id == self.id,
            r.label == self.label,
            r.children@ == self.children@ + children@,
    {
        let mut s = self;
        let mut more = children;
        s.children.append(&mut more);
        s
    }
}

/// One row of the flattened, currently visible tree.
#[derive(Clone, Debug)]
pub struct VisibleNode {
    /// The node's id.
    pub id: u64,
    /// The node's label.
    pub label: String,
    /// Indentation depth (0 = a root).
    pub depth: usize,
    /// Whether the node has any children.
    pub has_children: bool,
    /// Whether the node is currently expanded.
    pub expanded: bool,
    /// Whether the node is the committed selection.
    pub selected: bool,
}

/// Abstract row: id, label, depth, has_children, expanded, selected.
pub type RowView = (u64, Seq<char>, int, bool, bool, bool);

impl View for VisibleNode {
    type V = RowView;

    open spec fn view(&self) -> RowView {
        (self.id, self.label@, self.depth as int, self.has_children, self.expanded, self.selected)
    }
}

/// Height of a forest (0 for no nodes).
pub open spec fn forest_height(nodes: Seq<TreeNode>) -> int
    decreases nodes,
{
    if nodes.len() == 0 {
        0
    } else {
        let first = nodes[0];
        proof {
            assert(decreases_to!(nodes => first));
        }
        let below = 1 + forest_height(first.children@);
        let rest = forest_height(nodes.drop_first());
        if below >= rest {
            below
        } else {
            rest
        }
    }
}

/// The visible rows of `nodes` at `depth`, depth-first: every node is listed,
/// and its children follow it (one level deeper) only when it has children and
/// is expanded.
pub open spec fn visible_rows(
    nodes: Seq<TreeNode>,
    depth: int,
    expanded: Set<u64>,
    selected: Option<u64>,
) -> Seq<RowView>
    decreases nodes,
{
    if nodes.len() == 0 {
        Seq::empty()
    } else {
        let n = nodes[0];
        proof {
            assert(decreases_to!(nodes => n));
        }
        let has_children = n.children@.len() > 0;
        let is_expanded = expanded.contains(n.id);
        let row: RowView = (n.id, n.label@, depth, has_children, is_expanded, selected == Some(n.id));
        let below = if has_children && is_expanded {
            visible_rows(n.children@, depth + 1, expanded, selected)
        } else {
            Seq::empty()
        };
        seq![row] + below + visible_rows(nodes.drop_first(), depth, expanded, selected)
    }
}

/// Flatten the visible nodes of `roots` depth-first.
pub fn flatten_visible(roots: &Vec<TreeNode>, expanded: &HashSet<u64>, selected: Option<u64>) -> (r:
    Vec<VisibleNode>)
    requires
        forest_height(roots@) <= usize::MAX,
    ensures
        r@.map_values(|v: VisibleNode| v@) == visible_rows(roots@, 0, expanded@, selected),
{
    let mut out: Vec<VisibleNode> = Vec::new();
    push_visible(roots, 0, expanded, selected, &mut out);
    proof {
        assert(Seq::<VisibleNode>::empty().map_values(|v: VisibleNode| v@) + visible_rows(
            roots@,
            0,
            expanded@,
            selected,
        ) =~= visible_rows(roots@, 0, expanded@, selected));
    }
    out
}

fn push_visible(
    nodes: &Vec<TreeNode>,
    depth: usize,
    expanded: &HashSet<u64>,
    selected: Option<u64>,
    out: &mut Vec<VisibleNode>,
)
    requires
        depth + forest_height(nodes@) <= usize::MAX,
    ensures
        final(out)@.map_values(|v: VisibleNode| v@) == old(out)@.map_values(|v: VisibleNode| v@)
            + visible_rows(nodes@, depth as int, expanded@, selected),
    decreases nodes@,
{
    let ghost all = nodes@;
    let ghost start = out@.map_values(|v: VisibleNode| v@);
    let mut i: usize = 0;
    proof {
        assert(all.skip(0) =~= all);
    }
    while i < nodes.len()
        invariant
            i <= nodes.len(),
            all == nodes@,
            depth + forest_height(nodes@) <= usize::MAX,
            out@.map_values(|v: VisibleNode| v@) + visible_rows(
                all.skip(i as int),
                depth as int,
                expanded@,
                selected,
            ) == start + visible_rows(all, depth as int, expanded@, selected),
        decreases nodes.len() - i,
    {
        let node = &nodes[i];
        let ghost rest = all.skip(i as int);
        proof {
            assert(rest[0] == *node);
            assert(rest.drop_first() =~= all.skip(i + 1));
            lemma_height_parts(all, i as int);
            lemma_height_nonneg(node.children@);
            assert(decreases_to!(nodes@ => *node));
        }
        let is_expanded = expanded.contains(&node.id);
        let has_children = node.children.len() > 0;
        let ghost before = out@.map_values(|v: VisibleNode| v@);
        out.push(
            VisibleNode {
                id: node.id,
                label: node.label.clone(),
                depth,
                has_children,
                expanded: is_expanded,
                selected: selected == Some(node.id),
            },
        );
        proof {
            assert(out@.map_values(|v: VisibleNode| v@) =~= before.push(
                (
                    node.id,
                    node.label@,
                    depth as int,
                    has_children,
                    is_expanded,
                    selected == Some(node.id),
                ),
            ));
        }
        if has_children && is_expanded {
            push_visible(&node.children, depth + 1, expanded, selected, out);
        }
        proof {
            let row: RowView = (
                node.id,
                node.label@,
                depth as int,
                has_children,
                is_expanded,
                selected == Some(node.id),
            );
            let below = if has_children && is_expanded {
                visible_rows(node.children@, depth + 1, expanded@, selected)
            } else {
                Seq::empty()
            };
            assert(visible_rows(rest, depth as int, expanded@, selected) == seq![row] + below
                + visible_rows(rest.drop_first(), depth as int, expanded@, selected));
            assert(out@.map_values(|v: VisibleNode| v@) =~= before.push(row) + below);
            assert(before + (seq![row] + below + visible_rows(
                all.skip(i + 1),
                depth as int,
                expanded@,
                selected,
            )) =~= before.push(row) + below + visible_rows(all.skip(i + 1), depth as int, expanded@, selected));
        }
        i = i + 1;
    }
    proof {
        assert(all.skip(nodes.len() as int) =~= Seq::<TreeNode>::empty());
        assert(out@.map_values(|v: VisibleNode| v@) + Seq::<RowView>::empty() =~= out@.map_values(
            |v: VisibleNode| v@,
        ));
    }
}

/// Per-visible-node navigation facts: hierarchy moves resolve without
/// re-walking the tree.
#[derive(Copy, Clone, Debug, PartialEq, Eq, Structural)]
pub struct TreeNav {
    /// The node's id.
    pub node_id: u64,
    /// Whether the node has children.
    pub has_children: bool,
    /// Whether the node is expanded.
    pub expanded: bool,
    /// Flat index of the nearest preceding shallower row (the parent), if any.
    pub parent: Option<usize>,
    /// Flat index of the first child (only when expanded with a visible child).
    pub first_child: Option<usize>,
}

/// Accessibility actions a tree row offers.
#[derive(Clone, Copy, Debug, PartialEq, Eq, Structural)]
pub enum TreeItemAction {
    /// Move focus to the row.
    Focus,
    /// Activate (select) the row.
    Click,
    /// Expand the row's children.
    Expand,
    /// Collapse the row's children.
    Collapse,
}

/// Accessibility facts of the tree container: its name and how many rows
/// are visible.
#[derive(Clone, Debug)]
pub struct TreeInfo {
    /// Accessible name of the tree, if any.
    pub label: Option<String>,
    /// Number of visible rows.
    pub row_count: usize,
}

/// Accessibility facts of one visible row: its name, selection, expansion
/// (only for a row that can expand), zero-based visible position, and the
/// actions it offers.
#[derive(Clone, Debug)]
pub struct TreeItemInfo {
    /// Accessible name (the label without the twisty).
    pub label: String,
    /// Whether the row is the committed selection.
    pub is_selected: bool,
    /// Expansion state, for a row with children only.
    pub is_expanded: Option<bool>,
    /// Zero-based position among the visible rows.
    pub row_index: usize,
    /// Offered actions.
    pub actions: Vec<TreeItemAction>,
}

/// The tree container's accessibility facts.
pub fn tree_info(label: Option<&str>, count: usize) -> (r: TreeInfo)
    ensures
        r.row_count == count,
        match label {
            Some(l) => r.label matches Some(t) && t@ == l@,
            None => r.label is None,
        },
{
    let label = match label {
        Some(l) => Some(l.to_owned()),
        None => None,
    };
    TreeInfo { label, row_count: count }
}

/// A visible row's accessibility facts: every row can be focused and
/// clicked; a row with children can also be expanded and collapsed, and only
/// such a row reports its expansion.
pub fn tree_item_info(node: &VisibleNode, row_index: usize) -> (r: TreeItemInfo)
    ensures
        r.label@ == node.label@,
        r.is_selected == node.selected,
        r.is_expanded == (if node.has_children {
            Some(node.expanded)
        } else {
            None
        }),
        r.row_index == row_index,
        r.actions@ == (if node.has_children {
            seq![TreeItemAction::Focus, TreeItemAction::Click, TreeItemAction::Expand, TreeItemAction::Collapse]
        } else {
            seq![TreeItemAction::Focus, TreeItemAction::Click]
        }),
{
    let mut actions = vec![TreeItemAction::Focus, TreeItemAction::Click];
    if node.has_children {
        actions.push(TreeItemAction::Expand);
        actions.push(TreeItemAction::Collapse);
    }
    let is_expanded = if node.has_children {
        Some(node.expanded)
    } else {
        None
    };
    TreeItemInfo { label: node.label.clone(), is_selected: node.selected, is_expanded, row_index, actions }
}

/// Leading glyph of a row: an open or closed disclosure triangle for a
/// parent, blanks of the same width for a leaf, so labels line up.
pub fn twisty(has_children: bool, expanded: bool) -> (r: &'static str)
    ensures
        r@ == (if !has_children {
            "   "@
        } else if expanded {
            "\u{25BE} "@
        } else {
            "\u{25B8} "@
        }),
{
    if !has_children {
        "   "
    } else if expanded {
        "\u{25BE} "
    } else {
        "\u{25B8} "
    }
}

/// Flat index of the parent of row `i`: the last earlier row with a smaller depth.
pub open spec fn nav_parent(rows: Seq<(u64, usize, bool, bool)>, i: int) -> Option<usize> {
    if exists|j: int| 0 <= j < i && #[trigger] rows[j].1 < rows[i].1 {
        Some(
            (choose|j: int|
                0 <= j < i && #[trigger] rows[j].1 < rows[i].1 && forall|k: int|
                    j < k < i ==> rows[k].1 >= rows[i].1) as usize,
        )
    } else {
        None
    }
}

/// Flat index of the first child of row `i`: the next row, when row `i` has
/// children, is expanded, and the next row is one level deeper.
pub open spec fn nav_first_child(rows: Seq<(u64, usize, bool, bool)>, i: int) -> Option<usize> {
    if rows[i].2 && rows[i].3 && i + 1 < rows.len() && rows[i + 1].1 == rows[i].1 + 1 {
        Some((i + 1) as usize)
    } else {
        None
    }
}

/// Derive [`TreeNav`] for each visible row `(node_id, depth, has_children, expanded)`.
pub fn build_nav(rows: &[(u64, usize, bool, bool)]) -> (r: Vec<TreeNav>)
    ensures
        r@.len() == rows@.len(),
        forall|i: int|
            0 <= i < rows@.len() ==> #[trigger] r@[i] == (TreeNav {
                node_id: rows@[i].0,
                has_children: rows@[i].2,
                expanded: rows@[i].3,
                parent: nav_parent(rows@, i),
                first_child: nav_first_child(rows@, i),
            }),
{
    let n = rows.len();
    let mut out: Vec<TreeNav> = Vec::new();
    let mut i: usize = 0;
    while i < n
        invariant
            n == rows@.len(),
            i <= n,
            out@.len() == i,
            forall|a: int|
                0 <= a < i ==> #[trigger] out@[a] == (TreeNav {
                    node_id: rows@[a].0,
                    has_children: rows@[a].2,
                    expanded: rows@[a].3,
                    parent: nav_parent(rows@, a),
                    first_child: nav_first_child(rows@, a),
                }),
        decreases n - i,
    {
        let (node_id, depth, has_children, expanded) = rows[i];
        // Nearest earlier row that is shallower.
        let mut parent: Option<usize> = None;
        let mut j: usize = i;
        while j > 0 && parent.is_none()
            invariant
                j <= i,
                i < n,
                n == rows@.len(),
                depth == rows@[i as int].1,
                parent is None ==> forall|k: int| j <= k < i ==> rows@[k].1 >= depth,
                parent matches Some(p) ==> p < i && rows@[p as int].1 < depth && forall|k: int|
                    p < k < i ==> rows@[k].1 >= depth,
            decreases j,
        {
            if rows[j - 1].1 < depth {
                parent = Some(j - 1);
            }
            j = j - 1;
        }
        proof {
            match parent {
                Some(p) => {
                    assert(0 <= p < i && rows@[p as int].1 < rows@[i as int].1);
                    let c = choose|c: int|
                        0 <= c < i && #[trigger] rows@[c].1 < rows@[i as int].1 && forall|k: int|
                            c < k < i ==> rows@[k].1 >= rows@[i as int].1;
                    if c < p {
                        assert(rows@[p as int].1 >= rows@[i as int].1);
                    } else if c > p {
                        assert(rows@[c].1 >= rows@[i as int].1);
                    }
                },
                None => {
                    assert(forall|k: int| 0 <= k < i ==> !(#[trigger] rows@[k].1 < rows@[i as int].1));
                },
            }
        }
        let first_child = if has_children && expanded && i + 1 < n && rows[i + 1].1 > 0 && rows[i
            + 1].1 - 1 == depth {
            Some(i + 1)
        } else {
            None
        };
        out.push(TreeNav { node_id, has_children, expanded, parent, first_child });
        i = i + 1;
    }
    out
}

/// Navigation keys understood by a tree.
#[derive(Copy, Clone, Debug, PartialEq, Eq, Structural)]
pub enum TreeKey {
    /// Arrow Down.
    ArrowDown,
    /// Arrow Up.
    ArrowUp,
    /// Home.
    Home,
    /// End.
    End,
    /// Arrow Right.
    ArrowRight,
    /// Arrow Left.
    ArrowLeft,
    /// Enter.
    Enter,
    /// Space.
    Space,
    /// Any other key.
    Other,
}

/// What a key press on a tree does.
#[derive(Copy, Clone, Debug, PartialEq, Eq, Structural)]
pub enum TreeKeyAction {
    /// Not handled: the event keeps propagating.
    Ignore,
    /// Handled with no state change (propagation stops).
    Consume,
    /// Move the roving focus to this visible row.
    MoveTo(usize),
    /// Expand the node with this id.
    Expand(u64),
    /// Collapse the node with this id.
    Collapse(u64),
    /// Commit the selection to the node with this id.
    Commit(u64),
}

/// The action for key `key` on a tree with visible rows `nav`, the roving
/// focus at `active` (clamped to the last row).
pub open spec fn tree_key_spec(nav: Seq<TreeNav>, active: usize, key: TreeKey, is_repeat: bool) -> TreeKeyAction {
    let n = nav.len();
    if n == 0 {
        TreeKeyAction::Ignore
    } else {
        let cur = if active < n - 1 {
            active as int
        } else {
            n - 1
        };
        let info = nav[cur];
        match key {
            TreeKey::ArrowDown => TreeKeyAction::MoveTo(
                (if cur + 1 < n - 1 {
                    cur + 1
                } else {
                    n - 1
                }) as usize,
            ),
            TreeKey::ArrowUp => TreeKeyAction::MoveTo(
                (if cur > 0 {
                    cur - 1
                } else {
                    0
                }) as usize,
            ),
            TreeKey::Home => TreeKeyAction::MoveTo(0),
            TreeKey::End => TreeKeyAction::MoveTo((n - 1) as usize),
            TreeKey::ArrowRight => if info.has_children && !info.expanded {
                TreeKeyAction::Expand(info.node_id)
            } else {
                match info.first_child {
                    Some(c) => TreeKeyAction::MoveTo(c),
                    None => TreeKeyAction::Consume,
                }
            },
            TreeKey::ArrowLeft => if info.has_children && info.expanded {
                TreeKeyAction::Collapse(info.node_id)
            } else {
                match info.parent {
                    Some(p) => TreeKeyAction::MoveTo(p),
                    None => TreeKeyAction::Consume,
                }
            },
            TreeKey::Enter | TreeKey::Space => if !is_repeat {
                TreeKeyAction::Commit(info.node_id)
            } else {
                TreeKeyAction::Consume
            },
            TreeKey::Other => TreeKeyAction::Ignore,
        }
    }
}

/// Decide what a key press does on a tree: Up/Down/Home/End move the roving
/// focus; Right expands a collapsed parent or steps into its first child; Left
/// collapses an expanded parent or steps to the parent; Enter/Space commit
/// (ignoring auto-repeat).
pub fn tree_key_action(nav: &[TreeNav], active: usize, key: TreeKey, is_repeat: bool) -> (r:
    TreeKeyAction)
    ensures
        r == tree_key_spec(nav@, active, key, is_repeat),
        key == TreeKey::ArrowUp && 0 < active < nav@.len() ==> r == TreeKeyAction::MoveTo((active - 1) as usize),
        key == TreeKey::ArrowDown && active + 1 < nav@.len() ==> r == TreeKeyAction::MoveTo((active + 1) as usize),
        key == TreeKey::Home && nav@.len() > 0 ==> r == TreeKeyAction::MoveTo(0),
        key == TreeKey::End && nav@.len() > 0 ==> r == TreeKeyAction::MoveTo((nav@.len() - 1) as usize),
{
    let n = nav.len();
    if n == 0 {
        return TreeKeyAction::Ignore;
    }
    let cur = if active < n - 1 {
        active
    } else {
        n - 1
    };
    let info = nav[cur];
    match key {
        TreeKey::ArrowDown => TreeKeyAction::MoveTo(
            if cur + 1 < n - 1 {
                cur + 1
            } else {
                n - 1
            },
        ),
        TreeKey::ArrowUp => TreeKeyAction::MoveTo(cur.saturating_sub(1)),
        TreeKey::Home => TreeKeyAction::MoveTo(0),
        TreeKey::End => TreeKeyAction::MoveTo(n - 1),
        TreeKey::ArrowRight => {
            if info.has_children && !info.expanded {
                TreeKeyAction::Expand(info.node_id)
            } else if let Some(child) = info.first_child {
                TreeKeyAction::MoveTo(child)
            } else {
                TreeKeyAction::Consume
            }
        },
        TreeKey::ArrowLeft => {
            if info.has_children && info.expanded {
                TreeKeyAction::Collapse(info.node_id)
            } else if let Some(parent) = info.parent {
                TreeKeyAction::MoveTo(parent)
            } else {
                TreeKeyAction::Consume
            }
        },
        TreeKey::Enter | TreeKey::Space => {
            if !is_repeat {
                TreeKeyAction::Commit(info.node_id)
            } else {
                TreeKeyAction::Consume
            }
        },
        TreeKey::Other => TreeKeyAction::Ignore,
    }
}

/// Keyboard navigation on a tree, key by key, with the roving focus on row
/// `active` of the `n` visible rows:
/// - with no rows, every key is ignored;
/// - Up moves to the row directly above (staying on the first row), Down to
///   the row directly below (staying on the last row), Home to the first row
///   and End to the last;
/// - on a row in range, Right expands a collapsed parent and otherwise steps
///   into its first visible child (doing nothing more on a leaf); Left
///   collapses an expanded parent and otherwise steps to the parent row
///   (doing nothing more on a root); Enter and Space commit the row's node,
///   except on auto-repeat; any other key is ignored.
pub proof fn law_tree_keys(nav: Seq<TreeNav>, active: usize, is_repeat: bool)
    ensures
        nav.len() == 0 ==> forall|k: TreeKey| #[trigger] tree_key_spec(nav, active, k, is_repeat)
            == TreeKeyAction::Ignore,
        0 < active < nav.len() ==> tree_key_spec(nav, active, TreeKey::ArrowUp, is_repeat)
            == TreeKeyAction::MoveTo((active - 1) as usize),
        active == 0 && nav.len() > 0 ==> tree_key_spec(nav, active, TreeKey::ArrowUp, is_repeat)
            == TreeKeyAction::MoveTo(0),
        active + 1 < nav.len() ==> tree_key_spec(nav, active, TreeKey::ArrowDown, is_repeat)
            == TreeKeyAction::MoveTo((active + 1) as usize),
        nav.len() > 0 && active + 1 >= nav.len() ==> tree_key_spec(nav, active, TreeKey::ArrowDown, is_repeat)
            == TreeKeyAction::MoveTo((nav.len() - 1) as usize),
        nav.len() > 0 ==> tree_key_spec(nav, active, TreeKey::Home, is_repeat) == TreeKeyAction::MoveTo(0),
        nav.len() > 0 ==> tree_key_spec(nav, active, TreeKey::End, is_repeat) == TreeKeyAction::MoveTo(
            (nav.len() - 1) as usize,
        ),
        active < nav.len() ==> tree_key_spec(nav, active, TreeKey::ArrowRight, is_repeat) == (
        if nav[active as int].has_children && !nav[active as int].expanded {
            TreeKeyAction::Expand(nav[active as int].node_id)
        } else if nav[active as int].first_child is Some {
            TreeKeyAction::MoveTo(nav[active as int].first_child->0)
        } else {
            TreeKeyAction::Consume
        }),
        active < nav.len() ==> tree_key_spec(nav, active, TreeKey::ArrowLeft, is_repeat) == (
        if nav[active as int].has_children && nav[active as int].expanded {
            TreeKeyAction::Collapse(nav[active as int].node_id)
        } else if nav[active as int].parent is Some {
            TreeKeyAction::MoveTo(nav[active as int].parent->0)
        } else {
            TreeKeyAction::Consume
        }),
        active < nav.len() && !is_repeat ==> tree_key_spec(nav, active, TreeKey::Enter, is_repeat)
            == TreeKeyAction::Commit(nav[active as int].node_id) && tree_key_spec(
            nav,
            active,
            TreeKey::Space,
            is_repeat,
        ) == TreeKeyAction::Commit(nav[active as int].node_id),
        nav.len() > 0 && is_repeat ==> tree_key_spec(nav, active, TreeKey::Enter, is_repeat)
            == TreeKeyAction::Consume && tree_key_spec(nav, active, TreeKey::Space, is_repeat)
            == TreeKeyAction::Consume,
        tree_key_spec(nav, active, TreeKey::Other, is_repeat) == TreeKeyAction::Ignore,
{
}

/// Heights are never negative.
proof fn lemma_height_nonneg(nodes: Seq<TreeNode>)
    ensures
        forest_height(nodes) >= 0,
    decreases nodes,
{
    if nodes.len() > 0 {
        let first = nodes[0];
        assert(decreases_to!(nodes => first));
        lemma_height_nonneg(first.children@);
    }
}

/// The height of a forest bounds its first node's children and every suffix.
proof fn lemma_height_parts(nodes: Seq<TreeNode>, i: int)
    requires
        0 <= i < nodes.len(),
    ensures
        1 + forest_height(nodes[i].children@) <= forest_height(nodes),
        forest_height(nodes.skip(i + 1)) <= forest_height(nodes),
        forest_height(nodes.skip(i)) <= forest_height(nodes),
    decreases i,
{
    if i == 0 {
        assert(nodes.skip(1) =~= nodes.drop_first());
        assert(nodes.skip(0) =~= nodes);
    } else {
        lemma_height_parts(nodes.drop_first(), i - 1);
        assert(nodes.drop_first()[i - 1] == nodes[i]);
        assert(nodes.drop_first().skip(i) =~= nodes.skip(i + 1));
        assert(nodes.drop_first().skip(i - 1) =~= nodes.skip(i));
    }
}

} // verus!
