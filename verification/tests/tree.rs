use std::collections::HashSet;

use slate_framework::elements::tree::{
    build_nav, flatten_visible, tree_info, tree_item_info, tree_key_action, twisty, TreeItemAction, TreeKey,
    TreeKeyAction, TreeNode,
};

fn fixture() -> Vec<TreeNode> {
    vec![
        TreeNode::new(1, "root-a").children(vec![
            TreeNode::new(2, "a-1"),
            TreeNode::new(3, "a-2").child(TreeNode::new(4, "a-2-i")),
        ]),
        TreeNode::new(5, "root-b"),
    ]
}

#[test]
fn collapsed_roots_only_show_roots() {
    let expanded = HashSet::new();
    let v = flatten_visible(&fixture(), &expanded, None);
    assert_eq!(v.iter().map(|n| n.id).collect::<Vec<_>>(), vec![1, 5]);
    assert!(v[0].has_children && !v[0].expanded);
    assert!(!v[1].has_children);
}

#[test]
fn expanding_a_node_reveals_its_children_with_depth() {
    let expanded = HashSet::from([1]);
    let v = flatten_visible(&fixture(), &expanded, Some(3));
    assert_eq!(v.iter().map(|n| n.id).collect::<Vec<_>>(), vec![1, 2, 3, 5]);
    assert_eq!(v[1].depth, 1, "a-1 is one level deep");
    assert!(v[2].selected, "a-2 is the selected node");
    assert!(!v.iter().any(|n| n.id == 4));
}

#[test]
fn deep_expansion_reveals_grandchildren() {
    let expanded = HashSet::from([1, 3]);
    let v = flatten_visible(&fixture(), &expanded, None);
    assert_eq!(v.iter().map(|n| n.id).collect::<Vec<_>>(), vec![1, 2, 3, 4, 5]);
    assert_eq!(v[3].depth, 2, "a-2-i is two levels deep");
}

#[test]
fn expanding_a_hidden_node_reveals_nothing_under_a_collapsed_parent() {
    let expanded = HashSet::from([3]);
    let v = flatten_visible(&fixture(), &expanded, None);
    assert_eq!(v.iter().map(|n| n.id).collect::<Vec<_>>(), vec![1, 5]);
    assert_eq!(v[0].label, "root-a");
}

#[test]
fn nav_resolves_parent_and_first_child() {
    let rows = [(1, 0, true, true), (2, 1, false, false), (3, 1, true, true), (4, 2, false, false)];
    let nav = build_nav(&rows);
    assert_eq!(nav[0].parent, None);
    assert_eq!(nav[0].first_child, Some(1), "root's first child is index 1");
    assert_eq!(nav[1].parent, Some(0), "child-a parent is root");
    assert_eq!(nav[2].parent, Some(0), "child-b parent is root");
    assert_eq!(nav[2].first_child, Some(3), "child-b's child is the leaf");
    assert_eq!(nav[3].parent, Some(2), "leaf parent is child-b");
    assert_eq!(nav[3].first_child, None, "leaf has no child");
}

#[test]
fn collapsed_parent_has_no_first_child() {
    let rows = [(1, 0, true, false), (2, 0, false, false)];
    let nav = build_nav(&rows);
    assert_eq!(nav[0].first_child, None);
    assert!(nav[0].has_children && !nav[0].expanded);
}

#[test]
fn tree_keys_move_expand_collapse_and_commit() {
    let rows = [(1, 0, true, true), (2, 1, false, false), (3, 1, true, false)];
    let nav = build_nav(&rows);
    assert_eq!(tree_key_action(&nav, 0, TreeKey::ArrowDown, false), TreeKeyAction::MoveTo(1));
    assert_eq!(tree_key_action(&nav, 2, TreeKey::ArrowDown, false), TreeKeyAction::MoveTo(2));
    assert_eq!(tree_key_action(&nav, 0, TreeKey::ArrowUp, false), TreeKeyAction::MoveTo(0));
    assert_eq!(tree_key_action(&nav, 1, TreeKey::End, false), TreeKeyAction::MoveTo(2));
    assert_eq!(tree_key_action(&nav, 2, TreeKey::Home, false), TreeKeyAction::MoveTo(0));
    assert_eq!(tree_key_action(&nav, 2, TreeKey::ArrowRight, false), TreeKeyAction::Expand(3));
    assert_eq!(tree_key_action(&nav, 0, TreeKey::ArrowRight, false), TreeKeyAction::MoveTo(1));
    assert_eq!(tree_key_action(&nav, 1, TreeKey::ArrowRight, false), TreeKeyAction::Consume);
    assert_eq!(tree_key_action(&nav, 0, TreeKey::ArrowLeft, false), TreeKeyAction::Collapse(1));
    assert_eq!(tree_key_action(&nav, 1, TreeKey::ArrowLeft, false), TreeKeyAction::MoveTo(0));
    assert_eq!(tree_key_action(&nav, 1, TreeKey::Enter, false), TreeKeyAction::Commit(2));
    assert_eq!(tree_key_action(&nav, 1, TreeKey::Space, true), TreeKeyAction::Consume);
    assert_eq!(tree_key_action(&nav, 1, TreeKey::Other, false), TreeKeyAction::Ignore);
    assert_eq!(tree_key_action(&nav, 99, TreeKey::Enter, false), TreeKeyAction::Commit(3));
    assert_eq!(tree_key_action(&[], 0, TreeKey::ArrowDown, false), TreeKeyAction::Ignore);
}

#[test]
fn twisty_glyphs_line_up() {
    assert_eq!(twisty(true, true), "\u{25BE} ");
    assert_eq!(twisty(true, false), "\u{25B8} ");
    assert_eq!(twisty(false, true), "   ");
    assert_eq!(twisty(false, false), "   ");
}

#[test]
fn tree_item_info_offers_expand_only_for_parents() {
    let roots = vec![TreeNode::new(1, "Root").child(TreeNode::new(2, "Leaf"))];
    let mut expanded = HashSet::new();
    expanded.insert(1u64);
    let rows = flatten_visible(&roots, &expanded, Some(2));
    let root = tree_item_info(&rows[0], 0);
    assert_eq!(root.label, "Root");
    assert_eq!(root.is_expanded, Some(true));
    assert!(!root.is_selected);
    assert_eq!(root.row_index, 0);
    assert_eq!(
        root.actions,
        vec![TreeItemAction::Focus, TreeItemAction::Click, TreeItemAction::Expand, TreeItemAction::Collapse]
    );
    let leaf = tree_item_info(&rows[1], 1);
    assert_eq!(leaf.is_expanded, None);
    assert!(leaf.is_selected);
    assert_eq!(leaf.actions, vec![TreeItemAction::Focus, TreeItemAction::Click]);
}

#[test]
fn tree_info_counts_rows() {
    let info = tree_info(Some("Files"), 4);
    assert_eq!(info.label.as_deref(), Some("Files"));
    assert_eq!(info.row_count, 4);
    assert_eq!(tree_info(None, 0).label, None);
}
