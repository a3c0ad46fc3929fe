use std::collections::HashMap;

use slate_framework::interaction::InteractionSnapshot;
use slate_framework::types::ElementId;

#[test]
fn snapshot_chain_includes_ancestors() {
    let parent = ElementId::from_raw(1);
    let child = ElementId::from_raw(2);
    let mut pm: HashMap<u64, u64> = HashMap::new();
    pm.insert(child.0, parent.0);
    let snap = InteractionSnapshot::new(Some(child), None, &pm);
    assert!(snap.is_hovered(child));
    assert!(snap.is_hovered(parent), "ancestor reflects descendant hover");
    assert!(!snap.is_pressed(child));
}

#[test]
fn empty_snapshot_matches_nothing() {
    let snap = InteractionSnapshot::default();
    assert!(!snap.is_hovered(ElementId::from_raw(1)));
    assert!(!snap.is_pressed(ElementId::from_raw(1)));
}

#[test]
fn long_press_chain_spills_past_the_inline_buffer() {
    let mut pm: HashMap<u64, u64> = HashMap::new();
    for i in 1..20u64 {
        pm.insert(i + 1, i);
    }
    let snap = InteractionSnapshot::new(None, Some(ElementId::from_raw(20)), &pm);
    for i in 1..=20u64 {
        assert!(snap.is_pressed(ElementId::from_raw(i)));
    }
    assert!(!snap.is_pressed(ElementId::from_raw(21)));
    assert!(!snap.is_hovered(ElementId::from_raw(20)));
}
