use slate_framework::focus::{FocusRegistry, FocusableEntry};
use slate_framework::types::ElementId;

fn id(n: u64) -> ElementId {
    ElementId::from_raw(n)
}

fn entry(n: u64, tab_index: i32) -> FocusableEntry {
    FocusableEntry { id: id(n), tab_index, focus_ring: true }
}

#[test]
fn empty_registry_has_no_focus_and_no_shift() {
    let mut r = FocusRegistry::new();
    assert_eq!(r.focused(), None);
    assert_eq!(r.shift_forward(), None);
    assert_eq!(r.shift_backward(), None);
    assert!(!r.is_focusable(id(1)));
}

#[test]
fn single_entry_set_focus() {
    let mut r = FocusRegistry::new();
    r.register(entry(1, 0));
    assert!(r.set_focus(id(1)));
    assert_eq!(r.focused(), Some(id(1)));
}

#[test]
fn set_focus_missing_returns_false() {
    let mut r = FocusRegistry::new();
    r.register(entry(1, 0));
    assert!(!r.set_focus(id(99)));
    assert_eq!(r.focused(), None);
}

#[test]
fn clear_focus_sets_none() {
    let mut r = FocusRegistry::new();
    r.register(entry(1, 0));
    r.set_focus(id(1));
    r.clear_focus();
    assert_eq!(r.focused(), None);
}

fn registry_with_modal() -> FocusRegistry {
    let mut r = FocusRegistry::new();
    r.register(entry(1, 0));
    r.register(entry(2, 0));
    r.enter_trap_scope(id(100), 1000);
    r.register(entry(10, 0));
    r.register(entry(11, 0));
    r.exit_trap_scope();
    r
}

#[test]
fn no_modal_tab_cycles_whole_tree() {
    let mut r = FocusRegistry::new();
    r.register(entry(1, 0));
    r.register(entry(2, 0));
    assert_eq!(r.active_trap_scope(), None);
    assert_eq!(r.shift_forward(), Some(id(1)));
    r.set_focus(id(1));
    assert_eq!(r.shift_forward(), Some(id(2)));
    r.set_focus(id(2));
    assert_eq!(r.shift_forward(), Some(id(1)), "wraps across whole tree");
}

#[test]
fn modal_trap_cycles_only_inside_scope() {
    let mut r = registry_with_modal();
    assert_eq!(r.active_trap_scope(), Some(id(100)));
    assert_eq!(r.shift_forward(), Some(id(10)));
    r.set_focus(id(10));
    assert_eq!(r.shift_forward(), Some(id(11)));
    r.set_focus(id(11));
    assert_eq!(r.shift_forward(), Some(id(10)));
}

#[test]
fn modal_trap_backward_stays_inside_scope() {
    let mut r = registry_with_modal();
    r.set_focus(id(10));
    assert_eq!(r.shift_backward(), Some(id(11)), "wraps to last inside");
}

#[test]
fn trap_ignores_focus_currently_outside_scope() {
    let mut r = registry_with_modal();
    r.set_focus(id(1));
    assert_eq!(r.shift_forward(), Some(id(10)));
}

#[test]
fn deepest_modal_wins_the_trap() {
    let mut r = FocusRegistry::new();
    r.register(entry(1, 0));
    r.enter_trap_scope(id(100), 1000);
    r.register(entry(10, 0));
    r.enter_trap_scope(id(200), 2000);
    r.register(entry(20, 0));
    r.exit_trap_scope();
    r.exit_trap_scope();
    assert_eq!(r.active_trap_scope(), Some(id(200)));
    assert_eq!(r.shift_forward(), Some(id(20)), "only deepest reachable");
}

#[test]
fn first_in_scope_returns_first_tab_reachable() {
    let mut r = registry_with_modal();
    assert_eq!(r.first_in_scope(id(100)), Some(id(10)));
    assert_eq!(r.first_in_scope(id(999)), None);
}

#[test]
fn first_in_scope_skips_negative_tab_index() {
    let mut r = FocusRegistry::new();
    r.enter_trap_scope(id(100), 1000);
    r.register(entry(10, -1));
    r.register(entry(11, 0));
    r.exit_trap_scope();
    assert_eq!(r.first_in_scope(id(100)), Some(id(11)));
}

#[test]
fn reconcile_open_saves_prev_and_autofocuses_first() {
    let mut r = registry_with_modal();
    r.set_focus(id(1));
    let mut stack = Vec::new();
    r.reconcile_modal_focus(&mut stack);
    assert_eq!(r.focused(), Some(id(10)), "auto-focus modal's first");
    assert_eq!(stack, vec![(id(100), Some(id(1)))], "saved prior focus");
}

#[test]
fn reconcile_close_restores_prev() {
    let mut r = registry_with_modal();
    r.set_focus(id(1));
    let mut stack = Vec::new();
    r.reconcile_modal_focus(&mut stack);
    assert_eq!(r.focused(), Some(id(10)));

    let mut r2 = FocusRegistry::new();
    r2.register(entry(1, 0));
    r2.register(entry(2, 0));
    r2.set_focus(id(10));
    r2.reconcile_modal_focus(&mut stack);
    assert_eq!(r2.focused(), Some(id(1)), "prior focus restored");
    assert!(stack.is_empty(), "closed modal popped");
}

#[test]
fn reconcile_keeps_focus_while_modal_stays_open() {
    let mut r = registry_with_modal();
    r.set_focus(id(1));
    let mut stack = Vec::new();
    r.reconcile_modal_focus(&mut stack);

    let mut r2 = registry_with_modal();
    r2.set_focus(id(11));
    r2.reconcile_modal_focus(&mut stack);
    assert_eq!(r2.focused(), Some(id(11)), "in-modal focus untouched");
    assert_eq!(stack, vec![(id(100), Some(id(1)))], "stack unchanged");
}

#[test]
fn reconcile_sibling_close_under_open_modal_drains_and_holds_focus() {
    let mut stack = vec![(id(1), Some(id(50))), (id(2), Some(id(51)))];

    let mut r = FocusRegistry::new();
    r.register(entry(51, 0));
    r.enter_trap_scope(id(2), 200);
    r.register(entry(60, 0));
    r.exit_trap_scope();
    r.set_focus(id(60));
    r.reconcile_modal_focus(&mut stack);

    assert_eq!(stack, vec![(id(2), Some(id(51)))], "closed sibling A drained");
    assert_eq!(r.focused(), Some(id(60)), "focus stays inside still-open B");
}

#[test]
fn reconcile_all_modals_closed_restores_earliest_prev() {
    let mut stack = vec![(id(1), Some(id(50))), (id(2), Some(id(51)))];

    let mut r = FocusRegistry::new();
    r.register(entry(50, 0));
    r.register(entry(51, 0));
    r.reconcile_modal_focus(&mut stack);

    assert!(stack.is_empty(), "both modals drained");
    assert_eq!(r.focused(), Some(id(50)), "restored earliest pre-modal focus");
}

#[test]
fn reconcile_restore_skips_vanished_prev() {
    let mut r = registry_with_modal();
    r.set_focus(id(1));
    let mut stack = Vec::new();
    r.reconcile_modal_focus(&mut stack);

    let mut r2 = FocusRegistry::new();
    r2.register(entry(2, 0));
    r2.reconcile_modal_focus(&mut stack);
    assert_eq!(r2.focused(), None, "no restore when prior focus vanished");
    assert!(stack.is_empty());
}

#[test]
fn tab_index_orders_the_cycle_before_document_order() {
    let mut r = FocusRegistry::default();
    r.register(entry(1, 0));
    r.register(entry(2, 2));
    r.register(entry(3, 1));
    r.register(entry(4, -1));
    r.register(entry(5, 0));
    assert_eq!(r.shift_forward(), Some(id(1)));
    r.set_focus(id(1));
    assert_eq!(r.shift_forward(), Some(id(5)), "equal tab index keeps registration order");
    r.set_focus(id(5));
    assert_eq!(r.shift_forward(), Some(id(3)));
    r.set_focus(id(3));
    assert_eq!(r.shift_forward(), Some(id(2)));
    r.set_focus(id(2));
    assert_eq!(r.shift_forward(), Some(id(1)), "negative tab index is skipped");
    assert_eq!(r.shift_backward(), Some(id(3)), "shift does not move focus itself");
    assert!(r.is_focusable(id(4)));
    assert!(!r.is_tab_reachable(id(4)));
    assert_eq!(r.entry(id(2)).map(|e| e.tab_index), Some(2));
}

#[test]
fn prune_missing_drops_focus_of_unregistered_element() {
    let mut r = FocusRegistry::new();
    r.register(entry(1, 0));
    r.set_focus(id(1));
    r.clear();
    assert_eq!(r.focused(), Some(id(1)), "clear keeps the focused id");
    r.register(entry(2, 0));
    r.prune_missing();
    assert_eq!(r.focused(), None);
}

#[test]
fn deepest_trap_wins_and_last_entered_breaks_ties() {
    let mut r = FocusRegistry::new();
    assert_eq!(r.active_trap_scope(), None);
    r.enter_trap_scope(id(1), 5);
    r.exit_trap_scope();
    r.enter_trap_scope(id(2), 9);
    r.exit_trap_scope();
    r.enter_trap_scope(id(3), 7);
    r.exit_trap_scope();
    assert_eq!(r.active_trap_scope(), Some(id(2)));
    r.enter_trap_scope(id(4), 9);
    r.exit_trap_scope();
    assert_eq!(r.active_trap_scope(), Some(id(4)), "tie: last entered wins");
    r.clear();
    assert_eq!(r.active_trap_scope(), None);
}

#[test]
fn reconcile_keeps_present_then_opens_new_modals_shallowest_first() {
    let mut r = FocusRegistry::new();
    r.register(entry(1, 0));
    r.enter_trap_scope(id(100), 1000);
    r.register(entry(10, 0));
    r.exit_trap_scope();
    r.enter_trap_scope(id(200), 3000);
    r.register(entry(20, 0));
    r.exit_trap_scope();
    r.enter_trap_scope(id(150), 2000);
    r.exit_trap_scope();
    r.set_focus(id(10));
    let mut stack = vec![(id(100), Some(id(1))), (id(7), Some(id(1)))];
    r.reconcile_modal_focus(&mut stack);
    assert_eq!(
        stack,
        vec![(id(100), Some(id(1))), (id(150), Some(id(10))), (id(200), Some(id(10)))],
        "kept record first, then new modals by depth, each saving the focus of its moment"
    );
    assert_eq!(r.focused(), Some(id(20)), "focus ends in the last opened modal");
}
