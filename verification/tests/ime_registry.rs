use std::cell::RefCell;
use std::collections::HashSet;
use std::rc::Rc;

use slate_framework::ime::ImeState;
use slate_framework::ime_registry::ImeRegistry;
use slate_framework::text_edit::undo::{EditOp, EditSnapshot};
use slate_framework::types::ElementId;

type Shared = Rc<RefCell<ImeState>>;

fn id(n: u64) -> ElementId {
    ElementId::from_raw(n)
}

fn registry_empty() {
    let r: ImeRegistry<Shared> = ImeRegistry::new();
    assert!(r.is_empty());
    assert_eq!(r.len(), 0);
    assert!(r.get(id(1)).is_none());
}

fn undo_survives() {
    let mut r: ImeRegistry<Shared> = ImeRegistry::new();
    let s1 = r.register(id(1));
    {
        let mut state = s1.borrow_mut();
        state.text = "a".to_string();
        state.caret = 1;
        state.undo.record_edit(EditOp::Insert, EditSnapshot { text: "a".to_string(), caret: 1, anchor: None });
    }
    // Re-registering (what every render does) hands back the same state, so
    // the recorded edit is still reachable.
    let s2 = r.register(id(1));
    assert!(Rc::ptr_eq(&s1, &s2));
    let restored = s2.borrow_mut().undo.undo();
    assert_eq!(restored.map(|s| s.text), Some(String::new()));
}

#[test]
fn ime_empty_registry_is_empty() {
    registry_empty();
}

#[test]
fn registry_empty_registry_is_empty() {
    registry_empty();
}

#[test]
fn ime_undo_history_survives_re_registration() {
    undo_survives();
}

#[test]
fn registry_undo_history_survives_re_registration() {
    undo_survives();
}

#[test]
fn registry_register_inserts_default_state() {
    let mut r: ImeRegistry<Shared> = ImeRegistry::new();
    let s = r.register(id(1));
    assert_eq!(r.len(), 1);
    let borrowed = s.borrow();
    assert!(borrowed.text.is_empty());
    assert_eq!(borrowed.caret, 0);
    assert!(borrowed.preedit.is_none());
}

#[test]
fn registry_register_idempotent_returns_same_rc() {
    let mut r: ImeRegistry<Shared> = ImeRegistry::new();
    let s1 = r.register(id(1));
    let s2 = r.register(id(1));
    assert_eq!(r.len(), 1);
    assert!(Rc::ptr_eq(&s1, &s2));
}

#[test]
fn registry_prune_missing_drops_absent_ids() {
    let mut r: ImeRegistry<Shared> = ImeRegistry::new();
    r.register(id(1));
    r.register(id(2));
    r.register(id(3));
    let alive: HashSet<u64> = [1, 3].into_iter().collect();
    r.prune_missing(&alive);
    assert_eq!(r.len(), 2);
    assert!(r.get(id(1)).is_some());
    assert!(r.get(id(2)).is_none());
    assert!(r.get(id(3)).is_some());
}

#[test]
fn registry_ids_lists_each_registered_id() {
    let mut r: ImeRegistry<u32> = ImeRegistry::default();
    r.register(id(4));
    r.register(id(9));
    r.register(id(4));
    let mut ids: Vec<u64> = r.ids().into_iter().map(|e| e.0).collect();
    ids.sort();
    assert_eq!(ids, vec![4, 9]);
    r.clear();
    assert_eq!(r.len(), 2, "clear keeps the entries");
}
