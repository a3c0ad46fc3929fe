use slate_framework::text_edit::undo::{EditOp, EditSnapshot, UndoStack, UNDO_STACK_CAP};
use slate_framework::time::Timestamp;

fn snap(text: &str, caret: usize) -> EditSnapshot {
    EditSnapshot { text: text.to_string(), caret, anchor: None }
}

fn fresh() -> UndoStack {
    UndoStack::with_baseline(String::new(), 0)
}

#[test]
fn baseline_is_present_and_undo_returns_none() {
    let mut s = fresh();
    assert_eq!(s.len(), 1);
    assert_eq!(s.cursor(), 0);
    assert!(s.undo().is_none());
}

#[test]
fn typing_burst_coalesces_into_single_step() {
    let mut s = fresh();
    s.record_edit(EditOp::Insert, snap("a", 1));
    s.record_edit(EditOp::Insert, snap("ab", 2));
    s.record_edit(EditOp::Insert, snap("abc", 3));
    assert_eq!(s.len(), 2);
    let restored = s.undo().expect("undo should restore baseline");
    assert_eq!(restored.text, "");
}

#[test]
fn op_type_change_opens_new_step() {
    let mut s = fresh();
    s.record_edit(EditOp::Insert, snap("a", 1));
    s.record_edit(EditOp::Backspace, snap("", 0));
    assert_eq!(s.len(), 3);
}

#[test]
fn motion_marks_split_typing_into_two_steps() {
    let mut s = fresh();
    s.record_edit(EditOp::Insert, snap("a", 1));
    s.mark_motion();
    s.record_edit(EditOp::Insert, snap("ab", 2));
    assert_eq!(s.len(), 3);
}

#[test]
fn discrete_op_never_coalesces() {
    let mut s = fresh();
    s.record_edit(EditOp::Discrete, snap("p", 1));
    s.record_edit(EditOp::Discrete, snap("pp", 2));
    assert_eq!(s.len(), 3);
}

#[test]
fn typing_after_discrete_op_does_not_coalesce_backward() {
    let mut s = fresh();
    s.record_edit(EditOp::Discrete, snap("pasted", 6));
    s.record_edit(EditOp::Insert, snap("pastedX", 7));
    assert_eq!(s.len(), 3);
}

#[test]
fn undo_then_edit_truncates_redo_tail() {
    let mut s = fresh();
    s.record_edit(EditOp::Insert, snap("a", 1));
    s.record_edit(EditOp::Backspace, snap("", 0));
    s.undo();
    s.record_edit(EditOp::Insert, snap("aX", 2));
    assert_eq!(s.len(), 3);
    assert_eq!(s.cursor(), 2);
    assert!(s.redo().is_none(), "redo tail must be empty after new edit");
}

#[test]
fn redo_walks_forward_after_undo() {
    let mut s = fresh();
    s.record_edit(EditOp::Insert, snap("a", 1));
    s.record_edit(EditOp::Backspace, snap("", 0));
    let _ = s.undo();
    let redone = s.redo().expect("redo available");
    assert_eq!(redone.text, "");
}

#[test]
fn capacity_overflow_drops_oldest_and_clamps_cursor() {
    let mut s = fresh();
    for i in 1..=(UNDO_STACK_CAP + 5) {
        s.record_edit(EditOp::Insert, snap(&"x".repeat(i), i));
        s.mark_motion();
    }
    assert_eq!(s.len(), UNDO_STACK_CAP);
    assert!(s.cursor() < s.len());
}

#[test]
fn undo_after_typing_burst_restores_pre_burst_state() {
    let mut s = fresh();
    s.record_edit(EditOp::Insert, snap("h", 1));
    s.record_edit(EditOp::Insert, snap("he", 2));
    s.record_edit(EditOp::Insert, snap("hel", 3));
    let restored = s.undo().expect("undo");
    assert_eq!(restored.text, "", "one undo erases the burst");
}

// Coalescing by time, with explicit timestamps.

#[test]
fn inserts_within_the_window_coalesce_at_given_times() {
    let mut s = fresh();
    s.record_edit_at(EditOp::Insert, snap("a", 1), Timestamp::from_nanos(1_000_000_000));
    s.record_edit_at(EditOp::Insert, snap("ab", 2), Timestamp::from_nanos(1_400_000_000));
    assert_eq!(s.len(), 2);
    assert_eq!(s.cursor(), 1);
}

#[test]
fn inserts_past_the_window_open_a_new_step() {
    let mut s = fresh();
    s.record_edit_at(EditOp::Insert, snap("a", 1), Timestamp::from_nanos(1_000_000_000));
    s.record_edit_at(EditOp::Insert, snap("ab", 2), Timestamp::from_nanos(1_500_000_001));
    assert_eq!(s.len(), 3);
}

#[test]
fn inserts_exactly_at_the_window_edge_still_coalesce() {
    let mut s = fresh();
    s.record_edit_at(EditOp::Insert, snap("a", 1), Timestamp::from_nanos(1_000_000_000));
    s.record_edit_at(EditOp::Insert, snap("ab", 2), Timestamp::from_nanos(1_500_000_000));
    assert_eq!(s.len(), 2);
}

#[test]
fn undo_then_redo_round_trips_the_entry() {
    let mut s = fresh();
    s.record_edit(EditOp::Discrete, snap("one", 3));
    let back = s.undo().expect("undo");
    assert_eq!((back.text.as_str(), back.caret), ("", 0));
    let fwd = s.redo().expect("redo");
    assert_eq!((fwd.text.as_str(), fwd.caret), ("one", 3));
    assert_eq!(s.cursor(), 1);
}
