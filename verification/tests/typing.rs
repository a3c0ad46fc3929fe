use slate_framework::ime::ImeState;
use slate_framework::text_edit::typing::{commit_composition, delete_backward, type_text};

fn state_with(text: &str, caret: usize, anchor: Option<usize>) -> ImeState {
    ImeState { text: text.to_string(), caret, selection_anchor: anchor, ..Default::default() }
}

#[test]
fn typing_a_burst_then_undo_erases_it() {
    let mut s = state_with("", 0, None);
    type_text(&mut s, "h");
    type_text(&mut s, "i");
    assert_eq!(s.text, "hi");
    assert_eq!(s.undo.len(), 2, "the burst is one step");
    let snap = s.undo.undo().expect("undo");
    assert_eq!(snap.text, "");
}

#[test]
fn typing_into_a_selection_is_its_own_step() {
    let mut s = state_with("", 0, None);
    type_text(&mut s, "abc");
    s.selection_anchor = Some(1);
    s.caret = 2;
    assert_eq!(type_text(&mut s, "X"), "aXc");
    assert_eq!(s.undo.len(), 3);
}

#[test]
fn backspace_deletes_selection_then_graphemes() {
    let mut s = state_with("a\u{1F600}b", 6, Some(5));
    assert_eq!(delete_backward(&mut s).as_deref(), Some("a\u{1F600}"));
    assert_eq!(delete_backward(&mut s).as_deref(), Some("a"));
    assert_eq!(delete_backward(&mut s).as_deref(), Some(""));
    assert_eq!(delete_backward(&mut s), None);
}

#[test]
fn commit_inserts_and_clears_the_composition() {
    let mut s = state_with("ab", 1, None);
    assert_eq!(commit_composition(&mut s, "xy").as_deref(), Some("axyb"));
    assert_eq!(s.caret, 3);
    assert_eq!(commit_composition(&mut s, ""), None);
    assert_eq!(s.text, "axyb");
}
