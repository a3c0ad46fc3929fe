use slate_framework::ime::{ImeState, Preedit};
use slate_framework::text_edit::shortcuts::{run_shortcut, shortcut_for, Shortcut, ShortcutKey};

fn state_with(text: &str, caret: usize, anchor: Option<usize>) -> ImeState {
    ImeState { text: text.to_string(), caret, selection_anchor: anchor, ..Default::default() }
}

#[test]
fn chords_map_to_commands_per_platform() {
    assert_eq!(shortcut_for(true, false, false, ShortcutKey::C, false), Some(Shortcut::Copy));
    assert_eq!(shortcut_for(true, false, true, ShortcutKey::X, true), Some(Shortcut::Cut));
    assert_eq!(shortcut_for(true, false, false, ShortcutKey::V, true), Some(Shortcut::Paste));
    assert_eq!(shortcut_for(true, false, false, ShortcutKey::Z, true), Some(Shortcut::Undo));
    assert_eq!(shortcut_for(true, false, true, ShortcutKey::Z, true), Some(Shortcut::Redo));
    assert_eq!(shortcut_for(true, false, true, ShortcutKey::Z, false), Some(Shortcut::Undo));
    assert_eq!(shortcut_for(true, false, false, ShortcutKey::Y, false), Some(Shortcut::Redo));
    assert_eq!(shortcut_for(true, false, true, ShortcutKey::Y, false), None);
    assert_eq!(shortcut_for(true, false, false, ShortcutKey::Y, true), None);
    assert_eq!(shortcut_for(false, false, false, ShortcutKey::C, false), None);
    assert_eq!(shortcut_for(true, true, false, ShortcutKey::C, false), None, "Alt disables");
    assert_eq!(shortcut_for(true, false, false, ShortcutKey::Other, false), None);
}

#[test]
fn copy_hands_the_selection_to_the_clipboard() {
    let mut s = state_with("hello world", 6, Some(11));
    let out = run_shortcut(&mut s, Shortcut::Copy, None, false);
    assert!(out.stop_propagation);
    assert_eq!(out.clipboard_write.as_deref(), Some("world"));
    assert!(out.new_value.is_none());
    assert_eq!(s.text, "hello world");
    let mut none = state_with("abc", 1, None);
    let out = run_shortcut(&mut none, Shortcut::Copy, None, false);
    assert!(out.stop_propagation && out.clipboard_write.is_none());
}

#[test]
fn copy_and_cut_are_inert_during_composition() {
    let mut s = state_with("abc", 0, Some(3));
    s.preedit = Some(Preedit { text: "x".into(), cursor_byte_offset: 1, selection: None });
    for cmd in [Shortcut::Copy, Shortcut::Cut] {
        let out = run_shortcut(&mut s, cmd, None, false);
        assert!(!out.stop_propagation);
        assert!(out.clipboard_write.is_none() && out.new_value.is_none());
    }
    assert_eq!(s.text, "abc");
}

#[test]
fn cut_removes_the_selection_and_undo_restores_it() {
    let mut s = state_with("hello world", 5, Some(11));
    let out = run_shortcut(&mut s, Shortcut::Cut, None, false);
    assert_eq!(out.clipboard_write.as_deref(), Some(" world"));
    assert_eq!(out.new_value.as_deref(), Some("hello"));
    assert_eq!(s.caret, 5);
    let out = run_shortcut(&mut s, Shortcut::Undo, None, false);
    assert!(out.stop_propagation);
    assert_eq!(out.new_value.as_deref(), Some(""), "the baseline of a fresh state is empty");
    let out = run_shortcut(&mut s, Shortcut::Redo, None, false);
    assert_eq!(out.new_value.as_deref(), Some("hello"));
    assert_eq!(s.text, "hello");
    let out = run_shortcut(&mut s, Shortcut::Redo, None, false);
    assert!(out.new_value.is_none(), "nothing left to redo");
}

#[test]
fn paste_cleans_by_newline_policy_and_replaces_selection() {
    let mut single = state_with("ab", 1, None);
    let out = run_shortcut(&mut single, Shortcut::Paste, Some("x\r\ny"), false);
    assert_eq!(out.new_value.as_deref(), Some("axyb"));
    assert_eq!(single.caret, 3);
    let mut multi = state_with("abcd", 1, Some(3));
    let out = run_shortcut(&mut multi, Shortcut::Paste, Some("x\r\ny"), true);
    assert_eq!(out.new_value.as_deref(), Some("ax\nyd"));
    let mut empty = state_with("ab", 1, None);
    let out = run_shortcut(&mut empty, Shortcut::Paste, Some("\n"), false);
    assert!(out.stop_propagation && out.new_value.is_none());
    let out = run_shortcut(&mut empty, Shortcut::Paste, None, false);
    assert!(out.stop_propagation && out.new_value.is_none());
    assert_eq!(empty.text, "ab");
}

#[test]
fn paste_aborts_an_active_composition() {
    let mut s = state_with("ab", 2, None);
    s.preedit = Some(Preedit { text: "x".into(), cursor_byte_offset: 1, selection: None });
    let out = run_shortcut(&mut s, Shortcut::Paste, Some("z"), false);
    assert_eq!(out.new_value.as_deref(), Some("abz"));
    assert!(s.preedit.is_none());
}

#[test]
fn undo_at_the_baseline_changes_nothing() {
    let mut s = state_with("", 0, None);
    let out = run_shortcut(&mut s, Shortcut::Undo, None, false);
    assert!(out.stop_propagation);
    assert!(out.new_value.is_none());
    assert_eq!(s.undo.cursor(), 0);
}
