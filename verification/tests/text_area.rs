use slate_framework::elements::text_area::{
    apply_cross_line, area_key_down, area_mouse_down, area_text_input, cross_line_index, insert_newline,
    key_resets_column,
    next_click_count, LineEdgeTarget,
};
use slate_framework::ime::{Affinity, ImeState, Preedit};
use slate_framework::text_edit::keys::EditKey;
use slate_framework::time::Timestamp;

const MS: u64 = 1_000_000;
const T0: u64 = 1_000 * MS;

/// The host's pointer-travel check: within 4 logical px of the previous click.
fn within(prev: (f32, f32), pos: (f32, f32)) -> bool {
    let dx = pos.0 - prev.0;
    let dy = pos.1 - prev.1;
    dx * dx + dy * dy <= 4.0 * 4.0
}

const POS: (f32, f32) = (50.0, 20.0);

#[test]
fn first_click_is_single() {
    assert_eq!(next_click_count(None, 0, Timestamp::from_nanos(T0), within((0.0, 0.0), POS)), 1);
}

#[test]
fn two_close_clicks_make_a_double_then_triple() {
    let t0 = Timestamp::from_nanos(T0);
    let t1 = t0.plus(100 * MS);
    let t2 = t1.plus(100 * MS);
    assert_eq!(next_click_count(Some(t0), 1, t1, within(POS, POS)), 2);
    assert_eq!(next_click_count(Some(t1), 2, t2, within(POS, POS)), 3);
}

#[test]
fn fourth_click_wraps_to_single() {
    let t0 = Timestamp::from_nanos(T0);
    let t1 = t0.plus(100 * MS);
    assert_eq!(next_click_count(Some(t0), 3, t1, within(POS, POS)), 1);
}

#[test]
fn slow_second_click_resets_to_single() {
    let t0 = Timestamp::from_nanos(T0);
    let t_slow = t0.plus(600 * MS);
    assert_eq!(next_click_count(Some(t0), 1, t_slow, within(POS, POS)), 1);
}

#[test]
fn far_second_click_resets_to_single() {
    let t0 = Timestamp::from_nanos(T0);
    let t1 = t0.plus(100 * MS);
    let far = (POS.0 + 10.0, POS.1);
    assert_eq!(next_click_count(Some(t0), 1, t1, within(POS, far)), 1);
}

#[test]
fn small_jitter_within_tolerance_still_doubles() {
    let t0 = Timestamp::from_nanos(T0);
    let t1 = t0.plus(100 * MS);
    let jittered = (POS.0 + 3.0, POS.1);
    assert_eq!(next_click_count(Some(t0), 1, t1, within(POS, jittered)), 2);
}

#[test]
fn click_exactly_at_the_interval_still_counts() {
    let t0 = Timestamp::from_nanos(T0);
    assert_eq!(next_click_count(Some(t0), 1, t0.plus(500 * MS), true), 2);
    assert_eq!(next_click_count(Some(t0), 1, t0.plus(500 * MS + 1), true), 1);
}

fn state_with(text: &str, caret: usize) -> ImeState {
    ImeState { text: text.to_string(), caret, ..Default::default() }
}

#[test]
fn enter_inserts_newline_at_caret() {
    let mut s = state_with("ab", 1);
    let text = insert_newline(&mut s);
    assert_eq!(text, "a\nb");
    assert_eq!(s.caret, 2, "caret advances past the inserted newline");
    assert!(key_resets_column(EditKey::Enter), "Enter clears the sticky column");
}

#[test]
fn enter_replaces_selection() {
    let mut s = state_with("abcd", 3);
    s.selection_anchor = Some(1);
    let text = insert_newline(&mut s);
    assert_eq!(text, "a\nd");
    assert_eq!(s.caret, 2);
    assert_eq!(s.selection_anchor, None);
}

#[test]
fn area_enter_key_inserts_and_is_consumed() {
    let mut s = state_with("ab", 2);
    let out = area_key_down(&mut s, EditKey::Enter, false, None, None);
    assert!(out.consumed);
    assert_eq!(out.new_text.as_deref(), Some("ab\n"));
    assert_eq!(s.caret, 3);
    assert_eq!(s.undo.len(), 2, "newline is its own undo step");
}

#[test]
fn area_keys_are_left_to_the_ime_during_composition() {
    let mut s = state_with("ab", 1);
    s.preedit = Some(Preedit { text: "x".to_string(), cursor_byte_offset: 1, selection: None });
    let out = area_key_down(&mut s, EditKey::Backspace, false, None, None);
    assert!(!out.consumed);
    assert_eq!(s.text, "ab");
    assert_eq!(area_text_input(&mut s, "z"), None);
    assert_eq!(s.text, "ab");
}

#[test]
fn area_backspace_and_arrows() {
    let mut s = state_with("a\u{4f60}b", 4);
    let out = area_key_down(&mut s, EditKey::Backspace, false, None, None);
    assert_eq!(out.new_text.as_deref(), Some("ab"));
    assert_eq!(s.caret, 1);
    let out = area_key_down(&mut s, EditKey::ArrowRight, true, None, None);
    assert!(out.consumed && out.new_text.is_none());
    assert_eq!((s.caret, s.selection_anchor), (2, Some(1)));
    let out = area_key_down(&mut s, EditKey::ArrowLeft, false, None, None);
    assert!(out.consumed);
    assert_eq!((s.caret, s.selection_anchor), (1, None), "plain left collapses to the left edge");
    let mut at_start = state_with("ab", 0);
    let out = area_key_down(&mut at_start, EditKey::Backspace, false, None, None);
    assert!(!out.consumed && out.new_text.is_none());
}

#[test]
fn area_vertical_and_line_edge_use_the_given_targets() {
    let mut s = state_with("ab\ncd", 1);
    s.caret_affinity = Affinity::Upstream;
    let out = area_key_down(&mut s, EditKey::ArrowDown, false, Some(4), None);
    assert!(out.consumed);
    assert_eq!((s.caret, s.caret_affinity), (4, Affinity::Downstream));
    let out = area_key_down(&mut s, EditKey::ArrowUp, false, None, None);
    assert!(out.consumed, "consumed even without a layout");
    assert_eq!(s.caret, 4);
    let edge = LineEdgeTarget { visual: None, logical: 3 };
    let out = area_key_down(&mut s, EditKey::Home, true, None, Some(edge));
    assert!(out.consumed);
    assert_eq!((s.caret, s.selection_anchor), (3, Some(4)));
    let visual = LineEdgeTarget { visual: Some((5, Affinity::Upstream)), logical: 3 };
    area_key_down(&mut s, EditKey::End, false, None, Some(visual));
    assert_eq!((s.caret, s.selection_anchor, s.caret_affinity), (5, None, Affinity::Upstream));
    let out = area_key_down(&mut s, EditKey::Other, false, None, None);
    assert!(!out.consumed);
}

#[test]
fn area_clicks_select_caret_word_and_line() {
    let mut s = state_with("hello world\nnext", 0);
    let t0 = Timestamp::from_nanos(T0);
    assert!(area_mouse_down(&mut s, Some(7), t0, true, Some((0, 12))));
    assert_eq!((s.selection_anchor, s.caret, s.click_count), (Some(7), 7, 1));
    assert!(s.dragging);
    assert!(area_mouse_down(&mut s, Some(7), t0.plus(100 * MS), true, Some((0, 12))));
    assert_eq!((s.selection_anchor, s.caret, s.click_count), (Some(6), 11, 2), "double click selects the word");
    assert!(area_mouse_down(&mut s, Some(7), t0.plus(200 * MS), true, Some((0, 12))));
    assert_eq!((s.selection_anchor, s.caret, s.click_count), (Some(0), 12, 3), "triple click selects the line");
    assert!(!area_mouse_down(&mut s, None, t0.plus(300 * MS), true, None), "no layout yet");
    assert_eq!(s.click_count, 3);
}

#[test]
fn area_typing_replaces_the_selection() {
    let mut s = state_with("abcd", 1);
    s.selection_anchor = Some(3);
    assert_eq!(area_text_input(&mut s, "XY").as_deref(), Some("aXYd"));
    assert_eq!((s.caret, s.selection_anchor), (3, None));
}

#[test]
fn cross_line_moves_to_the_adjacent_line_and_clamps_at_edges() {
    assert_eq!(cross_line_index(0, 2, true), Some(1));
    assert_eq!(cross_line_index(1, 2, true), None, "last line: no further line");
    assert_eq!(cross_line_index(1, 2, false), Some(0));
    assert_eq!(cross_line_index(0, 2, false), None, "first line: no earlier line");
    assert_eq!(cross_line_index(0, 0, true), None);
}

#[test]
fn cross_line_entry_moves_caret_and_sets_affinity() {
    // "ab\ncd": moving right off line 0 enters line 1 at its visual left (byte 3).
    let mut s = state_with("ab\ncd", 2);
    apply_cross_line(&mut s, (3, Affinity::Downstream), false);
    assert_eq!(s.caret, 3);
    assert_eq!(s.selection_anchor, None);
    assert_eq!(s.caret_affinity, Affinity::Downstream);
    // Moving left back with Shift enters line 0 at its visual right and keeps
    // the anchor where the selection started.
    apply_cross_line(&mut s, (2, Affinity::Upstream), true);
    assert_eq!(s.caret, 2);
    assert_eq!(s.selection_anchor, Some(3));
    assert_eq!(s.caret_affinity, Affinity::Upstream);
}

#[test]
fn only_vertical_keys_keep_the_sticky_column() {
    for k in [EditKey::Enter, EditKey::Backspace, EditKey::ArrowLeft, EditKey::ArrowRight, EditKey::Home, EditKey::End] {
        assert!(key_resets_column(k));
    }
    for k in [EditKey::ArrowUp, EditKey::ArrowDown, EditKey::Other] {
        assert!(!key_resets_column(k));
    }
}
