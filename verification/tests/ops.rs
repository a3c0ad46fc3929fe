use slate_framework::ime::{Affinity, ImeState};
use slate_framework::text_edit::grapheme::{next_grapheme_boundary, prev_grapheme_boundary};
use slate_framework::text_edit::ops::{
    apply_motion, apply_motion_to, apply_snapshot, apply_visual_edge, apply_visual_motion,
    delete_selection, selection_range, MotionDir,
};
use slate_framework::text_edit::undo::EditSnapshot;

fn state_with(text: &str, caret: usize, anchor: Option<usize>) -> ImeState {
    ImeState { text: text.to_string(), caret, selection_anchor: anchor, ..Default::default() }
}

fn right_target(s: &ImeState) -> usize {
    next_grapheme_boundary(&s.text, s.caret)
}

fn left_target(s: &ImeState) -> usize {
    prev_grapheme_boundary(&s.text, s.caret)
}

#[test]
fn delete_selection_removes_range_and_collapses() {
    let mut s = state_with("hello world", 5, Some(0));
    assert!(delete_selection(&mut s));
    assert_eq!(s.text, " world");
    assert_eq!(s.caret, 0);
    assert_eq!(s.selection_anchor, None);
}

#[test]
fn delete_selection_caret_before_anchor() {
    let mut s = state_with("abcdef", 1, Some(4));
    assert!(delete_selection(&mut s));
    assert_eq!(s.text, "aef");
    assert_eq!(s.caret, 1);
    assert_eq!(s.selection_anchor, None);
}

#[test]
fn delete_selection_empty_clears_anchor_returns_false() {
    let mut s = state_with("abc", 1, Some(1));
    assert!(!delete_selection(&mut s));
    assert_eq!(s.text, "abc");
    assert_eq!(s.caret, 1);
    assert_eq!(s.selection_anchor, None);
}

#[test]
fn delete_selection_no_anchor_noop() {
    let mut s = state_with("abc", 1, None);
    assert!(!delete_selection(&mut s));
    assert_eq!(s.text, "abc");
    assert_eq!(s.caret, 1);
}

#[test]
fn shift_motion_anchors_at_pre_move_caret() {
    let mut s = state_with("hello", 2, None);
    let t = right_target(&s);
    apply_motion(&mut s, MotionDir::Right, true, t);
    assert_eq!(s.selection_anchor, Some(2));
    assert_eq!(s.caret, 3);
}

#[test]
fn shift_motion_keeps_existing_anchor() {
    let mut s = state_with("hello", 3, Some(1));
    let t = right_target(&s);
    apply_motion(&mut s, MotionDir::Right, true, t);
    assert_eq!(s.selection_anchor, Some(1), "anchor must not move");
    assert_eq!(s.caret, 4);
}

#[test]
fn plain_left_with_selection_collapses_to_left_edge() {
    let mut s = state_with("abcdef", 4, Some(1));
    let t = left_target(&s);
    apply_motion(&mut s, MotionDir::Left, false, t);
    assert_eq!(s.caret, 1, "collapses to lo edge, no further move");
    assert_eq!(s.selection_anchor, None);
}

#[test]
fn plain_right_with_selection_collapses_to_right_edge() {
    let mut s = state_with("abcdef", 1, Some(4));
    let t = right_target(&s);
    apply_motion(&mut s, MotionDir::Right, false, t);
    assert_eq!(s.caret, 4, "collapses to hi edge, no further move");
    assert_eq!(s.selection_anchor, None);
}

#[test]
fn plain_motion_no_selection_moves_normally() {
    let mut s = state_with("abc", 1, None);
    let t = right_target(&s);
    apply_motion(&mut s, MotionDir::Right, false, t);
    assert_eq!(s.caret, 2);
    assert_eq!(s.selection_anchor, None);
}

#[test]
fn plain_motion_empty_selection_clears_anchor_and_moves() {
    let mut s = state_with("abc", 1, Some(1));
    let t = right_target(&s);
    apply_motion(&mut s, MotionDir::Right, false, t);
    assert_eq!(s.caret, 2);
    assert_eq!(s.selection_anchor, None);
}

#[test]
fn shift_home_then_shift_end_swaps_selection_around_anchor() {
    let mut s = state_with("hello", 2, None);
    apply_motion(&mut s, MotionDir::Left, true, 0);
    assert_eq!(s.selection_anchor, Some(2));
    assert_eq!(s.caret, 0);
    let end = s.text.len();
    apply_motion(&mut s, MotionDir::Right, true, end);
    assert_eq!(s.selection_anchor, Some(2));
    assert_eq!(s.caret, 5);
}

#[test]
fn selection_range_returns_lo_hi_when_non_empty() {
    let s = state_with("abcdef", 4, Some(1));
    assert_eq!(selection_range(&s), Some((1, 4)));
    let s = state_with("abcdef", 1, Some(4));
    assert_eq!(selection_range(&s), Some((1, 4)));
}

#[test]
fn selection_range_none_for_empty_or_unanchored() {
    assert_eq!(selection_range(&state_with("abc", 1, None)), None);
    assert_eq!(selection_range(&state_with("abc", 1, Some(1))), None);
}

#[test]
fn apply_motion_to_plain_jumps_and_clears_anchor() {
    let mut s = state_with("hello", 1, Some(3));
    apply_motion_to(&mut s, false, 4);
    assert_eq!(s.caret, 4);
    assert_eq!(s.selection_anchor, None);
}

#[test]
fn apply_motion_to_shift_anchors_and_extends() {
    let mut s = state_with("hello", 2, None);
    apply_motion_to(&mut s, true, 5);
    assert_eq!(s.selection_anchor, Some(2), "anchors at pre-move caret");
    assert_eq!(s.caret, 5);
    apply_motion_to(&mut s, true, 0);
    assert_eq!(s.selection_anchor, Some(2));
    assert_eq!(s.caret, 0);
}

#[test]
fn grapheme_boundary_collapse_with_cjk() {
    let mut s = state_with("こんにちは", 9, Some(3));
    let t = left_target(&s);
    apply_motion(&mut s, MotionDir::Left, false, t);
    assert_eq!(s.caret, 3, "collapse must land on a grapheme boundary");
    assert!(s.text.is_char_boundary(s.caret));
}

// The mixed-direction line "abאב": "ab" LTR (bytes 0..2), "אב" RTL (bytes
// 2..6). Its visual caret stops, left to right: byte 0 (Downstream), byte 1
// (Downstream), byte 6 (Upstream), byte 4 (Downstream), byte 2 (Downstream).
const STOPS: [(usize, Affinity); 5] = [
    (0, Affinity::Downstream),
    (1, Affinity::Downstream),
    (6, Affinity::Upstream),
    (4, Affinity::Downstream),
    (2, Affinity::Downstream),
];

/// The visual step from `(caret, affinity)` on the mixed line.
fn step(s: &ImeState, move_right: bool) -> Option<(usize, Affinity)> {
    step_from(s.caret, s.caret_affinity, move_right)
}

fn step_from(caret: usize, affinity: Affinity, move_right: bool) -> Option<(usize, Affinity)> {
    let pos = STOPS.iter().position(|&(b, a)| b == caret && (a == affinity || caret != 6))?;
    if move_right {
        STOPS.get(pos + 1).copied()
    } else if pos == 0 {
        None
    } else {
        Some(STOPS[pos - 1])
    }
}

fn state_at(caret: usize, affinity: Affinity) -> ImeState {
    ImeState { text: "abאב".to_string(), caret, caret_affinity: affinity, ..Default::default() }
}

#[test]
fn visual_right_crosses_seam_and_threads_affinity() {
    let mut s = state_at(1, Affinity::Downstream);
    assert!({ let st = step(&s, true); apply_visual_motion(&mut s, st, true, false) });
    assert_eq!((s.caret, s.caret_affinity), (6, Affinity::Upstream));
    assert!({ let st = step(&s, true); apply_visual_motion(&mut s, st, true, false) });
    assert_eq!((s.caret, s.caret_affinity), (4, Affinity::Downstream));
    assert!({ let st = step(&s, true); apply_visual_motion(&mut s, st, true, false) });
    assert_eq!((s.caret, s.caret_affinity), (2, Affinity::Downstream));
}

#[test]
fn visual_motion_returns_false_at_visual_edge() {
    let mut s = state_at(2, Affinity::Downstream);
    assert!(!apply_visual_motion(&mut s, step_from(2, Affinity::Downstream, true), true, false));
    assert_eq!(s.caret, 2, "caret unchanged when caller must fall back");
    let mut s = state_at(0, Affinity::Downstream);
    assert!(!apply_visual_motion(&mut s, step_from(0, Affinity::Downstream, false), false, false));
    assert_eq!(s.caret, 0);
}

#[test]
fn shift_visual_motion_anchors_then_extends() {
    let mut s = state_at(1, Affinity::Downstream);
    let st = step(&s, true);
    apply_visual_motion(&mut s, st, true, true);
    assert_eq!(s.selection_anchor, Some(1), "anchor at pre-move caret");
    assert_eq!(s.caret, 6);
    let st = step(&s, true);
    apply_visual_motion(&mut s, st, true, true);
    assert_eq!(s.selection_anchor, Some(1));
    assert_eq!(s.caret, 4);
}

#[test]
fn plain_visual_motion_over_selection_collapses_to_edge() {
    let mut s = state_at(4, Affinity::Downstream);
    s.selection_anchor = Some(1);
    assert!(apply_visual_motion(&mut s, step_from(4, Affinity::Downstream, true), true, false));
    assert_eq!(s.caret, 4);
    assert_eq!(s.selection_anchor, None);
    assert_eq!(s.caret_affinity, Affinity::Downstream);
}

#[test]
fn visual_edge_home_end_hit_screen_extremes() {
    let mut s = state_at(4, Affinity::Downstream);
    assert!(apply_visual_edge(&mut s, Some(STOPS[0]), false));
    assert_eq!((s.caret, s.caret_affinity), (0, Affinity::Downstream));
    assert!(apply_visual_edge(&mut s, Some(STOPS[4]), false));
    assert_eq!((s.caret, s.caret_affinity), (2, Affinity::Downstream));
}

#[test]
fn visual_ops_decline_on_runless_line() {
    let mut s = ImeState { text: "a".to_string(), caret: 0, ..Default::default() };
    assert!(!apply_visual_motion(&mut s, None, true, false));
    assert!(!apply_visual_edge(&mut s, None, false));
    assert_eq!(s.caret, 0);
}

#[test]
fn snapshot_restore_clamps_caret_and_drops_composition() {
    let mut s = state_with("hello", 5, None);
    s.preedit = Some(slate_framework::ime::Preedit { text: "x".into(), cursor_byte_offset: 0, selection: None });
    apply_snapshot(&mut s, &EditSnapshot { text: "hi".to_string(), caret: 9, anchor: Some(7) });
    assert_eq!(s.text, "hi");
    assert_eq!(s.caret, 2);
    assert_eq!(s.selection_anchor, Some(2));
    assert!(s.preedit.is_none());
    assert!(s.blink.visible);
}
