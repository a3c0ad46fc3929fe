//! Single-line text field: what each key, text-input, IME and pointer event
//! does to the field's editing state.
//!
//! Geometry comes in precomputed from the shaped line the last paint cached:
//! the visual step of an arrow on a mixed-direction line, the visual line edge
//! for Home/End, and the byte under the pointer.
use vstd::prelude::*;
use vstd::utf8::*;

use crate::ime::{Affinity, ImeState};
use crate::text_edit::grapheme::{
    next_boundary_spec, next_grapheme_boundary, prev_boundary_spec, prev_grapheme_boundary,
};
use crate::text_edit::keys::{finish_motion, moved, EditKey, KeyOutcome};
use crate::text_edit::ops::{
    apply_motion, apply_visual_edge, apply_visual_motion, insert_fits, motion_result, reset_blink,
    shift_anchor, visual_motion_result, MotionDir,
};
use crate::text_edit::text_bytes::{byte_len, is_boundary, text_bytes};
use crate::text_edit::typing::{
    backspace_done, blink_reset, bytes_after_insert, commit_composition, delete_backward,
    keeps_other_fields, type_text,
};
use crate::text_edit::ops::{caret_without_selection, recorded, selection_of};
use crate::text_edit::undo::EditOp;

verus! {

broadcast use vstd::utf8::group_utf8_lib;

/// Caret, anchor and affinity after moving to the line's start (`to_end`
/// false) or end. `edge` is the visual edge of a mixed-direction line; without
/// one the logical edges (byte 0 / the text's end) are used with directional
/// selection collapse.
pub open spec fn line_edge_result(
    state: ImeState,
    edge: Option<(usize, Affinity)>,
    to_end: bool,
    shift: bool,
) -> (usize, Option<usize>, Affinity) {
    match edge {
        Some((byte, aff)) => (byte, shift_anchor(state, shift), aff),
        None => {
            let dir = if to_end {
                MotionDir::Right
            } else {
                MotionDir::Left
            };
            let target = if to_end {
                byte_len(state.text@) as usize
            } else {
                0usize
            };
            let (c, a) = motion_result(state, dir, shift, target);
            (c, a, Affinity::Downstream)
        },
    }
}

/// Caret, anchor and affinity after a left/right arrow. `visual_step` is
/// `Some(step)` on a mixed-direction line (a visual step, `None` at the edge,
/// where the caret stays put) and `None` on a plain line, which uses logical
/// grapheme motion.
pub open spec fn arrow_result(
    state: ImeState,
    move_right: bool,
    shift: bool,
    visual_step: Option<Option<(usize, Affinity)>>,
) -> (usize, Option<usize>, Affinity) {
    match visual_step {
        Some(step) => visual_motion_result(state, step, move_right, shift),
        None => {
            let dir = if move_right {
                MotionDir::Right
            } else {
                MotionDir::Left
            };
            let target = if move_right {
                next_boundary_spec(state.text@, state.caret)
            } else {
                prev_boundary_spec(state.text@, state.caret)
            };
            let (c, a) = motion_result(state, dir, shift, target);
            (c, a, Affinity::Downstream)
        },
    }
}

/// A plain Left or Right arrow over a non-empty selection collapses it to its
/// start or its end, whichever end the caret was on, on a plain line and on a
/// mixed-direction one alike, and leaves no anchor.
pub proof fn law_field_arrows_collapse(state: ImeState, visual_step: Option<Option<(usize, Affinity)>>)
    ensures
        state.selection_anchor matches Some(a) ==> (a != state.caret ==> {
            &&& arrow_result(state, true, false, visual_step).0 == (if a < state.caret {
                state.caret
            } else {
                a
            })
            &&& arrow_result(state, false, false, visual_step).0 == (if a < state.caret {
                a
            } else {
                state.caret
            })
            &&& arrow_result(state, true, false, visual_step).1 is None
            &&& arrow_result(state, false, false, visual_step).1 is None
        }),
{
}

/// Move the caret to the line's visual edge (mixed-direction line, `edge`
/// given) or its logical edge. Shared by Home/End and the platform's
/// line-edge arrow chord.
pub fn apply_line_edge(state: &mut ImeState, edge: Option<(usize, Affinity)>, to_end: bool, shift: bool)
    requires
        old(state).wf(),
        edge matches Some((b, _)) ==> is_boundary(old(state).text@, b as int),
    ensures
        final(state).wf(),
        (final(state).caret, final(state).selection_anchor, final(state).caret_affinity)
            == line_edge_result(*old(state), edge, to_end, shift),
        (ImeState {
            caret: final(state).caret,
            caret_affinity: final(state).caret_affinity,
            selection_anchor: final(state).selection_anchor,
            ..*old(state)
        }) == *final(state),
{
    let handled = apply_visual_edge(state, edge, shift);
    if !handled {
        state.caret_affinity = Affinity::Downstream;
        let len = state.text.as_str().as_bytes().len();
        proof {
            is_char_boundary_start_end_of_seq(text_bytes(state.text@));
        }
        if to_end {
            apply_motion(state, MotionDir::Right, shift, len);
        } else {
            apply_motion(state, MotionDir::Left, shift, 0);
        }
    }
}

/// The field's key-down handling (after the command shortcuts). While a
/// composition is active every key is left to the IME. Backspace edits;
/// left/right move by grapheme (or visually on a mixed-direction line, or to
/// the line edge with the line-edge chord); Home/End move to the line edges.
/// Tab, Enter and other keys are not consumed, so they bubble.
pub fn field_key_down(
    state: &mut ImeState,
    key: EditKey,
    shift: bool,
    line_edge_chord: bool,
    visual_step: Option<Option<(usize, Affinity)>>,
    visual_edge: Option<(usize, Affinity)>,
) -> (r: KeyOutcome)
    requires
        old(state).wf(),
        visual_step matches Some(Some((b, _))) ==> is_boundary(old(state).text@, b as int),
        visual_edge matches Some((b, _)) ==> is_boundary(old(state).text@, b as int),
    ensures
        final(state).wf(),
        old(state).preedit is Some ==> !r.consumed && r.new_text is None && *final(state) == *old(
            state,
        ),
        old(state).preedit is None ==> match key {
            EditKey::Backspace => {
                &&& r.consumed == r.new_text is Some
                &&& backspace_done(
                    ImeState { caret_affinity: Affinity::Downstream, ..*old(state) },
                    *final(state),
                    r.new_text,
                )
            },
            EditKey::ArrowLeft | EditKey::ArrowRight => {
                let right = key == EditKey::ArrowRight;
                &&& r.consumed
                &&& r.new_text is None
                &&& moved(
                    *old(state),
                    *final(state),
                    if line_edge_chord {
                        line_edge_result(*old(state), visual_edge, right, shift)
                    } else {
                        arrow_result(*old(state), right, shift, visual_step)
                    },
                )
            },
            EditKey::Home | EditKey::End => {
                &&& r.consumed
                &&& r.new_text is None
                &&& moved(
                    *old(state),
                    *final(state),
                    line_edge_result(*old(state), visual_edge, key == EditKey::End, shift),
                )
            },
            _ => !r.consumed && r.new_text is None && *final(state) == *old(state),
        },
{
    if state.preedit.is_some() {
        return KeyOutcome { consumed: false, new_text: None };
    }
    match key {
        EditKey::Backspace => {
            state.caret_affinity = Affinity::Downstream;
            let new_text = delete_backward(state);
            KeyOutcome { consumed: new_text.is_some(), new_text }
        },
        EditKey::ArrowLeft | EditKey::ArrowRight => {
            let move_right = match key {
                EditKey::ArrowRight => true,
                _ => false,
            };
            if line_edge_chord {
                apply_line_edge(state, visual_edge, move_right, shift);
            } else {
                match visual_step {
                    Some(step) => {
                        apply_visual_motion(state, step, move_right, shift);
                    },
                    None => {
                        state.caret_affinity = Affinity::Downstream;
                        if move_right {
                            let target = next_grapheme_boundary_of(state);
                            apply_motion(state, MotionDir::Right, shift, target);
                        } else {
                            let target = prev_grapheme_boundary(state.text.as_str(), state.caret);
                            apply_motion(state, MotionDir::Left, shift, target);
                        }
                    },
                }
            }
            finish_motion(state);
            KeyOutcome { consumed: true, new_text: None }
        },
        EditKey::Home | EditKey::End => {
            let to_end = match key {
                EditKey::End => true,
                _ => false,
            };
            apply_line_edge(state, visual_edge, to_end, shift);
            finish_motion(state);
            KeyOutcome { consumed: true, new_text: None }
        },
        _ => KeyOutcome { consumed: false, new_text: None },
    }
}

/// The grapheme boundary after the caret (the text's end when none).
fn next_grapheme_boundary_of(state: &ImeState) -> (r: usize)
    requires
        state.wf(),
    ensures
        r == next_boundary_spec(state.text@, state.caret),
        is_boundary(state.text@, r as int),
{
    let len = state.text.as_str().as_bytes().len();
    proof {
        assert(byte_len(state.text@) == len);
    }
    next_grapheme_boundary(state.text.as_str(), state.caret)
}

/// Pointer press at byte `byte` (the boundary under the pointer, `None` before
/// the first paint). Places a collapsed caret anchored there and starts a
/// drag. Inert during a composition. Returns whether the press was consumed.
pub fn field_mouse_down(state: &mut ImeState, byte: Option<usize>) -> (consumed: bool)
    requires
        old(state).wf(),
        byte matches Some(b) ==> is_boundary(old(state).text@, b as int),
    ensures
        final(state).wf(),
        consumed == (old(state).preedit is None && byte is Some),
        !consumed ==> *final(state) == *old(state),
        consumed ==> {
            let b = byte->0;
            &&& moved(*old(state), ImeState { dragging: old(state).dragging, ..*final(state) }, (b, Some(b), Affinity::Downstream))
            &&& final(state).dragging
        },
{
    if state.preedit.is_some() {
        return false;
    }
    let b = match byte {
        Some(b) => b,
        None => {
            return false;
        },
    };
    state.caret = b;
    state.caret_affinity = Affinity::Downstream;
    state.selection_anchor = Some(b);
    state.dragging = true;
    finish_motion(state);
    true
}

/// Committed text input into the field: ignored during a composition (the IME
/// owns the keystroke); otherwise the caret affinity resets and the text
/// replaces the selection or is inserted at the caret. Returns the new buffer
/// when the input was taken.
pub fn field_text_input(state: &mut ImeState, ins: &str) -> (r: Option<String>)
    requires
        old(state).wf(),
        old(state).preedit is None ==> insert_fits(*old(state), ins@),
    ensures
        final(state).wf(),
        old(state).preedit is Some ==> r is None && *final(state) == *old(state),
        old(state).preedit is None ==> {
            let o = *old(state);
            &&& (r matches Some(t) && t@ == final(state).text@)
            &&& final(state).caret_affinity == Affinity::Downstream
            &&& keeps_other_fields(
                ImeState { caret_affinity: Affinity::Downstream, ..o },
                *final(state),
            )
            &&& text_bytes(final(state).text@) == bytes_after_insert(o, ins@)
            &&& final(state).caret == caret_without_selection(o) + byte_len(ins@)
            &&& final(state).selection_anchor is None
            &&& recorded(
                o.undo@,
                if selection_of(o) is Some {
                    EditOp::Discrete
                } else {
                    EditOp::Insert
                },
                *final(state),
                final(state).undo@,
            )
            &&& blink_reset(*final(state))
        },
{
    if state.preedit.is_some() {
        return None;
    }
    state.caret_affinity = Affinity::Downstream;
    Some(type_text(state, ins))
}

/// IME commit into the field: empty text only clears the composition;
/// otherwise the caret affinity resets and the committed text replaces the
/// selection (or is inserted at the caret) as a discrete undo step. Returns
/// the new buffer when text was committed.
pub fn field_ime_commit(state: &mut ImeState, committed: &str) -> (r: Option<String>)
    requires
        old(state).wf(),
        committed@.len() > 0 ==> insert_fits(*old(state), committed@),
    ensures
        final(state).wf(),
        final(state).preedit is None,
        committed@.len() == 0 ==> r is None && *final(state) == (ImeState {
            preedit: None,
            ..*old(state)
        }),
        committed@.len() > 0 ==> {
            let o = *old(state);
            &&& (r matches Some(t) && t@ == final(state).text@)
            &&& final(state).caret_affinity == Affinity::Downstream
            &&& text_bytes(final(state).text@) == bytes_after_insert(o, committed@)
            &&& final(state).caret == caret_without_selection(o) + byte_len(committed@)
            &&& final(state).selection_anchor is None
            &&& recorded(o.undo@, EditOp::Discrete, *final(state), final(state).undo@)
            &&& blink_reset(*final(state))
            &&& keeps_other_fields(
                ImeState { caret_affinity: Affinity::Downstream, preedit: None, ..o },
                *final(state),
            )
        },
{
    if !committed.is_empty() {
        state.caret_affinity = Affinity::Downstream;
    }
    commit_composition(state, committed)
}

} // verus!
