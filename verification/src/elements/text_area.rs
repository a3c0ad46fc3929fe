//! Multi-line text area: what each key, text-input, IME and pointer event does
//! to the area's editing state, and multi-click detection.
//!
//! Line geometry comes in precomputed from the wrapped layout the last paint
//! cached: the byte a vertical move lands on, the edges of the caret's visual
//! line, the byte under the pointer and the visual line around it.
use vstd::prelude::*;

use crate::ime::{Affinity, ImeState};
use crate::text_edit::grapheme::{
    next_boundary_spec, next_grapheme_boundary, prev_boundary_spec, prev_grapheme_boundary,
};
use crate::text_edit::keys::{finish_motion, moved, EditKey, KeyOutcome};
use crate::text_edit::ops::{
    apply_motion, apply_motion_to, apply_visual_edge, caret_without_selection, insert_fits, motion_result,
    record_edit, recorded, reset_blink, shift_anchor, MotionDir,
};
use crate::text_edit::text_bytes::{byte_len, is_boundary, text_bytes};
use crate::text_edit::typing::{
    backspace_done, blink_reset, bytes_after_insert, delete_backward, keeps_other_fields,
    replace_selection_with,
};
use crate::text_edit::undo::EditOp;
use crate::text_edit::word::{word_bounds, word_range_at, word_span};
use crate::time::Timestamp;

verus! {

/// Maximum gap between two mouse-downs of one multi-click run (nanoseconds; 500 ms).
pub const DOUBLE_CLICK_INTERVAL: u64 = 500_000_000;

/// The click count after a click at `now`: the run continues (1 → 2 → 3) when
/// the click is within [`DOUBLE_CLICK_INTERVAL`] and `within_distance` of the
/// previous one; a triple click wraps to 1 and any other click starts at 1.
pub open spec fn click_count_after(
    prev_time: Option<Timestamp>,
    prev_count: u8,
    now: Timestamp,
    within_distance: bool,
) -> u8 {
    let in_time = prev_time matches Some(t) && (if now.nanos >= t.nanos {
        now.nanos - t.nanos
    } else {
        0
    }) <= DOUBLE_CLICK_INTERVAL;
    if in_time && within_distance {
        if prev_count == 1 {
            2u8
        } else if prev_count == 2 {
            3u8
        } else {
            1u8
        }
    } else {
        1u8
    }
}

/// Advance the multi-click run counter. A click continues the run (1 → 2 → 3)
/// only when it lands within [`DOUBLE_CLICK_INTERVAL`] of the previous click and
/// `within_distance` of it (the pointer travel check is made by the host on
/// its pixel coordinates). A triple click wraps to 1, and an out-of-window
/// click, including the first ever, resets to 1.
pub fn next_click_count(prev_time: Option<Timestamp>, prev_count: u8, now: Timestamp, within_distance: bool) -> (r: u8)
    ensures
        r == click_count_after(prev_time, prev_count, now, within_distance),
{
    let in_time = match prev_time {
        Some(t) => now.saturating_since(t) <= DOUBLE_CLICK_INTERVAL,
        None => false,
    };
    if in_time && within_distance {
        match prev_count {
            1 => 2,
            2 => 3,
            _ => 1,
        }
    } else {
        1
    }
}

/// Where Home/End lands on the caret's visual line: the visual edge of a
/// mixed-direction line (when the line has one) and the logical edge (the
/// line's first byte, or its caret-addressable end).
#[derive(Clone, Copy, Debug, PartialEq, Eq)]
pub struct LineEdgeTarget {
    /// Visual edge position and affinity on a mixed-direction line.
    pub visual: Option<(usize, Affinity)>,
    /// Logical edge byte of the line.
    pub logical: usize,
}

/// Caret, anchor and affinity after Home/End to `edge`.
pub open spec fn area_line_edge_result(state: ImeState, edge: LineEdgeTarget, shift: bool) -> (
    usize,
    Option<usize>,
    Affinity,
) {
    match edge.visual {
        Some((byte, aff)) => (byte, shift_anchor(state, shift), aff),
        None => (edge.logical, shift_anchor(state, shift), Affinity::Downstream),
    }
}

/// Caret, anchor and affinity after a left/right arrow (logical grapheme
/// motion; the affinity is kept).
pub open spec fn area_arrow_result(state: ImeState, move_right: bool, shift: bool) -> (
    usize,
    Option<usize>,
    Affinity,
) {
    let dir = if move_right {
        MotionDir::Right
    } else {
        MotionDir::Left
    };
    let target = if move_right {
        next_boundary_spec(state.text@, state.caret)
    } else {
        prev_boundary_spec(state.text@, state.caret)
    };
    let (c, a) = motion_result(state, dir, shift, target);
    (c, a, state.caret_affinity)
}

/// A plain Left or Right arrow over a non-empty selection collapses it to its
/// start or its end, whichever end the caret was on; with no selection it
/// moves the caret one grapheme and leaves no anchor. Shift+arrow moves the
/// caret one grapheme and keeps the anchor (anchoring at the old caret when
/// there was none). The caret's affinity is kept either way.
pub proof fn law_area_arrows(state: ImeState)
    ensures
        state.selection_anchor matches Some(a) ==> (a != state.caret ==> {
            &&& area_arrow_result(state, true, false) == (
                if a < state.caret {
                    state.caret
                } else {
                    a
                },
                None::<usize>,
                state.caret_affinity,
            )
            &&& area_arrow_result(state, false, false) == (
                if a < state.caret {
                    a
                } else {
                    state.caret
                },
                None::<usize>,
                state.caret_affinity,
            )
        }),
        state.selection_anchor is None ==> area_arrow_result(state, true, false) == (
            next_boundary_spec(state.text@, state.caret),
            None::<usize>,
            state.caret_affinity,
        ) && area_arrow_result(state, false, false) == (
            prev_boundary_spec(state.text@, state.caret),
            None::<usize>,
            state.caret_affinity,
        ),
        area_arrow_result(state, true, true) == (
            next_boundary_spec(state.text@, state.caret),
            Some(
                match state.selection_anchor {
                    Some(a) => a,
                    None => state.caret,
                },
            ),
            state.caret_affinity,
        ),
        area_arrow_result(state, false, true) == (
            prev_boundary_spec(state.text@, state.caret),
            Some(
                match state.selection_anchor {
                    Some(a) => a,
                    None => state.caret,
                },
            ),
            state.caret_affinity,
        ),
{
}

/// Whether handling `key` (with no composition active) clears the sticky
/// column that up/down navigation keeps: every handled key but the up and
/// down arrows does; up/down keep it, and a key the area ignores changes
/// nothing. Command shortcuts are not keys here: the host clears the column
/// after a cut, paste, undo or redo that changed the text, which
/// [`crate::text_edit::shortcuts::run_shortcut`] reports by a `new_value`.
pub fn key_resets_column(key: EditKey) -> (r: bool)
    ensures
        r == (key == EditKey::Enter || key == EditKey::Backspace || key == EditKey::ArrowLeft || key
            == EditKey::ArrowRight || key == EditKey::Home || key == EditKey::End),
{
    match key {
        EditKey::Enter | EditKey::Backspace | EditKey::ArrowLeft | EditKey::ArrowRight | EditKey::Home
        | EditKey::End => true,
        EditKey::ArrowUp | EditKey::ArrowDown | EditKey::Other => false,
    }
}

/// The visual line a visual left/right step crosses to from line `idx` of
/// `count` when it has nowhere left to go on its own line: the next line
/// moving right, the previous one moving left; `None` at the first or last
/// line (the caret stays at the current edge).
pub fn cross_line_index(idx: usize, count: usize, move_right: bool) -> (r: Option<usize>)
    ensures
        r == (if move_right {
            if idx + 1 < count {
                Some((idx + 1) as usize)
            } else {
                None
            }
        } else if idx > 0 {
            Some((idx - 1) as usize)
        } else {
            None
        }),
{
    if move_right {
        if idx < count && count - idx > 1 {
            Some(idx + 1)
        } else {
            None
        }
    } else if idx > 0 {
        Some(idx - 1)
    } else {
        None
    }
}

/// Enter the crossed-to line at `entry` (its visual left edge moving right,
/// its visual right edge moving left, with the affinity that edge binds to):
/// the caret moves there and `shift` extends the selection. Nothing else
/// changes (the step's blink and undo handling already ran).
pub fn apply_cross_line(state: &mut ImeState, entry: (usize, Affinity), shift: bool)
    requires
        old(state).wf(),
        is_boundary(old(state).text@, entry.0 as int),
    ensures
        final(state).wf(),
        *final(state) == (ImeState {
            caret: entry.0,
            selection_anchor: shift_anchor(*old(state), shift),
            caret_affinity: entry.1,
            ..*old(state)
        }),
{
    apply_motion_to(state, shift, entry.0);
    state.caret_affinity = entry.1;
}

/// Insert a line break at the caret, replacing any selection, as a discrete
/// undo step. Returns the new buffer.
pub fn insert_newline(state: &mut ImeState) -> (r: String)
    requires
        old(state).wf(),
        insert_fits(*old(state), seq!['\n']),
    ensures
        final(state).wf(),
        r@ == final(state).text@,
        text_bytes(final(state).text@) == bytes_after_insert(*old(state), seq!['\n']),
        final(state).caret == caret_without_selection(*old(state)) + 1,
        final(state).selection_anchor is None,
        final(state).caret_affinity == Affinity::Downstream,
        recorded(old(state).undo@, EditOp::Discrete, *final(state), final(state).undo@),
        blink_reset(*final(state)),
        keeps_other_fields(
            ImeState { caret_affinity: Affinity::Downstream, ..*old(state) },
            *final(state),
        ),
{
    proof {
        reveal_strlit("\n");
        let nl = seq!['\n'];
        assert("\n"@ =~= nl);
        assert(nl.drop_first() =~= Seq::<char>::empty());
        assert(vstd::utf8::encode_utf8(nl) == vstd::utf8::encode_scalar(nl[0] as u32)
            + vstd::utf8::encode_utf8(nl.drop_first()));
        assert(byte_len(nl) == 1);
    }
    replace_selection_with(state, "\n");
    record_edit(state, EditOp::Discrete);
    reset_blink(state);
    state.caret_affinity = Affinity::Downstream;
    state.text.clone()
}

/// Committed text input into the area: ignored during a composition;
/// otherwise the text replaces the selection or is inserted at the caret.
/// Returns the new buffer when the input was taken.
pub fn area_text_input(state: &mut ImeState, ins: &str) -> (r: Option<String>)
    requires
        old(state).wf(),
        old(state).preedit is None ==> insert_fits(*old(state), ins@),
    ensures
        final(state).wf(),
        old(state).preedit is Some ==> r is None && *final(state) == *old(state),
        old(state).preedit is None ==> {
            let o = *old(state);
            &&& (r matches Some(t) && t@ == final(state).text@)
            &&& keeps_other_fields(o, *final(state))
            &&& text_bytes(final(state).text@) == bytes_after_insert(o, ins@)
            &&& final(state).caret == caret_without_selection(o) + byte_len(ins@)
            &&& final(state).selection_anchor is None
            &&& recorded(
                o.undo@,
                if crate::text_edit::ops::selection_of(o) is Some {
                    EditOp::Discrete
                } else {
                    EditOp::Insert
                },
                *final(state),
                final(state).undo@,
            )
            &&& blink_reset(*final(state))
        },
{
    if state.preedit.is_some() {
        return None;
    }
    Some(crate::text_edit::typing::type_text(state, ins))
}

/// The area's key-down handling (after the command shortcuts). While a
/// composition is active every key is left to the IME. Enter inserts a line
/// break; Backspace edits; left/right move by grapheme; up/down move to
/// `vertical_target` (the byte the sticky column lands on in the adjacent
/// line, clamped at the document edges; `None` without a layout); Home/End
/// move to the caret's visual line edge `line_edge` (`None` without a layout).
/// Other keys are not consumed.
pub fn area_key_down(
    state: &mut ImeState,
    key: EditKey,
    shift: bool,
    vertical_target: Option<usize>,
    line_edge: Option<LineEdgeTarget>,
) -> (r: KeyOutcome)
    requires
        old(state).wf(),
        old(state).preedit is None && key == EditKey::Enter ==> insert_fits(*old(state), seq!['\n']),
        vertical_target matches Some(b) ==> is_boundary(old(state).text@, b as int),
        line_edge matches Some(e) ==> is_boundary(old(state).text@, e.logical as int) && (
        e.visual matches Some((b, _)) ==> is_boundary(old(state).text@, b as int)),
    ensures
        final(state).wf(),
        old(state).preedit is Some ==> !r.consumed && r.new_text is None && *final(state) == *old(
            state,
        ),
        old(state).preedit is None ==> match key {
            EditKey::Enter => {
                &&& r.consumed
                &&& (r.new_text matches Some(t) && t@ == final(state).text@)
                &&& text_bytes(final(state).text@) == bytes_after_insert(*old(state), seq!['\n'])
                &&& final(state).caret == caret_without_selection(*old(state)) + 1
                &&& final(state).selection_anchor is None
                &&& final(state).caret_affinity == Affinity::Downstream
                &&& recorded(old(state).undo@, EditOp::Discrete, *final(state), final(state).undo@)
                &&& blink_reset(*final(state))
                &&& keeps_other_fields(
                    ImeState { caret_affinity: Affinity::Downstream, ..*old(state) },
                    *final(state),
                )
            },
            EditKey::Backspace => {
                &&& r.consumed == r.new_text is Some
                &&& backspace_done(*old(state), *final(state), r.new_text)
            },
            EditKey::ArrowLeft | EditKey::ArrowRight => {
                &&& r.consumed
                &&& r.new_text is None
                &&& moved(
                    *old(state),
                    *final(state),
                    area_arrow_result(*old(state), key == EditKey::ArrowRight, shift),
                )
                &&& !shift ==> final(state).selection_anchor is None
                &&& !shift ==> (old(state).selection_anchor matches Some(a) ==> (a != old(state).caret ==> (
                final(state).caret == if (key == EditKey::ArrowRight) == (a < old(state).caret) {
                    old(state).caret
                } else {
                    a
                })))
            },
            EditKey::ArrowUp | EditKey::ArrowDown => {
                &&& r.consumed
                &&& r.new_text is None
                &&& match vertical_target {
                    Some(t) => moved(
                        *old(state),
                        *final(state),
                        (t, shift_anchor(*old(state), shift), Affinity::Downstream),
                    ),
                    None => *final(state) == *old(state),
                }
            },
            EditKey::Home | EditKey::End => {
                &&& r.consumed
                &&& r.new_text is None
                &&& match line_edge {
                    Some(e) => moved(
                        *old(state),
                        *final(state),
                        area_line_edge_result(*old(state), e, shift),
                    ),
                    None => *final(state) == *old(state),
                }
            },
            _ => !r.consumed && r.new_text is None && *final(state) == *old(state),
        },
{
    if state.preedit.is_some() {
        return KeyOutcome { consumed: false, new_text: None };
    }
    match key {
        EditKey::Enter => {
            let t = insert_newline(state);
            KeyOutcome { consumed: true, new_text: Some(t) }
        },
        EditKey::Backspace => {
            let new_text = delete_backward(state);
            KeyOutcome { consumed: new_text.is_some(), new_text }
        },
        EditKey::ArrowLeft => {
            let target = prev_grapheme_boundary(state.text.as_str(), state.caret);
            apply_motion(state, MotionDir::Left, shift, target);
            finish_motion(state);
            KeyOutcome { consumed: true, new_text: None }
        },
        EditKey::ArrowRight => {
            let len = state.text.as_str().as_bytes().len();
            proof {
                assert(byte_len(state.text@) == len);
            }
            let target = next_grapheme_boundary(state.text.as_str(), state.caret);
            apply_motion(state, MotionDir::Right, shift, target);
            finish_motion(state);
            KeyOutcome { consumed: true, new_text: None }
        },
        EditKey::ArrowUp | EditKey::ArrowDown => {
            if let Some(target) = vertical_target {
                state.caret_affinity = Affinity::Downstream;
                apply_motion_to(state, shift, target);
                finish_motion(state);
            }
            KeyOutcome { consumed: true, new_text: None }
        },
        EditKey::Home | EditKey::End => {
            if let Some(edge) = line_edge {
                let handled = apply_visual_edge(state, edge.visual, shift);
                if !handled {
                    apply_motion_to(state, shift, edge.logical);
                    state.caret_affinity = Affinity::Downstream;
                }
                finish_motion(state);
            }
            KeyOutcome { consumed: true, new_text: None }
        },
        _ => KeyOutcome { consumed: false, new_text: None },
    }
}

/// The (anchor, caret) span a click of run length `count` at `byte` selects:
/// the word under the pointer on a double click, the visual line `line_span`
/// around it on a triple click (the bare position without one), else a
/// collapsed caret.
pub open spec fn click_span(text: Seq<char>, byte: usize, count: u8, line_span: Option<(usize, usize)>) -> (
    usize,
    usize,
) {
    if count == 2 {
        let w = word_span(word_bounds(text), byte as int);
        (w.0 as usize, w.1 as usize)
    } else if count == 3 {
        match line_span {
            Some(s) => s,
            None => (byte, byte),
        }
    } else {
        (byte, byte)
    }
}

/// Pointer press at `byte` (the boundary under the pointer; `None` before the
/// first paint) at time `now`. Advances the multi-click run, then selects the
/// click span (caret, word, or the visual line `line_span`), anchors it, and
/// starts a drag. Inert during a composition. Returns whether consumed.
pub fn area_mouse_down(
    state: &mut ImeState,
    byte: Option<usize>,
    now: Timestamp,
    within_distance: bool,
    line_span: Option<(usize, usize)>,
) -> (consumed: bool)
    requires
        old(state).wf(),
        byte matches Some(b) ==> is_boundary(old(state).text@, b as int),
        line_span matches Some((lo, hi)) ==> is_boundary(old(state).text@, lo as int)
            && is_boundary(old(state).text@, hi as int),
    ensures
        final(state).wf(),
        consumed == (old(state).preedit is None && byte is Some),
        !consumed ==> *final(state) == *old(state),
        consumed ==> {
            let o = *old(state);
            let count = click_count_after(o.last_click_time, o.click_count, now, within_distance);
            let (anchor, caret) = click_span(o.text@, byte->0, count, line_span);
            &&& final(state).click_count == count
            &&& final(state).last_click_time == Some(now)
            &&& final(state).dragging
            &&& moved(
                o,
                ImeState {
                    click_count: o.click_count,
                    last_click_time: o.last_click_time,
                    dragging: o.dragging,
                    ..*final(state)
                },
                (caret, Some(anchor), Affinity::Downstream),
            )
        },
{
    if state.preedit.is_some() {
        return false;
    }
    let b = match byte {
        Some(b) => b,
        None => {
            return false;
        },
    };
    let count = next_click_count(state.last_click_time, state.click_count, now, within_distance);
    let (anchor, caret) = if count == 2 {
        let r = word_range_at(state.text.as_str(), b);
        (r.start, r.end)
    } else if count == 3 {
        match line_span {
            Some(s) => s,
            None => (b, b),
        }
    } else {
        (b, b)
    };
    state.last_click_time = Some(now);
    state.click_count = count;
    state.caret = caret;
    state.caret_affinity = Affinity::Downstream;
    state.selection_anchor = Some(anchor);
    state.dragging = true;
    finish_motion(state);
    true
}

} // verus!
