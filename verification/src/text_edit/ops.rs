//! Selection-aware editing operations over [`ImeState`]: query and delete the
//! selection, apply undo/redo snapshots, record edits, reset the caret blink,
//! and move the caret with selection semantics.
use vstd::prelude::*;

use crate::ime::{Affinity, ImeState};
use crate::text_edit::text_bytes::{
    byte_len, is_boundary, lemma_concat_boundaries, lemma_split_valid, string_replace_range,
    text_bytes,
};
use crate::text_edit::undo::{EditOp, EditSnapshot, UndoView};
use crate::time::Timestamp;

verus! {

broadcast use vstd::utf8::group_utf8_lib;

/// The non-empty selection `(lo, hi)` of a state, if any.
pub open spec fn selection_of(state: ImeState) -> Option<(usize, usize)> {
    match state.selection_anchor {
        Some(a) => {
            let lo = if state.caret <= a {
                state.caret
            } else {
                a
            };
            let hi = if state.caret <= a {
                a
            } else {
                state.caret
            };
            if lo < hi {
                Some((lo, hi))
            } else {
                None
            }
        },
        None => None,
    }
}

/// Text bytes once the non-empty selection (if any) is removed.
pub open spec fn bytes_without_selection(state: ImeState) -> Seq<u8> {
    match selection_of(state) {
        Some((lo, hi)) => text_bytes(state.text@).take(lo as int) + text_bytes(state.text@).skip(
            hi as int,
        ),
        None => text_bytes(state.text@),
    }
}

/// Inserting `ins` in place of the selection of `state` leaves a text whose
/// UTF-8 length still fits in `isize` (a `String` can hold no more).
pub open spec fn insert_fits(state: ImeState, ins: Seq<char>) -> bool {
    bytes_without_selection(state).len() + byte_len(ins) <= isize::MAX
}

/// Caret once the non-empty selection (if any) is removed.
pub open spec fn caret_without_selection(state: ImeState) -> usize {
    match selection_of(state) {
        Some((lo, _)) => lo,
        None => state.caret,
    }
}

/// Undo history after recording the state's current text/caret/anchor as an
/// edit of kind `op` at some time.
pub open spec fn recorded(before: UndoView, op: EditOp, state: ImeState, after: UndoView) -> bool {
    exists|now: Timestamp|
        after == before.record(op, (state.text@, state.caret, state.selection_anchor), now)
}

/// The active selection range `(lo, hi)` if non-empty.
pub fn selection_range(state: &ImeState) -> (r: Option<(usize, usize)>)
    ensures
        r == selection_of(*state),
{
    let anchor = match state.selection_anchor {
        Some(a) => a,
        None => {
            return None;
        },
    };
    let lo = if state.caret <= anchor {
        state.caret
    } else {
        anchor
    };
    let hi = if state.caret <= anchor {
        anchor
    } else {
        state.caret
    };
    if lo < hi {
        Some((lo, hi))
    } else {
        None
    }
}

/// Reset the caret blink so the caret is visible immediately.
pub fn reset_blink(state: &mut ImeState)
    ensures
        *final(state) == (ImeState {
            blink: crate::ime::BlinkState { visible: true, next: None },
            ..*old(state)
        }),
{
    state.blink.visible = true;
    state.blink.next = None;
}

/// `pos` clamped to the byte length of `text`.
pub open spec fn clamp_to(text: Seq<char>, pos: usize) -> usize {
    if pos <= byte_len(text) {
        pos
    } else {
        byte_len(text) as usize
    }
}

/// `after` is `before` with the snapshot `snap` restored: its text, its caret
/// and anchor clamped to that text, no composition, the blink re-armed; the
/// undo history and every other field unchanged.
pub open spec fn snapshot_applied(before: ImeState, after: ImeState, snap: (Seq<char>, usize, Option<usize>)) -> bool {
    &&& after.text@ == snap.0
    &&& after.caret == clamp_to(snap.0, snap.1)
    &&& after.selection_anchor == (match snap.2 {
        Some(a) => Some(clamp_to(snap.0, a)),
        None => None,
    })
    &&& after.preedit is None
    &&& after.blink.visible
    &&& after.blink.next is None
    &&& after.caret_affinity == before.caret_affinity
    &&& after.dragging == before.dragging
    &&& after.undo == before.undo
    &&& after.undo_seeded == before.undo_seeded
    &&& after.last_click_time == before.last_click_time
    &&& after.click_count == before.click_count
}

/// Restoring a snapshot `(text, caret, anchor)` gives back exactly its text,
/// and its caret and anchor where they lie within that text; a caret or
/// anchor past the end lands on the end. No composition survives, and the
/// undo history is untouched.
pub proof fn law_snapshot_restores(before: ImeState, after: ImeState, snap: (Seq<char>, usize, Option<usize>))
    requires
        snapshot_applied(before, after, snap),
    ensures
        after.text@ == snap.0,
        snap.1 <= byte_len(snap.0) ==> after.caret == snap.1,
        snap.1 > byte_len(snap.0) ==> after.caret == byte_len(snap.0),
        after.caret <= byte_len(snap.0),
        snap.2 matches Some(a) ==> (a <= byte_len(snap.0) ==> after.selection_anchor == Some(a)),
        snap.2 matches Some(a) ==> (a > byte_len(snap.0) ==> after.selection_anchor == Some(
            byte_len(snap.0) as usize,
        )),
        snap.2 is None ==> after.selection_anchor is None,
        after.preedit is None,
        after.undo == before.undo,
{
}

/// Apply `(text, caret, anchor)` from a restored undo/redo snapshot: caret and
/// anchor are clamped to the text, the composition is dropped, the blink reset.
pub fn apply_snapshot(state: &mut ImeState, snap: &EditSnapshot)
    ensures
        snapshot_applied(*old(state), *final(state), snap@),
        final(state).text@ == snap.text@,
        snap.caret <= byte_len(snap.text@) ==> final(state).caret == snap.caret,
        snap.caret > byte_len(snap.text@) ==> final(state).caret == byte_len(snap.text@),
        snap.anchor matches Some(a) ==> (a <= byte_len(snap.text@) ==> final(state).selection_anchor == Some(a)),
        snap.anchor is None ==> final(state).selection_anchor is None,
{
    state.text = snap.text.clone();
    let len = state.text.as_str().as_bytes().len();
    state.caret = if snap.caret <= len {
        snap.caret
    } else {
        len
    };
    state.selection_anchor = match snap.anchor {
        Some(a) => Some(
            if a <= len {
                a
            } else {
                len
            },
        ),
        None => None,
    };
    state.preedit = None;
    reset_blink(state);
}

/// Record the state's current text/caret/anchor as an edit of kind `op` on its
/// undo history (reads the clock for coalescing).
pub fn record_edit(state: &mut ImeState, op: EditOp)
    requires
        old(state).wf(),
    ensures
        recorded(old(state).undo@, op, *old(state), final(state).undo@),
        final(state).wf(),
        (ImeState { undo: final(state).undo, ..*old(state) }) == *final(state),
{
    let snap = EditSnapshot {
        text: state.text.clone(),
        caret: state.caret,
        anchor: state.selection_anchor,
    };
    let ghost before = state.undo@;
    state.undo.record_edit(op, snap);
    proof {
        let now = choose|now: Timestamp|
            state.undo@ == before.record(op, (state.text@, state.caret, state.selection_anchor), now);
        crate::text_edit::undo::lemma_record_keeps_entries_wf(
            before,
            op,
            (state.text@, state.caret, state.selection_anchor),
            now,
        );
    }
}

/// Delete the non-empty selection, collapsing the caret to its start and
/// clearing the anchor; returns `true` when text was removed. An empty
/// selection only clears the anchor.
pub fn delete_selection(state: &mut ImeState) -> (r: bool)
    requires
        old(state).wf(),
    ensures
        final(state).wf(),
        r == (selection_of(*old(state)) is Some),
        text_bytes(final(state).text@) == bytes_without_selection(*old(state)),
        final(state).caret == caret_without_selection(*old(state)),
        final(state).selection_anchor is None,
        !r ==> final(state).text == old(state).text,
        (ImeState {
            text: final(state).text,
            caret: final(state).caret,
            selection_anchor: None,
            ..*old(state)
        }) == *final(state),
{
    let anchor = match state.selection_anchor {
        Some(a) => a,
        None => {
            return false;
        },
    };
    let lo = if state.caret <= anchor {
        state.caret
    } else {
        anchor
    };
    let hi = if state.caret <= anchor {
        anchor
    } else {
        state.caret
    };
    if lo < hi {
        let ghost before = text_bytes(state.text@);
        proof {
            lemma_split_valid(before, lo as int);
            lemma_split_valid(before, hi as int);
            lemma_concat_boundaries(before.take(lo as int), before.skip(hi as int));
            reveal_strlit("");
        }
        string_replace_range(&mut state.text, lo, hi, "");
        proof {
            assert(text_bytes(""@) =~= Seq::<u8>::empty()) by {
                reveal_strlit("");
            }
            assert(before.take(lo as int) + Seq::<u8>::empty() =~= before.take(lo as int));
        }
        state.caret = lo;
        state.selection_anchor = None;
        true
    } else {
        state.selection_anchor = None;
        false
    }
}

/// Direction of a horizontal motion key; decides which selection edge a plain
/// motion collapses to.
#[derive(Clone, Copy, Debug, PartialEq, Eq, Structural)]
pub enum MotionDir {
    /// Toward the start.
    Left,
    /// Toward the end.
    Right,
}

/// Caret and anchor after a motion key whose own destination is `target`.
pub open spec fn motion_result(state: ImeState, dir: MotionDir, shift: bool, target: usize) -> (
    usize,
    Option<usize>,
) {
    if shift {
        (
            target,
            match state.selection_anchor {
                Some(a) => Some(a),
                None => Some(state.caret),
            },
        )
    } else {
        match selection_of(state) {
            Some((lo, hi)) => (
                if dir == MotionDir::Left {
                    lo
                } else {
                    hi
                },
                None,
            ),
            None => (target, None),
        }
    }
}

/// Apply a motion key with selection semantics. `target` is where the key
/// moves the caret on its own.
/// - `shift`: anchor at the pre-move caret if unanchored, then move to `target`.
/// - plain with a non-empty selection: collapse to the `dir` edge, no further move.
/// - plain otherwise: clear the anchor and move to `target`.
pub fn apply_motion(state: &mut ImeState, dir: MotionDir, shift: bool, target: usize)
    requires
        old(state).wf(),
        is_boundary(old(state).text@, target as int),
    ensures
        final(state).wf(),
        (final(state).caret, final(state).selection_anchor) == motion_result(
            *old(state),
            dir,
            shift,
            target,
        ),
        (ImeState {
            caret: final(state).caret,
            selection_anchor: final(state).selection_anchor,
            ..*old(state)
        }) == *final(state),
{
    if shift {
        if state.selection_anchor.is_none() {
            state.selection_anchor = Some(state.caret);
        }
        state.caret = target;
        return ;
    }
    if let Some(anchor) = state.selection_anchor {
        let lo = if state.caret <= anchor {
            state.caret
        } else {
            anchor
        };
        let hi = if state.caret <= anchor {
            anchor
        } else {
            state.caret
        };
        state.selection_anchor = None;
        if lo < hi {
            // Non-empty selection: collapse to the edge, do not move further.
            state.caret = match dir {
                MotionDir::Left => lo,
                MotionDir::Right => hi,
            };
            return ;
        }
    }
    state.caret = target;
}

/// Move the caret to a precomputed `target` with selection semantics and no
/// directional collapse: a plain motion clears the anchor; a Shift motion
/// anchors at the pre-move caret (if unanchored) and extends.
pub fn apply_motion_to(state: &mut ImeState, shift: bool, target: usize)
    requires
        old(state).wf(),
        is_boundary(old(state).text@, target as int),
    ensures
        final(state).wf(),
        final(state).caret == target,
        final(state).selection_anchor == shift_anchor(*old(state), shift),
        (ImeState {
            caret: final(state).caret,
            selection_anchor: final(state).selection_anchor,
            ..*old(state)
        }) == *final(state),
{
    if shift {
        if state.selection_anchor.is_none() {
            state.selection_anchor = Some(state.caret);
        }
    } else {
        state.selection_anchor = None;
    }
    state.caret = target;
}

/// Anchor after a motion: Shift keeps the anchor, or anchors at the pre-move
/// caret when there is none; a plain motion clears it.
pub open spec fn shift_anchor(state: ImeState, shift: bool) -> Option<usize> {
    if shift {
        match state.selection_anchor {
            Some(a) => Some(a),
            None => Some(state.caret),
        }
    } else {
        None
    }
}

/// Caret, anchor and affinity after a screen-direction arrow whose visual step
/// from the caret is `step` (`None` at the line's visual edge).
pub open spec fn visual_motion_result(
    state: ImeState,
    step: Option<(usize, Affinity)>,
    move_right: bool,
    shift: bool,
) -> (usize, Option<usize>, Affinity) {
    if !shift && selection_of(state) is Some {
        let (lo, hi) = selection_of(state)->0;
        (
            if move_right {
                hi
            } else {
                lo
            },
            None,
            Affinity::Downstream,
        )
    } else {
        match step {
            Some((byte, aff)) => (byte, shift_anchor(state, shift), aff),
            None => (state.caret, shift_anchor(state, shift), state.caret_affinity),
        }
    }
}

/// Apply a screen-direction horizontal arrow on a mixed-direction line, given
/// `step`: where the line's visual caret walk moves from the current caret
/// (`None` at the line's visual edge). Returns `true` when handled in visual
/// space; `false` at the edge, where the caller falls back to logical motion.
/// A plain arrow over a non-empty selection collapses to its logical lo/hi edge.
pub fn apply_visual_motion(
    state: &mut ImeState,
    step: Option<(usize, Affinity)>,
    move_right: bool,
    shift: bool,
) -> (handled: bool)
    requires
        old(state).wf(),
        step matches Some((b, _)) ==> is_boundary(old(state).text@, b as int),
    ensures
        final(state).wf(),
        (final(state).caret, final(state).selection_anchor, final(state).caret_affinity)
            == visual_motion_result(*old(state), step, move_right, shift),
        handled == ((!shift && selection_of(*old(state)) is Some) || step is Some),
        (ImeState {
            caret: final(state).caret,
            caret_affinity: final(state).caret_affinity,
            selection_anchor: final(state).selection_anchor,
            ..*old(state)
        }) == *final(state),
{
    if shift {
        if state.selection_anchor.is_none() {
            state.selection_anchor = Some(state.caret);
        }
    } else if let Some(anchor) = state.selection_anchor {
        let lo = if state.caret <= anchor {
            state.caret
        } else {
            anchor
        };
        let hi = if state.caret <= anchor {
            anchor
        } else {
            state.caret
        };
        state.selection_anchor = None;
        if lo < hi {
            state.caret = if move_right {
                hi
            } else {
                lo
            };
            state.caret_affinity = Affinity::Downstream;
            return true;
        }
    }
    match step {
        Some((byte, affinity)) => {
            state.caret = byte;
            state.caret_affinity = affinity;
            true
        },
        None => false,
    }
}

/// Move the caret to the visual edge of its line, given `edge`: the line's
/// visual edge position and affinity (`None` for a line without direction
/// runs, where the caller uses the logical edges). Returns whether handled.
pub fn apply_visual_edge(state: &mut ImeState, edge: Option<(usize, Affinity)>, shift: bool) -> (handled: bool)
    requires
        old(state).wf(),
        edge matches Some((b, _)) ==> is_boundary(old(state).text@, b as int),
    ensures
        final(state).wf(),
        handled == edge is Some,
        match edge {
            Some((byte, aff)) => {
                &&& final(state).caret == byte
                &&& final(state).caret_affinity == aff
                &&& final(state).selection_anchor == shift_anchor(*old(state), shift)
            },
            None => *final(state) == *old(state),
        },
        (ImeState {
            caret: final(state).caret,
            caret_affinity: final(state).caret_affinity,
            selection_anchor: final(state).selection_anchor,
            ..*old(state)
        }) == *final(state),
{
    match edge {
        Some((byte, affinity)) => {
            apply_motion_to(state, shift, byte);
            state.caret_affinity = affinity;
            true
        },
        None => false,
    }
}

} // verus!
