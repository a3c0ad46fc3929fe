//! Editing keys, what a key press did, and the caret-only motion step shared
//! by the single-line and multi-line key handlers.
use vstd::prelude::*;

use crate::ime::{Affinity, BlinkState, ImeState};
use crate::text_edit::ops::reset_blink;
use crate::text_edit::undo::UndoView;

verus! {

/// The keys the editing handlers act on; every other key is `Other`.
#[derive(Clone, Copy, Debug, PartialEq, Eq, Structural)]
pub enum EditKey {
    /// Delete backwards.
    Backspace,
    /// Line break.
    Enter,
    /// Left arrow.
    ArrowLeft,
    /// Right arrow.
    ArrowRight,
    /// Up arrow.
    ArrowUp,
    /// Down arrow.
    ArrowDown,
    /// Line start.
    Home,
    /// Line end.
    End,
    /// Any other key.
    Other,
}

/// What a key press did: whether the handler consumed it (stopping
/// propagation) and the new buffer when the text changed.
#[derive(Clone, Debug)]
pub struct KeyOutcome {
    /// The handler consumed the key; it does not bubble further.
    pub consumed: bool,
    /// The buffer after an edit, for the caller to push to the bound value.
    pub new_text: Option<String>,
}

/// `after` is `before` with the caret, anchor and affinity set to `to`, the
/// blink re-armed and a caret motion noted on the undo history (so the next
/// edit opens a fresh undo step); nothing else changes.
pub open spec fn moved(before: ImeState, after: ImeState, to: (usize, Option<usize>, Affinity)) -> bool {
    &&& after == (ImeState {
        caret: to.0,
        selection_anchor: to.1,
        caret_affinity: to.2,
        blink: BlinkState { visible: true, next: None },
        undo: after.undo,
        ..before
    })
    &&& after.undo@ == (UndoView { motion: true, ..before.undo@ })
}

/// Finish a caret-only motion: re-arm the blink and note the motion on the
/// undo history.
pub fn finish_motion(state: &mut ImeState)
    requires
        old(state).undo@.valid(),
    ensures
        moved(
            *old(state),
            *final(state),
            (old(state).caret, old(state).selection_anchor, old(state).caret_affinity),
        ),
{
    reset_blink(state);
    state.undo.mark_motion();
}

} // verus!
