//! Pointer drags over an editing state: the caret follows the pointer while
//! the primary button is held, and the drag ends on release.
use vstd::prelude::*;

use crate::ime::{Affinity, ImeState};
use crate::text_edit::ops::reset_blink;
use crate::text_edit::text_bytes::is_boundary;

verus! {

/// Pointer move to byte `byte` during a drag: the caret follows the pointer
/// and the anchor stays, so the selection grows. Inert outside a drag, during
/// a composition, or before the first paint. Returns whether consumed.
pub fn drag_to(state: &mut ImeState, byte: Option<usize>) -> (consumed: bool)
    requires
        old(state).wf(),
        byte matches Some(b) ==> is_boundary(old(state).text@, b as int),
    ensures
        final(state).wf(),
        consumed == (old(state).dragging && old(state).preedit is None && byte is Some),
        !consumed ==> *final(state) == *old(state),
        consumed ==> *final(state) == (ImeState {
            caret: byte->0,
            caret_affinity: Affinity::Downstream,
            blink: crate::ime::BlinkState { visible: true, next: None },
            ..*old(state)
        }),
{
    if !state.dragging || state.preedit.is_some() {
        return false;
    }
    let b = match byte {
        Some(b) => b,
        None => {
            return false;
        },
    };
    state.caret = b;
    state.caret_affinity = Affinity::Downstream;
    reset_blink(state);
    true
}

/// Pointer release: end the drag, and collapse the selection when anchor and
/// caret coincide (a plain click). Runs even during a composition so a stale
/// drag flag is always cleared.
pub fn end_drag(state: &mut ImeState)
    requires
        old(state).wf(),
    ensures
        final(state).wf(),
        *final(state) == (ImeState {
            dragging: false,
            selection_anchor: if old(state).selection_anchor == Some(old(state).caret) {
                None
            } else {
                old(state).selection_anchor
            },
            ..*old(state)
        }),
{
    state.dragging = false;
    if state.selection_anchor == Some(state.caret) {
        state.selection_anchor = None;
    }
}

} // verus!
