//! Buffer edits driven by typing: Backspace, committed text input, and IME
//! composition updates and commits. Each edit replaces a non-empty selection,
//! records an undo step, re-arms the caret blink, and returns the new buffer
//! for the caller to push to the bound value.
use vstd::prelude::*;

use crate::event::ImePreeditEvent;
use crate::ime::{ImeState, Preedit};
use crate::text_edit::grapheme::{insert_text_at, prev_boundary_spec, prev_grapheme_boundary};
use crate::text_edit::ops::{
    bytes_without_selection, caret_without_selection, delete_selection, insert_fits, record_edit, recorded,
    reset_blink, selection_of, selection_range,
};
use crate::text_edit::text_bytes::{
    byte_len, is_boundary, lemma_concat_boundaries, lemma_split_valid, string_replace_range,
    text_bytes,
};
use crate::text_edit::undo::EditOp;

verus! {

broadcast use vstd::utf8::group_utf8_lib;

/// `after` differs from `before` at most in text, caret, selection anchor,
/// blink and undo history (the fields an edit touches).
pub open spec fn keeps_other_fields(before: ImeState, after: ImeState) -> bool {
    &&& after.caret_affinity == before.caret_affinity
    &&& after.preedit == before.preedit
    &&& after.dragging == before.dragging
    &&& after.undo_seeded == before.undo_seeded
    &&& after.last_click_time == before.last_click_time
    &&& after.click_count == before.click_count
}

/// The caret is shown and the next blink toggle is unscheduled.
pub open spec fn blink_reset(state: ImeState) -> bool {
    state.blink.visible && state.blink.next is None
}

/// Text bytes after inserting `ins` at the caret once the selection is gone.
pub open spec fn bytes_after_insert(state: ImeState, ins: Seq<char>) -> Seq<u8> {
    let mid = bytes_without_selection(state);
    let c = caret_without_selection(state);
    mid.take(c as int) + text_bytes(ins) + mid.skip(c as int)
}

/// What Backspace does from `before`: a non-empty selection is deleted as a
/// discrete undo step; otherwise the grapheme before the caret is deleted as a
/// coalescing backspace step, or nothing is deleted at the start of the text.
/// The anchor ends cleared either way; `r` is the new buffer when text went.
pub open spec fn backspace_done(before: ImeState, after: ImeState, r: Option<String>) -> bool {
    &&& keeps_other_fields(before, after)
    &&& after.selection_anchor is None
    &&& (r matches Some(t) ==> t@ == after.text@)
    &&& match selection_of(before) {
        Some(_) => {
            &&& r is Some
            &&& text_bytes(after.text@) == bytes_without_selection(before)
            &&& after.caret == caret_without_selection(before)
            &&& recorded(before.undo@, EditOp::Discrete, after, after.undo@)
            &&& blink_reset(after)
        },
        None => {
            let p = prev_boundary_spec(before.text@, before.caret);
            if p < before.caret {
                &&& r is Some
                &&& text_bytes(after.text@) == text_bytes(before.text@).take(p as int) + text_bytes(
                    before.text@,
                ).skip(before.caret as int)
                &&& after.caret == p
                &&& recorded(before.undo@, EditOp::Backspace, after, after.undo@)
                &&& blink_reset(after)
            } else {
                &&& r is None
                &&& after == (ImeState { selection_anchor: None, ..before })
            }
        },
    }
}

/// Backspace: delete a non-empty selection (a discrete undo step), else the
/// grapheme before the caret (a coalescing backspace step). Returns the new
/// buffer when text was removed, `None` at the start of the text; in every
/// case the anchor ends cleared.
pub fn delete_backward(state: &mut ImeState) -> (r: Option<String>)
    requires
        old(state).wf(),
    ensures
        final(state).wf(),
        backspace_done(*old(state), *final(state), r),
{
    if selection_range(state).is_some() {
        delete_selection(state);
        record_edit(state, EditOp::Discrete);
        reset_blink(state);
        return Some(state.text.clone());
    }
    state.selection_anchor = None;
    let old_caret = state.caret;
    let new_caret = prev_grapheme_boundary(state.text.as_str(), old_caret);
    if new_caret < old_caret {
        let ghost before = text_bytes(state.text@);
        proof {
            lemma_split_valid(before, new_caret as int);
            lemma_split_valid(before, old_caret as int);
            lemma_concat_boundaries(before.take(new_caret as int), before.skip(old_caret as int));
            reveal_strlit("");
        }
        string_replace_range(&mut state.text, new_caret, old_caret, "");
        proof {
            assert(text_bytes(""@) =~= Seq::<u8>::empty()) by {
                reveal_strlit("");
            }
            assert(before.take(new_caret as int) + Seq::<u8>::empty() =~= before.take(
                new_caret as int,
            ));
        }
        state.caret = new_caret;
        record_edit(state, EditOp::Backspace);
        reset_blink(state);
        Some(state.text.clone())
    } else {
        None
    }
}

/// Replace a non-empty selection with `ins` (or insert it at the caret) and
/// leave the caret just after it. Text, caret and anchor change; nothing else.
pub fn replace_selection_with(state: &mut ImeState, ins: &str)
    requires
        old(state).wf(),
        insert_fits(*old(state), ins@),
    ensures
        final(state).wf(),
        text_bytes(final(state).text@) == bytes_after_insert(*old(state), ins@),
        final(state).caret == caret_without_selection(*old(state)) + byte_len(ins@),
        *final(state) == (ImeState {
            text: final(state).text,
            caret: final(state).caret,
            selection_anchor: None,
            ..*old(state)
        }),
{
    delete_selection(state);
    let old_caret = state.caret;
    let new_caret = insert_text_at(&mut state.text, old_caret, ins);
    state.caret = new_caret;
}

/// Insert committed text input at the caret, replacing a non-empty selection.
/// Typing into a selection is a discrete undo step; plain typing coalesces as
/// an insert. Returns the new buffer.
pub fn type_text(state: &mut ImeState, ins: &str) -> (r: String)
    requires
        old(state).wf(),
        insert_fits(*old(state), ins@),
    ensures
        final(state).wf(),
        r@ == final(state).text@,
        keeps_other_fields(*old(state), *final(state)),
        text_bytes(final(state).text@) == bytes_after_insert(*old(state), ins@),
        final(state).caret == caret_without_selection(*old(state)) + byte_len(ins@),
        final(state).selection_anchor is None,
        recorded(
            old(state).undo@,
            if selection_of(*old(state)) is Some {
                EditOp::Discrete
            } else {
                EditOp::Insert
            },
            *final(state),
            final(state).undo@,
        ),
        blink_reset(*final(state)),
{
    let had_selection = selection_range(state).is_some();
    replace_selection_with(state, ins);
    let op = if had_selection {
        EditOp::Discrete
    } else {
        EditOp::Insert
    };
    record_edit(state, op);
    reset_blink(state);
    state.text.clone()
}

/// Commit IME text. Empty text only clears the composition and returns `None`.
/// Otherwise the text replaces the selection (or is inserted at the caret), the
/// composition is cleared, a discrete undo step is recorded, and the new
/// buffer is returned.
pub fn commit_composition(state: &mut ImeState, committed: &str) -> (r: Option<String>)
    requires
        old(state).wf(),
        committed@.len() > 0 ==> insert_fits(*old(state), committed@),
    ensures
        final(state).wf(),
        final(state).preedit is None,
        committed@.len() == 0 ==> r is None && *final(state) == (ImeState {
            preedit: None,
            ..*old(state)
        }),
        committed@.len() > 0 ==> {
            &&& (r matches Some(t) && t@ == final(state).text@)
            &&& text_bytes(final(state).text@) == bytes_after_insert(*old(state), committed@)
            &&& final(state).caret == caret_without_selection(*old(state)) + byte_len(committed@)
            &&& final(state).selection_anchor is None
            &&& recorded(old(state).undo@, EditOp::Discrete, *final(state), final(state).undo@)
            &&& blink_reset(*final(state))
            &&& keeps_other_fields(*old(state), ImeState { preedit: old(state).preedit, ..*final(state) })
        },
{
    if committed.is_empty() {
        state.preedit = None;
        return None;
    }
    replace_selection_with(state, committed);
    state.preedit = None;
    record_edit(state, EditOp::Discrete);
    reset_blink(state);
    Some(state.text.clone())
}

/// Show an IME composition update as an overlay: empty text clears the
/// composition, otherwise it replaces it. The committed buffer is untouched.
pub fn update_preedit(state: &mut ImeState, ev: &ImePreeditEvent)
    ensures
        *final(state) == (ImeState { preedit: final(state).preedit, ..*old(state) }),
        ev.text@.len() == 0 ==> final(state).preedit is None,
        ev.text@.len() > 0 ==> (final(state).preedit matches Some(p) && p.text@ == ev.text@
            && p.cursor_byte_offset == ev.cursor_byte_offset && p.selection == ev.selection),
{
    if ev.text.as_str().is_empty() {
        state.preedit = None;
    } else {
        let selection = match &ev.selection {
            Some(range) => Some(range.start..range.end),
            None => None,
        };
        state.preedit = Some(
            Preedit { text: ev.text.clone(), cursor_byte_offset: ev.cursor_byte_offset, selection },
        );
    }
}

} // verus!
