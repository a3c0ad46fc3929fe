//! Command-modifier shortcuts shared by single-line and multi-line text:
//! copy, cut, paste, undo and redo.
//!
//! [`shortcut_for`] reads the chord; [`run_shortcut`] applies the command to
//! the editing state and says what the host must do around it: write the
//! clipboard, push a new buffer to the bound value, stop propagation. A paste
//! needs the clipboard's text, which the host reads first.
use vstd::prelude::*;

use crate::ime::ImeState;
use crate::text_edit::clipboard::{
    apply_cut, apply_paste, clean_paste, cut_applied, normalize_newlines, paste_applied,
    selected_text, strip_newlines,
};
use crate::text_edit::ops::{apply_snapshot, insert_fits, selection_of, snapshot_applied};
use crate::text_edit::text_bytes::{byte_len, lemma_boundary_in_range, text_bytes};
use crate::text_edit::undo::UndoView;

verus! {

broadcast use vstd::utf8::group_utf8_lib;

/// Keys that take part in a command shortcut; every other key is `Other`.
#[derive(Clone, Copy, Debug, PartialEq, Eq, Structural)]
pub enum ShortcutKey {
    /// `C`.
    C,
    /// `V`.
    V,
    /// `X`.
    X,
    /// `Y`.
    Y,
    /// `Z`.
    Z,
    /// Any other key.
    Other,
}

/// A clipboard or history command.
#[derive(Clone, Copy, Debug, PartialEq, Eq, Structural)]
pub enum Shortcut {
    /// Copy the selection.
    Copy,
    /// Cut the selection.
    Cut,
    /// Paste the clipboard.
    Paste,
    /// Step back through the undo history.
    Undo,
    /// Step forward through the undo history.
    Redo,
}

/// The command a chord names. `command` is the platform command modifier (Cmd
/// on macOS, Ctrl elsewhere); `mac` selects the macOS redo chord
/// (Cmd+Shift+Z) over Ctrl+Y. Alt disables every shortcut.
pub open spec fn shortcut_spec(command: bool, alt: bool, shift: bool, key: ShortcutKey, mac: bool) -> Option<Shortcut> {
    if !command || alt {
        None
    } else {
        match key {
            ShortcutKey::C => Some(Shortcut::Copy),
            ShortcutKey::X => Some(Shortcut::Cut),
            ShortcutKey::V => Some(Shortcut::Paste),
            ShortcutKey::Z => if mac && shift {
                Some(Shortcut::Redo)
            } else {
                Some(Shortcut::Undo)
            },
            ShortcutKey::Y => if !mac && !shift {
                Some(Shortcut::Redo)
            } else {
                None
            },
            ShortcutKey::Other => None,
        }
    }
}

/// The command chords, on every platform unless said otherwise: with the
/// command modifier held and Alt up, C copies, X cuts and V pastes (Shift or
/// not); Z undoes, and with Shift it redoes on macOS (elsewhere Shift+Z still
/// undoes); Y redoes off macOS without Shift and is no command otherwise; any
/// other key is no command. Without the command modifier, or with Alt, no
/// chord is a command.
pub proof fn law_command_chords(command: bool, alt: bool, shift: bool, key: ShortcutKey, mac: bool)
    ensures
        !command || alt ==> shortcut_spec(command, alt, shift, key, mac) is None,
        command && !alt ==> shortcut_spec(command, alt, shift, ShortcutKey::C, mac) == Some(Shortcut::Copy),
        command && !alt ==> shortcut_spec(command, alt, shift, ShortcutKey::X, mac) == Some(Shortcut::Cut),
        command && !alt ==> shortcut_spec(command, alt, shift, ShortcutKey::V, mac) == Some(Shortcut::Paste),
        command && !alt && !shift ==> shortcut_spec(command, alt, shift, ShortcutKey::Z, mac) == Some(
            Shortcut::Undo,
        ),
        command && !alt && shift ==> shortcut_spec(command, alt, shift, ShortcutKey::Z, mac) == Some(
            if mac {
                Shortcut::Redo
            } else {
                Shortcut::Undo
            },
        ),
        command && !alt ==> shortcut_spec(command, alt, shift, ShortcutKey::Y, mac) == (if !mac && !shift {
            Some(Shortcut::Redo)
        } else {
            None
        }),
        shortcut_spec(command, alt, shift, ShortcutKey::Other, mac) is None,
{
}

/// Read a key chord as a command, if it is one.
pub fn shortcut_for(command: bool, alt: bool, shift: bool, key: ShortcutKey, mac: bool) -> (r: Option<Shortcut>)
    ensures
        r == shortcut_spec(command, alt, shift, key, mac),
        command && !alt && key == ShortcutKey::V ==> r == Some(Shortcut::Paste),
        command && !alt && key == ShortcutKey::C ==> r == Some(Shortcut::Copy),
        command && !alt && key == ShortcutKey::X ==> r == Some(Shortcut::Cut),
        !command || alt ==> r is None,
{
    if !command || alt {
        return None;
    }
    match key {
        ShortcutKey::C => Some(Shortcut::Copy),
        ShortcutKey::X => Some(Shortcut::Cut),
        ShortcutKey::V => Some(Shortcut::Paste),
        ShortcutKey::Z => {
            if mac && shift {
                Some(Shortcut::Redo)
            } else {
                Some(Shortcut::Undo)
            }
        },
        ShortcutKey::Y => {
            if !mac && !shift {
                Some(Shortcut::Redo)
            } else {
                None
            }
        },
        ShortcutKey::Other => None,
    }
}

/// What the host does around a shortcut.
#[derive(Clone, Debug)]
pub struct ShortcutOutcome {
    /// The event stops here.
    pub stop_propagation: bool,
    /// Text to put on the clipboard.
    pub clipboard_write: Option<String>,
    /// The buffer after an edit, for the bound value; when `Some`, a
    /// multi-line host also clears its sticky vertical column.
    pub new_value: Option<String>,
}

/// History and state after an undo (`redo` false) or redo step from `before`:
/// with no entry in that direction nothing changes and `r` is `None`;
/// otherwise the neighbouring entry is restored, the cursor moves onto it, the
/// next edit opens a fresh step, and `r` is its text.
pub open spec fn history_stepped(before: ImeState, after: ImeState, redo: bool, r: Option<String>) -> bool {
    let v = before.undo@;
    let available = if redo {
        v.cursor + 1 < v.entries.len()
    } else {
        v.cursor > 0
    };
    let idx = if redo {
        v.cursor + 1
    } else {
        v.cursor - 1
    };
    if !available {
        &&& r is None
        &&& after == (ImeState { undo: after.undo, ..before })
        &&& after.undo@ == v
    } else {
        &&& (r matches Some(t) && t@ == v.entries[idx].0)
        &&& snapshot_applied(before, ImeState { undo: before.undo, ..after }, v.entries[idx])
        &&& after.undo@ == (UndoView {
            cursor: idx,
            head_op: None,
            head_edit_t: None,
            motion: false,
            ..v
        })
    }
}

/// Undo (or redo) one step and restore the state it leads to. Returns the
/// restored buffer, `None` when there is nothing to undo (redo).
pub fn step_history(state: &mut ImeState, redo: bool) -> (r: Option<String>)
    requires
        old(state).wf(),
    ensures
        final(state).wf(),
        history_stepped(*old(state), *final(state), redo, r),
{
    let ghost v = state.undo@;
    let snap = if redo {
        state.undo.redo()
    } else {
        state.undo.undo()
    };
    match snap {
        Some(s) => {
            proof {
                let idx = if redo {
                    v.cursor + 1
                } else {
                    v.cursor - 1
                };
                assert(crate::text_edit::undo::snapshot_wf(v.entries[idx]));
                lemma_boundary_in_range(text_bytes(s.text@), s.caret as int);
                if let Some(a) = s.anchor {
                    lemma_boundary_in_range(text_bytes(s.text@), a as int);
                }
            }
            apply_snapshot(state, &s);
            Some(s.text)
        },
        None => None,
    }
}

/// The clipboard text a paste inserts: line breaks stripped for a single-line
/// field, normalized to LF for a multi-line one.
pub open spec fn paste_text(raw: Seq<char>, multiline: bool) -> Seq<char> {
    if multiline {
        normalize_newlines(raw)
    } else {
        strip_newlines(raw)
    }
}

/// The selected text `w` is exactly the bytes of the selection of `state`.
pub open spec fn is_selection_text(state: ImeState, w: String) -> bool {
    selection_of(state) matches Some((lo, hi)) && text_bytes(w@) == text_bytes(state.text@).subrange(
        lo as int,
        hi as int,
    )
}

/// Apply `shortcut` to the editing state. `clipboard` is the clipboard's text,
/// read by the host for a paste (`None` when it holds none); `multiline`
/// selects the paste newline policy.
/// - Copy and Cut do nothing during a composition (and do not stop the event);
///   otherwise they hand the selected text to the clipboard, and Cut removes it.
/// - Paste with no clipboard text, or text that cleans to nothing, only stops
///   the event; otherwise it replaces the selection with the cleaned text.
/// - Undo and Redo step the history and restore the state they reach.
///
/// `new_value` is `Some` exactly when the caret moved with an edit: a cut that
/// removed text, a paste that inserted text, or an undo or redo that restored
/// an entry. On those outcomes a multi-line host also clears the sticky
/// vertical column it keeps for up/down navigation (a pixel offset held
/// outside the library), so that the next up/down press seeds it afresh.
pub fn run_shortcut(state: &mut ImeState, shortcut: Shortcut, clipboard: Option<&str>, multiline: bool) -> (r: ShortcutOutcome)
    requires
        old(state).wf(),
        shortcut == Shortcut::Paste && clipboard is Some ==> byte_len(clipboard.unwrap()@) <= isize::MAX,
        shortcut == Shortcut::Paste && clipboard is Some && paste_text(clipboard.unwrap()@, multiline).len() > 0
            ==> insert_fits(*old(state), paste_text(clipboard.unwrap()@, multiline)),
    ensures
        final(state).wf(),
        match shortcut {
            Shortcut::Copy => {
                &&& *final(state) == *old(state)
                &&& r.new_value is None
                &&& if old(state).preedit is Some {
                    !r.stop_propagation && r.clipboard_write is None
                } else {
                    &&& r.stop_propagation
                    &&& match r.clipboard_write {
                        Some(w) => is_selection_text(*old(state), w),
                        None => selection_of(*old(state)) is None,
                    }
                }
            },
            Shortcut::Cut => if old(state).preedit is Some {
                &&& !r.stop_propagation
                &&& r.clipboard_write is None
                &&& r.new_value is None
                &&& *final(state) == *old(state)
            } else {
                &&& r.stop_propagation
                &&& match r.clipboard_write {
                    Some(w) => {
                        &&& is_selection_text(*old(state), w)
                        &&& cut_applied(*old(state), *final(state))
                        &&& (r.new_value matches Some(t) && t@ == final(state).text@)
                    },
                    None => {
                        &&& selection_of(*old(state)) is None
                        &&& r.new_value is None
                        &&& *final(state) == *old(state)
                    },
                }
            },
            Shortcut::Paste => {
                &&& r.stop_propagation
                &&& r.clipboard_write is None
                &&& match clipboard {
                    Some(c) if paste_text(c@, multiline).len() > 0 => {
                        &&& paste_applied(*old(state), *final(state), paste_text(c@, multiline))
                        &&& (r.new_value matches Some(t) && t@ == final(state).text@)
                    },
                    _ => r.new_value is None && *final(state) == *old(state),
                }
            },
            Shortcut::Undo => {
                &&& r.stop_propagation
                &&& r.clipboard_write is None
                &&& history_stepped(*old(state), *final(state), false, r.new_value)
            },
            Shortcut::Redo => {
                &&& r.stop_propagation
                &&& r.clipboard_write is None
                &&& history_stepped(*old(state), *final(state), true, r.new_value)
            },
        },
{
    match shortcut {
        Shortcut::Copy => {
            if state.preedit.is_some() {
                return ShortcutOutcome { stop_propagation: false, clipboard_write: None, new_value: None };
            }
            let payload = selected_text(state);
            ShortcutOutcome { stop_propagation: true, clipboard_write: payload, new_value: None }
        },
        Shortcut::Cut => {
            if state.preedit.is_some() {
                return ShortcutOutcome { stop_propagation: false, clipboard_write: None, new_value: None };
            }
            match selected_text(state) {
                Some(payload) => {
                    let new_text = apply_cut(state);
                    ShortcutOutcome {
                        stop_propagation: true,
                        clipboard_write: Some(payload),
                        new_value: Some(new_text),
                    }
                },
                None => ShortcutOutcome {
                    stop_propagation: true,
                    clipboard_write: None,
                    new_value: None,
                },
            }
        },
        Shortcut::Paste => {
            let raw = match clipboard {
                Some(t) => t,
                None => {
                    return ShortcutOutcome {
                        stop_propagation: true,
                        clipboard_write: None,
                        new_value: None,
                    };
                },
            };
            let cleaned = clean_paste(raw, multiline);
            if cleaned.as_str().is_empty() {
                return ShortcutOutcome { stop_propagation: true, clipboard_write: None, new_value: None };
            }
            let new_text = apply_paste(state, cleaned.as_str());
            ShortcutOutcome { stop_propagation: true, clipboard_write: None, new_value: Some(new_text) }
        },
        Shortcut::Undo => {
            let restored = step_history(state, false);
            ShortcutOutcome { stop_propagation: true, clipboard_write: None, new_value: restored }
        },
        Shortcut::Redo => {
            let restored = step_history(state, true);
            ShortcutOutcome { stop_propagation: true, clipboard_write: None, new_value: restored }
        },
    }
}

} // verus!
