//! Per-element editing state: committed buffer, caret, selection, IME
//! composition, caret blink and undo history.
use vstd::prelude::*;

use std::ops::Range;

use crate::text_edit::grapheme::insert_text_at;
use crate::text_edit::text_bytes::{byte_len, floor_char_boundary, is_boundary, str_get, text_bytes};
use crate::text_edit::undo::UndoStack;
use crate::time::Timestamp;

verus! {

/// Which side of a direction boundary the caret binds to when one logical byte
/// maps to two visual positions on a mixed-direction line.
#[derive(Copy, Clone, Debug, PartialEq, Eq, Hash, Structural)]
pub enum Affinity {
    /// Binds to the text before the caret.
    Upstream,
    /// Binds to the text after the caret (the default).
    Downstream,
}

impl Default for Affinity {
    fn default() -> (r: Affinity)
        ensures
            r == Affinity::Downstream,
    {
        Affinity::Downstream
    }
}

/// In-flight IME composition.
#[derive(Clone, Debug)]
pub struct Preedit {
    /// Composition text (UTF-8).
    pub text: String,
    /// UTF-8 byte offset into `text` of the IME caret.
    pub cursor_byte_offset: usize,
    /// IME-highlighted converted range, UTF-8 byte range into `text`.
    pub selection: Option<Range<usize>>,
}

impl Default for Preedit {
    fn default() -> (r: Preedit)
        ensures
            r.text@ == Seq::<char>::empty(),
            r.cursor_byte_offset == 0,
            r.selection is None,
    {
        Preedit { text: String::new(), cursor_byte_offset: 0, selection: None }
    }
}

/// Blink state of the editing caret.
#[derive(Copy, Clone, Debug)]
pub struct BlinkState {
    /// Whether the caret is currently shown.
    pub visible: bool,
    /// When the caret should next toggle; `None` while unfocused or not yet painted.
    pub next: Option<Timestamp>,
}

impl Default for BlinkState {
    fn default() -> (r: BlinkState)
        ensures
            r.visible,
            r.next is None,
    {
        BlinkState { visible: true, next: None }
    }
}

/// Per-element editing state: the committed buffer, caret, selection and any
/// active composition, plus blink and undo history.
#[derive(Clone, Debug)]
pub struct ImeState {
    /// Committed text buffer.
    pub text: String,
    /// Byte offset into `text` of the caret.
    pub caret: usize,
    /// Caret binding side at a direction boundary.
    pub caret_affinity: Affinity,
    /// Anchor end of the selection (byte offset); `None` means caret only.
    pub selection_anchor: Option<usize>,
    /// Active composition, if any.
    pub preedit: Option<Preedit>,
    /// A primary-button drag is in progress on this element.
    pub dragging: bool,
    /// Caret blink state.
    pub blink: BlinkState,
    /// Undo / redo history.
    pub undo: UndoStack,
    /// Whether the undo baseline has been seeded from the initial value.
    pub undo_seeded: bool,
    /// Time of the previous mouse-down (multi-click detection).
    pub last_click_time: Option<Timestamp>,
    /// Length of the current click run: 1 single, 2 double, 3 triple.
    pub click_count: u8,
}

impl Default for ImeState {
    fn default() -> (r: ImeState)
        ensures
            r.text@ == Seq::<char>::empty(),
            r.caret == 0,
            r.caret_affinity == Affinity::Downstream,
            r.selection_anchor is None,
            r.preedit is None,
            !r.dragging,
            r.blink.visible,
            r.blink.next is None,
            r.undo@.valid(),
            r.undo@.entries == seq![(Seq::<char>::empty(), 0usize, None::<usize>)],
            r.undo@.cursor == 0,
            r.undo@.head_op is None,
            !r.undo_seeded,
            r.last_click_time is None,
            r.click_count == 0,
            r.wf(),
    {
        let r = ImeState {
            text: String::new(),
            caret: 0,
            caret_affinity: Affinity::Downstream,
            selection_anchor: None,
            preedit: None,
            dragging: false,
            blink: BlinkState { visible: true, next: None },
            undo: UndoStack::with_baseline(String::new(), 0),
            undo_seeded: false,
            last_click_time: None,
            click_count: 0,
        };
        proof {
            assert(text_bytes(r.text@) =~= Seq::<u8>::empty());
        }
        r
    }
}

impl ImeState {
    /// Caret and anchor sit on char boundaries of the text; the undo history is
    /// valid and every state it holds is well-formed too.
    pub open spec fn wf(&self) -> bool {
        &&& is_boundary(self.text@, self.caret as int)
        &&& (self.selection_anchor matches Some(a) ==> is_boundary(self.text@, a as int))
        &&& self.undo@.valid()
        &&& self.undo@.entries_wf()
    }

    /// Forget an in-progress drag and the multi-click run (mouse capture was
    /// lost outside mouse-up, so a later move must not extend a selection and
    /// a later click must not continue the run).
    pub fn clear_drag(&mut self)
        ensures
            *final(self) == (ImeState { dragging: false, click_count: 0, ..*old(self) }),
    {
        self.dragging = false;
        self.click_count = 0;
    }

    /// Seed the editor from the bound value on its first frame: while the
    /// buffer is still empty, a non-empty `value` becomes the text with the
    /// caret at its end; otherwise nothing changes.
    pub fn seed_text(&mut self, value: String)
        ensures
            old(self).wf() ==> final(self).wf(),
            old(self).text@.len() == 0 && value@.len() > 0 ==> *final(self) == (ImeState {
                text: value,
                caret: byte_len(value@) as usize,
                ..*old(self)
            }),
            !(old(self).text@.len() == 0 && value@.len() > 0) ==> *final(self) == *old(self),
    {
        if self.text.as_str().is_empty() && !value.as_str().is_empty() {
            let len = value.as_str().as_bytes().len();
            proof {
                vstd::utf8::encode_utf8_valid_utf8(value@);
                vstd::utf8::encode_utf8_valid_utf8(self.text@);
                vstd::utf8::is_char_boundary_start_end_of_seq(text_bytes(value@));
                vstd::utf8::is_char_boundary_start_end_of_seq(text_bytes(self.text@));
            }
            self.caret = len;
            self.text = value;
        }
    }

    /// Seed the undo baseline from the current text and caret, once per element.
    pub fn seed_undo_baseline(&mut self)
        ensures
            old(self).wf() ==> final(self).wf(),
            old(self).undo_seeded ==> *final(self) == *old(self),
            !old(self).undo_seeded ==> {
                &&& final(self).undo_seeded
                &&& final(self).undo@.entries == seq![
                    (old(self).text@, old(self).caret, None::<usize>),
                ]
                &&& final(self).undo@.cursor == 0
                &&& final(self).undo@.head_op is None
                &&& final(self).undo@.head_edit_t is None
                &&& !final(self).undo@.motion
                &&& final(self).text == old(self).text
                &&& final(self).caret == old(self).caret
                &&& final(self).selection_anchor == old(self).selection_anchor
                &&& final(self).preedit == old(self).preedit
            },
    {
        if !self.undo_seeded {
            self.undo = UndoStack::with_baseline(self.text.clone(), self.caret);
            self.undo_seeded = true;
        }
    }

    /// The substring of `text` inside `range`, or `None` if the range is out of
    /// bounds or splits a UTF-8 codepoint.
    pub fn answer_ime_text(&self, range: Range<usize>) -> (r: Option<String>)
        ensures
            r is Some <==> range.start <= range.end && is_boundary(self.text@, range.start as int)
                && is_boundary(self.text@, range.end as int),
            r matches Some(s) ==> text_bytes(s@) == text_bytes(self.text@).subrange(
                range.start as int,
                range.end as int,
            ),
    {
        match str_get(self.text.as_str(), range.start, range.end) {
            Some(s) => Some(s.to_owned()),
            None => None,
        }
    }

    /// The selected byte range `min(caret, anchor)..max(caret, anchor)`, or the
    /// collapsed `caret..caret` without an anchor.
    pub fn answer_selected_range(&self) -> (r: Option<Range<usize>>)
        ensures
            r matches Some(rg) && match self.selection_anchor {
                Some(a) => rg.start == (if self.caret <= a {
                    self.caret
                } else {
                    a
                }) && rg.end == (if self.caret <= a {
                    a
                } else {
                    self.caret
                }),
                None => rg.start == self.caret && rg.end == self.caret,
            },
    {
        match self.selection_anchor {
            Some(anchor) => {
                let (lo, hi) = if self.caret <= anchor {
                    (self.caret, anchor)
                } else {
                    (anchor, self.caret)
                };
                Some(lo..hi)
            },
            None => Some(self.caret..self.caret),
        }
    }

    /// The composition's byte range relative to the caret, or `None` when no
    /// composition is active.
    pub fn answer_marked_range(&self) -> (r: Option<Range<usize>>)
        requires
            self.preedit matches Some(p) ==> self.caret + byte_len(p.text@) <= usize::MAX,
        ensures
            self.preedit is None ==> r is None,
            self.preedit matches Some(p) ==> r matches Some(rg) && rg.start == self.caret && rg.end
                == self.caret + byte_len(p.text@),
    {
        match &self.preedit {
            None => None,
            Some(preedit) => {
                let start = self.caret;
                let end = start + preedit.text.as_str().len();
                Some(start..end)
            },
        }
    }
}

/// The text an editable element shows: the committed `text` with an active
/// composition spliced in at the caret (floored to a char boundary, so the
/// splice never splits a character); the committed text alone otherwise.
pub fn compose_display(text: &str, caret: usize, preedit: Option<&Preedit>) -> (r: String)
    requires
        preedit matches Some(p) ==> byte_len(text@) + byte_len(p.text@) <= isize::MAX,
    ensures
        match preedit {
            Some(p) => exists|at: usize|
                {
                    &&& at <= caret
                    &&& is_boundary(text@, at as int)
                    &&& (forall|j: int| at < j <= caret ==> !is_boundary(text@, j))
                    &&& text_bytes(r@) == text_bytes(text@).take(at as int) + text_bytes(p.text@)
                        + text_bytes(text@).skip(at as int)
                },
            None => r@ == text@,
        },
{
    match preedit {
        Some(p) => {
            let at = floor_char_boundary(text, caret);
            let mut display = text.to_owned();
            let _ = insert_text_at(&mut display, at, p.text.as_str());
            display
        },
        None => text.to_owned(),
    }
}

/// The selection range `(low, high)` to highlight, ordered: none without an
/// anchor, and none during a composition (the composed text stands in for
/// the selection while composing).
pub fn selection_to_paint(caret: usize, anchor: Option<usize>, composing: bool) -> (r: Option<(usize, usize)>)
    ensures
        r == (if composing {
            None
        } else {
            match anchor {
                Some(a) => Some(if a <= caret { (a, caret) } else { (caret, a) }),
                None => None,
            }
        }),
{
    if composing {
        return None;
    }
    match anchor {
        Some(a) => if a <= caret {
            Some((a, caret))
        } else {
            Some((caret, a))
        },
        None => None,
    }
}

/// Whether the caret is drawn this frame: only in the focused element, and
/// only in the visible half of the blink cycle.
pub fn caret_drawn(focused: bool, blink_visible: bool) -> (r: bool)
    ensures
        r == (focused && blink_visible),
{
    focused && blink_visible
}

/// Caret affinity used to place the displayed caret: `Downstream` during a
/// composition, the stored affinity otherwise.
pub fn caret_affinity_for_display(has_preedit: bool, stored: Affinity) -> (r: Affinity)
    ensures
        r == (if has_preedit {
            Affinity::Downstream
        } else {
            stored
        }),
{
    if has_preedit {
        Affinity::Downstream
    } else {
        stored
    }
}

/// Byte index the caret is painted at: inside the composition at its IME
/// cursor (clamped to the composed text), or the display caret itself.
pub fn caret_display_byte(display_caret: usize, preedit: Option<&Preedit>) -> (r: usize)
    requires
        preedit matches Some(p) ==> display_caret + byte_len(p.text@) <= usize::MAX,
    ensures
        r == match preedit {
            Some(p) => display_caret + (if p.cursor_byte_offset <= byte_len(p.text@) {
                p.cursor_byte_offset as int
            } else {
                byte_len(p.text@)
            }),
            None => display_caret as int,
        },
{
    match preedit {
        Some(p) => {
            let len = p.text.as_str().len();
            let off = if p.cursor_byte_offset <= len {
                p.cursor_byte_offset
            } else {
                len
            };
            display_caret + off
        },
        None => display_caret,
    }
}

} // verus!
