//! Input event payloads the editing logic consumes, and the deferred focus and
//! capture operations that handlers queue during a dispatch.
use vstd::prelude::*;

use std::ops::Range;

use crate::time::Timestamp;
use crate::types::ElementId;

verus! {

/// Committed text input: the UTF-8 text produced by one keystroke.
#[derive(Clone, Debug)]
pub struct TextInputEvent {
    /// Composed text (UTF-8), one or more characters.
    pub text: String,
    /// When the event was received.
    pub timestamp: Timestamp,
}

/// IME composition update. Replaces any prior composition on the focused
/// element each time it fires.
#[derive(Clone, Debug)]
pub struct ImePreeditEvent {
    /// Composition text (UTF-8).
    pub text: String,
    /// UTF-8 byte offset of the IME caret inside `text`.
    pub cursor_byte_offset: usize,
    /// IME-highlighted converted range, if the platform provided one.
    pub selection: Option<Range<usize>>,
    /// When the event was received.
    pub timestamp: Timestamp,
}

/// IME commit. Empty `text` means "clear the composition, insert nothing".
#[derive(Clone, Debug)]
pub struct ImeCommitEvent {
    /// Text to insert at the caret.
    pub text: String,
    /// When the event was received.
    pub timestamp: Timestamp,
}

/// IME lifecycle edge (enabled / disabled); the edge itself is told by which
/// handler runs.
#[derive(Clone, Copy, Debug)]
pub struct ImeLifecycleEvent {
    /// When the event was received.
    pub timestamp: Timestamp,
}

/// The kind of pointer event.
#[derive(Clone, Copy, Debug, PartialEq, Eq, Hash, Structural)]
pub enum PointerEventKind {
    /// Pointer button pressed.
    Down,
    /// Pointer button released.
    Up,
    /// Pointer moved.
    Move,
    /// Pointer entered the element's hit region.
    Enter,
    /// Pointer left the element's hit region.
    Leave,
}

/// Deferred focus operation, applied once the handler chain has unwound.
#[derive(Clone, Copy, Debug, PartialEq, Eq, Structural)]
pub enum PendingFocusOp {
    /// Focus the given element.
    Focus(ElementId),
    /// Clear focus.
    Blur,
}

/// Deferred pointer-capture operation, applied once the handler chain has
/// unwound. An explicit `Capture` survives mouse-up until `Release`.
#[derive(Clone, Copy, Debug, PartialEq, Eq, Structural)]
pub enum PendingCaptureOp {
    /// Capture the pointer to the given element.
    Capture(ElementId),
    /// Release any active capture.
    Release,
}

} // verus!
