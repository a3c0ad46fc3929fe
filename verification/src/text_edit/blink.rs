//! Caret blink advance, shared by single-line and multi-line fields.
//!
//! Paint calls [`advance_blink`] once per frame. While focused it toggles
//! visibility on a 530 ms half-period and returns the next deadline so paint
//! can schedule a redraw. While unfocused it resets the cycle (visible, no
//! deadline) and schedules nothing.
use vstd::prelude::*;

use crate::ime::BlinkState;
use crate::time::Timestamp;

verus! {

/// Caret blink half-period in nanoseconds (530 ms).
pub const CARET_BLINK_PERIOD: u64 = 530_000_000;

/// The deadline is due at `now`: none armed yet, or `now` reached it.
pub open spec fn blink_due(blink: BlinkState, now: Timestamp) -> bool {
    match blink.next {
        None => true,
        Some(t) => now.nanos >= t.nanos,
    }
}

/// Advance the blink cycle for one paint frame. Returns whether the caret is
/// drawn this frame and the deadline to schedule a redraw at (focused only).
pub fn advance_blink(blink: &mut BlinkState, focused: bool, now: Timestamp) -> (r: (
    bool,
    Option<Timestamp>,
))
    requires
        focused && blink_due(*old(blink), now) ==> now.nanos + CARET_BLINK_PERIOD <= u64::MAX,
    ensures
        !focused ==> final(blink).visible && final(blink).next is None && r == (false, None::<Timestamp>),
        focused ==> r == (final(blink).visible, final(blink).next),
        focused && old(blink).next is None ==> final(blink).visible && final(blink).next == Some(
            Timestamp { nanos: (now.nanos + CARET_BLINK_PERIOD) as u64 },
        ),
        focused && old(blink).next is Some && blink_due(*old(blink), now) ==> final(blink).visible
            == !old(blink).visible && final(blink).next == Some(
            Timestamp { nanos: (now.nanos + CARET_BLINK_PERIOD) as u64 },
        ),
        focused && !blink_due(*old(blink), now) ==> *final(blink) == *old(blink),
{
    if !focused {
        blink.visible = true;
        blink.next = None;
        return (false, None);
    }
    match blink.next {
        None => {
            blink.visible = true;
            blink.next = Some(now.plus(CARET_BLINK_PERIOD));
        },
        Some(t) => {
            if now.nanos >= t.nanos {
                blink.visible = !blink.visible;
                blink.next = Some(now.plus(CARET_BLINK_PERIOD));
            }
        },
    }
    (blink.visible, blink.next)
}

} // verus!
