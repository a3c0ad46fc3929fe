//! Tooltip timing: a hover-triggered label appears once the pointer has rested
//! over its target for a delay.
use vstd::prelude::*;

use crate::time::Timestamp;

verus! {

/// Default hover dwell before the bubble appears (nanoseconds; 500 ms).
pub const DEFAULT_DELAY: u64 = 500_000_000;

/// Nanoseconds from `since` to `now`, 0 when `now` is earlier.
pub open spec fn elapsed_nanos(since: Timestamp, now: Timestamp) -> int {
    if now.nanos >= since.nanos {
        now.nanos - since.nanos
    } else {
        0
    }
}

/// Visibility and redraw-arm state for a hover that started at `since`:
/// shown once the dwell has elapsed; while hovering but not yet due, the
/// instant to arm a redraw at; hidden and unarmed when not hovering.
pub fn due_state(since: Option<Timestamp>, now: Timestamp, delay: u64) -> (r: (
    bool,
    Option<Timestamp>,
))
    requires
        since matches Some(s) ==> elapsed_nanos(s, now) >= delay || s.nanos + delay <= u64::MAX,
    ensures
        r == match since {
            Some(s) => if elapsed_nanos(s, now) >= delay {
                (true, None)
            } else {
                (false, Some(Timestamp { nanos: (s.nanos + delay) as u64 }))
            },
            None => (false, None),
        },
{
    match since {
        Some(s) => {
            if now.saturating_since(s) >= delay {
                (true, None)
            } else {
                (false, Some(s.plus(delay)))
            }
        },
        None => (false, None),
    }
}

} // verus!
