//! Text editing undo / redo history with Apple Notes-style coalescing.
//!
//! [`UndoStack`] keeps a bounded history of **post-edit** snapshots. Typing
//! within 500 ms of the previous keystroke folds into the same undo step;
//! motion, time gaps, op-type changes, and discrete ops (paste / cut / IME
//! commit) open a fresh step.
use vstd::prelude::*;

use crate::text_edit::text_bytes::is_boundary;
use crate::time::{clock_origin, clock_since, Timestamp};

use std::collections::VecDeque;

verus! {

/// Maximum number of history entries (baseline included).
pub const UNDO_STACK_CAP: usize = 100;

/// Maximum gap between two typing edits that still coalesce (nanoseconds).
pub const COALESCE_TIME_GAP: u64 = 500_000_000;

/// Snapshot of a text field's state, taken immediately after the edit that
/// produced it. `entries[0]` of an [`UndoStack`] is the baseline.
#[derive(Clone, Debug)]
pub struct EditSnapshot {
    /// Text after the edit.
    pub text: String,
    /// Caret byte offset after the edit.
    pub caret: usize,
    /// Selection anchor after the edit.
    pub anchor: Option<usize>,
}

/// Abstract value of a snapshot: text, caret, anchor.
pub type SnapshotView = (Seq<char>, usize, Option<usize>);

impl View for EditSnapshot {
    type V = SnapshotView;

    open spec fn view(&self) -> SnapshotView {
        (self.text@, self.caret, self.anchor)
    }
}

impl EditSnapshot {
    /// A field-by-field copy of this snapshot.
    pub fn duplicate(&self) -> (r: EditSnapshot)
        ensures
            r@ == self@,
    {
        EditSnapshot { text: self.text.clone(), caret: self.caret, anchor: self.anchor }
    }
}

/// Classification of an edit for coalescing. `Insert` and `Backspace` are
/// coalescible bursts; `Discrete` (paste, cut, selection-delete, IME commit)
/// always opens a fresh undo step.
#[derive(Clone, Copy, Debug, PartialEq, Eq, Structural)]
pub enum EditOp {
    /// Typed text.
    Insert,
    /// Deleted backwards.
    Backspace,
    /// Paste, cut, selection delete, IME commit.
    Discrete,
}

/// Bounded undo / redo history.
#[derive(Clone, Debug)]
pub struct UndoStack {
    /// History of post-edit states; `entries[0]` is the baseline and
    /// `entries[cursor]` reflects the live document.
    entries: VecDeque<EditSnapshot>,
    cursor: usize,
    /// Op that produced the head entry; `None` after undo/redo.
    head_op: Option<EditOp>,
    head_edit_t: Option<Timestamp>,
    /// Set by caret motion; forces the next edit to open a fresh step.
    motion_since_last_edit: bool,
    /// Monotonic origin that this history's edit times are measured from.
    clock: std::time::Instant,
}

/// Abstract state of an [`UndoStack`].
pub struct UndoView {
    /// History entries (baseline first).
    pub entries: Seq<SnapshotView>,
    /// Index of the entry reflecting the live document.
    pub cursor: int,
    /// Op of the head entry, `None` after undo/redo.
    pub head_op: Option<EditOp>,
    /// Time of the last recorded edit.
    pub head_edit_t: Option<Timestamp>,
    /// Caret motion happened since the last edit.
    pub motion: bool,
}

/// Gap between two timestamps exceeds the coalescing window.
pub open spec fn gap_exceeded(t: Timestamp, now: Timestamp) -> bool {
    now.nanos >= t.nanos && now.nanos - t.nanos > COALESCE_TIME_GAP
}

/// A snapshot whose caret and anchor sit on char boundaries of its text.
pub open spec fn snapshot_wf(s: SnapshotView) -> bool {
    &&& is_boundary(s.0, s.1 as int)
    &&& (s.2 matches Some(a) ==> is_boundary(s.0, a as int))
}

impl UndoView {
    /// History invariant: non-empty, bounded, cursor in range, and a head
    /// step made by an edit carries that edit's time.
    pub open spec fn valid(self) -> bool {
        &&& 1 <= self.entries.len() <= UNDO_STACK_CAP
        &&& 0 <= self.cursor < self.entries.len()
        &&& (self.head_op is Some ==> self.head_edit_t is Some)
    }

    /// Every history entry is a well-formed snapshot.
    pub open spec fn entries_wf(self) -> bool {
        forall|i: int| 0 <= i < self.entries.len() ==> snapshot_wf(#[trigger] self.entries[i])
    }

    /// Whether an edit of kind `op` at time `now` opens a new undo step.
    pub open spec fn opens_step(self, op: EditOp, now: Timestamp) -> bool {
        match self.head_op {
            None => true,
            Some(prev) => {
                ||| op == EditOp::Discrete
                ||| prev == EditOp::Discrete
                ||| prev != op
                ||| (self.head_edit_t matches Some(t) && gap_exceeded(t, now))
                ||| self.motion
            },
        }
    }

    /// History after recording `post` as an edit of kind `op` at time `now`:
    /// the redo tail is dropped; a new step is appended (the oldest entry is
    /// evicted at capacity), or the head entry is overwritten when coalescing.
    pub open spec fn record(self, op: EditOp, post: SnapshotView, now: Timestamp) -> UndoView {
        let base = self.entries.take(self.cursor + 1);
        let entries = if self.opens_step(op, now) {
            if base.len() == UNDO_STACK_CAP {
                base.drop_first().push(post)
            } else {
                base.push(post)
            }
        } else {
            base.update(self.cursor, post)
        };
        UndoView {
            entries,
            cursor: entries.len() - 1,
            head_op: Some(op),
            head_edit_t: Some(now),
            motion: false,
        }
    }
}

/// Recording a well-formed snapshot keeps every history entry well-formed.
pub proof fn lemma_record_keeps_entries_wf(v: UndoView, op: EditOp, post: SnapshotView, now: Timestamp)
    requires
        v.valid(),
        v.entries_wf(),
        snapshot_wf(post),
    ensures
        v.record(op, post, now).entries_wf(),
{
    let r = v.record(op, post, now);
    let base = v.entries.take(v.cursor + 1);
    assert forall|i: int| 0 <= i < r.entries.len() implies snapshot_wf(#[trigger] r.entries[i]) by {
        if v.opens_step(op, now) {
            if base.len() == UNDO_STACK_CAP {
                if i < r.entries.len() - 1 {
                    assert(r.entries[i] == v.entries[i + 1]);
                }
            } else {
                if i < r.entries.len() - 1 {
                    assert(r.entries[i] == v.entries[i]);
                }
            }
        } else {
            if i != v.cursor {
                assert(r.entries[i] == v.entries[i]);
            }
        }
    }
}

/// Typing within the coalescing window of the previous typing, with no caret
/// motion in between, rewrites the head step instead of adding one: the
/// history keeps its length up to the cursor and only the head changes.
pub proof fn law_typing_burst_coalesces(v: UndoView, post: SnapshotView, t: Timestamp, now: Timestamp)
    requires
        v.valid(),
        v.head_op == Some(EditOp::Insert),
        v.head_edit_t == Some(t),
        !gap_exceeded(t, now),
        !v.motion,
    ensures
        !v.opens_step(EditOp::Insert, now),
        v.record(EditOp::Insert, post, now).entries == v.entries.take(v.cursor + 1).update(
            v.cursor,
            post,
        ),
        v.record(EditOp::Insert, post, now).cursor == v.cursor,
{
}

/// Recording an edit of kind `op` at `now` on any valid history adds a new
/// step exactly unless it continues the head step: the same non-discrete kind
/// as the head, within the coalescing window of the head's time, with no caret
/// motion (and no undo or redo, which clear the head) since. A new step is
/// appended after the cursor (dropping the oldest entry at capacity); a
/// continued step replaces the live entry. Either way the result is live,
/// nothing is left to redo, and the history stays valid.
pub proof fn law_record_edit_result(v: UndoView, op: EditOp, post: SnapshotView, now: Timestamp)
    requires
        v.valid(),
    ensures
        v.opens_step(op, now) == !({
            &&& v.head_op == Some(op)
            &&& op != EditOp::Discrete
            &&& !v.motion
            &&& v.head_edit_t matches Some(t) && !gap_exceeded(t, now)
        }),
        ({
            let r = v.record(op, post, now);
            &&& r.valid()
            &&& r.cursor == r.entries.len() - 1
            &&& r.entries[r.cursor] == post
            &&& if v.opens_step(op, now) {
                r.entries.len() == (if v.cursor + 2 <= UNDO_STACK_CAP {
                    v.cursor + 2
                } else {
                    UNDO_STACK_CAP as int
                })
            } else {
                r.entries == v.entries.take(v.cursor + 1).update(v.cursor, post)
            }
        }),
{
}

/// An edit that opens a new step is undone by one undo: right after it, the
/// entry before the live one is the entry that was live before the edit, and
/// the live entry is the edit's result. (At capacity the oldest entry goes.)
pub proof fn law_undo_after_new_step(v: UndoView, op: EditOp, post: SnapshotView, now: Timestamp)
    requires
        v.valid(),
        v.opens_step(op, now),
    ensures
        v.record(op, post, now).cursor >= 1,
        v.record(op, post, now).entries[v.record(op, post, now).cursor - 1] == v.entries[v.cursor],
        v.record(op, post, now).entries[v.record(op, post, now).cursor] == post,
        v.record(op, post, now).entries.len() == if v.cursor + 1 == UNDO_STACK_CAP {
            UNDO_STACK_CAP as int
        } else {
            v.cursor + 2
        },
{
    let base = v.entries.take(v.cursor + 1);
    if base.len() == UNDO_STACK_CAP {
        assert(base.drop_first().push(post)[UNDO_STACK_CAP - 2] == base[UNDO_STACK_CAP - 1]);
    }
}

/// Every recorded edit leaves the history valid (non-empty, within
/// capacity) with nothing left to redo, and the next undo or redo no longer
/// follows the undone branch.
pub proof fn law_record_clears_redo(v: UndoView, op: EditOp, post: SnapshotView, now: Timestamp)
    requires
        v.valid(),
    ensures
        v.record(op, post, now).valid(),
        v.record(op, post, now).cursor == v.record(op, post, now).entries.len() - 1,
        v.record(op, post, now).head_op == Some(op),
        !v.record(op, post, now).motion,
{
}

/// Redo undoes an undo: after stepping back from a history with an earlier
/// entry, the entry a redo returns is the one that was live, and the cursor
/// is back where it was.
pub proof fn law_redo_after_undo(v: UndoView)
    requires
        v.valid(),
        v.cursor > 0,
    ensures
        ({
            let u = UndoView { cursor: v.cursor - 1, head_op: None, head_edit_t: None, motion: false, ..v };
            &&& u.valid()
            &&& u.cursor + 1 < u.entries.len()
            &&& u.entries[u.cursor + 1] == v.entries[v.cursor]
            &&& (UndoView { cursor: u.cursor + 1, ..u }).cursor == v.cursor
        }),
{
}

impl View for UndoStack {
    type V = UndoView;

    closed spec fn view(&self) -> UndoView {
        UndoView {
            entries: self.entries@.map_values(|s: EditSnapshot| s@),
            cursor: self.cursor as int,
            head_op: self.head_op,
            head_edit_t: self.head_edit_t,
            motion: self.motion_since_last_edit,
        }
    }
}

impl Default for UndoStack {
    /// A stack seeded with an empty baseline: no text, caret at 0.
    fn default() -> (r: UndoStack)
        ensures
            r@.valid(),
            r@.entries == seq![(Seq::<char>::empty(), 0usize, None::<usize>)],
            r@.cursor == 0,
            r@.head_op is None,
            r@.head_edit_t is None,
            !r@.motion,
    {
        let r = UndoStack::with_baseline(String::new(), 0);
        r
    }
}

impl UndoStack {
    /// A stack holding only the baseline `(text, caret)`.
    pub fn with_baseline(text: String, caret: usize) -> (r: UndoStack)
        ensures
            r@.valid(),
            r@.entries == seq![(text@, caret, None::<usize>)],
            r@.cursor == 0,
            r@.head_op is None,
            r@.head_edit_t is None,
            !r@.motion,
    {
        let mut entries: VecDeque<EditSnapshot> = VecDeque::with_capacity(UNDO_STACK_CAP);
        let ghost t = text@;
        entries.push_back(EditSnapshot { text, caret, anchor: None });
        let r = UndoStack {
            entries,
            cursor: 0,
            head_op: None,
            head_edit_t: None,
            motion_since_last_edit: false,
            clock: clock_origin(),
        };
        proof {
            assert(r@.entries =~= seq![(t, caret, None::<usize>)]);
        }
        r
    }

    /// Whether an edit of kind `op` at time `now` opens a new undo step.
    fn should_push(&self, op: EditOp, now: Timestamp) -> (r: bool)
        ensures
            r == self@.opens_step(op, now),
    {
        let prev_op = match self.head_op {
            None => {
                return true;
            },
            Some(p) => p,
        };
        // Discrete ops never coalesce (in either direction).
        if op == EditOp::Discrete || prev_op == EditOp::Discrete {
            return true;
        }
        // Op-type change.
        if prev_op != op {
            return true;
        }
        // Time gap beyond the coalescing window.
        if let Some(t) = self.head_edit_t {
            if now.saturating_since(t) > COALESCE_TIME_GAP {
                return true;
            }
        }
        // Caret moved by a non-typing action since the last edit.
        if self.motion_since_last_edit {
            return true;
        }
        false
    }

    /// Record a completed edit made at time `now`. `post` is the state after
    /// the mutation.
    pub fn record_edit_at(&mut self, op: EditOp, post: EditSnapshot, now: Timestamp)
        requires
            old(self)@.valid(),
        ensures
            final(self)@ == old(self)@.record(op, post@, now),
            final(self)@.valid(),
    {
        let ghost pv = post@;
        let ghost base = self@.entries.take(self.cursor + 1);
        // New edits truncate the redo tail.
        if self.cursor + 1 < self.entries.len() {
            self.entries.truncate(self.cursor + 1);
        }
        proof {
            assert(self.entries@.map_values(|s: EditSnapshot| s@) =~= base);
        }
        if self.should_push(op, now) {
            if self.entries.len() == UNDO_STACK_CAP {
                self.entries.pop_front();
                self.cursor = self.cursor.saturating_sub(1);
            }
            self.entries.push_back(post);
            self.cursor = self.entries.len() - 1;
            proof {
                if base.len() == UNDO_STACK_CAP {
                    assert(self.entries@.map_values(|s: EditSnapshot| s@) =~= base.drop_first().push(pv));
                } else {
                    assert(self.entries@.map_values(|s: EditSnapshot| s@) =~= base.push(pv));
                }
            }
        } else {
            // The head entry is the back after truncation: overwrite it.
            self.entries.pop_back();
            self.entries.push_back(post);
            proof {
                assert(self.entries@.map_values(|s: EditSnapshot| s@) =~= base.update(
                    self.cursor as int,
                    pv,
                ));
            }
        }
        self.head_op = Some(op);
        self.head_edit_t = Some(now);
        self.motion_since_last_edit = false;
    }

    /// Record a completed edit made now (reads the clock).
    pub fn record_edit(&mut self, op: EditOp, post: EditSnapshot)
        requires
            old(self)@.valid(),
        ensures
            exists|now: Timestamp| final(self)@ == old(self)@.record(op, post@, now),
            final(self)@.valid(),
    {
        let now = clock_since(&self.clock);
        self.record_edit_at(op, post, now);
    }

    /// Mark that the caret moved without an edit: the next edit opens a fresh step.
    pub fn mark_motion(&mut self)
        requires
            old(self)@.valid(),
        ensures
            final(self)@ == (UndoView { motion: true, ..old(self)@ }),
    {
        self.motion_since_last_edit = true;
    }

    /// Step back one entry and return the state to restore, or `None` at the baseline.
    pub fn undo(&mut self) -> (r: Option<EditSnapshot>)
        requires
            old(self)@.valid(),
        ensures
            final(self)@.valid(),
            final(self)@.entries == old(self)@.entries,
            old(self)@.cursor == 0 ==> r is None && final(self)@ == old(self)@,
            old(self)@.cursor > 0 ==> {
                &&& r matches Some(s) && s@ == old(self)@.entries[old(self)@.cursor - 1]
                &&& final(self)@.cursor == old(self)@.cursor - 1
                &&& final(self)@.head_op is None
                &&& final(self)@.head_edit_t is None
                &&& !final(self)@.motion
            },
    {
        if self.cursor == 0 {
            return None;
        }
        self.cursor = self.cursor - 1;
        // The next edit must open a new step, never coalesce with what the
        // user walked back through.
        self.head_op = None;
        self.head_edit_t = None;
        self.motion_since_last_edit = false;
        Some(self.entries[self.cursor].duplicate())
    }

    /// Step forward one entry and return the state to restore, or `None` at the head.
    pub fn redo(&mut self) -> (r: Option<EditSnapshot>)
        requires
            old(self)@.valid(),
        ensures
            final(self)@.valid(),
            final(self)@.entries == old(self)@.entries,
            old(self)@.cursor + 1 >= old(self)@.entries.len() ==> r is None && final(self)@ == old(
                self,
            )@,
            old(self)@.cursor + 1 < old(self)@.entries.len() ==> {
                &&& r matches Some(s) && s@ == old(self)@.entries[old(self)@.cursor + 1]
                &&& final(self)@.cursor == old(self)@.cursor + 1
                &&& final(self)@.head_op is None
                &&& final(self)@.head_edit_t is None
                &&& !final(self)@.motion
            },
    {
        if self.cursor + 1 >= self.entries.len() {
            return None;
        }
        self.cursor = self.cursor + 1;
        self.head_op = None;
        self.head_edit_t = None;
        self.motion_since_last_edit = false;
        Some(self.entries[self.cursor].duplicate())
    }

    /// Number of history entries (baseline included).
    pub fn len(&self) -> (r: usize)
        ensures
            r == self@.entries.len(),
    {
        self.entries.len()
    }

    /// Index of the entry reflecting the live document.
    pub fn cursor(&self) -> (r: usize)
        ensures
            r == self@.cursor,
    {
        self.cursor
    }
}

} // verus!
