//! Focus management: the per-frame focusable list, the focused element, the
//! Tab cycle and the modal focus trap.
//!
//! # Tab order
//! Stable order by `(tab_index, registration_index)`. Entries with
//! `tab_index < 0` are excluded from the Tab cycle but remain focusable
//! programmatically via [`FocusRegistry::set_focus`].
//!
//! # Modal focus trap
//! A modal overlay brackets its content with
//! [`FocusRegistry::enter_trap_scope`] / [`FocusRegistry::exit_trap_scope`];
//! every focusable registered in between is tagged with the overlay's id. While
//! a modal is open, Tab cycling is restricted to the deepest open modal.
use vstd::prelude::*;

use crate::order::{is_stable_order, key_precedes, stable_order};
use crate::types::ElementId;

verus! {

/// Per-element focus metadata captured during prepaint.
#[derive(Copy, Clone, Debug)]
pub struct FocusableEntry {
    /// Stable id of the focusable element.
    pub id: ElementId,
    /// W3C-style `tab_index`. `< 0` => not in Tab cycle, but `set_focus` still works.
    pub tab_index: i32,
    /// Whether the framework's focus ring should render for this entry.
    pub focus_ring: bool,
}

/// A registered focusable plus the modal trap scope it was registered under.
#[derive(Copy, Clone, Debug)]
struct Focusable {
    entry: FocusableEntry,
    trap_scope: Option<ElementId>,
}

/// Owns the per-frame focusable list plus the current focused id.
#[derive(Debug)]
pub struct FocusRegistry {
    entries: Vec<Focusable>,
    focused: Option<ElementId>,
    /// True when `entries` has changed since the last sort.
    dirty: bool,
    /// Positions of `entries` in Tab order (valid when `!dirty`).
    sorted_indices: Vec<usize>,
    /// Registration-time stack of modal trap scopes (top = current).
    scope_stack: Vec<ElementId>,
    /// Every modal scope entered this frame, with its z-depth.
    modal_scopes: Vec<(ElementId, i32)>,
    /// The deepest modal open this frame, if any.
    active_trap: Option<(ElementId, i32)>,
}

/// Abstract state of a [`FocusRegistry`].
pub struct FocusState {
    /// Registered entries, in registration order.
    pub entries: Seq<FocusableEntry>,
    /// Modal trap scope of each registered entry.
    pub scopes: Seq<Option<ElementId>>,
    /// The focused element, if any.
    pub focused: Option<ElementId>,
    /// Open trap scopes during registration (top = last).
    pub scope_stack: Seq<ElementId>,
    /// Modal scopes entered this frame with their depths, in entry order.
    pub modal_scopes: Seq<(ElementId, i32)>,
    /// The enforced trap: deepest modal of the frame.
    pub active_trap: Option<(ElementId, i32)>,
}

impl FocusState {
    /// Number of registered entries.
    pub open spec fn len(self) -> int {
        self.entries.len() as int
    }

    /// Entry `a` comes before entry `b` in Tab order.
    pub open spec fn precedes(self, a: int, b: int) -> bool {
        self.entries[a].tab_index < self.entries[b].tab_index || (self.entries[a].tab_index
            == self.entries[b].tab_index && a < b)
    }

    /// Some registered entry carries `id`.
    pub open spec fn is_registered(self, id: ElementId) -> bool {
        exists|i: int| 0 <= i < self.len() && #[trigger] self.entries[i].id == id
    }

    /// Some registered entry carries `id` and takes part in the Tab cycle.
    pub open spec fn is_tab_registered(self, id: ElementId) -> bool {
        exists|i: int|
            0 <= i < self.len() && #[trigger] self.entries[i].id == id
                && self.entries[i].tab_index >= 0
    }

    /// The id of the active trap, if a modal is open.
    pub open spec fn trap(self) -> Option<ElementId> {
        match self.active_trap {
            Some(t) => Some(t.0),
            None => None,
        }
    }

    /// Entry `i` is reachable by Tab: non-negative `tab_index`, and inside the
    /// active trap when one is set.
    pub open spec fn in_cycle(self, i: int) -> bool {
        &&& 0 <= i < self.len()
        &&& self.entries[i].tab_index >= 0
        &&& (self.trap() is None || self.scopes[i] == self.trap())
    }

    /// `j` is the first entry of the Tab cycle.
    pub open spec fn cycle_first(self, j: int) -> bool {
        &&& self.in_cycle(j)
        &&& forall|k: int| #[trigger] self.in_cycle(k) && k != j ==> self.precedes(j, k)
    }

    /// `j` is the last entry of the Tab cycle.
    pub open spec fn cycle_last(self, j: int) -> bool {
        &&& self.in_cycle(j)
        &&& forall|k: int| #[trigger] self.in_cycle(k) && k != j ==> self.precedes(k, j)
    }

    /// `c` is where the focused element sits in the Tab cycle (its first
    /// occurrence in Tab order).
    pub open spec fn focus_position(self, c: int) -> bool {
        &&& self.in_cycle(c)
        &&& self.focused == Some(self.entries[c].id)
        &&& forall|k: int|
            #[trigger] self.in_cycle(k) && self.focused == Some(self.entries[k].id) && k != c
                ==> self.precedes(c, k)
    }

    /// `j` directly follows `c` in the Tab cycle.
    pub open spec fn cycle_after(self, c: int, j: int) -> bool {
        &&& self.in_cycle(j)
        &&& self.precedes(c, j)
        &&& forall|k: int| #[trigger] self.in_cycle(k) && self.precedes(c, k) && k != j ==> self.precedes(j, k)
    }

    /// `j` directly precedes `c` in the Tab cycle.
    pub open spec fn cycle_before(self, c: int, j: int) -> bool {
        &&& self.in_cycle(j)
        &&& self.precedes(j, c)
        &&& forall|k: int| #[trigger] self.in_cycle(k) && self.precedes(k, c) && k != j ==> self.precedes(k, j)
    }

    /// The entry Tab moves to: the successor of the focused entry in the
    /// cycle, wrapping to the first; the first when nothing in the cycle is focused.
    pub open spec fn forward_index(self) -> Option<int> {
        let c = choose|c: int| self.focus_position(c);
        if (exists|c: int| self.focus_position(c)) && (exists|j: int| self.cycle_after(c, j)) {
            Some(choose|j: int| self.cycle_after(c, j))
        } else if exists|j: int| self.cycle_first(j) {
            Some(choose|j: int| self.cycle_first(j))
        } else {
            None
        }
    }

    /// The entry Shift+Tab moves to: the predecessor of the focused entry in
    /// the cycle, wrapping to the last; the last when nothing in the cycle is focused.
    pub open spec fn backward_index(self) -> Option<int> {
        let c = choose|c: int| self.focus_position(c);
        if (exists|c: int| self.focus_position(c)) && (exists|j: int| self.cycle_before(c, j)) {
            Some(choose|j: int| self.cycle_before(c, j))
        } else if exists|j: int| self.cycle_last(j) {
            Some(choose|j: int| self.cycle_last(j))
        } else {
            None
        }
    }

    /// The id at an optional entry position.
    pub open spec fn id_at(self, i: Option<int>) -> Option<ElementId> {
        match i {
            Some(j) => Some(self.entries[j].id),
            None => None,
        }
    }

    /// First registered entry (registration order) carrying `id`.
    pub open spec fn first_with_id(self, id: ElementId) -> int {
        choose|i: int|
            0 <= i < self.len() && self.entries[i].id == id && forall|k: int|
                0 <= k < i ==> #[trigger] self.entries[k].id != id
    }

    /// Entry `i` is Tab-reachable and registered inside modal scope `scope`.
    pub open spec fn in_scope(self, scope: ElementId, i: int) -> bool {
        &&& 0 <= i < self.len()
        &&& self.entries[i].tab_index >= 0
        &&& self.scopes[i] == Some(scope)
    }

    /// `j` is the first Tab-reachable entry of modal scope `scope`.
    pub open spec fn scope_first(self, scope: ElementId, j: int) -> bool {
        &&& self.in_scope(scope, j)
        &&& forall|k: int| #[trigger] self.in_scope(scope, k) && k != j ==> self.precedes(j, k)
    }

    /// Position of the first Tab-reachable entry of `scope`, if any.
    pub open spec fn first_in_scope_index(self, scope: ElementId) -> Option<int> {
        if exists|j: int| self.scope_first(scope, j) {
            Some(choose|j: int| self.scope_first(scope, j))
        } else {
            None
        }
    }

    /// A modal scope with this id was entered this frame.
    pub open spec fn modal_present(self, id: ElementId) -> bool {
        exists|i: int| 0 <= i < self.modal_scopes.len() && #[trigger] self.modal_scopes[i].0 == id
    }

    /// Depths of the modal scopes entered this frame.
    pub open spec fn depth_keys(self) -> Seq<i32> {
        self.modal_scopes.map_values(|p: (ElementId, i32)| p.1)
    }

    /// Modal scopes of the frame, shallowest first (equal depths in entry order).
    pub open spec fn open_order(self) -> Seq<(ElementId, i32)> {
        let ord = choose|o: Seq<usize>| is_stable_order(self.depth_keys(), o);
        ord.map_values(|i: usize| self.modal_scopes[i as int])
    }

    /// The records of `stack` whose modal is still present.
    pub open spec fn kept_modals(self, stack: Seq<(ElementId, Option<ElementId>)>) -> Seq<
        (ElementId, Option<ElementId>),
    > {
        stack.filter(|e: (ElementId, Option<ElementId>)| self.modal_present(e.0))
    }

    /// The earliest record of `stack` whose modal is gone, if any.
    pub open spec fn first_closed(self, stack: Seq<(ElementId, Option<ElementId>)>) -> Option<
        (ElementId, Option<ElementId>),
    >
        decreases stack.len(),
    {
        if stack.len() == 0 {
            None
        } else {
            match self.first_closed(stack.drop_last()) {
                Some(e) => Some(e),
                None => if !self.modal_present(stack.last().0) {
                    Some(stack.last())
                } else {
                    None
                },
            }
        }
    }

    /// Focus once closed modals are dropped: restored to the focus saved by
    /// the earliest closed modal when no modal remains open and that element is
    /// still registered; unchanged otherwise.
    pub open spec fn focus_after_close(self, stack: Seq<(ElementId, Option<ElementId>)>) -> Option<
        ElementId,
    > {
        match self.first_closed(stack) {
            Some((_, Some(r))) => if self.kept_modals(stack).len() == 0 && self.is_registered(r) {
                Some(r)
            } else {
                self.focused
            },
            _ => self.focused,
        }
    }

    /// Some record of `stack` belongs to modal `id`.
    pub open spec fn stack_has(stack: Seq<(ElementId, Option<ElementId>)>, id: ElementId) -> bool {
        exists|k: int| 0 <= k < stack.len() && #[trigger] stack[k].0 == id
    }

    /// Open every modal of `order` not yet on `stack`, in order: record the
    /// focus it interrupts, then focus its first Tab-reachable entry (if any).
    pub open spec fn open_modals(
        self,
        order: Seq<(ElementId, i32)>,
        stack: Seq<(ElementId, Option<ElementId>)>,
        focus: Option<ElementId>,
    ) -> (Seq<(ElementId, Option<ElementId>)>, Option<ElementId>)
        decreases order.len(),
    {
        if order.len() == 0 {
            (stack, focus)
        } else {
            let prev = self.open_modals(order.drop_last(), stack, focus);
            let id = order.last().0;
            if Self::stack_has(prev.0, id) {
                prev
            } else {
                let f = match self.first_in_scope_index(id) {
                    Some(j) => Some(self.entries[j].id),
                    None => prev.1,
                };
                (prev.0.push((id, prev.1)), f)
            }
        }
    }

    /// Focus once the modal of record `e` opens over the focus `e.1` it saved:
    /// the modal's first Tab-reachable entry, or `e.1` when it has none.
    pub open spec fn focus_on_open(self, e: (ElementId, Option<ElementId>)) -> Option<ElementId> {
        match self.first_in_scope_index(e.0) {
            Some(j) => Some(self.entries[j].id),
            None => e.1,
        }
    }

    /// From index `from` on, each record of `r` saved the focus of the moment
    /// it opened: `focus` for the first, and for each later one the focus that
    /// opening the record before it left.
    pub open spec fn saves_in_turn(
        self,
        r: Seq<(ElementId, Option<ElementId>)>,
        from: int,
        focus: Option<ElementId>,
    ) -> bool {
        forall|k: int|
            from <= k < r.len() ==> (#[trigger] r[k]).1 == (if k == from {
                focus
            } else {
                self.focus_on_open(r[k - 1])
            })
    }

    /// Same registration content (entries, scopes, trap bookkeeping).
    pub open spec fn same_registrations(self, other: FocusState) -> bool {
        &&& self.entries == other.entries
        &&& self.scopes == other.scopes
        &&& self.scope_stack == other.scope_stack
        &&& self.modal_scopes == other.modal_scopes
        &&& self.active_trap == other.active_trap
    }
}

impl View for FocusRegistry {
    type V = FocusState;

    closed spec fn view(&self) -> FocusState {
        FocusState {
            entries: self.entries@.map_values(|f: Focusable| f.entry),
            scopes: self.entries@.map_values(|f: Focusable| f.trap_scope),
            focused: self.focused,
            scope_stack: self.scope_stack@,
            modal_scopes: self.modal_scopes@,
            active_trap: self.active_trap,
        }
    }
}

/// Tab-order keys of a list of focusables.
spec fn tab_keys(entries: Seq<Focusable>) -> Seq<i32> {
    entries.map_values(|f: Focusable| f.entry.tab_index)
}

/// Facts about a sequence that lists the Tab cycle in order.
proof fn lemma_cycle_order(m: FocusState, ring: Seq<usize>)
    requires
        forall|a: int| 0 <= a < ring.len() ==> m.in_cycle(#[trigger] ring[a] as int),
        forall|a: int, b: int|
            0 <= a < b < ring.len() ==> m.precedes(#[trigger] ring[a] as int, #[trigger] ring[b] as int),
        forall|k: int| #[trigger] m.in_cycle(k) ==> exists|w: int| 0 <= w < ring.len() && ring[w] as int == k,
    ensures
        ring.len() > 0 ==> m.cycle_first(ring[0] as int) && m.cycle_last(ring[ring.len() - 1] as int),
        ring.len() == 0 ==> forall|k: int| !m.in_cycle(k),
        forall|p: int|
            0 <= p < ring.len() - 1 ==> m.cycle_after(#[trigger] ring[p] as int, ring[p + 1] as int),
        forall|p: int|
            0 < p < ring.len() ==> m.cycle_before(#[trigger] ring[p] as int, ring[p - 1] as int),
        ring.len() > 0 ==> forall|j: int| !#[trigger] m.cycle_after(ring[ring.len() - 1] as int, j),
        ring.len() > 0 ==> forall|j: int| !#[trigger] m.cycle_before(ring[0] as int, j),
{
    if ring.len() > 0 {
        let last = ring.len() - 1;
        assert forall|k: int| #[trigger] m.in_cycle(k) && k != ring[0] as int implies m.precedes(ring[0] as int, k) by {
            let w = choose|w: int| 0 <= w < ring.len() && ring[w] as int == k;
            assert(w != 0);
        }
        assert forall|k: int| #[trigger] m.in_cycle(k) && k != ring[last] as int implies m.precedes(k, ring[last] as int) by {
            let w = choose|w: int| 0 <= w < ring.len() && ring[w] as int == k;
            assert(w != last);
        }
        assert forall|j: int| !m.cycle_after(ring[last] as int, j) by {
            if m.cycle_after(ring[last] as int, j) {
                let w = choose|w: int| 0 <= w < ring.len() && ring[w] as int == j;
                if w < last {
                    assert(m.precedes(ring[w] as int, ring[last] as int));
                }
            }
        }
        assert forall|j: int| !m.cycle_before(ring[0] as int, j) by {
            if m.cycle_before(ring[0] as int, j) {
                let w = choose|w: int| 0 <= w < ring.len() && ring[w] as int == j;
                if w > 0 {
                    assert(m.precedes(ring[0] as int, ring[w] as int));
                }
            }
        }
    }
    assert forall|p: int| 0 <= p < ring.len() - 1 implies m.cycle_after(#[trigger] ring[p] as int, ring[p + 1] as int) by {
        assert forall|k: int|
            #[trigger] m.in_cycle(k) && m.precedes(ring[p] as int, k) && k != ring[p + 1] as int
                implies m.precedes(ring[p + 1] as int, k) by {
            let w = choose|w: int| 0 <= w < ring.len() && ring[w] as int == k;
            if w <= p {
                if w < p {
                    assert(m.precedes(ring[w] as int, ring[p] as int));
                }
            } else {
                assert(w != p + 1);
            }
        }
    }
    assert forall|p: int| 0 < p < ring.len() implies m.cycle_before(#[trigger] ring[p] as int, ring[p - 1] as int) by {
        assert forall|k: int|
            #[trigger] m.in_cycle(k) && m.precedes(k, ring[p] as int) && k != ring[p - 1] as int
                implies m.precedes(k, ring[p - 1] as int) by {
            let w = choose|w: int| 0 <= w < ring.len() && ring[w] as int == k;
            if w >= p {
                if w > p {
                    assert(m.precedes(ring[p] as int, ring[w] as int));
                }
            } else {
                assert(w != p - 1);
            }
        }
    }
}

/// The Tab-order positions described by [`FocusState`] are unique.
proof fn lemma_unique(m: FocusState)
    ensures
        forall|a: int, b: int| m.focus_position(a) && m.focus_position(b) ==> a == b,
        forall|c: int, a: int, b: int| m.cycle_after(c, a) && m.cycle_after(c, b) ==> a == b,
        forall|c: int, a: int, b: int| m.cycle_before(c, a) && m.cycle_before(c, b) ==> a == b,
        forall|a: int, b: int| m.cycle_first(a) && m.cycle_first(b) ==> a == b,
        forall|a: int, b: int| m.cycle_last(a) && m.cycle_last(b) ==> a == b,
{
    assert forall|a: int, b: int| m.focus_position(a) && m.focus_position(b) implies a == b by {
        if a != b {
            assert(m.in_cycle(b));
            assert(m.in_cycle(a));
        }
    }
    assert forall|c: int, a: int, b: int| m.cycle_after(c, a) && m.cycle_after(c, b) implies a == b by {
        if a != b {
            assert(m.in_cycle(b));
            assert(m.in_cycle(a));
        }
    }
    assert forall|c: int, a: int, b: int| m.cycle_before(c, a) && m.cycle_before(c, b) implies a == b by {
        if a != b {
            assert(m.in_cycle(b));
            assert(m.in_cycle(a));
        }
    }
    assert forall|a: int, b: int| m.cycle_first(a) && m.cycle_first(b) implies a == b by {
        if a != b {
            assert(m.in_cycle(b));
            assert(m.in_cycle(a));
        }
    }
    assert forall|a: int, b: int| m.cycle_last(a) && m.cycle_last(b) implies a == b by {
        if a != b {
            assert(m.in_cycle(b));
            assert(m.in_cycle(a));
        }
    }
}

/// The first entry of a modal scope depends on registrations only.
proof fn lemma_first_in_scope_registrations(a: FocusState, b: FocusState, scope: ElementId)
    requires
        a.same_registrations(b),
    ensures
        a.first_in_scope_index(scope) == b.first_in_scope_index(scope),
{
    assert forall|j: int| a.scope_first(scope, j) == b.scope_first(scope, j) by {
        assert forall|k: int| a.in_scope(scope, k) == b.in_scope(scope, k) by {}
    }
    assert((|j: int| a.scope_first(scope, j)) =~= (|j: int| b.scope_first(scope, j)));
}

impl Default for FocusRegistry {
    fn default() -> (r: Self)
        ensures
            r.wf(),
            r@.entries.len() == 0,
            r@.scopes.len() == 0,
            r@.focused is None,
            r@.scope_stack.len() == 0,
            r@.modal_scopes.len() == 0,
            r@.active_trap is None,
    {
        FocusRegistry::new()
    }
}

/// With every stacked modal still present, no modal closed: the stack is
/// kept whole and focus is not restored.
proof fn lemma_all_stacked_present(m: FocusState, s: Seq<(ElementId, Option<ElementId>)>)
    requires
        forall|k: int| 0 <= k < s.len() ==> m.modal_present(#[trigger] s[k].0),
    ensures
        m.kept_modals(s) == s,
        m.first_closed(s) is None,
    decreases s.len(),
{
    reveal(Seq::filter);
    if s.len() > 0 {
        lemma_all_stacked_present(m, s.drop_last());
        assert(m.modal_present(s[s.len() - 1].0));
        assert(s.drop_last().push(s.last()) =~= s);
    }
}

/// Opening modals that are all on the stack already changes nothing.
proof fn lemma_open_modals_none_new(
    m: FocusState,
    order: Seq<(ElementId, i32)>,
    stack: Seq<(ElementId, Option<ElementId>)>,
    focus: Option<ElementId>,
)
    requires
        forall|i: int| 0 <= i < order.len() ==> FocusState::stack_has(stack, #[trigger] order[i].0),
    ensures
        m.open_modals(order, stack, focus) == (stack, focus),
    decreases order.len(),
{
    if order.len() > 0 {
        lemma_open_modals_none_new(m, order.drop_last(), stack, focus);
        assert(FocusState::stack_has(stack, order[order.len() - 1].0));
    }
}

/// Every record opening leaves on the stack came from the stack it started
/// with or names a modal of `order`; the stack it started with stays, and
/// every modal of `order` ends up on it.
proof fn lemma_open_modals_records(
    m: FocusState,
    order: Seq<(ElementId, i32)>,
    stack: Seq<(ElementId, Option<ElementId>)>,
    focus: Option<ElementId>,
)
    ensures
        forall|k: int|
            0 <= k < m.open_modals(order, stack, focus).0.len() ==> FocusState::stack_has(
                stack,
                #[trigger] m.open_modals(order, stack, focus).0[k].0,
            ) || exists|i: int|
                0 <= i < order.len() && #[trigger] order[i].0 == m.open_modals(
                    order,
                    stack,
                    focus,
                ).0[k].0,
        forall|id: ElementId|
            FocusState::stack_has(stack, id) ==> FocusState::stack_has(
                #[trigger] m.open_modals(order, stack, focus).0,
                id,
            ),
        forall|i: int|
            0 <= i < order.len() ==> FocusState::stack_has(
                m.open_modals(order, stack, focus).0,
                #[trigger] order[i].0,
            ),
    decreases order.len(),
{
    if order.len() > 0 {
        let init = order.drop_last();
        lemma_open_modals_records(m, init, stack, focus);
        let prev = m.open_modals(init, stack, focus);
        let res = m.open_modals(order, stack, focus);
        let id = order.last().0;
        assert forall|i: int| 0 <= i < init.len() implies #[trigger] order[i] == init[i] by {}
        if FocusState::stack_has(prev.0, id) {
            assert(res == prev);
            assert forall|k: int| 0 <= k < res.0.len() implies FocusState::stack_has(
                stack,
                #[trigger] res.0[k].0,
            ) || exists|i: int| 0 <= i < order.len() && #[trigger] order[i].0 == res.0[k].0 by {
                if !FocusState::stack_has(stack, res.0[k].0) {
                    let i = choose|i: int| 0 <= i < init.len() && #[trigger] init[i].0 == prev.0[k].0;
                    assert(order[i].0 == res.0[k].0);
                }
            }
            assert forall|i: int| 0 <= i < order.len() implies FocusState::stack_has(
                res.0,
                #[trigger] order[i].0,
            ) by {
                if i < init.len() {
                    assert(FocusState::stack_has(prev.0, init[i].0));
                }
            }
        } else {
            let rec = (id, prev.1);
            assert(res.0 == prev.0.push(rec));
            assert forall|k: int| 0 <= k < res.0.len() implies FocusState::stack_has(
                stack,
                #[trigger] res.0[k].0,
            ) || exists|i: int| 0 <= i < order.len() && #[trigger] order[i].0 == res.0[k].0 by {
                if k == prev.0.len() {
                    assert(order[order.len() - 1].0 == res.0[k].0);
                } else if !FocusState::stack_has(stack, res.0[k].0) {
                    assert(res.0[k] == prev.0[k]);
                    let i = choose|i: int| 0 <= i < init.len() && #[trigger] init[i].0 == prev.0[k].0;
                    assert(order[i].0 == res.0[k].0);
                }
            }
            assert forall|x: ElementId| FocusState::stack_has(stack, x) implies #[trigger] FocusState::stack_has(res.0, x) by {
                let w = choose|w: int| 0 <= w < prev.0.len() && #[trigger] prev.0[w].0 == x;
                assert(res.0[w] == prev.0[w]);
            }
            assert forall|i: int| 0 <= i < order.len() implies FocusState::stack_has(
                res.0,
                #[trigger] order[i].0,
            ) by {
                if i < init.len() {
                    let w = choose|w: int| 0 <= w < prev.0.len() && #[trigger] prev.0[w].0 == init[i].0;
                    assert(res.0[w] == prev.0[w]);
                } else {
                    assert(res.0[prev.0.len() as int].0 == id);
                }
            }
        }
    }
}

/// Among the cycle entries below `n` that satisfy `p`, if there is one, one
/// precedes all the others.
proof fn lemma_least_exists(m: FocusState, p: spec_fn(int) -> bool, n: int)
    requires
        0 <= n <= m.len(),
        exists|k: int| 0 <= k < n && m.in_cycle(k) && p(k),
    ensures
        exists|j: int|
            0 <= j < n && m.in_cycle(j) && p(j) && forall|k: int|
                0 <= k < n && m.in_cycle(k) && p(k) && k != j ==> m.precedes(j, k),
    decreases n,
{
    let last = n - 1;
    if exists|k: int| 0 <= k < last && m.in_cycle(k) && p(k) {
        lemma_least_exists(m, p, last);
        let j = choose|j: int|
            0 <= j < last && m.in_cycle(j) && p(j) && forall|k: int|
                0 <= k < last && m.in_cycle(k) && p(k) && k != j ==> m.precedes(j, k);
        if m.in_cycle(last) && p(last) && m.precedes(last, j) {
            assert forall|k: int| 0 <= k < n && m.in_cycle(k) && p(k) && k != last implies m.precedes(
                last,
                k,
            ) by {
                if k != j {
                    assert(m.precedes(j, k));
                }
            }
        } else {
            assert forall|k: int| 0 <= k < n && m.in_cycle(k) && p(k) && k != j implies m.precedes(
                j,
                k,
            ) by {
                if k == last {
                    assert(!m.precedes(last, j));
                }
            }
        }
    } else {
        assert(m.in_cycle(last) && p(last));
        assert forall|k: int| 0 <= k < n && m.in_cycle(k) && p(k) && k != last implies m.precedes(
            last,
            k,
        ) by {}
    }
}

/// Among the cycle entries below `n` that satisfy `p`, if there is one, one
/// follows all the others.
proof fn lemma_greatest_exists(m: FocusState, p: spec_fn(int) -> bool, n: int)
    requires
        0 <= n <= m.len(),
        exists|k: int| 0 <= k < n && m.in_cycle(k) && p(k),
    ensures
        exists|j: int|
            0 <= j < n && m.in_cycle(j) && p(j) && forall|k: int|
                0 <= k < n && m.in_cycle(k) && p(k) && k != j ==> m.precedes(k, j),
    decreases n,
{
    let last = n - 1;
    if exists|k: int| 0 <= k < last && m.in_cycle(k) && p(k) {
        lemma_greatest_exists(m, p, last);
        let j = choose|j: int|
            0 <= j < last && m.in_cycle(j) && p(j) && forall|k: int|
                0 <= k < last && m.in_cycle(k) && p(k) && k != j ==> m.precedes(k, j);
        if m.in_cycle(last) && p(last) && m.precedes(j, last) {
            assert forall|k: int| 0 <= k < n && m.in_cycle(k) && p(k) && k != last implies m.precedes(
                k,
                last,
            ) by {
                if k != j {
                    assert(m.precedes(k, j));
                }
            }
        } else {
            assert forall|k: int| 0 <= k < n && m.in_cycle(k) && p(k) && k != j implies m.precedes(
                k,
                j,
            ) by {
                if k == last {
                    assert(!m.precedes(j, last));
                }
            }
        }
    } else {
        assert(m.in_cycle(last) && p(last));
        assert forall|k: int| 0 <= k < n && m.in_cycle(k) && p(k) && k != last implies m.precedes(
            k,
            last,
        ) by {}
    }
}

/// The active trap after entering modal `scope` at `depth` over the trap `t`:
/// the deeper of the two wins, the newly entered one on a tie.
pub open spec fn trap_step(t: Option<(ElementId, i32)>, scope: ElementId, depth: i32) -> Option<(ElementId, i32)> {
    match t {
        Some(t) if depth < t.1 => Some(t),
        _ => Some((scope, depth)),
    }
}

/// The active trap after entering the modal scopes `scopes` in order from a
/// fresh frame.
pub open spec fn trap_of(scopes: Seq<(ElementId, i32)>) -> Option<(ElementId, i32)>
    decreases scopes.len(),
{
    if scopes.len() == 0 {
        None
    } else {
        trap_step(trap_of(scopes.drop_last()), scopes.last().0, scopes.last().1)
    }
}

/// The deepest modal entered this frame holds the trap, the last entered of
/// the deepest on a tie; no modal entered, no trap.
pub proof fn law_deepest_trap_wins(scopes: Seq<(ElementId, i32)>)
    ensures
        scopes.len() == 0 ==> trap_of(scopes) is None,
        scopes.len() > 0 ==> exists|j: int|
            {
                &&& 0 <= j < scopes.len()
                &&& trap_of(scopes) == Some(#[trigger] scopes[j])
                &&& forall|k: int| 0 <= k < scopes.len() ==> scopes[k].1 <= scopes[j].1
                &&& forall|k: int| j < k < scopes.len() ==> scopes[k].1 < scopes[j].1
            },
    decreases scopes.len(),
{
    if scopes.len() > 0 {
        let init = scopes.drop_last();
        let n = scopes.len() - 1;
        law_deepest_trap_wins(init);
        if init.len() == 0 {
            assert(trap_of(scopes) == Some(scopes[0]));
        } else {
            let j = choose|j: int|
                {
                    &&& 0 <= j < init.len()
                    &&& trap_of(init) == Some(#[trigger] init[j])
                    &&& forall|k: int| 0 <= k < init.len() ==> init[k].1 <= init[j].1
                    &&& forall|k: int| j < k < init.len() ==> init[k].1 < init[j].1
                };
            assert(init[j] == scopes[j]);
            if scopes[n].1 < scopes[j].1 {
                assert(trap_of(scopes) == Some(scopes[j]));
                assert forall|k: int| 0 <= k < scopes.len() implies scopes[k].1 <= scopes[j].1 by {
                    if k < n {
                        assert(init[k] == scopes[k]);
                    }
                }
                assert forall|k: int| j < k < scopes.len() implies scopes[k].1 < scopes[j].1 by {
                    if k < n {
                        assert(init[k] == scopes[k]);
                    }
                }
            } else {
                assert(trap_of(scopes) == Some(scopes[n]));
                assert forall|k: int| 0 <= k < scopes.len() implies scopes[k].1 <= scopes[n].1 by {
                    if k < n {
                        assert(init[k] == scopes[k]);
                    }
                }
            }
        }
    }
}

/// The active trap of a registry is the one its entered scopes give: so the
/// deepest modal entered this frame holds it ([`law_deepest_trap_wins`]).
pub proof fn law_active_trap_is_deepest(r: &FocusRegistry)
    requires
        r.wf(),
    ensures
        r@.active_trap == trap_of(r@.modal_scopes),
{
}

/// The records of `r` from index `from` on name modals in the order in which
/// they stand in `order`.
pub open spec fn opened_in_order(r: Seq<(ElementId, Option<ElementId>)>, from: int, order: Seq<(ElementId, i32)>) -> bool {
    forall|a: int, b: int|
        from <= a < b < r.len() ==> exists|i: int, j: int|
            0 <= i < j < order.len() && order[i].0 == #[trigger] r[a].0 && order[j].0 == #[trigger] r[b].0
}

/// Opening the modals of `order` over `stack` keeps `stack` as it is and
/// appends one record per newly opened modal: each a modal of `order`, none
/// already on `stack`, none twice, in the order of `order`.
pub proof fn law_open_modals_appends(
    s: FocusState,
    order: Seq<(ElementId, i32)>,
    stack: Seq<(ElementId, Option<ElementId>)>,
    focus: Option<ElementId>,
)
    ensures
        ({
            let r = s.open_modals(order, stack, focus).0;
            &&& stack.len() <= r.len()
            &&& r.take(stack.len() as int) == stack
            &&& forall|k: int|
                stack.len() <= k < r.len() ==> !FocusState::stack_has(stack, #[trigger] r[k].0) && exists|i: int|
                    0 <= i < order.len() && order[i].0 == r[k].0
            &&& forall|a: int, b: int| stack.len() <= a < b < r.len() ==> #[trigger] r[a].0 != #[trigger] r[b].0
            &&& opened_in_order(r, stack.len() as int, order)
        }),
    decreases order.len(),
{
    if order.len() > 0 {
        let init = order.drop_last();
        law_open_modals_appends(s, init, stack, focus);
        let prev = s.open_modals(init, stack, focus);
        let id = order.last().0;
        let r = s.open_modals(order, stack, focus).0;
        let p0 = prev.0;
        assert forall|k: int| stack.len() <= k < p0.len() implies exists|i: int|
            0 <= i < order.len() && order[i].0 == (#[trigger] p0[k]).0 by {
            let i = choose|i: int| 0 <= i < init.len() && init[i].0 == p0[k].0;
            assert(order[i] == init[i]);
        }
        if !FocusState::stack_has(prev.0, id) {
            assert(r == prev.0.push((id, prev.1)));
            assert(r.take(stack.len() as int) =~= prev.0.take(stack.len() as int));
            let n = prev.0.len() as int;
            assert(r[n].0 == id);
            assert(!FocusState::stack_has(stack, id)) by {
                if FocusState::stack_has(stack, id) {
                    let k = choose|k: int| 0 <= k < stack.len() && #[trigger] stack[k].0 == id;
                    assert(prev.0.take(stack.len() as int)[k] == prev.0[k]);
                }
            }
            assert(order[order.len() - 1].0 == id);
            assert forall|a: int, b: int| stack.len() <= a < b < r.len() implies #[trigger] r[a].0 != #[trigger] r[b].0 by {
                if b == n {
                    assert(r[a] == prev.0[a]);
                }
            }
            assert forall|a: int, b: int| stack.len() <= a < b < r.len() implies exists|i: int, j: int|
                0 <= i < j < order.len() && order[i].0 == #[trigger] r[a].0 && order[j].0 == #[trigger] r[b].0 by {
                assert(r[a] == p0[a]);
                if b == n {
                    let i = choose|i: int| 0 <= i < init.len() && init[i].0 == p0[a].0;
                    assert(order[i] == init[i]);
                    assert(order[order.len() - 1].0 == r[b].0);
                } else {
                    assert(r[b] == p0[b]);
                    let (i, j) = choose|i: int, j: int|
                        0 <= i < j < init.len() && init[i].0 == p0[a].0 && init[j].0 == p0[b].0;
                    assert(order[i] == init[i]);
                    assert(order[j] == init[j]);
                }
            }
        } else {
            assert forall|a: int, b: int| stack.len() <= a < b < r.len() implies exists|i: int, j: int|
                0 <= i < j < order.len() && order[i].0 == #[trigger] r[a].0 && order[j].0 == #[trigger] r[b].0 by {
                let (i, j) = choose|i: int, j: int|
                    0 <= i < j < init.len() && init[i].0 == p0[a].0 && init[j].0 == p0[b].0;
                assert(order[i] == init[i]);
                assert(order[j] == init[j]);
            }
        }
    }
}

/// Each record that opening appends saved the focus of its moment, and the
/// focus that opening leaves is the one the last appended record led to.
proof fn lemma_open_modals_saves(
    s: FocusState,
    order: Seq<(ElementId, i32)>,
    stack: Seq<(ElementId, Option<ElementId>)>,
    focus: Option<ElementId>,
)
    ensures
        ({
            let p = s.open_modals(order, stack, focus);
            &&& stack.len() <= p.0.len()
            &&& p.0.take(stack.len() as int) == stack
            &&& s.saves_in_turn(p.0, stack.len() as int, focus)
            &&& p.1 == (if p.0.len() == stack.len() {
                focus
            } else {
                s.focus_on_open(p.0[p.0.len() - 1])
            })
        }),
    decreases order.len(),
{
    if order.len() > 0 {
        let init = order.drop_last();
        lemma_open_modals_saves(s, init, stack, focus);
        let prev = s.open_modals(init, stack, focus);
        let id = order.last().0;
        let p = s.open_modals(order, stack, focus);
        if !FocusState::stack_has(prev.0, id) {
            let rec = (id, prev.1);
            assert(p.0 == prev.0.push(rec));
            assert(p.0.take(stack.len() as int) =~= prev.0.take(stack.len() as int));
            assert forall|k: int| stack.len() <= k < p.0.len() implies (#[trigger] p.0[k]).1 == (if k
                == stack.len() {
                focus
            } else {
                s.focus_on_open(p.0[k - 1])
            }) by {
                if k < prev.0.len() {
                    assert(p.0[k] == prev.0[k]);
                    assert(prev.0[k].1 == (if k == stack.len() {
                        focus
                    } else {
                        s.focus_on_open(prev.0[k - 1])
                    }));
                    if k > stack.len() {
                        assert(p.0[k - 1] == prev.0[k - 1]);
                    }
                } else {
                    assert(p.0[k] == rec);
                    if k > stack.len() {
                        assert(p.0[k - 1] == prev.0[k - 1]);
                    }
                }
            }
        }
    }
}

/// What reconciling modal focus leaves (see
/// [`FocusRegistry::reconcile_modal_focus`], whose stack and focus are the two
/// halves of `open_modals` below): the old stack's records whose modal is still
/// present, in their order, followed by one record for each modal of the
/// frame's open order (shallowest first) not yet recorded, in that order and
/// none twice, so that every present modal ends up recorded. Each appended
/// record saves the focus of the moment it opens: the focus after closing for
/// the first, then the focus that opening the one before it left (its first
/// Tab-reachable entry, if it has one); the focus at the end is the one the
/// last appended record led to. Focus is restored on close only when no
/// record is kept, to the focus the earliest closed record saved, and only
/// when that element is still registered.
pub proof fn law_reconcile_modal_focus(s: FocusState, stack: Seq<(ElementId, Option<ElementId>)>)
    ensures
        ({
            let kept = s.kept_modals(stack);
            let closed = s.focus_after_close(stack);
            let p = s.open_modals(s.open_order(), kept, closed);
            let r = p.0;
            &&& kept == stack.filter(|e: (ElementId, Option<ElementId>)| s.modal_present(e.0))
            &&& kept.len() <= r.len()
            &&& r.take(kept.len() as int) == kept
            &&& forall|k: int|
                kept.len() <= k < r.len() ==> !FocusState::stack_has(kept, #[trigger] r[k].0) && exists|i: int|
                    0 <= i < s.open_order().len() && s.open_order()[i].0 == r[k].0
            &&& forall|a: int, b: int| kept.len() <= a < b < r.len() ==> #[trigger] r[a].0 != #[trigger] r[b].0
            &&& opened_in_order(r, kept.len() as int, s.open_order())
            &&& forall|i: int|
                0 <= i < s.open_order().len() ==> FocusState::stack_has(r, #[trigger] s.open_order()[i].0)
            &&& s.saves_in_turn(r, kept.len() as int, closed)
            &&& p.1 == (if r.len() == kept.len() {
                closed
            } else {
                s.focus_on_open(r[r.len() - 1])
            })
            &&& closed != s.focused ==> (s.first_closed(stack) matches Some((_, Some(x))) && kept.len() == 0
                && s.is_registered(x) && closed == Some(x))
        }),
{
    law_open_modals_appends(s, s.open_order(), s.kept_modals(stack), s.focus_after_close(stack));
    lemma_open_modals_saves(s, s.open_order(), s.kept_modals(stack), s.focus_after_close(stack));
    lemma_open_modals_records(s, s.open_order(), s.kept_modals(stack), s.focus_after_close(stack));
    assert(s.focus_after_close(stack) != s.focused ==> (s.first_closed(stack) matches Some((_, Some(x)))
        && s.kept_modals(stack).len() == 0 && s.is_registered(x) && s.focus_after_close(stack) == Some(x)));
}

/// Tab and Shift+Tab stay in the Tab cycle: the entry they move to takes part
/// in Tab order and, while a modal is open, is registered inside that modal.
pub proof fn law_tab_stays_in_cycle(s: FocusState)
    ensures
        s.forward_index() matches Some(j) ==> s.in_cycle(j),
        s.backward_index() matches Some(j) ==> s.in_cycle(j),
        s.trap() is Some ==> (s.forward_index() matches Some(j) ==> s.scopes[j] == s.trap()),
        s.trap() is Some ==> (s.backward_index() matches Some(j) ==> s.scopes[j] == s.trap()),
{
}

/// With something in the Tab cycle, Tab and Shift+Tab always move somewhere.
pub proof fn law_tab_moves_when_cycle_nonempty(s: FocusState, k: int)
    requires
        s.in_cycle(k),
    ensures
        s.forward_index() is Some,
        s.backward_index() is Some,
{
    lemma_least_exists(s, |i: int| true, s.len());
    lemma_greatest_exists(s, |i: int| true, s.len());
    let f = choose|j: int|
        0 <= j < s.len() && s.in_cycle(j) && (|i: int| true)(j) && forall|k: int|
            0 <= k < s.len() && s.in_cycle(k) && (|i: int| true)(k) && k != j ==> s.precedes(j, k);
    assert(s.cycle_first(f));
    let l = choose|j: int|
        0 <= j < s.len() && s.in_cycle(j) && (|i: int| true)(j) && forall|k: int|
            0 <= k < s.len() && s.in_cycle(k) && (|i: int| true)(k) && k != j ==> s.precedes(k, j);
    assert(s.cycle_last(l));
}

/// Tab wraps around: from the last entry of the cycle it moves to the first,
/// and Shift+Tab from the first entry moves to the last.
pub proof fn law_tab_wraps(s: FocusState, c: int)
    requires
        s.focus_position(c),
    ensures
        s.cycle_last(c) ==> (s.forward_index() matches Some(j) && s.cycle_first(j)),
        s.cycle_first(c) ==> (s.backward_index() matches Some(j) && s.cycle_last(j)),
{
    lemma_unique(s);
    law_tab_moves_when_cycle_nonempty(s, c);
    if s.cycle_last(c) {
        assert forall|j: int| !s.cycle_after(c, j) by {
            if s.cycle_after(c, j) {
                assert(s.precedes(j, c));
            }
        }
    }
    if s.cycle_first(c) {
        assert forall|j: int| !s.cycle_before(c, j) by {
            if s.cycle_before(c, j) {
                assert(s.precedes(c, j));
            }
        }
    }
}

/// Shift+Tab undoes Tab: when every entry of the cycle has its own id, moving
/// focus to where Tab leads and then asking Shift+Tab leads back to the entry
/// that was focused.
pub proof fn law_shift_tab_undoes_tab(s: FocusState, c: int)
    requires
        s.focus_position(c),
        forall|a: int, b: int|
            s.in_cycle(a) && s.in_cycle(b) && #[trigger] s.entries[a].id == #[trigger] s.entries[b].id
                ==> a == b,
    ensures
        s.forward_index() matches Some(j) && (FocusState {
            focused: Some(s.entries[j].id),
            ..s
        }).backward_index() == Some(c),
{
    lemma_unique(s);
    law_tab_moves_when_cycle_nonempty(s, c);
    let j = s.forward_index()->0;
    assert(s.in_cycle(j));
    let t = FocusState { focused: Some(s.entries[j].id), ..s };
    lemma_unique(t);
    assert(t.focus_position(j));
    assert forall|x: int| t.in_cycle(x) == s.in_cycle(x) by {}
    assert forall|a: int, b: int| t.precedes(a, b) == s.precedes(a, b) by {}
    if exists|k: int| s.cycle_after(c, k) {
        // j directly follows c, so c directly precedes j.
        assert(s.cycle_after(c, j));
        assert forall|k: int| #[trigger] t.in_cycle(k) && t.precedes(k, j) && k != c implies t.precedes(
            k,
            c,
        ) by {
            if s.precedes(c, k) {
                assert(s.precedes(j, k));
            }
        }
        assert(t.cycle_before(j, c));
        let cp = choose|c2: int| t.focus_position(c2);
        assert(t.focus_position(cp));
        assert(cp == j);
        let b = choose|k: int| t.cycle_before(cp, k);
        assert(t.cycle_before(cp, b));
        assert(b == c);
        assert(t.backward_index() == Some(c));
    } else {
        // No successor: c is the last entry, and Tab wrapped to the first.
        assert forall|k: int| #[trigger] s.in_cycle(k) && k != c implies s.precedes(k, c) by {
            if s.precedes(c, k) {
                lemma_least_exists(s, |i: int| s.precedes(c, i), s.len());
                let w = choose|w: int|
                    0 <= w < s.len() && s.in_cycle(w) && (|i: int| s.precedes(c, i))(w) && forall|
                        k2: int,
                    |
                        0 <= k2 < s.len() && s.in_cycle(k2) && (|i: int| s.precedes(c, i))(k2) && k2
                            != w ==> s.precedes(w, k2);
                assert(s.cycle_after(c, w));
            }
        }
        assert(s.cycle_last(c));
        assert(s.cycle_first(j));
        assert forall|k: int| !t.cycle_before(j, k) by {
            if t.cycle_before(j, k) {
                assert(s.precedes(j, k));
            }
        }
        assert(t.cycle_last(c));
        let cp = choose|c2: int| t.focus_position(c2);
        assert(t.focus_position(cp));
        assert(cp == j);
        assert(!exists|k: int| t.cycle_before(cp, k));
        let l = choose|k: int| t.cycle_last(k);
        assert(t.cycle_last(l));
        assert(l == c);
        assert(t.backward_index() == Some(c));
    }
}

/// Direction of a Tab shift.
#[derive(Copy, Clone, Debug)]
enum ShiftDir {
    Forward,
    Backward,
}

impl FocusRegistry {
    /// Internal consistency: the cached Tab order is valid whenever it is not dirty.
    pub closed spec fn wf(&self) -> bool {
        &&& !self.dirty ==> is_stable_order(tab_keys(self.entries@), self.sorted_indices@)
        &&& self.active_trap == trap_of(self.modal_scopes@)
    }

    /// Create an empty registry with no focused element.
    pub fn new() -> (r: Self)
        ensures
            r.wf(),
            r@.entries.len() == 0,
            r@.scopes.len() == 0,
            r@.focused is None,
            r@.scope_stack.len() == 0,
            r@.modal_scopes.len() == 0,
            r@.active_trap is None,
    {
        let r = FocusRegistry {
            entries: Vec::new(),
            focused: None,
            dirty: false,
            sorted_indices: Vec::new(),
            scope_stack: Vec::new(),
            modal_scopes: Vec::new(),
            active_trap: None,
        };
        proof {
            assert(r@.entries =~= Seq::<FocusableEntry>::empty());
            assert(r@.scopes =~= Seq::<Option<ElementId>>::empty());
        }
        r
    }

    /// Clear all entries and per-frame trap state (start of every prepaint).
    /// The focused element is kept.
    pub fn clear(&mut self)
        requires
            old(self).wf(),
        ensures
            final(self).wf(),
            final(self)@.entries.len() == 0,
            final(self)@.scopes.len() == 0,
            final(self)@.focused == old(self)@.focused,
            final(self)@.scope_stack.len() == 0,
            final(self)@.modal_scopes.len() == 0,
            final(self)@.active_trap is None,
    {
        self.entries.clear();
        self.sorted_indices.clear();
        self.dirty = false;
        self.scope_stack.clear();
        self.modal_scopes.clear();
        self.active_trap = None;
        proof {
            assert(self@.entries =~= Seq::<FocusableEntry>::empty());
            assert(self@.scopes =~= Seq::<Option<ElementId>>::empty());
            assert(tab_keys(self.entries@) =~= Seq::<i32>::empty());
        }
    }

    /// Register a focusable element, tagged with the current modal trap scope
    /// (top of the scope stack, if any).
    pub fn register(&mut self, entry: FocusableEntry)
        requires
            old(self).wf(),
        ensures
            final(self).wf(),
            final(self)@.entries == old(self)@.entries.push(entry),
            final(self)@.scopes == old(self)@.scopes.push(
                if old(self)@.scope_stack.len() == 0 {
                    None
                } else {
                    Some(old(self)@.scope_stack.last())
                },
            ),
            final(self)@.focused == old(self)@.focused,
            final(self)@.scope_stack == old(self)@.scope_stack,
            final(self)@.modal_scopes == old(self)@.modal_scopes,
            final(self)@.active_trap == old(self)@.active_trap,
    {
        let n = self.scope_stack.len();
        let trap_scope = if n == 0 {
            None
        } else {
            Some(self.scope_stack[n - 1])
        };
        self.dirty = true;
        self.entries.push(Focusable { entry, trap_scope });
        proof {
            assert(self@.entries =~= old(self)@.entries.push(entry));
            assert(self@.scopes =~= old(self)@.scopes.push(trap_scope));
        }
    }

    /// Begin a modal trap scope at z-depth `depth`. The deepest modal entered
    /// this frame wins the trap (ties: last entered wins).
    pub fn enter_trap_scope(&mut self, scope: ElementId, depth: i32)
        requires
            old(self).wf(),
        ensures
            final(self).wf(),
            final(self)@.entries == old(self)@.entries,
            final(self)@.scopes == old(self)@.scopes,
            final(self)@.focused == old(self)@.focused,
            final(self)@.scope_stack == old(self)@.scope_stack.push(scope),
            final(self)@.modal_scopes == old(self)@.modal_scopes.push((scope, depth)),
            final(self)@.active_trap == trap_step(old(self)@.active_trap, scope, depth),
    {
        self.scope_stack.push(scope);
        self.modal_scopes.push((scope, depth));
        proof {
            assert(self.modal_scopes@.drop_last() =~= old(self).modal_scopes@);
        }
        match self.active_trap {
            Some((_, d)) if depth < d => {},
            _ => self.active_trap = Some((scope, depth)),
        }
    }

    /// End the current modal trap scope. The active trap persists for the frame.
    pub fn exit_trap_scope(&mut self)
        requires
            old(self).wf(),
        ensures
            final(self).wf(),
            final(self)@.entries == old(self)@.entries,
            final(self)@.scopes == old(self)@.scopes,
            final(self)@.focused == old(self)@.focused,
            final(self)@.scope_stack == (if old(self)@.scope_stack.len() == 0 {
                old(self)@.scope_stack
            } else {
                old(self)@.scope_stack.drop_last()
            }),
            final(self)@.modal_scopes == old(self)@.modal_scopes,
            final(self)@.active_trap == old(self)@.active_trap,
    {
        self.scope_stack.pop();
    }

    /// The modal scope Tab is currently trapped within, if any.
    pub fn active_trap_scope(&self) -> (r: Option<ElementId>)
        ensures
            r == self@.trap(),
    {
        match self.active_trap {
            Some((id, _)) => Some(id),
            None => None,
        }
    }

    /// True if `id` is currently registered (any tab_index).
    pub fn is_focusable(&self, id: ElementId) -> (r: bool)
        ensures
            r == self@.is_registered(id),
    {
        let mut i: usize = 0;
        while i < self.entries.len()
            invariant
                i <= self.entries.len(),
                forall|k: int| 0 <= k < i ==> #[trigger] self@.entries[k].id != id,
            decreases self.entries.len() - i,
        {
            if self.entries[i].entry.id == id {
                assert(self@.entries[i as int] == self.entries@[i as int].entry);
                return true;
            }
            i = i + 1;
        }
        false
    }

    /// Set `focused` to `id` if `id` is registered. Returns whether focus was applied.
    pub fn set_focus(&mut self, id: ElementId) -> (r: bool)
        requires
            old(self).wf(),
        ensures
            final(self).wf(),
            r == old(self)@.is_registered(id),
            final(self)@.focused == (if r {
                Some(id)
            } else {
                old(self)@.focused
            }),
            final(self)@.same_registrations(old(self)@),
    {
        if self.is_focusable(id) {
            self.focused = Some(id);
            true
        } else {
            false
        }
    }

    /// Clear `focused` to `None`.
    pub fn clear_focus(&mut self)
        requires
            old(self).wf(),
        ensures
            final(self).wf(),
            final(self)@.focused is None,
            final(self)@.same_registrations(old(self)@),
    {
        self.focused = None;
    }

    /// Current focused element id, if any.
    pub fn focused(&self) -> (r: Option<ElementId>)
        ensures
            r == self@.focused,
    {
        self.focused
    }

    /// True if `id` is registered and part of the Tab cycle (tab_index >= 0).
    pub fn is_tab_reachable(&self, id: ElementId) -> (r: bool)
        ensures
            r == self@.is_tab_registered(id),
    {
        let mut i: usize = 0;
        while i < self.entries.len()
            invariant
                i <= self.entries.len(),
                forall|k: int|
                    0 <= k < i ==> !(#[trigger] self@.entries[k].id == id && self@.entries[k].tab_index
                        >= 0),
            decreases self.entries.len() - i,
        {
            if self.entries[i].entry.id == id && self.entries[i].entry.tab_index >= 0 {
                assert(self@.entries[i as int] == self.entries@[i as int].entry);
                return true;
            }
            i = i + 1;
        }
        false
    }

    /// Look up the first registered entry carrying `id`.
    pub fn entry(&self, id: ElementId) -> (r: Option<&FocusableEntry>)
        ensures
            r matches Some(e) ==> self@.is_registered(id) && *e == self@.entries[self@.first_with_id(id)],
            r is None <==> !self@.is_registered(id),
    {
        let mut i: usize = 0;
        while i < self.entries.len()
            invariant
                i <= self.entries.len(),
                forall|k: int| 0 <= k < i ==> #[trigger] self@.entries[k].id != id,
            decreases self.entries.len() - i,
        {
            if self.entries[i].entry.id == id {
                proof {
                    let w = self@.first_with_id(id);
                    assert(self@.entries[i as int].id == id);
                    if w != i {
                        if w < i {
                            assert(self@.entries[w].id != id);
                        } else {
                            assert(self@.entries[i as int].id != id);
                        }
                    }
                }
                return Some(&self.entries[i].entry);
            }
            i = i + 1;
        }
        None
    }

    /// The Tab-order keys seen through the abstract view.
    proof fn lemma_keys(&self)
        ensures
            forall|x: int, y: int|
                0 <= x < self.entries.len() && 0 <= y < self.entries.len() ==> (key_precedes(
                    tab_keys(self.entries@),
                    x,
                    y,
                ) <==> self@.precedes(x, y)),
            forall|x: int|
                0 <= x < self.entries.len() ==> #[trigger] self@.entries[x] == self.entries@[x].entry
                    && self@.scopes[x] == self.entries@[x].trap_scope,
            self@.len() == self.entries.len(),
    {
    }

    /// Rebuild the cached Tab order if registrations changed.
    fn ensure_sorted(&mut self)
        requires
            old(self).wf(),
        ensures
            final(self).wf(),
            !final(self).dirty,
            final(self).entries == old(self).entries,
            final(self).focused == old(self).focused,
            final(self).scope_stack == old(self).scope_stack,
            final(self).modal_scopes == old(self).modal_scopes,
            final(self).active_trap == old(self).active_trap,
    {
        if !self.dirty {
            return ;
        }
        let mut keys: Vec<i32> = Vec::new();
        let mut i: usize = 0;
        while i < self.entries.len()
            invariant
                i <= self.entries.len(),
                keys@ =~= tab_keys(self.entries@).take(i as int),
            decreases self.entries.len() - i,
        {
            keys.push(self.entries[i].entry.tab_index);
            i = i + 1;
        }
        assert(keys@ =~= tab_keys(self.entries@));
        self.sorted_indices = stable_order(&keys);
        self.dirty = false;
    }

    /// Entry positions of the Tab cycle, in Tab order.
    fn tab_cycle(&mut self) -> (ring: Vec<usize>)
        requires
            old(self).wf(),
        ensures
            final(self).wf(),
            final(self)@ == old(self)@,
            forall|a: int| 0 <= a < ring.len() ==> final(self)@.in_cycle(#[trigger] ring@[a] as int),
            forall|a: int, b: int|
                0 <= a < b < ring.len() ==> final(self)@.precedes(
                    #[trigger] ring@[a] as int,
                    #[trigger] ring@[b] as int,
                ),
            forall|k: int|
                #[trigger] final(self)@.in_cycle(k) ==> exists|w: int|
                    0 <= w < ring.len() && ring@[w] as int == k,
            ring.len() <= final(self).entries.len(),
    {
        self.ensure_sorted();
        proof {
            self.lemma_keys();
        }
        let trap: Option<ElementId> = match self.active_trap {
            Some((id, _)) => Some(id),
            None => None,
        };
        let ghost m = self@;
        let n = self.sorted_indices.len();
        let mut ring: Vec<usize> = Vec::new();
        let ghost mut pos: Seq<int> = Seq::empty();
        let mut s: usize = 0;
        while s < n
            invariant
                n == self.sorted_indices.len(),
                s <= n,
                self.wf(),
                !self.dirty,
                m == self@,
                trap == m.trap(),
                m.len() == self.entries.len(),
                forall|x: int, y: int|
                    0 <= x < self.entries.len() && 0 <= y < self.entries.len() ==> (key_precedes(
                        tab_keys(self.entries@),
                        x,
                        y,
                    ) <==> m.precedes(x, y)),
                forall|x: int|
                    0 <= x < self.entries.len() ==> #[trigger] m.entries[x] == self.entries@[x].entry
                        && m.scopes[x] == self.entries@[x].trap_scope,
                ring.len() == pos.len(),
                ring.len() <= s,
                forall|a: int|
                    0 <= a < pos.len() ==> 0 <= #[trigger] pos[a] < s && ring@[a]
                        == self.sorted_indices@[pos[a]],
                forall|a: int, b: int| 0 <= a < b < pos.len() ==> #[trigger] pos[a] < #[trigger] pos[b],
                forall|a: int| 0 <= a < ring.len() ==> m.in_cycle(#[trigger] ring@[a] as int),
                forall|t: int|
                    0 <= t < s && m.in_cycle(#[trigger] self.sorted_indices@[t] as int)
                        ==> ring@.contains(self.sorted_indices@[t]),
            decreases n - s,
        {
            let i = self.sorted_indices[s];
            assert(i < self.entries.len());
            let in_scope = match trap {
                Some(t) => match self.entries[i].trap_scope {
                    Some(sc) => sc == t,
                    None => false,
                },
                None => true,
            };
            if self.entries[i].entry.tab_index >= 0 && in_scope {
                proof {
                    assert(m.in_cycle(i as int));
                }
                let ghost old_ring = ring@;
                ring.push(i);
                proof {
                    pos = pos.push(s as int);
                    assert forall|t: int|
                        0 <= t < s + 1 && m.in_cycle(#[trigger] self.sorted_indices@[t] as int)
                            implies ring@.contains(self.sorted_indices@[t]) by {
                        if t < s {
                            assert(old_ring.contains(self.sorted_indices@[t]));
                            let w = choose|w: int|
                                0 <= w < old_ring.len() && old_ring[w] == self.sorted_indices@[t];
                            assert(ring@[w] == self.sorted_indices@[t]);
                        } else {
                            assert(ring@[ring.len() - 1] == self.sorted_indices@[t]);
                        }
                    }
                }
            } else {
                proof {
                    assert(!m.in_cycle(i as int));
                }
            }
            s = s + 1;
        }
        proof {
            assert forall|a: int, b: int| 0 <= a < b < ring.len() implies m.precedes(
                #[trigger] ring@[a] as int,
                #[trigger] ring@[b] as int,
            ) by {
                assert(pos[a] < pos[b]);
                assert(key_precedes(
                    tab_keys(self.entries@),
                    self.sorted_indices@[pos[a]] as int,
                    self.sorted_indices@[pos[b]] as int,
                ));
            }
            assert forall|k: int| #[trigger] m.in_cycle(k) implies exists|w: int|
                0 <= w < ring.len() && ring@[w] as int == k by {
                assert(self.sorted_indices@.contains(k as usize));
                let t = choose|t: int|
                    0 <= t < self.sorted_indices@.len() && self.sorted_indices@[t] == k as usize;
                assert(m.in_cycle(self.sorted_indices@[t] as int));
                assert(ring@.contains(self.sorted_indices@[t]));
            }
        }
        ring
    }

    /// Where the focused element sits in `ring` (first occurrence), if anywhere.
    fn find_focus_slot(&self, ring: &Vec<usize>) -> (r: Option<usize>)
        requires
            forall|a: int| 0 <= a < ring.len() ==> self@.in_cycle(#[trigger] ring@[a] as int),
            forall|a: int, b: int|
                0 <= a < b < ring.len() ==> self@.precedes(
                    #[trigger] ring@[a] as int,
                    #[trigger] ring@[b] as int,
                ),
            forall|k: int|
                #[trigger] self@.in_cycle(k) ==> exists|w: int|
                    0 <= w < ring.len() && ring@[w] as int == k,
        ensures
            r matches Some(p) ==> p < ring.len() && self@.focus_position(ring@[p as int] as int),
            r is None ==> forall|c: int| !#[trigger] self@.focus_position(c),
    {
        proof {
            self.lemma_keys();
        }
        let ghost m = self@;
        let len = ring.len();
        match self.focused {
            None => {
                proof {
                    assert forall|c: int| !#[trigger] m.focus_position(c) by {}
                }
                None
            },
            Some(id) => {
                let mut cur_pos: Option<usize> = None;
                let mut q: usize = 0;
                while q < len && cur_pos.is_none()
                    invariant
                        len == ring.len(),
                        q <= len,
                        m == self@,
                        self.focused == Some(id),
                        forall|a: int| 0 <= a < ring.len() ==> m.in_cycle(#[trigger] ring@[a] as int),
                        m.len() == self.entries.len(),
                        forall|x: int|
                            0 <= x < self.entries.len() ==> #[trigger] m.entries[x]
                                == self.entries@[x].entry,
                        cur_pos matches Some(p) ==> p < len && m.entries[ring@[p as int] as int].id
                            == id && forall|a: int|
                            0 <= a < p ==> m.entries[#[trigger] ring@[a] as int].id != id,
                        cur_pos is None ==> forall|a: int|
                            0 <= a < q ==> m.entries[#[trigger] ring@[a] as int].id != id,
                    decreases len - q,
                {
                    if self.entries[ring[q]].entry.id == id {
                        cur_pos = Some(q);
                    }
                    q = q + 1;
                }
                proof {
                    match cur_pos {
                        Some(p) => {
                            let c = ring@[p as int] as int;
                            assert forall|k: int|
                                #[trigger] m.in_cycle(k) && m.focused == Some(m.entries[k].id) && k
                                    != c implies m.precedes(c, k) by {
                                let w = choose|w: int| 0 <= w < ring@.len() && ring@[w] as int == k;
                                if w < p {
                                    assert(m.entries[ring@[w] as int].id != id);
                                } else {
                                    assert(w != p);
                                }
                            }
                            assert(m.focus_position(c));
                        },
                        None => {
                            assert forall|c: int| !#[trigger] m.focus_position(c) by {
                                if m.focus_position(c) {
                                    let w = choose|w: int| 0 <= w < ring@.len() && ring@[w] as int == c;
                                    assert(m.entries[ring@[w] as int].id != id);
                                }
                            }
                        },
                    }
                }
                cur_pos
            },
        }
    }

    #[verifier::spinoff_prover]
    #[verifier::rlimit(40)]
    fn shift(&mut self, dir: ShiftDir) -> (r: Option<ElementId>)
        requires
            old(self).wf(),
        ensures
            final(self).wf(),
            final(self)@ == old(self)@,
            r == (match dir {
                ShiftDir::Forward => old(self)@.id_at(old(self)@.forward_index()),
                ShiftDir::Backward => old(self)@.id_at(old(self)@.backward_index()),
            }),
    {
        let ring = self.tab_cycle();
        let ghost m = self@;
        proof {
            self.lemma_keys();
            lemma_cycle_order(m, ring@);
            lemma_unique(m);
        }
        if ring.len() == 0 {
            return None;
        }
        let len = ring.len();
        let cur_pos = self.find_focus_slot(&ring);
        // Successor / predecessor in the cycle, wrapping at the ends.
        let next_idx = match (cur_pos, dir) {
            (None, ShiftDir::Forward) => ring[0],
            (None, ShiftDir::Backward) => ring[len - 1],
            (Some(p), ShiftDir::Forward) => if p + 1 < len {
                ring[p + 1]
            } else {
                ring[0]
            },
            (Some(p), ShiftDir::Backward) => if p > 0 {
                ring[p - 1]
            } else {
                ring[len - 1]
            },
        };
        proof {
            match cur_pos {
                Some(p) => {
                    let c = ring@[p as int] as int;
                    if p + 1 < len {
                        assert(m.cycle_after(c, ring@[p + 1] as int));
                    } else {
                        assert(forall|j: int| !m.cycle_after(c, j));
                        assert(m.cycle_first(ring@[0] as int));
                    }
                    if p > 0 {
                        assert(m.cycle_before(c, ring@[p - 1] as int));
                    } else {
                        assert(forall|j: int| !m.cycle_before(c, j));
                        assert(m.cycle_last(ring@[len - 1] as int));
                    }
                },
                None => {
                    assert(m.cycle_first(ring@[0] as int));
                    assert(m.cycle_last(ring@[len - 1] as int));
                },
            }
        }
        Some(self.entries[next_idx].entry.id)
    }

    /// The next tab-reachable element (wrapping), or the first one when nothing
    /// in the cycle is focused. Does not change focus.
    pub fn shift_forward(&mut self) -> (r: Option<ElementId>)
        requires
            old(self).wf(),
        ensures
            final(self).wf(),
            final(self)@ == old(self)@,
            r == old(self)@.id_at(old(self)@.forward_index()),
    {
        self.shift(ShiftDir::Forward)
    }

    /// The previous tab-reachable element (wrapping), or the last one when
    /// nothing in the cycle is focused. Does not change focus.
    pub fn shift_backward(&mut self) -> (r: Option<ElementId>)
        requires
            old(self).wf(),
        ensures
            final(self).wf(),
            final(self)@ == old(self)@,
            r == old(self)@.id_at(old(self)@.backward_index()),
    {
        self.shift(ShiftDir::Backward)
    }

    /// First Tab-reachable focusable tagged with modal scope `scope`, in Tab
    /// order. Used to auto-focus into a modal when it opens.
    pub fn first_in_scope(&mut self, scope: ElementId) -> (r: Option<ElementId>)
        requires
            old(self).wf(),
        ensures
            final(self).wf(),
            final(self)@ == old(self)@,
            r == old(self)@.id_at(old(self)@.first_in_scope_index(scope)),
    {
        self.ensure_sorted();
        proof {
            self.lemma_keys();
        }
        let ghost m = self@;
        let n = self.sorted_indices.len();
        let mut s: usize = 0;
        while s < n
            invariant
                n == self.sorted_indices.len(),
                s <= n,
                self.wf(),
                !self.dirty,
                m == self@,
                m == old(self)@,
                m.len() == self.entries.len(),
                forall|x: int|
                    0 <= x < self.entries.len() ==> #[trigger] m.entries[x] == self.entries@[x].entry
                        && m.scopes[x] == self.entries@[x].trap_scope,
                forall|t: int| 0 <= t < s ==> !m.in_scope(scope, #[trigger] self.sorted_indices@[t] as int),
            decreases n - s,
        {
            let i = self.sorted_indices[s];
            let member = self.entries[i].entry.tab_index >= 0 && match self.entries[i].trap_scope {
                Some(sc) => sc == scope,
                None => false,
            };
            if member {
                proof {
                    assert(m.in_scope(scope, i as int));
                    assert forall|k: int| #[trigger] m.in_scope(scope, k) && k != i as int implies m.precedes(
                        i as int,
                        k,
                    ) by {
                        assert(self.sorted_indices@.contains(k as usize));
                        let t = choose|t: int|
                            0 <= t < self.sorted_indices@.len() && self.sorted_indices@[t] == k as usize;
                        if t < s {
                            assert(!m.in_scope(scope, self.sorted_indices@[t] as int));
                        } else {
                            assert(t != s);
                            assert(key_precedes(
                                tab_keys(self.entries@),
                                self.sorted_indices@[s as int] as int,
                                self.sorted_indices@[t] as int,
                            ));
                        }
                    }
                    assert(m.scope_first(scope, i as int));
                    assert forall|a: int, b: int|
                        m.scope_first(scope, a) && m.scope_first(scope, b) implies a == b by {
                        if a != b {
                            assert(m.in_scope(scope, a));
                            assert(m.in_scope(scope, b));
                        }
                    }
                }
                return Some(self.entries[i].entry.id);
            }
            s = s + 1;
        }
        proof {
            assert forall|j: int| !#[trigger] m.scope_first(scope, j) by {
                if m.scope_first(scope, j) {
                    assert(self.sorted_indices@.contains(j as usize));
                    let t = choose|t: int|
                        0 <= t < self.sorted_indices@.len() && self.sorted_indices@[t] == j as usize;
                    assert(!m.in_scope(scope, self.sorted_indices@[t] as int));
                }
            }
        }
        None
    }

    /// A modal scope with this id was entered this frame.
    fn modal_is_present(present_ids: &Vec<ElementId>, id: ElementId) -> (r: bool)
        ensures
            r == exists|i: int| 0 <= i < present_ids.len() && present_ids@[i] == id,
    {
        let mut i: usize = 0;
        while i < present_ids.len()
            invariant
                i <= present_ids.len(),
                forall|k: int| 0 <= k < i ==> present_ids@[k] != id,
            decreases present_ids.len() - i,
        {
            if present_ids[i] == id {
                return true;
            }
            i = i + 1;
        }
        false
    }

    /// Some record of `stack` belongs to modal `id`.
    fn stack_contains(stack: &Vec<(ElementId, Option<ElementId>)>, id: ElementId) -> (r: bool)
        ensures
            r == FocusState::stack_has(stack@, id),
    {
        let mut i: usize = 0;
        while i < stack.len()
            invariant
                i <= stack.len(),
                forall|k: int| 0 <= k < i ==> (#[trigger] stack@[k]).0 != id,
            decreases stack.len() - i,
        {
            if stack[i].0 == id {
                return true;
            }
            i = i + 1;
        }
        false
    }

    /// Reconcile the modal focus lifecycle against `stack`, the caller-owned
    /// record of open modals as `(modal_id, focus_to_restore)`. Run once per
    /// frame after the prepaint walk:
    /// - Close: drop every stacked modal no longer present; once no modal
    ///   remains, restore the focus saved by the earliest closed modal (if that
    ///   element is still registered).
    /// - Open: for each newly present modal (shallowest first), save the
    ///   current focus and focus the modal's first Tab-reachable entry.
    pub fn reconcile_modal_focus(&mut self, stack: &mut Vec<(ElementId, Option<ElementId>)>)
        requires
            old(self).wf(),
        ensures
            final(self).wf(),
            final(self)@.same_registrations(old(self)@),
            final(stack)@ == old(self)@.open_modals(
                old(self)@.open_order(),
                old(self)@.kept_modals(old(stack)@),
                old(self)@.focus_after_close(old(stack)@),
            ).0,
            final(self)@.focused == old(self)@.open_modals(
                old(self)@.open_order(),
                old(self)@.kept_modals(old(stack)@),
                old(self)@.focus_after_close(old(stack)@),
            ).1,
            forall|k: int|
                0 <= k < final(stack)@.len() ==> old(self)@.modal_present(
                    #[trigger] final(stack)@[k].0,
                ),
            forall|id: ElementId|
                old(self)@.modal_present(id) ==> #[trigger] FocusState::stack_has(final(stack)@, id),
            ({
                &&& forall|k: int|
                    0 <= k < old(stack)@.len() ==> old(self)@.modal_present(
                        #[trigger] old(stack)@[k].0,
                    )
                &&& forall|id: ElementId|
                    old(self)@.modal_present(id) ==> #[trigger] FocusState::stack_has(old(stack)@, id)
            }) ==> final(stack)@ == old(stack)@ && final(self)@.focused == old(self)@.focused,
    {
        let ghost m = self@;
        let ghost s0 = stack@;
        // Present modals, shallowest-depth first = open order.
        let mut keys: Vec<i32> = Vec::new();
        let mut i: usize = 0;
        while i < self.modal_scopes.len()
            invariant
                i <= self.modal_scopes.len(),
                m == self@,
                keys@ =~= m.depth_keys().take(i as int),
            decreases self.modal_scopes.len() - i,
        {
            keys.push(self.modal_scopes[i].1);
            i = i + 1;
        }
        assert(keys@ =~= m.depth_keys());
        let ord = stable_order(&keys);
        proof {
            crate::order::lemma_stable_order_unique(
                m.depth_keys(),
                ord@,
                choose|o: Seq<usize>| is_stable_order(m.depth_keys(), o),
            );
        }
        let mut present: Vec<(ElementId, i32)> = Vec::new();
        let mut present_ids: Vec<ElementId> = Vec::new();
        let mut j: usize = 0;
        while j < ord.len()
            invariant
                j <= ord.len(),
                m == self@,
                is_stable_order(m.depth_keys(), ord@),
                present@ =~= ord@.take(j as int).map_values(|i: usize| m.modal_scopes[i as int]),
                present_ids@.len() == j,
                forall|a: int| 0 <= a < j ==> #[trigger] present_ids@[a] == present@[a].0,
            decreases ord.len() - j,
        {
            let e = self.modal_scopes[ord[j]];
            present.push(e);
            present_ids.push(e.0);
            j = j + 1;
        }
        proof {
            assert(present@ =~= m.open_order());
            // The present ids are exactly the modal ids of the frame.
            assert forall|id: ElementId|
                (exists|a: int| 0 <= a < present_ids.len() && present_ids@[a] == id)
                    == m.modal_present(id) by {
                if m.modal_present(id) {
                    let w = choose|w: int| 0 <= w < m.modal_scopes.len() && m.modal_scopes[w].0 == id;
                    assert(ord@.contains((w as int) as usize));
                    let a = choose|a: int| 0 <= a < ord@.len() && ord@[a] == (w as int) as usize;
                    assert(present_ids@[a] == id);
                }
                if exists|a: int| 0 <= a < present_ids.len() && present_ids@[a] == id {
                    let a = choose|a: int| 0 <= a < present_ids.len() && present_ids@[a] == id;
                    assert(m.modal_scopes[ord@[a] as int].0 == id);
                }
            }
        }
        // CLOSES: drop stacked modals that vanished; the first dropped one holds
        // the pre-modal focus.
        let mut kept: Vec<(ElementId, Option<ElementId>)> = Vec::new();
        let mut earliest_restore: Option<Option<ElementId>> = None;
        let mut k: usize = 0;
        while k < stack.len()
            invariant
                k <= stack.len(),
                stack@ == s0,
                m == self@,
                forall|id: ElementId|
                    (exists|a: int| 0 <= a < present_ids.len() && present_ids@[a] == id)
                        == m.modal_present(id),
                kept@ == m.kept_modals(s0.take(k as int)),
                earliest_restore == (match m.first_closed(s0.take(k as int)) {
                    Some(e) => Some(e.1),
                    None => None,
                }),
            decreases stack.len() - k,
        {
            let (id, prev) = stack[k];
            let is_present = Self::modal_is_present(&present_ids, id);
            proof {
                assert(s0.take(k + 1).drop_last() =~= s0.take(k as int));
                assert(s0.take(k + 1).last() == s0[k as int]);
                reveal(Seq::filter);
            }
            if !is_present && earliest_restore.is_none() {
                earliest_restore = Some(prev);
            }
            if is_present {
                kept.push((id, prev));
            }
            k = k + 1;
        }
        proof {
            assert(s0.take(s0.len() as int) =~= s0);
        }
        *stack = kept;
        // Only restore when no modal remains open.
        if stack.len() == 0 {
            if let Some(Some(r)) = earliest_restore {
                if self.is_focusable(r) {
                    self.set_focus(r);
                }
            }
        }
        assert(self.focused == m.focus_after_close(s0));
        // OPENS: each newly present modal saves the prior focus and focuses its
        // first focusable.
        let ghost kept0 = stack@;
        let ghost f0 = self.focused;
        let mut t: usize = 0;
        while t < present.len()
            invariant
                t <= present.len(),
                present@ == m.open_order(),
                self.wf(),
                self@.same_registrations(m),
                (stack@, self@.focused) == m.open_modals(present@.take(t as int), kept0, f0),
            decreases present.len() - t,
        {
            let (id, _) = present[t];
            proof {
                assert(present@.take(t + 1).drop_last() =~= present@.take(t as int));
            }
            if Self::stack_contains(stack, id) {
                t = t + 1;
                continue;
            }
            let prev = self.focused;
            proof {
                lemma_first_in_scope_registrations(self@, m, id);
            }
            if let Some(first) = self.first_in_scope(id) {
                proof {
                    let j = m.first_in_scope_index(id)->0;
                    assert(m.scope_first(id, j));
                    assert(m.entries[j].id == first);
                    assert(m.is_registered(first));
                }
                self.set_focus(first);
            }
            stack.push((id, prev));
            t = t + 1;
        }
        proof {
            assert(present@.take(present@.len() as int) =~= present@);
            let kept_s = m.kept_modals(s0);
            let fac = m.focus_after_close(s0);
            lemma_open_modals_records(m, present@, kept_s, fac);
            let pred = |e: (ElementId, Option<ElementId>)| m.modal_present(e.0);
            assert forall|k: int| 0 <= k < stack@.len() implies m.modal_present(
                #[trigger] stack@[k].0,
            ) by {
                if FocusState::stack_has(kept_s, stack@[k].0) {
                    let w = choose|w: int| 0 <= w < kept_s.len() && #[trigger] kept_s[w].0 == stack@[k].0;
                    s0.lemma_filter_pred(pred, w);
                } else {
                    let i = choose|i: int| 0 <= i < present@.len() && #[trigger] present@[i].0 == stack@[k].0;
                    assert(present_ids@[i] == stack@[k].0);
                }
            }
            assert forall|id: ElementId| m.modal_present(id) implies #[trigger] FocusState::stack_has(stack@, id) by {
                let a = choose|a: int| 0 <= a < present_ids.len() && present_ids@[a] == id;
                assert(present@[a].0 == id);
            }
            if (forall|k: int| 0 <= k < s0.len() ==> m.modal_present(#[trigger] s0[k].0)) && (
            forall|id: ElementId| m.modal_present(id) ==> #[trigger] FocusState::stack_has(s0, id)) {
                lemma_all_stacked_present(m, s0);
                assert forall|i: int| 0 <= i < present@.len() implies FocusState::stack_has(
                    s0,
                    #[trigger] present@[i].0,
                ) by {
                    assert(present_ids@[i] == present@[i].0);
                    assert(m.modal_present(present@[i].0));
                }
                lemma_open_modals_none_new(m, present@, s0, m.focused);
            }
        }
    }

    /// Clear `focused` if its element is no longer registered.
    pub fn prune_missing(&mut self)
        requires
            old(self).wf(),
        ensures
            final(self).wf(),
            final(self)@.same_registrations(old(self)@),
            final(self)@.focused == (match old(self)@.focused {
                Some(id) if !old(self)@.is_registered(id) => None,
                f => f,
            }),
    {
        if let Some(id) = self.focused {
            if !self.is_focusable(id) {
                self.focused = None;
            }
        }
    }
}

} // verus!
