//! Paint-time view of which elements are hovered and pressed.
//!
//! Hover and press each carry the target and its ancestors, so a container
//! reflects the state when a descendant is the direct target (as CSS `:hover`
//! and `:active` do). Element ids are held by their raw values; the ancestor
//! walk follows a child-to-parent map built during prepaint.
use vstd::prelude::*;

use std::collections::HashMap;

use smallvec::SmallVec;

use crate::types::ElementId;

verus! {

/// A chain of raw element ids, stored inline for up to eight ids
/// (`SmallVec<[u64; 8]>`).
#[verifier::external_body]
pub struct IdChain {
    ids: SmallVec<[u64; 8]>,
}

/// The ids held by a chain buffer, in push order.
pub uninterp spec fn chain_ids(chain: IdChain) -> Seq<u64>;

/// `SmallVec::new`: an empty buffer.
#[verifier::external_body]
fn chain_new() -> (chain: IdChain)
    ensures
        chain_ids(chain) == Seq::<u64>::empty(),
{
    IdChain { ids: SmallVec::new() }
}

/// `SmallVec::push`: append `id` after the ids already held. Growth doubles
/// the buffer to the next power of two, whose byte size must fit in `isize`.
#[verifier::external_body]
fn chain_push(chain: &mut IdChain, id: u64)
    requires
        16 * (chain_ids(*old(chain)).len() + 1) <= isize::MAX + 1,
    ensures
        chain_ids(*final(chain)) == chain_ids(*old(chain)).push(id),
{
    chain.ids.push(id)
}

/// `contains` on the buffer's slice of held ids.
#[verifier::external_body]
fn chain_contains(chain: &IdChain, id: u64) -> (r: bool)
    ensures
        r == chain_ids(*chain).contains(id),
{
    chain.ids.contains(&id)
}

/// The element `n` parent steps up from `start` (`None` past the root).
pub open spec fn nth_up(parents: Map<u64, u64>, start: Option<u64>, n: nat) -> Option<u64>
    decreases n,
{
    if n == 0 {
        start
    } else {
        match nth_up(parents, start, (n - 1) as nat) {
            Some(id) => if parents.contains_key(id) {
                Some(parents[id])
            } else {
                None
            },
            None => None,
        }
    }
}

/// The first `n` elements of the walk from `start` up to the root (fewer when
/// the walk ends earlier).
pub open spec fn walk_up(parents: Map<u64, u64>, start: Option<u64>, n: nat) -> Seq<u64>
    decreases n,
{
    if n == 0 {
        Seq::empty()
    } else {
        let prev = walk_up(parents, start, (n - 1) as nat);
        match nth_up(parents, start, (n - 1) as nat) {
            Some(id) => prev.push(id),
            None => prev,
        }
    }
}

/// The walk from `start` has ended after `n` steps.
pub open spec fn ends_within(parents: Map<u64, u64>, start: Option<u64>, n: nat) -> bool {
    nth_up(parents, start, n) is None
}

/// The raw value of an optional element id.
pub open spec fn raw_id(id: Option<ElementId>) -> Option<u64> {
    match id {
        Some(e) => Some(e.0),
        None => None,
    }
}

/// Once the walk has ended it stays ended.
proof fn lemma_ended_stays(parents: Map<u64, u64>, start: Option<u64>, a: nat, b: nat)
    requires
        a <= b,
        ends_within(parents, start, a),
    ensures
        ends_within(parents, start, b),
        walk_up(parents, start, b) == walk_up(parents, start, a),
    decreases b - a,
{
    if a < b {
        lemma_ended_stays(parents, start, a, (b - 1) as nat);
    }
}

/// The hover or press chain from `start`: the element and its ancestors,
/// nearest first. The walk must end (no cycle through `start`) within the
/// length a chain buffer can hold.
fn collect_chain(start: Option<ElementId>, parent_map: &HashMap<u64, u64>) -> (chain: IdChain)
    requires
        exists|n: nat|
            16 * n <= isize::MAX + 1 && #[trigger] ends_within(
                parent_map@,
                raw_id(start),
                n,
            ),
    ensures
        forall|n: nat|
            #[trigger] ends_within(
                parent_map@,
                raw_id(start),
                n,
            ) ==> chain_ids(chain) == walk_up(
                parent_map@,
                raw_id(start),
                n,
            ),
{
    broadcast use vstd::std_specs::hash::group_hash_axioms;

    let ghost p = parent_map@;
    let ghost s: Option<u64> = raw_id(start);
    let ghost bound: nat = choose|n: nat| 16 * n <= isize::MAX + 1 && #[trigger] ends_within(p, s, n);
    let mut chain = chain_new();
    let mut current: Option<u64> = match start {
        Some(id) => Some(id.0),
        None => None,
    };
    let ghost mut k: nat = 0;
    loop
        invariant
            p == parent_map@,
            16 * bound <= isize::MAX + 1,
            ends_within(p, s, bound),
            current == nth_up(p, s, k),
            chain_ids(chain) == walk_up(p, s, k),
            chain_ids(chain).len() == k,
            k <= bound,
        ensures
            chain_ids(chain) == walk_up(p, s, k),
            ends_within(p, s, k),
        decreases bound - k,
    {
        match current {
            Some(id) => {
                proof {
                    if k == bound {
                        assert(false);
                    }
                    assert(walk_up(p, s, k + 1) == walk_up(p, s, k).push(id));
                }
                chain_push(&mut chain, id);
                current = match parent_map.get(&id) {
                    Some(parent) => Some(*parent),
                    None => None,
                };
                proof {
                    k = k + 1;
                }
            },
            None => {
                break ;
            },
        }
    }
    proof {
        assert forall|n: nat| #[trigger] ends_within(p, s, n) implies chain_ids(chain) == walk_up(
            p,
            s,
            n,
        ) by {
            if n >= k {
                lemma_ended_stays(p, s, k, n);
            } else {
                lemma_ended_stays(p, s, n, (k - 1) as nat);
            }
        }
    }
    chain
}

/// Paint-time snapshot of the hover and press chains of a window.
pub struct InteractionSnapshot {
    hovered: IdChain,
    pressed: IdChain,
}

impl InteractionSnapshot {
    /// Raw ids of the hovered element and its ancestors, nearest first.
    pub closed spec fn hovered_ids(&self) -> Seq<u64> {
        chain_ids(self.hovered)
    }

    /// Raw ids of the pressed element and its ancestors, nearest first.
    pub closed spec fn pressed_ids(&self) -> Seq<u64> {
        chain_ids(self.pressed)
    }

    /// Snapshot the hover and press chains of `hovered` and `pressed` through
    /// the child-to-parent map `parent_map` (keyed by raw id). Each walk must
    /// end at a root within the length a chain buffer can hold.
    pub fn new(hovered: Option<ElementId>, pressed: Option<ElementId>, parent_map: &HashMap<u64, u64>) -> (r: InteractionSnapshot)
        requires
            exists|n: nat|
                16 * n <= isize::MAX + 1 && #[trigger] ends_within(
                    parent_map@,
                    raw_id(hovered),
                    n,
                ),
            exists|n: nat|
                16 * n <= isize::MAX + 1 && #[trigger] ends_within(
                    parent_map@,
                    raw_id(pressed),
                    n,
                ),
        ensures
            forall|n: nat|
                #[trigger] ends_within(
                    parent_map@,
                    raw_id(hovered),
                    n,
                ) ==> r.hovered_ids() == walk_up(
                    parent_map@,
                    raw_id(hovered),
                    n,
                ),
            forall|n: nat|
                #[trigger] ends_within(
                    parent_map@,
                    raw_id(pressed),
                    n,
                ) ==> r.pressed_ids() == walk_up(
                    parent_map@,
                    raw_id(pressed),
                    n,
                ),
    {
        InteractionSnapshot {
            hovered: collect_chain(hovered, parent_map),
            pressed: collect_chain(pressed, parent_map),
        }
    }

    /// Whether `id` is the hovered element or one of its ancestors.
    pub fn is_hovered(&self, id: ElementId) -> (r: bool)
        ensures
            r == self.hovered_ids().contains(id.0),
    {
        chain_contains(&self.hovered, id.0)
    }

    /// Whether `id` is the pressed element or one of its ancestors.
    pub fn is_pressed(&self, id: ElementId) -> (r: bool)
        ensures
            r == self.pressed_ids().contains(id.0),
    {
        chain_contains(&self.pressed, id.0)
    }
}

impl Default for InteractionSnapshot {
    /// Nothing hovered, nothing pressed.
    fn default() -> (r: InteractionSnapshot)
        ensures
            r.hovered_ids() == Seq::<u64>::empty(),
            r.pressed_ids() == Seq::<u64>::empty(),
    {
        InteractionSnapshot { hovered: chain_new(), pressed: chain_new() }
    }
}

/// The `i`-th element of a walk that has not ended is the `i`-th entry of the
/// chain.
proof fn lemma_walk_entries(parents: Map<u64, u64>, start: Option<u64>, n: nat, i: nat)
    requires
        i < n,
        nth_up(parents, start, i) is Some,
    ensures
        walk_up(parents, start, n).len() > i,
        walk_up(parents, start, n)[i as int] == nth_up(parents, start, i)->0,
    decreases n,
{
    if i + 1 < n {
        lemma_walk_entries(parents, start, (n - 1) as nat, i);
        if nth_up(parents, start, (n - 1) as nat) is Some {
            assert(walk_up(parents, start, n) == walk_up(parents, start, (n - 1) as nat).push(
                nth_up(parents, start, (n - 1) as nat)->0,
            ));
        }
    } else {
        lemma_walk_len(parents, start, i);
    }
}

/// Before the walk ends, the chain holds one entry per step.
proof fn lemma_walk_len(parents: Map<u64, u64>, start: Option<u64>, n: nat)
    requires
        nth_up(parents, start, n) is Some,
    ensures
        walk_up(parents, start, n).len() == n,
    decreases n,
{
    if n > 0 {
        lemma_walk_len(parents, start, (n - 1) as nat);
    }
}

/// Every entry of the chain is some step of the walk.
proof fn lemma_walk_sources(parents: Map<u64, u64>, start: Option<u64>, n: nat, k: int)
    requires
        0 <= k < walk_up(parents, start, n).len(),
    ensures
        exists|i: nat| i < n && nth_up(parents, start, i) == Some(walk_up(parents, start, n)[k]),
    decreases n,
{
    if n > 0 {
        let prev = walk_up(parents, start, (n - 1) as nat);
        if k < prev.len() {
            lemma_walk_sources(parents, start, (n - 1) as nat, k);
            let i = choose|i: nat| i < n - 1 && nth_up(parents, start, i) == Some(prev[k]);
            assert(walk_up(parents, start, n)[k] == prev[k]);
            assert(i < n && nth_up(parents, start, i) == Some(walk_up(parents, start, n)[k]));
        } else {
            let i = (n - 1) as nat;
            assert(nth_up(parents, start, i) == Some(walk_up(parents, start, n)[k]));
        }
    }
}

/// A hover or press chain holds its target and, with every element, that
/// element's parent: a container is hovered (pressed) whenever a descendant is.
pub proof fn law_chain_holds_ancestors(parents: Map<u64, u64>, start: Option<u64>, n: nat)
    requires
        ends_within(parents, start, n),
    ensures
        start matches Some(s) ==> walk_up(parents, start, n).contains(s),
        forall|x: u64|
            #[trigger] walk_up(parents, start, n).contains(x) && parents.contains_key(x)
                ==> walk_up(parents, start, n).contains(parents[x]),
{
    if let Some(s) = start {
        if n == 0 {
            assert(nth_up(parents, start, 0) == start);
        }
        lemma_walk_entries(parents, start, n, 0);
    }
    assert forall|x: u64|
        #[trigger] walk_up(parents, start, n).contains(x) && parents.contains_key(x) implies walk_up(
        parents,
        start,
        n,
    ).contains(parents[x]) by {
        let w = walk_up(parents, start, n);
        let k = choose|k: int| 0 <= k < w.len() && w[k] == x;
        lemma_walk_sources(parents, start, n, k);
        let i = choose|i: nat| i < n && nth_up(parents, start, i) == Some(w[k]);
        let j = (i + 1) as nat;
        assert(nth_up(parents, start, j) == Some(parents[x]));
        if j >= n {
            assert(j == n);
        }
        lemma_walk_entries(parents, start, n, j);
        assert(w[j as int] == parents[x]);
    }
}

} // verus!
