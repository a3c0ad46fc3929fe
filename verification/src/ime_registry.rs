//! Per-frame registry of IME-capable elements.
//!
//! Cleared at the start of every prepaint, re-registered per IME-capable
//! element during the walk, then [`ImeRegistry::prune_missing`] drops the
//! state of elements that did not re-register. Each element's state is held
//! through a cheaply cloned handle `S` (such as `Rc<RefCell<ImeState>>`) that
//! the registry hands to the element's handlers, so the same state survives
//! from frame to frame.
use vstd::prelude::*;

use std::collections::{HashMap, HashSet};

use crate::map_keys::keys_of;
use crate::types::ElementId;

verus! {

broadcast use vstd::std_specs::hash::group_hash_axioms;

/// Map of IME-capable element ids (raw values) to their state handles.
pub struct ImeRegistry<S> {
    states: HashMap<u64, S>,
    /// Set whenever a new entry is inserted (informational).
    dirty: bool,
}

impl<S> View for ImeRegistry<S> {
    /// The state handle of each registered raw id.
    type V = Map<u64, S>;

    closed spec fn view(&self) -> Map<u64, S> {
        self.states@
    }
}

impl<S> ImeRegistry<S> {
    /// Whether an entry was inserted since the last [`clear`](Self::clear).
    pub closed spec fn changed(&self) -> bool {
        self.dirty
    }

    /// An empty registry.
    pub fn new() -> (r: ImeRegistry<S>)
        ensures
            r@ == Map::<u64, S>::empty(),
            !r.changed(),
    {
        ImeRegistry { states: HashMap::new(), dirty: false }
    }

    /// Reset the change flag, keeping every entry (the prepaint walk then
    /// re-registers the survivors before [`prune_missing`](Self::prune_missing)).
    pub fn clear(&mut self)
        ensures
            final(self)@ == old(self)@,
            !final(self).changed(),
    {
        self.dirty = false;
    }

    /// Drop the entries whose ids are not in `registered_ids`.
    pub fn prune_missing(&mut self, registered_ids: &HashSet<u64>)
        ensures
            final(self)@ == old(self)@.restrict(registered_ids@),
            final(self).changed() == old(self).changed(),
    {
        let ghost before = self.states@;
        let ks = keys_of(&self.states);
        let mut i: usize = 0;
        while i < ks.len()
            invariant
                i <= ks@.len(),
                ks@.to_set() == before.dom(),
                ks@.no_duplicates(),
                self.dirty == old(self).dirty,
                forall|k: u64|
                    #[trigger] self.states@.contains_key(k) ==> before.contains_key(k) && self.states@[k]
                        == before[k],
                forall|k: u64|
                    before.contains_key(k) && !ks@.take(i as int).contains(k) ==> #[trigger] self.states@.contains_key(k),
                forall|k: u64|
                    before.contains_key(k) && ks@.take(i as int).contains(k) ==> (#[trigger] self.states@.contains_key(k)
                        <==> registered_ids@.contains(k)),
            decreases ks@.len() - i,
        {
            let k = ks[i];
            if !registered_ids.contains(&k) {
                self.states.remove(&k);
            }
            proof {
                assert forall|x: u64| before.contains_key(x) && !ks@.take(i + 1).contains(x) implies #[trigger] self.states@.contains_key(x) by {
                    assert(!ks@.take(i as int).contains(x)) by {
                        if ks@.take(i as int).contains(x) {
                            let m = choose|m: int| 0 <= m < i && ks@.take(i as int)[m] == x;
                            assert(ks@.take(i + 1)[m] == x);
                        }
                    }
                    assert(x != k) by {
                        assert(ks@.take(i + 1)[i as int] == k);
                    }
                }
                assert forall|x: u64| before.contains_key(x) && ks@.take(i + 1).contains(x) implies (#[trigger] self.states@.contains_key(x)
                    <==> registered_ids@.contains(x)) by {
                    let t = ks@.take(i + 1);
                    let m = choose|m: int| 0 <= m < t.len() && t[m] == x;
                    if m < i {
                        assert(ks@.take(i as int)[m] == x);
                        assert(x != k) by {
                            assert(ks@[m] != ks@[i as int]);
                        }
                    }
                }
            }
            i = i + 1;
        }
        proof {
            assert(ks@.take(ks@.len() as int) =~= ks@);
            assert forall|x: u64| before.contains_key(x) implies ks@.contains(x) by {
                assert(ks@.to_set().contains(x));
            }
            assert(self.states@ =~= before.restrict(registered_ids@));
        }
    }

    /// Number of registered elements.
    pub fn len(&self) -> (r: usize)
        ensures
            r == self@.len(),
    {
        self.states.len()
    }

    /// Whether no element is registered.
    pub fn is_empty(&self) -> (r: bool)
        ensures
            r == (self@.len() == 0),
    {
        self.states.len() == 0
    }

    /// The registered ids, each once (in no particular order).
    pub fn ids(&self) -> (r: Vec<ElementId>)
        ensures
            r@.len() == self@.len(),
            forall|i: int| 0 <= i < r@.len() ==> self@.contains_key((#[trigger] r@[i]).0),
            forall|k: u64| self@.contains_key(k) ==> exists|i: int| 0 <= i < r@.len() && (#[trigger] r@[i]).0 == k,
    {
        let ks = keys_of(&self.states);
        proof {
            ks@.unique_seq_to_set();
        }
        let mut out: Vec<ElementId> = Vec::new();
        let mut i: usize = 0;
        while i < ks.len()
            invariant
                i <= ks@.len(),
                ks@.to_set() == self.states@.dom(),
                out@.len() == i,
                forall|j: int| 0 <= j < i ==> (#[trigger] out@[j]).0 == ks@[j],
            decreases ks@.len() - i,
        {
            out.push(ElementId(ks[i]));
            i = i + 1;
        }
        proof {
            assert forall|j: int| 0 <= j < out@.len() implies self@.contains_key((#[trigger] out@[j]).0) by {
                assert(ks@.to_set().contains(ks@[j]));
            }
            assert forall|k: u64| self@.contains_key(k) implies exists|j: int|
                0 <= j < out@.len() && (#[trigger] out@[j]).0 == k by {
                assert(ks@.to_set().contains(k));
                let j = choose|j: int| 0 <= j < ks@.len() && ks@[j] == k;
                assert(out@[j].0 == k);
            }
        }
        out
    }
}

impl<S: Clone> ImeRegistry<S> {
    /// The state handle of `id`, if registered (a clone of it).
    pub fn get(&self, id: ElementId) -> (r: Option<S>)
        ensures
            r is Some <==> self@.contains_key(id.0),
            r matches Some(s) ==> cloned::<S>(self@[id.0], s),
    {
        match self.states.get(&id.0) {
            Some(s) => Some(s.clone()),
            None => None,
        }
    }
}

impl<S: Clone + Default> ImeRegistry<S> {
    /// The state handle of `id` (a clone of it), inserting a freshly made
    /// default state first when `id` has none; an insert sets the change flag.
    pub fn register(&mut self, id: ElementId) -> (r: S)
        ensures
            old(self)@.contains_key(id.0) ==> {
                &&& final(self)@ == old(self)@
                &&& cloned::<S>(old(self)@[id.0], r)
                &&& final(self).changed() == old(self).changed()
            },
            !old(self)@.contains_key(id.0) ==> exists|fresh: S|
                {
                    &&& call_ensures(S::default, (), fresh)
                    &&& final(self)@ == old(self)@.insert(id.0, fresh)
                    &&& #[trigger] cloned::<S>(fresh, r)
                    &&& final(self).changed()
                },
    {
        match self.states.get(&id.0) {
            Some(s) => {
                return s.clone();
            },
            None => {},
        }
        let fresh = S::default();
        let handed = fresh.clone();
        let ghost kept = fresh;
        self.states.insert(id.0, fresh);
        self.dirty = true;
        assert(cloned::<S>(kept, handed));
        handed
    }
}

impl<S> Default for ImeRegistry<S> {
    fn default() -> (r: ImeRegistry<S>)
        ensures
            r@ == Map::<u64, S>::empty(),
            !r.changed(),
    {
        ImeRegistry::new()
    }
}

} // verus!
