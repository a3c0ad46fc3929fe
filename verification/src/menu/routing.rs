//! Menu action routing: a registry from stable menu ids to action handlers.
//!
//! When a native menu (or a synthetic test) activates an item, the framework
//! looks up the id and invokes its handler. Dispatch clones the handler out
//! first and invokes it afterwards, so a handler that rebuilds the menu cannot
//! alias a live borrow of the registry.
use vstd::prelude::*;

use std::collections::HashMap;
use std::rc::Rc;

use crate::menu::model::MenuId;

verus! {

/// Maps menu ids to their action handlers. A handler is a shared `Fn()`
/// behind an `Rc` (for the app, `Rc<dyn Fn()>`), so it can be cloned out of
/// the registry and invoked after the registry borrow is released.
pub struct MenuRegistry<F: ?Sized> {
    /// Handlers keyed by the id's numeric value.
    handlers: HashMap<u64, Rc<F>>,
}

impl<F: ?Sized> View for MenuRegistry<F> {
    /// The handler registered for each numeric id.
    type V = Map<u64, Rc<F>>;

    closed spec fn view(&self) -> Map<u64, Rc<F>> {
        self.handlers@
    }
}

impl<F: ?Sized> MenuRegistry<F> {
    /// An empty registry.
    pub fn new() -> (r: MenuRegistry<F>)
        ensures
            r@ == Map::<u64, Rc<F>>::empty(),
    {
        MenuRegistry { handlers: HashMap::new() }
    }

    /// Register (or replace) the handler for `id`.
    pub fn register(&mut self, id: MenuId, handler: Rc<F>)
        ensures
            final(self)@ == old(self)@.insert(id.0, handler),
    {
        proof {
            broadcast use vstd::std_specs::hash::group_hash_axioms;
        }
        self.handlers.insert(id.0, handler);
    }

    /// Remove all registered handlers (before installing a new menu).
    pub fn clear(&mut self)
        ensures
            final(self)@ == Map::<u64, Rc<F>>::empty(),
    {
        self.handlers.clear();
    }

    /// A shared handle on the handler for `id`, if one is registered. Callers
    /// invoke it after releasing any borrow of the registry.
    pub fn handler(&self, id: MenuId) -> (r: Option<Rc<F>>)
        ensures
            r == (if self@.contains_key(id.0) {
                Some(self@[id.0])
            } else {
                None
            }),
    {
        proof {
            broadcast use vstd::std_specs::hash::group_hash_axioms;
        }
        match self.handlers.get(&id.0) {
            Some(h) => Some(h.clone()),
            None => None,
        }
    }
}

impl<F: Fn() + ?Sized> MenuRegistry<F> {
    /// Look up and invoke the handler registered for `id` (every handler must
    /// accept a call). Returns `true` exactly when a handler is registered for
    /// `id`, and then that handler has run.
    pub fn dispatch(&self, id: MenuId) -> (ran: bool)
        requires
            forall|f: &F| call_requires(f, ()),
        ensures
            ran <==> self@.contains_key(id.0),
            ran ==> call_ensures(&*self@[id.0], (), ()),
    {
        match self.handler(id) {
            Some(h) => {
                let f: &F = &*h;
                f();
                true
            },
            None => false,
        }
    }
}

impl<F: ?Sized> Default for MenuRegistry<F> {
    fn default() -> (r: MenuRegistry<F>)
        ensures
            r@ == Map::<u64, Rc<F>>::empty(),
    {
        MenuRegistry::new()
    }
}

/// Registering a second handler under an id replaces the first: the registry
/// is then as if only the second had been registered.
pub proof fn law_register_replaces<H>(before: Map<u64, H>, id: MenuId, first: H, second: H)
    ensures
        before.insert(id.0, first).insert(id.0, second) == before.insert(id.0, second),
        before.insert(id.0, first).insert(id.0, second)[id.0] == second,
{
    assert(before.insert(id.0, first).insert(id.0, second) =~= before.insert(id.0, second));
}

} // verus!
