//! Toolbar: a horizontal strip hosting command controls, in the order they
//! were added. The strip is generic over the element type it hosts; drawing
//! it (a padded row with gaps) is the host's.
use vstd::prelude::*;

verus! {

/// A horizontal toolbar strip: its controls and separators, left to right.
pub struct Toolbar<E> {
    items: Vec<E>,
}

impl<E> View for Toolbar<E> {
    type V = Seq<E>;

    closed spec fn view(&self) -> Seq<E> {
        self.items@
    }
}

impl<E> Toolbar<E> {
    /// An empty toolbar.
    pub fn new() -> (t: Toolbar<E>)
        ensures
            t@ == Seq::<E>::empty(),
    {
        Toolbar { items: Vec::new() }
    }

    /// Add a control (typically a button) at the right end.
    pub fn child(self, child: E) -> (t: Toolbar<E>)
        ensures
            t@ == self@.push(child),
    {
        let mut items = self.items;
        items.push(child);
        Toolbar { items }
    }

    /// Add a type-erased control at the right end.
    pub fn child_any(self, child: E) -> (t: Toolbar<E>)
        ensures
            t@ == self@.push(child),
    {
        self.child(child)
    }

    /// Add a thin vertical separator (`divider`, the host's themed rule)
    /// between groups of controls.
    pub fn separator(self, divider: E) -> (t: Toolbar<E>)
        ensures
            t@ == self@.push(divider),
    {
        self.child(divider)
    }

    /// The controls and separators, left to right, for the host to lay out.
    pub fn into_items(self) -> (items: Vec<E>)
        ensures
            items@ == self@,
    {
        self.items
    }
}

impl<E> Default for Toolbar<E> {
    fn default() -> (t: Toolbar<E>)
        ensures
            t@ == Seq::<E>::empty(),
    {
        Toolbar::new()
    }
}

} // verus!
