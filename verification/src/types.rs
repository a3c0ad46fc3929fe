//! Identity types shared across the framework.
use vstd::prelude::*;

verus! {

/// Stable identity of an element across frames.
#[derive(Copy, Clone, Debug, PartialEq, Eq, Hash, Structural)]
pub struct ElementId(pub u64);

impl ElementId {
    /// Build an id from its raw numeric value.
    pub fn from_raw(raw: u64) -> (id: ElementId)
        ensures
            id.0 == raw,
    {
        ElementId(raw)
    }
}

} // verus!
