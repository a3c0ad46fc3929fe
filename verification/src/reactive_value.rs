//! A modifier value that is either fixed or re-computed on every read.
//!
//! Element modifiers accept either a plain value or a closure whose value is
//! re-read each time the modifier is resolved (during render, so a closure
//! that reads a signal subscribes the rendering view).
use vstd::prelude::*;

use std::sync::Arc;

verus! {

/// A modifier value that is either static or dynamically resolved by a
/// closure of type `F`.
pub enum Reactive<T, F> {
    /// A fixed value, resolved with no subscription.
    Static(T),
    /// A value re-computed on each `resolve()`.
    Dynamic(Arc<F>),
}

impl<T, F: Fn() -> T> Reactive<T, F> {
    /// A dynamic value from a closure re-run on every `resolve()`.
    pub fn dynamic(f: F) -> (r: Reactive<T, F>)
        ensures
            r matches Reactive::Dynamic(g) && *g == f,
    {
        Reactive::Dynamic(Arc::new(f))
    }
}

impl<T: Clone, F: Fn() -> T> Reactive<T, F> {
    /// The current value: a clone of the static value, or what the closure
    /// returns now.
    pub fn resolve(&self) -> (r: T)
        requires
            self matches Reactive::Dynamic(f) ==> call_requires(**f, ()),
        ensures
            match self {
                Reactive::Static(v) => cloned(*v, r),
                Reactive::Dynamic(f) => call_ensures(**f, (), r),
            },
    {
        match self {
            Reactive::Static(v) => v.clone(),
            Reactive::Dynamic(f) => f(),
        }
    }
}

impl<T: Clone, F> Clone for Reactive<T, F> {
    /// A static value is cloned; a dynamic one shares its closure.
    fn clone(&self) -> (r: Reactive<T, F>)
        ensures
            match (self, r) {
                (Reactive::Static(v), Reactive::Static(w)) => cloned(*v, w),
                (Reactive::Dynamic(f), Reactive::Dynamic(g)) => g == f,
                _ => false,
            },
    {
        match self {
            Reactive::Static(v) => Reactive::Static(v.clone()),
            Reactive::Dynamic(f) => Reactive::Dynamic(f.clone()),
        }
    }
}

impl<T, F> From<T> for Reactive<T, F> {
    /// A plain value becomes a static one.
    fn from(value: T) -> (r: Reactive<T, F>) {
        Reactive::Static(value)
    }
}

impl<T, F> vstd::std_specs::convert::FromSpecImpl<T> for Reactive<T, F> {
    open spec fn obeys_from_spec() -> bool {
        true
    }

    open spec fn from_spec(v: T) -> Reactive<T, F> {
        Reactive::Static(v)
    }
}

} // verus!
