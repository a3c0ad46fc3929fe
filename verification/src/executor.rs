//! Foreground task polling: run ready UI-thread tasks between frames, with a
//! bound so tasks that keep spawning tasks cannot spin the frame forever.
use vstd::prelude::*;

use std::sync::Arc;

verus! {

/// Most polling steps a single frame's poll makes.
pub const MAX_POLL_ITERATIONS: usize = 1000;

/// Step `tick` (one poll of the task queue, `true` when a task made progress)
/// until it reports no progress or `MAX_POLL_ITERATIONS` steps have run. Each
/// step is handed its number, counting from 0, so that the results below can
/// be told apart. Returns the number of steps that made progress: steps
/// `0..progressed` each returned `true`, and when the bound was not reached,
/// step `progressed` ran and returned `false`.
pub fn poll_ticks<F: Fn(usize) -> bool>(tick: &F) -> (progressed: usize)
    requires
        forall|i: usize| i < MAX_POLL_ITERATIONS ==> call_requires(*tick, (i,)),
    ensures
        progressed <= MAX_POLL_ITERATIONS,
        forall|i: usize| i < progressed ==> call_ensures(*tick, (i,), true),
        progressed < MAX_POLL_ITERATIONS ==> call_ensures(*tick, (progressed,), false),
{
    let mut progressed: usize = 0;
    while progressed < MAX_POLL_ITERATIONS
        invariant
            progressed <= MAX_POLL_ITERATIONS,
            forall|i: usize| i < MAX_POLL_ITERATIONS ==> call_requires(*tick, (i,)),
            forall|i: usize| i < progressed ==> call_ensures(*tick, (i,), true),
        ensures
            progressed <= MAX_POLL_ITERATIONS,
            forall|i: usize| i < progressed ==> call_ensures(*tick, (i,), true),
            progressed < MAX_POLL_ITERATIONS ==> call_ensures(*tick, (progressed,), false),
        decreases MAX_POLL_ITERATIONS - progressed,
    {
        let progress = tick(progressed);
        if !progress {
            break;
        }
        progressed = progressed + 1;
    }
    progressed
}

/// Thread-safe handle that wakes the main run loop to request a redraw,
/// shared by the tasks that finish work the UI should show. Cheap to clone:
/// every clone wakes through the same function.
pub struct RedrawRequester<F: ?Sized> {
    wake: Arc<F>,
}

impl<F: ?Sized> RedrawRequester<F> {
    /// The wake function this handle calls.
    pub closed spec fn wake_fn(&self) -> Arc<F> {
        self.wake
    }

    /// A requester that calls `wake_fn`, which must wake the platform's event
    /// loop.
    pub fn new(wake_fn: Arc<F>) -> (r: RedrawRequester<F>)
        ensures
            r.wake_fn() == wake_fn,
    {
        RedrawRequester { wake: wake_fn }
    }
}

impl<F: Fn() + ?Sized> RedrawRequester<F> {
    /// Ask the UI thread to wake up and redraw: calls the wake function.
    pub fn request(&self)
        requires
            call_requires(&*self.wake_fn(), ()),
        ensures
            call_ensures(&*self.wake_fn(), (), ()),
    {
        let f: &F = &*self.wake;
        f();
    }
}

impl<F: ?Sized> Clone for RedrawRequester<F> {
    fn clone(&self) -> (r: RedrawRequester<F>)
        ensures
            r.wake_fn() == self.wake_fn(),
    {
        RedrawRequester { wake: self.wake.clone() }
    }
}

} // verus!
