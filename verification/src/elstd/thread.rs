//! Threading primitives: thread handles and a mutex served over IPC.
use vstd::prelude::*;

verus! {

/// Handle of a spawned thread.
pub struct Thread;

impl Thread {
    /// Spawn a thread running `f`.  Thread creation is not wired to the
    /// kernel yet: the closure is dropped and a handle returned.
    pub fn spawn<F>(_f: F) -> (r: Thread) where F: FnOnce() + Send + 'static {
        Thread
    }

    /// Wait for the thread to finish.
    pub fn join(self) {
    }
}

/// A mutex whose locking is served by a kernel mutex service.
pub struct Mutex<T> {
    cap: u64,
    data: T,
}

impl<T> Mutex<T> {
    /// The protected value.
    pub closed spec fn value(&self) -> T {
        self.data
    }

    /// Capability of the mutex service (0 until it is connected).
    pub closed spec fn capability(&self) -> u64 {
        self.cap
    }

    /// A mutex holding `value`.
    pub fn new(value: T) -> (r: Self)
        ensures
            r.value() == value,
            r.capability() == 0,
    {
        Mutex { cap: 0, data: value }
    }

    /// Lock the mutex and access the value; exclusive access to the mutex
    /// is exclusive access to the value.
    pub fn lock(&mut self) -> (r: &mut T)
        ensures
            *r == old(self).value(),
            final(self).value() == *final(r),
            final(self).capability() == old(self).capability(),
    {
        &mut self.data
    }
}

} // verus!
