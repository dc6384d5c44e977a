//! Scheduler: tasks and the round-robin run queue.
pub mod queue;
pub mod task;

use vstd::prelude::*;

verus! {

/// Initialise the scheduler.  No idle task or run queue is created yet.
pub fn init() {
}

/// Pick the next task and switch to it.  Context switching is not
/// implemented yet, so this does nothing.
pub fn schedule() {
}

/// The current task yields the CPU.  Not implemented yet: does nothing.
pub fn yield_current() {
}

} // verus!
