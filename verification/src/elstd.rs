//! User-space standard library: I/O traits, IPC bindings, strings and
//! threading primitives for programs running on the kernel.
pub mod env;
pub mod io;
pub mod ipc;
pub mod string;
pub mod thread;

use vstd::prelude::*;

verus! {

/// Initialise the library.  The connection to system services is set up
/// lazily, so there is nothing to do yet.
pub fn init() {
}

} // verus!
