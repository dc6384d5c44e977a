//! IPC primitives: capabilities, fixed-size messages and channels.
pub mod capability;
pub mod channel;
pub mod message;
pub mod rights;

use vstd::prelude::*;

verus! {

/// Initialise the IPC subsystem.  Capability tables and message buffers are
/// not set up yet, so there is nothing to do.
pub fn init() {
}

} // verus!
