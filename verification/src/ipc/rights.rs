//! Capability rights flags.
use vstd::prelude::*;

verus! {

pub const READ: u32 = 1;

pub const WRITE: u32 = 2;

pub const GRANT: u32 = 4;

pub const REVOKE: u32 = 8;

} // verus!
