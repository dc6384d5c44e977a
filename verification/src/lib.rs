//! Elminux kernel and userland logic: memory management, page tables,
//! ACPI parsing, descriptor tables, IPC, scheduling and the syscall ABI,
//! written as verified Verus code over explicit models of machine state.
use vstd::prelude::*;

pub mod boot;
pub mod drivers;
pub mod elinit;
pub mod elstd;
pub mod epkg;
pub mod hal;
pub mod image;
pub mod ipc;
pub mod mm;
pub mod modsh;
pub mod sched;
pub mod sync;
pub mod syscall;
pub mod text;
