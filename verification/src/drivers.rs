//! Driver framework: the driver interface and the kernel-side registry.
pub mod driver;
pub mod registry;
