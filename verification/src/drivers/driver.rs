//! Driver interface.
use vstd::prelude::*;
use crate::ipc::capability::Cap;
use crate::ipc::message::Msg;

verus! {

/// Interface of kernel-managed drivers, implemented by each driver.
pub trait Driver {
    /// Initialise the driver, returning the capability to reach it.
    fn init(&self) -> Result<Cap, DriverError>;

    /// Handle an IPC message from user space and produce the reply.
    fn handle_msg(&self, msg: Msg) -> Msg;
}

/// Driver errors.
#[derive(Clone, Copy, PartialEq, Eq, Structural)]
pub enum DriverError {
    InitFailed,
    NoResources,
    InvalidRequest,
}

} // verus!
