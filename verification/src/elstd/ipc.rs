//! IPC bindings: message send and receive on a capability, and typed
//! channels.  The system calls are not wired up yet, so sends are accepted
//! and receives deliver nothing.
use vstd::prelude::*;
use core::marker::PhantomData;

verus! {

/// Send the words of `msg` on capability `cap`.
pub fn send(_cap: u64, _msg: &[u64]) -> (r: Result<(), SendError>)
    ensures
        r is Ok,
{
    Ok(())
}

/// Receive a message on capability `cap` into `buf`; `buf` is left as it
/// is.
pub fn recv(_cap: u64, _buf: &mut [u64]) -> (r: Result<(), RecvError>)
    ensures
        r is Ok,
        final(_buf)@ == old(_buf)@,
{
    Ok(())
}

/// A channel carrying values of type `T` over one capability.
pub struct Channel<T> {
    cap: u64,
    _marker: PhantomData<T>,
}

impl<T> Channel<T> {
    /// Capability the channel uses.
    pub closed spec fn capability(&self) -> u64 {
        self.cap
    }

    /// A channel over capability `cap`.
    pub fn new(cap: u64) -> (r: Self)
        ensures
            r.capability() == cap,
    {
        Channel { cap, _marker: PhantomData }
    }

    /// Send `value`: accepted.
    pub fn send(&self, _value: T) -> (r: Result<(), SendError>)
        ensures
            r is Ok,
    {
        Ok(())
    }

    /// Receive a value: nothing has arrived.
    pub fn recv(&self) -> (r: Result<T, RecvError>)
        ensures
            r == Err::<T, RecvError>(RecvError::WouldBlock),
    {
        Err(RecvError::WouldBlock)
    }
}

/// Send failures.
#[derive(Debug, Clone, Copy, PartialEq, Eq, Structural)]
pub enum SendError {
    InvalidCap,
    WouldBlock,
    Other,
}

/// Receive failures.
#[derive(Debug, Clone, Copy, PartialEq, Eq, Structural)]
pub enum RecvError {
    InvalidCap,
    WouldBlock,
    Other,
}

} // verus!
