//! I/O traits for capability-based IPC streams.
use vstd::prelude::*;

verus! {

/// A byte source.
pub trait Read {
    /// Read bytes into `buf`, returning how many were read.
    fn read(&mut self, buf: &mut [u8]) -> Result<usize, ReadError>;
}

/// A byte sink.
pub trait Write {
    /// Write bytes from `buf`, returning how many were written.
    fn write(&mut self, buf: &[u8]) -> Result<usize, WriteError>;

    /// Flush buffered output.
    fn flush(&mut self) -> Result<(), WriteError>;
}

/// A buffered byte source.
pub trait BufRead: Read {
    /// The buffered bytes, refilling the buffer when it is empty.
    fn fill_buf(&mut self) -> Result<&[u8], ReadError>;

    /// Mark `amt` buffered bytes as consumed.
    fn consume(&mut self, amt: usize);
}

/// Read failures.
#[derive(Debug, Clone, Copy, PartialEq, Eq, Structural)]
pub enum ReadError {
    Interrupted,
    WouldBlock,
    Other,
}

/// Write failures.
#[derive(Debug, Clone, Copy, PartialEq, Eq, Structural)]
pub enum WriteError {
    Interrupted,
    WouldBlock,
    Other,
}

} // verus!
