//! IPC message format: fixed size, register-sized fields.
use vstd::prelude::*;

verus! {

/// Payload size in bytes.
pub const MSG_PAYLOAD_SIZE: usize = 112;

/// Number of payload words.
pub const MSG_PAYLOAD_WORDS: usize = 14;

/// IPC message.
#[derive(Clone, Copy)]
pub struct Msg {
    /// Message type / opcode.
    pub code: u64,
    /// Sender capability.
    pub sender: u64,
    /// Payload data.
    pub payload: [u64; 14],
}

impl Msg {
    /// A message with `code`, no sender and an all-zero payload.
    pub fn new(code: u64) -> (r: Self)
        ensures
            r.code == code,
            r.sender == 0,
            forall|i: int| 0 <= i < 14 ==> #[trigger] r.payload@[i] == 0,
    {
        Msg { code, sender: 0, payload: [0, 0, 0, 0, 0, 0, 0, 0, 0, 0, 0, 0, 0, 0] }
    }

    /// A message with `code`, no sender and `payload`.
    pub fn with_payload(code: u64, payload: [u64; 14]) -> (r: Self)
        ensures
            r.code == code,
            r.sender == 0,
            r.payload == payload,
    {
        Msg { code, sender: 0, payload }
    }
}

} // verus!
