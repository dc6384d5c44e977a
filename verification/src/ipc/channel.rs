//! Channels: synchronous rendezvous between one sender and one receiver.
//!
//! `send` and `recv` are the decision steps of the rendezvous: they check
//! the caller's capability, move the channel to its next state and say
//! what the caller must do next (hand the message over, or block).  The
//! blocking itself is done by whoever runs the threads.
use vstd::prelude::*;
use crate::ipc::capability::{Cap, CapEntry, CapTarget};
use crate::ipc::message::Msg;
use crate::ipc::rights::{READ, WRITE};

verus! {

/// Channel endpoint.
#[derive(Clone, Copy)]
pub struct Channel {
    pub id: u64,
    pub peer: Option<Cap>,
    pub state: ChannelState,
}

/// Rendezvous state of a channel.
#[derive(Clone, Copy)]
pub enum ChannelState {
    Empty,
    WaitingSend(Msg),
    WaitingRecv,
}

#[derive(Clone, Copy, PartialEq, Eq, Structural)]
pub enum SendError {
    InvalidCap,
    NoRights,
    PeerClosed,
}

#[derive(Clone, Copy, PartialEq, Eq, Structural)]
pub enum RecvError {
    InvalidCap,
    NoRights,
    PeerClosed,
    WouldBlock,
}

/// What the sender does after a successful `send` step.
#[derive(Clone, Copy)]
pub enum SendAction {
    /// A receiver was waiting: hand it this message and wake it; the send
    /// is complete.
    Delivered(Msg),
    /// The message now waits in the channel: block until a receiver takes
    /// it, then the send is complete.
    Wait,
    /// Another sender's message is waiting: block until the channel is
    /// free, then send again.
    ChannelBusy,
}

/// A process's capability table and the channels its capabilities name.
pub struct IpcSpace {
    pub caps: Vec<CapEntry>,
    pub channels: Vec<Channel>,
}

/// `i` is the first entry of `caps` for the capability `c`.
pub open spec fn first_with_id(caps: Seq<CapEntry>, c: Cap, i: int) -> bool {
    &&& 0 <= i < caps.len()
    &&& caps[i].id == c
    &&& forall|j: int| 0 <= j < i ==> caps[j].id != c
}

/// The entry of `caps` for the capability `c`: the first one with its id.
pub open spec fn cap_lookup(caps: Seq<CapEntry>, c: Cap) -> Option<CapEntry> {
    if exists|i: int| first_with_id(caps, c, i) {
        Some(caps[choose|i: int| first_with_id(caps, c, i)])
    } else {
        None
    }
}

/// The channel (index among `n` channels) and the rights that `c` gives,
/// when `caps` holds `c` and it names one of those channels.
pub open spec fn channel_for(caps: Seq<CapEntry>, n: int, c: Cap) -> Option<(int, u32)> {
    match cap_lookup(caps, c) {
        Some(e) => match e.target {
            CapTarget::Channel(k) => if k < n {
                Some((k as int, e.rights))
            } else {
                None
            },
            _ => None,
        },
        None => None,
    }
}

/// The rendezvous step of a send of `msg` on a channel in state `s`: the
/// next state and what the sender does.
pub open spec fn send_step(s: ChannelState, msg: Msg) -> (ChannelState, SendAction) {
    match s {
        ChannelState::WaitingRecv => (ChannelState::Empty, SendAction::Delivered(msg)),
        ChannelState::Empty => (ChannelState::WaitingSend(msg), SendAction::Wait),
        ChannelState::WaitingSend(m) => (ChannelState::WaitingSend(m), SendAction::ChannelBusy),
    }
}

/// The rendezvous step of a receive on a channel in state `s`: the next
/// state and the receive's result (`WouldBlock`: block until a sender
/// delivers).
pub open spec fn recv_step(s: ChannelState) -> (ChannelState, Result<Msg, RecvError>) {
    match s {
        ChannelState::WaitingSend(m) => (ChannelState::Empty, Ok(m)),
        _ => (ChannelState::WaitingRecv, Err(RecvError::WouldBlock)),
    }
}

/// The channels after a send of `msg` through `c`, and the send's result:
/// an unknown capability or one that names no channel is refused, one
/// without the write right too; otherwise the channel takes its
/// rendezvous step.
pub open spec fn send_result(caps: Seq<CapEntry>, chans: Seq<Channel>, c: Cap, msg: Msg) -> (
    Seq<Channel>,
    Result<SendAction, SendError>,
) {
    match channel_for(caps, chans.len() as int, c) {
        None => (chans, Err(SendError::InvalidCap)),
        Some((k, rights)) => if rights & WRITE == 0 {
            (chans, Err(SendError::NoRights))
        } else {
            let (next, action) = send_step(chans[k].state, msg);
            (chans.update(k, Channel { state: next, ..chans[k] }), Ok(action))
        },
    }
}

/// The channels after a receive through `c`, and its result: refused as
/// for a send, with the read right in place of the write right; otherwise
/// the channel takes its rendezvous step.
pub open spec fn recv_result(caps: Seq<CapEntry>, chans: Seq<Channel>, c: Cap) -> (
    Seq<Channel>,
    Result<Msg, RecvError>,
) {
    match channel_for(caps, chans.len() as int, c) {
        None => (chans, Err(RecvError::InvalidCap)),
        Some((k, rights)) => if rights & READ == 0 {
            (chans, Err(RecvError::NoRights))
        } else {
            let (next, res) = recv_step(chans[k].state);
            (chans.update(k, Channel { state: next, ..chans[k] }), res)
        },
    }
}

proof fn lemma_first_unique(caps: Seq<CapEntry>, c: Cap, i: int, j: int)
    requires
        first_with_id(caps, c, i),
        first_with_id(caps, c, j),
    ensures
        i == j,
{
}

/// The channel index and rights that capability `c` gives in `space`.
pub fn lookup_channel(space: &IpcSpace, c: Cap) -> (r: Option<(usize, u32)>)
    ensures
        match r {
            Some((k, rights)) => channel_for(space.caps@, space.channels@.len() as int, c) == Some(
                (k as int, rights),
            ),
            None => channel_for(space.caps@, space.channels@.len() as int, c) is None,
        },
{
    let mut i: usize = 0;
    while i < space.caps.len()
        invariant
            i <= space.caps@.len(),
            forall|j: int| 0 <= j < i ==> space.caps@[j].id != c,
        decreases space.caps@.len() - i,
    {
        if space.caps[i].id.as_u64() == c.as_u64() {
            proof {
                assert(space.caps@[i as int].id == c) by {
                    crate::ipc::capability::law_cap_raw_round_trip(c, space.caps@[i as int].id);
                }
                assert(first_with_id(space.caps@, c, i as int));
                let w = choose|w: int| first_with_id(space.caps@, c, w);
                lemma_first_unique(space.caps@, c, i as int, w);
            }
            let e = space.caps[i];
            return match e.target {
                CapTarget::Channel(k) => if k < space.channels.len() as u64 {
                    Some((k as usize, e.rights))
                } else {
                    None
                },
                _ => None,
            };
        }
        i = i + 1;
    }
    assert(!exists|w: int| first_with_id(space.caps@, c, w));
    None
}

/// Send `msg` on the channel named by `chan`: check the capability and its
/// write right, then take the rendezvous step.  A waiting receiver gets
/// the message at once; otherwise the sender blocks (see `SendAction`).
pub fn send(space: &mut IpcSpace, chan: Cap, msg: Msg) -> (r: Result<SendAction, SendError>)
    ensures
        final(space).caps@ == old(space).caps@,
        (final(space).channels@, r) == send_result(old(space).caps@, old(space).channels@, chan, msg),
{
    let (k, rights) = match lookup_channel(space, chan) {
        Some(x) => x,
        None => {
            return Err(SendError::InvalidCap);
        },
    };
    if rights & WRITE == 0 {
        return Err(SendError::NoRights);
    }
    let mut ch = space.channels[k];
    let (next, action) = match ch.state {
        ChannelState::WaitingRecv => (ChannelState::Empty, SendAction::Delivered(msg)),
        ChannelState::Empty => (ChannelState::WaitingSend(msg), SendAction::Wait),
        ChannelState::WaitingSend(m) => (ChannelState::WaitingSend(m), SendAction::ChannelBusy),
    };
    ch.state = next;
    space.channels.set(k, ch);
    assert(space.channels@ =~= old(space).channels@.update(k as int, Channel { state: next, ..old(space).channels@[k as int] }));
    Ok(action)
}

/// Receive on the channel named by `chan`: check the capability and its
/// read right, then take the rendezvous step.  A waiting sender's message
/// is returned at once (and that sender's send is complete); otherwise
/// the result is `WouldBlock` and the receiver blocks until a sender
/// delivers.
pub fn recv(space: &mut IpcSpace, chan: Cap) -> (r: Result<Msg, RecvError>)
    ensures
        final(space).caps@ == old(space).caps@,
        (final(space).channels@, r) == recv_result(old(space).caps@, old(space).channels@, chan),
{
    let (k, rights) = match lookup_channel(space, chan) {
        Some(x) => x,
        None => {
            return Err(RecvError::InvalidCap);
        },
    };
    if rights & READ == 0 {
        return Err(RecvError::NoRights);
    }
    let mut ch = space.channels[k];
    let (next, res) = match ch.state {
        ChannelState::WaitingSend(m) => (ChannelState::Empty, Ok(m)),
        _ => (ChannelState::WaitingRecv, Err(RecvError::WouldBlock)),
    };
    ch.state = next;
    space.channels.set(k, ch);
    assert(space.channels@ =~= old(space).channels@.update(k as int, Channel { state: next, ..old(space).channels@[k as int] }));
    res
}

/// Rendezvous, sender first: on an idle channel whose capability gives
/// both rights, a send leaves its message waiting and blocks; the next
/// receive returns exactly that message and leaves the channel idle, so a
/// further receive gets nothing and would block.
pub proof fn law_send_then_recv(caps: Seq<CapEntry>, chans: Seq<Channel>, c: Cap, m: Msg)
    requires
        channel_for(caps, chans.len() as int, c) matches Some((k, rights)) && rights & READ != 0
            && rights & WRITE != 0 && chans[k].state is Empty,
    ensures
        ({
            let (c1, r1) = send_result(caps, chans, c, m);
            let (c2, r2) = recv_result(caps, c1, c);
            &&& r1 matches Ok(SendAction::Wait)
            &&& r2 == Ok::<Msg, RecvError>(m)
            &&& recv_result(caps, c2, c).1 == Err::<Msg, RecvError>(RecvError::WouldBlock)
        }),
{
}

/// Rendezvous, receiver first: on an idle channel whose capability gives
/// both rights, a receive would block; the next send hands its message
/// straight to that receiver and leaves the channel idle.
pub proof fn law_recv_then_send(caps: Seq<CapEntry>, chans: Seq<Channel>, c: Cap, m: Msg)
    requires
        channel_for(caps, chans.len() as int, c) matches Some((k, rights)) && rights & READ != 0
            && rights & WRITE != 0 && chans[k].state is Empty,
    ensures
        ({
            let (c1, r1) = recv_result(caps, chans, c);
            let (c2, r2) = send_result(caps, c1, c, m);
            &&& r1 == Err::<Msg, RecvError>(RecvError::WouldBlock)
            &&& r2 matches Ok(SendAction::Delivered(d)) && d == m
            &&& channel_for(caps, c2.len() as int, c) matches Some((k, _)) && c2[k].state is Empty
        }),
{
}

} // verus!
