//! One client's duplex link, as the relay core sees it: a lifecycle state,
//! the remote peer's credentials, and the ordered sequence of messages the
//! core has handed it for delivery.

use vstd::prelude::*;

use crate::message::Message;

verus! {

/// Where a connection stands in its life: handshake in progress, registered
/// and able to carry messages, or gone for good.
#[derive(Clone, Copy, PartialEq, Eq, Structural, Debug)]
pub enum ChannelState {
    Connecting,
    Open,
    Closed,
}

/// The remote peer's process credentials, reported by the transport and
/// kept as opaque metadata; never used for authorization.
#[derive(Clone, Copy, PartialEq, Eq, Structural, Debug)]
pub struct PeerCreds {
    pub uid: u32,
    pub gid: u32,
    pub pid: i64,
}

/// Why a send was refused.
#[derive(Clone, Copy, PartialEq, Eq, Structural, Debug)]
pub enum SendError {
    /// The channel is not open: the link is gone or not yet established.
    NotOpen,
}

/// The mathematical value of a channel: its state, the messages accepted
/// for delivery in order, and the peer metadata.
pub ghost struct ChannelSpec {
    pub state: ChannelState,
    pub outbox: Seq<Message>,
    pub peer: PeerCreds,
}

/// One client connection's sending half. Owns the outbound queue: a message
/// accepted here is considered delivered to this connection, in queue order.
pub struct Channel {
    state: ChannelState,
    outbox: Vec<Message>,
    peer: PeerCreds,
}

impl View for Channel {
    type V = ChannelSpec;

    closed spec fn view(&self) -> ChannelSpec {
        ChannelSpec { state: self.state, outbox: self.outbox@, peer: self.peer }
    }
}

impl Channel {
    /// A fresh link whose handshake is still in progress.
    pub fn new(peer: PeerCreds) -> (c: Channel)
        ensures
            c@.state == ChannelState::Connecting,
            c@.outbox == Seq::<Message>::empty(),
            c@.peer == peer,
    {
        Channel { state: ChannelState::Connecting, outbox: Vec::new(), peer }
    }

    /// The handshake succeeded: the link can now carry messages.
    pub fn complete_handshake(&mut self)
        requires
            old(self)@.state == ChannelState::Connecting,
        ensures
            final(self)@.state == ChannelState::Open,
            final(self)@.outbox == old(self)@.outbox,
            final(self)@.peer == old(self)@.peer,
    {
        self.state = ChannelState::Open;
    }

    /// The link ended, for whatever reason; every later send is refused.
    /// Closing an already closed channel changes nothing further.
    pub fn close(&mut self)
        ensures
            final(self)@.state == ChannelState::Closed,
            final(self)@.outbox == old(self)@.outbox,
            final(self)@.peer == old(self)@.peer,
    {
        self.state = ChannelState::Closed;
    }

    /// Accept one message for delivery. An open channel takes the message
    /// at the end of its queue, verbatim; any other state refuses it and
    /// keeps the channel exactly as it was.
    pub fn send(&mut self, m: Message) -> (r: Result<(), SendError>)
        ensures
            old(self)@.state == ChannelState::Open ==> r is Ok
                && final(self)@.outbox == old(self)@.outbox.push(m),
            old(self)@.state != ChannelState::Open ==> r == Err::<(), SendError>(SendError::NotOpen)
                && final(self)@.outbox == old(self)@.outbox,
            final(self)@.state == old(self)@.state,
            final(self)@.peer == old(self)@.peer,
    {
        match self.state {
            ChannelState::Open => {
                self.outbox.push(m);
                Ok(())
            },
            _ => Err(SendError::NotOpen),
        }
    }

    /// Hand over everything queued so far, in order, leaving the queue empty.
    pub fn take_outbox(&mut self) -> (msgs: Vec<Message>)
        ensures
            msgs@ == old(self)@.outbox,
            final(self)@.outbox == Seq::<Message>::empty(),
            final(self)@.state == old(self)@.state,
            final(self)@.peer == old(self)@.peer,
    {
        let mut taken: Vec<Message> = Vec::new();
        core::mem::swap(&mut taken, &mut self.outbox);
        taken
    }

    pub fn state(&self) -> (s: ChannelState)
        ensures
            s == self@.state,
    {
        self.state
    }

    pub fn outbox_len(&self) -> (n: usize)
        ensures
            n == self@.outbox.len(),
    {
        self.outbox.len()
    }

    /// The i-th message accepted for delivery, oldest first.
    pub fn outbox_at(&self, i: usize) -> (m: &Message)
        requires
            i < self@.outbox.len(),
        ensures
            *m == self@.outbox[i as int],
    {
        &self.outbox[i]
    }

    pub fn peer(&self) -> (p: PeerCreds)
        ensures
            p == self@.peer,
    {
        self.peer
    }
}

} // verus!
