//! The chat relay: each connection reads lines from its peer, publishes them
//! to every connection, and writes out what other peers published.

use vstd::prelude::*;

verus! {

/// A peer's socket address as plain values: the IP address as a number
/// (IPv4 addresses in the low 32 bits), whether it is IPv6, the port, and
/// for IPv6 the flow label and scope id (zero for IPv4). Two addresses are
/// the same when all fields are.
#[derive(Clone, Copy, Debug, PartialEq, Eq, Structural)]
pub struct PeerAddr {
    pub ip: u128,
    pub v6: bool,
    pub port: u16,
    pub flowinfo: u32,
    pub scope_id: u32,
}

/// What happened on one connection.
pub enum RelayEvent {
    /// A line was read from the peer; `text` is what the read buffer holds.
    LineRead(String),
    /// Reading from the peer failed.
    ReadFailed,
    /// A line published by `from` arrived on the broadcast channel.
    Delivered { text: String, from: PeerAddr },
}

/// What the connection does next.
pub enum RelayAction {
    /// Publish `text` as sent by `from` to all connections, then clear the
    /// read buffer.
    Publish { text: String, from: PeerAddr },
    /// Write `text` to the peer.
    Write(String),
    /// Do nothing.
    Ignore,
    /// Leave the connection.
    Stop,
}

/// One connection of the relay, serving the peer at `own`.
pub struct Relay {
    pub own: PeerAddr,
}

impl Relay {
    /// The connection's reaction to an event: a line read is published under
    /// the peer's own address, a failed read ends the connection, and a
    /// delivered line is written to the peer unless the peer sent it itself.
    pub fn step(&self, event: RelayEvent) -> (a: RelayAction)
        ensures
            event matches RelayEvent::LineRead(t) ==> (a matches RelayAction::Publish {
                text,
                from,
            } && text@ == t@ && from == self.own),
            event is ReadFailed ==> a is Stop,
            event matches RelayEvent::Delivered { text: t, from: f } ==> {
                &&& f == self.own ==> a is Ignore
                &&& f != self.own ==> (a matches RelayAction::Write(w) && w@ == t@)
            },
    {
        match event {
            RelayEvent::LineRead(text) => RelayAction::Publish { text, from: self.own },
            RelayEvent::ReadFailed => RelayAction::Stop,
            RelayEvent::Delivered { text, from } => {
                if from == self.own {
                    RelayAction::Ignore
                } else {
                    RelayAction::Write(text)
                }
            },
        }
    }
}

} // verus!
