//! The hello exchange with a newly heard peer, and the one callback to the
//! tunnel manager that ends it: the reserved tunnel port goes back on every
//! failure, and a reply brings the peer's identity with the port.
use vstd::prelude::*;

use crate::types::Identity;

verus! {

/// What a node tells a neighbour about itself.
#[derive(Clone, Copy, Debug, PartialEq, Eq, Hash, Structural)]
pub struct LocalIdentity {
    pub wg_port: u16,
    pub global: Identity,
}

/// A neighbour heard on the local network, and where to contact it.
#[derive(Clone, Copy, Debug, PartialEq, Eq, Hash, Structural)]
pub struct Peer {
    pub ifidx: u32,
    pub contact_ip: u128,
    pub contact_port: u16,
}

/// A hello to send: our identity, with the tunnel port reserved for `to`.
#[derive(Clone, Copy, Debug, PartialEq, Eq, Structural)]
pub struct Hello {
    pub my_id: LocalIdentity,
    pub to: Peer,
}

/// The stage at which a hello exchange failed.
#[derive(Clone, Copy, Debug, PartialEq, Eq, Structural)]
pub enum HelloFailure {
    Connect,
    Serialize,
    Send,
    Response,
    Parse,
}

/// How a hello exchange ended.
#[derive(Clone, Copy, Debug, PartialEq, Eq, Structural)]
pub enum HelloOutcome {
    Failed(HelloFailure),
    Replied(LocalIdentity),
}

/// The message for the tunnel manager that closes a hello exchange.
#[derive(Clone, Copy, Debug, PartialEq, Eq, Structural)]
pub enum TunnelCallback {
    /// Releases the reserved port.
    Port(u16),
    /// The peer's identity, the peer, and the port reserved for it.
    Identity { their_id: LocalIdentity, peer: Peer, wg_port: Option<u16> },
}

/// Sends hellos to peers; it holds no state.
#[derive(Clone, Copy, Debug, PartialEq, Eq, Structural)]
pub struct HTTPClient;

impl HTTPClient {
    /// The one callback that ends the exchange for `msg`: the port back to
    /// the tunnel manager on any failure, else the peer's reply with it.
    pub fn handle(&self, msg: Hello, outcome: HelloOutcome) -> (r: TunnelCallback)
        ensures
            match outcome {
                HelloOutcome::Failed(_) => r == TunnelCallback::Port(msg.my_id.wg_port),
                HelloOutcome::Replied(their_id) => r == (TunnelCallback::Identity {
                    their_id,
                    peer: msg.to,
                    wg_port: Some(msg.my_id.wg_port),
                }),
            },
    {
        let wg_port = msg.my_id.wg_port;
        match outcome {
            HelloOutcome::Failed(_) => TunnelCallback::Port(wg_port),
            HelloOutcome::Replied(their_id) => TunnelCallback::Identity {
                their_id,
                peer: msg.to,
                wg_port: Some(wg_port),
            },
        }
    }
}

} // verus!
