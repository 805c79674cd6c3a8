use super::peer::Peer;
use vstd::prelude::*;

verus! {

/// The protocol's messages between nodes, and the command that starts a join.
#[derive(Clone, Debug, PartialEq, Eq)]
pub enum HpvMsg {
    /// Asks the receiving node to join the overlay through the given peer.
    InitiateJoin(Peer),
    /// The given peer asks to join the overlay.
    Join(Peer),
    /// A join walking through the overlay.
    ForwardJoin { joining: Peer, forwarder: Peer, ttl: usize },
    /// Asks the receiver to take `peer` into its active view.
    Neighbour { peer: Peer, prio: bool },
    /// The answer to a `Neighbour` request.
    NeighbourReply { peer: Peer, accepted: bool },
    /// An exchange of view samples walking towards its end point.
    Shuffle { id: u32, origin: Peer, exchange: Vec<Peer>, ttl: usize },
    /// The end point's sample, sent back to the shuffle's origin.
    ShuffleReply(u32, Vec<Peer>),
    /// The given peer drops the receiver from its active view.
    Disconnect(Peer),
}

} // verus!
