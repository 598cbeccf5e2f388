//! The errors of the gossip of a node.

use vstd::prelude::*;

verus! {

/// Why the gossip of a node did not do what it was asked.
#[derive(Clone, Copy, Debug, PartialEq, Eq, Structural)]
pub enum CrdsGossipError {
    /// No peer is known and verified.
    NoPeers,
    /// The prune message is older than the node accepts.
    PruneMessageTimeout,
    /// The prune message was meant for another node.
    BadPruneDestination,
}

} // verus!
