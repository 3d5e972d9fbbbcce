//! Peer-to-peer networking: the protocol's messages, the peer table, the
//! gossip deduplication cache and the DAG sync protocol.
use vstd::prelude::*;

pub mod protocol;
pub mod peer;
pub mod gossip;
pub mod sync;

verus! {

/// Errors of the network layer.
#[derive(Debug)]
pub enum NetworkError {
    ConnectionFailed(String),
    PeerNotFound(String),
    ProtocolError(String),
    SerializationError(String),
    Timeout,
    ChannelClosed,
}

/// Result type of the network layer.
pub type NetworkResult<T> = Result<T, NetworkError>;

} // verus!
