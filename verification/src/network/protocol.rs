//! The messages of the network protocol.
use vstd::prelude::*;
use crate::consensus::bft::BftMessage;
use crate::dag::vertex::Vertex;
use crate::primitives::transaction::Transaction;

verus! {

type VHash = crate::primitives::types::Hash;

/// The version of the protocol.
pub const PROTOCOL_VERSION: u32 = 1;

/// A message between peers.
pub enum NetworkMessage {
    NewTransaction(Transaction),
    NewVertex(Vertex),
    Consensus(BftMessage),
    SyncRequest(SyncRequest),
    SyncResponse(SyncResponse),
    Ping(u64),
    Pong(u64),
}

/// A request of the sync protocol.
pub enum SyncRequest {
    GetVertices(Vec<VHash>),
    GetVerticesSince { height: u64, limit: u32 },
    GetTransactions(Vec<VHash>),
    GetTips,
    GetFinalized,
}

/// A response of the sync protocol.
pub enum SyncResponse {
    Vertices(Vec<Vertex>),
    Transactions(Vec<Transaction>),
    Tips(Vec<VHash>),
    Finalized(Option<VHash>),
    Error(String),
}

} // verus!
