//! The error type shared by the core modules.
use vstd::prelude::*;

verus! {

/// Errors of core operations.
#[derive(Clone, Debug)]
pub enum NexusError {
    Crypto(String),
    Validation(String),
    Consensus(String),
    State(String),
    Evm(String),
    Zkp(String),
    Iso(String),
    Network(String),
    Storage(String),
    Serialization(String),
    Config(String),
    InsufficientFunds { required: String, available: String },
    NonceMismatch { expected: u64, got: u64 },
    GasLimitExceeded { limit: u64, used: u64 },
    InvalidSignature,
    Dag(String),
    VertexNotFound(String),
    TransactionNotFound(String),
    InvalidProof,
    DuplicateNullifier,
    Unknown(String),
}

/// Result type of core operations.
pub type Result<T> = core::result::Result<T, NexusError>;

} // verus!
