//! State storage: the Merkle Patricia trie, the account database and the
//! checkpoints of changes made to it.
use vstd::prelude::*;

pub mod trie;
pub mod storage;
pub mod checkpoint;

verus! {

/// Errors of state storage.
#[derive(Clone, Debug)]
pub enum StateError {
    NotFound(String),
    InvalidProof,
    Storage(String),
    Serialization(String),
    Checkpoint(String),
}

/// Result type of state storage.
pub type StateResult<T> = Result<T, StateError>;

} // verus!
