//! Consensus: validators and their stake, the BFT finality rounds,
//! proof of stake, block proposal and the compliance log.
use vstd::prelude::*;

pub mod validator;
pub mod proposer;
pub mod pos;
pub mod bft;
pub mod iso_logger;

verus! {

/// Errors of the consensus layer.
#[derive(Clone, Debug)]
pub enum ConsensusError {
    InvalidSignature,
    UnknownValidator(String),
    InsufficientStake { required: u64, available: u64 },
    InvalidProposal(String),
    DuplicateVote,
    InvalidVote(String),
    NotReached,
    SlashingCondition(String),
    EpochMismatch { expected: u64, got: u64 },
    NotLeader,
}

/// Result type of the consensus layer.
pub type ConsensusResult<T> = Result<T, ConsensusError>;

} // verus!
