//! EVM support: gas accounting and the fee market, precompiled contracts,
//! receipts and logs, and the account state with its journal.
use vstd::prelude::*;

pub mod gas;
pub mod precompiles;
pub mod modexp;
pub mod bn254;
pub mod receipt;
pub mod state;
pub mod executor;

verus! {

/// Errors of EVM execution.
#[derive(Clone, Debug)]
pub enum EvmError {
    Revert(String),
    OutOfGas { used: u64, limit: u64 },
    InvalidOpcode(u8),
    StackUnderflow,
    StackOverflow,
    InvalidJump(u64),
    StateError(String),
    PrecompileError(String),
    CreateFailed(String),
    NonceMismatch { expected: u64, got: u64 },
    InsufficientBalance { required: String, available: String },
    InvalidSignature,
}

/// Result type of EVM operations.
pub type EvmResult<T> = Result<T, EvmError>;

} // verus!
