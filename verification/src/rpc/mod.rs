//! The JSON-RPC layer: error codes, the wire types and their number and
//! hex formats, and the pool of submitted transactions.
use vstd::prelude::*;

pub mod types;
pub mod mempool;

verus! {

/// Errors of the JSON-RPC layer.
#[derive(Clone, Debug)]
pub enum RpcError {
    ParseError,
    InvalidRequest,
    MethodNotFound(String),
    InvalidParams(String),
    InternalError(String),
    TransactionRejected(String),
    NotFound(String),
}

/// Result type of the JSON-RPC layer.
pub type RpcResult<T> = Result<T, RpcError>;

impl RpcError {
    /// The JSON-RPC error code.
    pub fn code(&self) -> (r: i32)
        ensures
            r == match self {
                RpcError::ParseError => -32700i32,
                RpcError::InvalidRequest => -32600i32,
                RpcError::MethodNotFound(_) => -32601i32,
                RpcError::InvalidParams(_) => -32602i32,
                RpcError::InternalError(_) => -32603i32,
                RpcError::TransactionRejected(_) => -32003i32,
                RpcError::NotFound(_) => -32004i32,
            },
    {
        match self {
            RpcError::ParseError => -32700,
            RpcError::InvalidRequest => -32600,
            RpcError::MethodNotFound(_) => -32601,
            RpcError::InvalidParams(_) => -32602,
            RpcError::InternalError(_) => -32603,
            RpcError::TransactionRejected(_) => -32003,
            RpcError::NotFound(_) => -32004,
        }
    }
}

} // verus!
