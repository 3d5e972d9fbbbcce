//! NexusChain core library: primitives, DAG, consensus, EVM support,
//! ISO financial messaging and state storage, with verified contracts.

pub mod primitives;
pub mod iso;
pub mod evm;
pub mod consensus;
pub mod dag;
pub mod node;
pub mod state;
pub mod rpc;
pub mod network;
