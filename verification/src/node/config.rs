//! Node settings for consensus, storage and logging, and the node's
//! status and errors.
use vstd::prelude::*;

verus! {

/// Consensus settings of a node.
#[derive(Clone, Debug)]
pub struct ConsensusConfig {
    /// Whether the node validates.
    pub validator: bool,
    /// Path of the validator key file.
    pub validator_key: Option<String>,
    /// Target interval between vertices, in milliseconds.
    pub vertex_interval_ms: u64,
    pub max_txs_per_vertex: usize,
    /// Epoch length, in seconds.
    pub epoch_duration: u64,
}

impl Default for ConsensusConfig {
    fn default() -> (r: Self)
        ensures
            !r.validator && r.validator_key is None && r.vertex_interval_ms == 500,
            r.max_txs_per_vertex == 1000 && r.epoch_duration == 86400,
    {
        ConsensusConfig { validator: false, validator_key: None, vertex_interval_ms: 500, max_txs_per_vertex: 1000, epoch_duration: 86400 }
    }
}

/// The kind of database.
#[derive(Clone, Copy, Debug, PartialEq, Eq, Structural)]
pub enum DatabaseType {
    Memory,
    RocksDb,
}

/// Storage settings of a node.
#[derive(Clone, Copy, Debug)]
pub struct StorageConfig {
    pub db_type: DatabaseType,
    pub cache_size_mb: usize,
    pub pruning: bool,
    /// Epochs kept when pruning.
    pub pruning_depth: u64,
}

impl Default for StorageConfig {
    fn default() -> (r: Self)
        ensures r.db_type == DatabaseType::Memory && r.cache_size_mb == 256 && !r.pruning && r.pruning_depth == 30,
    {
        StorageConfig { db_type: DatabaseType::Memory, cache_size_mb: 256, pruning: false, pruning_depth: 30 }
    }
}

/// Logging settings of a node.
#[derive(Clone, Debug)]
pub struct LoggingConfig {
    pub level: String,
    /// "text" or "json".
    pub format: String,
    /// Path of the log file.
    pub file: Option<String>,
}

impl Default for LoggingConfig {
    fn default() -> (r: Self)
        ensures r.level@ == "info"@ && r.format@ == "text"@ && r.file is None,
    {
        LoggingConfig { level: "info".to_owned(), format: "text".to_owned(), file: None }
    }
}

/// Errors of configuration.
#[derive(Debug)]
pub enum ConfigError {
    IoError(String),
    ParseError(String),
    Invalid(String),
}

/// What a node reports of itself.
#[derive(Clone, Debug)]
pub struct NodeStatus {
    pub name: String,
    pub chain_id: u64,
    pub is_validator: bool,
    pub validator_address: Option<String>,
    pub dag_height: u64,
    pub total_vertices: u64,
    pub total_transactions: u64,
    pub tips_count: u64,
    pub peers_count: u64,
    pub epoch: u64,
    pub synced: bool,
}

/// Errors of a node.
#[derive(Debug)]
pub enum NodeError {
    Config(String),
    Io(String),
    Network(String),
    Consensus(String),
    Storage(String),
}

} // verus!
