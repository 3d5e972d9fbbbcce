//! Node support: the genesis document, its parsing, application and
//! export, and the node settings.

pub mod genesis;
pub mod config;
