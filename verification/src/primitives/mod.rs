pub mod types;
pub mod text;
pub mod u256_traits;
pub mod hashing;
pub mod address;
pub mod error;
pub mod crypto;
pub mod transaction;
pub mod clock;
