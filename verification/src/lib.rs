//! A hash-linked, append-only ledger of transaction batches.
//!
//! Every block commits to its predecessor through a SHA-256 digest and is
//! admitted only after a proof-of-work search has found a nonce whose digest
//! starts with the required number of zero characters.

pub mod block;
pub mod blockchain;
mod clock;
pub mod codec;
pub mod config;
pub mod digest;
pub mod handlers;
pub mod integrity;
pub mod text;
pub mod transaction;

pub use block::Block;
pub use blockchain::Blockchain;
pub use config::Config;
pub use transaction::Txn;
