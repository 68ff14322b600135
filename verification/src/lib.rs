//! A UTXO-model ledger core for a permissioned blockchain.
//!
//! Raw transactions are compiled into validated effects, effects are checked
//! against and applied to the global ledger state, and committed history is
//! sealed behind an append-only accumulator, an unspent-output bitmap and a
//! chained global digest.

pub mod bitmap;
pub mod builder;
pub mod codec;
pub mod crypto;
pub mod effects;
pub mod errors;
pub mod laws;
pub mod merkle;
pub mod snapshot;
pub mod state;
pub mod status;
pub mod txlog;
pub mod types;
pub mod umap;
pub mod wire;
