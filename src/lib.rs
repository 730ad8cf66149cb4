//! Ledger core of a small proof-of-work UTXO network: content-addressed
//! transactions and blocks, signature and ownership checks, value
//! conservation, and height-based fork choice.

pub mod block;
pub mod crypto;
pub mod error;
pub mod hash;
pub mod laws;
pub mod ledger;
pub mod table;
pub mod transaction;

pub use crypto::{Address, PrivateKey, PublicKey};
pub use error::PrimitiveError;
pub use block::{Block, BlockBody, BlockDesc};
pub use hash::Digest;
pub use ledger::{Action, Blockchain, TX_PER_BLOCK};
pub use transaction::{Transaction, TxIn, TxOut, TxOutPtr};
