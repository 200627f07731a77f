//! A transaction builder for a UTXO ledger with script support.
//!
//! Starting from a high-level request (payments, mints, script invocations)
//! and a point-in-time snapshot of chain state, the library resolves hash
//! references, selects spending and collateral inputs, iterates fee and
//! change to a fixed point, and assembles a fully balanced transaction body
//! ready for signing. Every build either returns a transaction that conserves
//! value exactly, or fails with a precise, recoverable error.

pub mod balance;
pub mod bytes;
pub mod chain;
pub mod collateral;
pub mod error;
pub mod fees;
pub mod indexer;
pub mod ledger;
pub mod request;
pub mod resolve;
pub mod value;
