//! Consensus core of a sidechain node: the ledger state, block validation,
//! connecting and disconnecting blocks, the transaction pool, and the rules
//! that authorize spending.

pub mod authorization;
pub mod mempool;
pub mod node;
pub mod state;
pub mod table;
pub mod types;
pub mod wallet_sync;
