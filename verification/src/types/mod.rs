//! The data model: hashes, transactions, blocks, and their canonical bytes.

pub mod accumulator;
pub mod body;
pub mod bytes;
pub mod hashes;
pub mod header;
pub mod orchard;
pub mod transaction;
