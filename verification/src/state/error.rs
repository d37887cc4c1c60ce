//! The reasons for which the state refuses a transaction or a block.

use crate::types::accumulator::UtreexoError;
use crate::types::hashes::{BlockHash, MerkleRoot, Txid};
use crate::types::orchard::{Anchor, Nullifier};
use crate::types::transaction::{AmountOverflowError, AmountUnderflowError, OutPoint};
use vstd::prelude::*;

verus! {

/// The merkle root in the header is not the one of the body.
#[derive(Clone, Copy, Debug, PartialEq, Eq)]
pub struct InvalidBody {
    pub expected: MerkleRoot,
    pub computed: MerkleRoot,
}

/// The header does not fit the chain.
#[derive(Clone, Copy, Debug, PartialEq, Eq)]
#[allow(inconsistent_fields)]
pub enum InvalidHeader {
    /// The hash of the header is not the hash of the tip.
    BlockHash { expected: BlockHash, computed: BlockHash },
    /// The header does not build on the tip.
    PrevSideHash { expected: Option<BlockHash>, received: Option<BlockHash> },
}

/// What is wrong with the shielded part of a transaction.
#[derive(Clone, Copy, Debug, PartialEq, Eq)]
pub enum Orchard {
    /// The note commitment tree is full.
    AppendCommitment,
    /// The anchor of the empty tree is only for bundles that do not spend.
    EmptyAnchor,
    /// The anchor was never a root of the note commitment tree.
    InvalidAnchor { anchor: Anchor },
    /// A nullifier that should be recorded is not.
    MissingNullifier { nullifier: Nullifier },
    /// The nullifier was shown before.
    NullifierDoubleSpent { nullifier: Nullifier },
}

/// There is no unspent output at the outpoint.
#[derive(Clone, Copy, Debug, PartialEq, Eq)]
pub struct NoUtxo {
    pub outpoint: OutPoint,
}

/// Why a transaction could not be connected.
#[derive(Clone, Copy, Debug, PartialEq, Eq)]
pub enum ConnectTransaction {
    NoUtxo(NoUtxo),
    Orchard(Orchard),
}

/// Why a block could not be connected.
#[derive(Clone, Copy, Debug, PartialEq, Eq)]
pub enum ConnectBlock {
    ConnectTransaction { txid: Txid, source: ConnectTransaction },
    InvalidBody(InvalidBody),
    InvalidHeader(InvalidHeader),
    Orchard(Orchard),
    Utreexo(UtreexoError),
}

/// Why the state refuses what it was asked.
#[derive(Clone, Copy, Debug, PartialEq, Eq)]
pub enum Error {
    /// A signature, or the shielded part, does not verify.
    AuthorizationError,
    AmountOverflow(AmountOverflowError),
    AmountUnderflow(AmountUnderflowError),
    /// The body takes more bytes than a body may at this height.
    BodyTooLarge,
    /// The body has a list too long to be encoded.
    BorshSerialize,
    ConnectBlock(ConnectBlock),
    InvalidBody(InvalidBody),
    InvalidHeader(InvalidHeader),
    /// The coinbase pays out more than the fees of the block.
    NotEnoughFees,
    /// There is no block to disconnect.
    NoTip,
    /// There is no spent output at the outpoint.
    NoStxo { outpoint: OutPoint },
    /// The transaction creates more than it spends.
    NotEnoughValueIn,
    NoUtxo(NoUtxo),
    Orchard(Orchard),
    Utreexo(UtreexoError),
    /// The inclusion proof of the transaction does not hold.
    UtreexoProofFailed { txid: Txid },
    /// The accumulator does not come to the roots that the header names.
    UtreexoRootsMismatch,
    /// An output is spent twice in one block.
    UtxoDoubleSpent,
    /// The body holds more authorizations than a body may at this height.
    TooManySigops,
    /// An authorization is by a key other than the one of the output.
    WrongPubKeyForAddress,
}

} // verus!
