//! Block headers.

use crate::types::bytes::push_bytes;
use crate::types::hashes::{self, BlockHash, Canonical, MerkleRoot};
use vstd::prelude::*;

verus! {

/// The header of a sidechain block.
#[derive(Debug, PartialEq, Eq)]
pub struct Header {
    /// The block that this one builds on, if it is not the first.
    pub prev_side_hash: Option<BlockHash>,
    /// The mainchain block that this one follows.
    pub prev_main_hash: hashes::Hash,
    /// The merkle root of the body.
    pub merkle_root: MerkleRoot,
    /// The roots of the accumulator once the block is connected.
    pub roots: Vec<hashes::Hash>,
}

impl Canonical for Header {
    open spec fn encodable(&self) -> bool {
        self.roots@.len() <= u32::MAX
    }

    open spec fn canonical(&self) -> Seq<u8> {
        (match self.prev_side_hash {
            Some(hash) => seq![1u8] + hash.0@,
            None => seq![0u8],
        }) + self.prev_main_hash@ + self.merkle_root.0@ + hashes::list_canonical(self.roots@)
    }

    fn encode(&self, out: &mut Vec<u8>) {
        assert(self.encodable());
        let ghost before = out@;
        match &self.prev_side_hash {
            Some(hash) => {
                out.push(1u8);
                push_bytes(out, hash.0.as_slice());
            },
            None => {
                out.push(0u8);
            },
        }
        push_bytes(out, self.prev_main_hash.as_slice());
        push_bytes(out, self.merkle_root.0.as_slice());
        hashes::encode_list(&self.roots, out);
        assert(out@ =~= before + self.canonical());
    }
}

impl Header {
    /// The hash of the block: the hash of the canonical bytes of its header.
    pub open spec fn spec_hash(&self) -> BlockHash {
        BlockHash(hashes::blake3_digest(self.canonical()))
    }

    /// The hash of the block.
    pub fn hash(&self) -> (block_hash: BlockHash)
        requires
            self.encodable(),
        ensures
            block_hash == self.spec_hash(),
    {
        BlockHash(hashes::hash(self))
    }
}

} // verus!
