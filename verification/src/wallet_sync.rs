//! Bringing a wallet to the tip of the node: which blocks the wallet has to
//! take back, and which it has to take in.

use crate::node::mainchain_task::reverse;
use crate::state::block::reversed;
use crate::types::hashes::{hash_equal, BlockHash};
use vstd::prelude::*;

verus! {

/// What a wallet has to do to come to the tip of the node.
#[derive(Debug, PartialEq, Eq)]
pub struct WalletUpdate {
    /// The newest block that the wallet and the node have both, if there
    /// is one.
    pub common_ancestor: Option<BlockHash>,
    /// The blocks that the wallet takes back, the newest first.
    pub disconnect: Vec<BlockHash>,
    /// The blocks that the wallet takes in afterwards, the oldest first.
    pub connect: Vec<BlockHash>,
}

/// The place of the first block of `chain`, from place `from` on, that is
/// `block`; the length of the chain where there is none.
pub open spec fn place_of(chain: Seq<BlockHash>, block: BlockHash, from: int) -> int
    decreases chain.len() - from,
{
    if from < 0 || from >= chain.len() {
        chain.len() as int
    } else if chain[from] == block {
        from
    } else {
        place_of(chain, block, from + 1)
    }
}

/// The place of the first block of `wallet`, from place `from` on, that is
/// on `node` too; the length of `wallet` where there is none.
pub open spec fn first_shared(wallet: Seq<BlockHash>, node: Seq<BlockHash>, from: int) -> int
    decreases wallet.len() - from,
{
    if from < 0 || from >= wallet.len() {
        wallet.len() as int
    } else if place_of(node, wallet[from], 0) < node.len() {
        from
    } else {
        first_shared(wallet, node, from + 1)
    }
}

/// The place of the first block of `chain` that is `block`; the length of
/// the chain where there is none.
pub fn find_block(chain: &Vec<BlockHash>, block: &BlockHash) -> (place: usize)
    ensures
        place == place_of(chain@, *block, 0),
        place <= chain@.len(),
{
    let mut i: usize = 0;
    while i < chain.len()
        invariant
            i <= chain@.len(),
            place_of(chain@, *block, 0) == place_of(chain@, *block, i as int),
        decreases chain@.len() - i,
    {
        if hash_equal(&chain[i].0, &block.0) {
            return i;
        }
        i += 1;
    }
    i
}

/// What the wallet has to do to come to the tip of the node. `node` holds
/// the tip of the node and its ancestors, the newest first, and `wallet`
/// the tip of the wallet and its ancestors. The wallet takes back its
/// blocks down to the newest that the node has too, and then takes in the
/// blocks of the node from there up.
#[verifier::loop_isolation(false)]
pub fn plan_update(node: &Vec<BlockHash>, wallet: &Vec<BlockHash>) -> (plan: WalletUpdate)
    ensures
        plan.disconnect@ == wallet@.take(first_shared(wallet@, node@, 0)),
        plan.common_ancestor == (if first_shared(wallet@, node@, 0) < wallet@.len() {
            Some(wallet@[first_shared(wallet@, node@, 0)])
        } else {
            None
        }),
        plan.connect@ == reversed(
            node@.take(
                match plan.common_ancestor {
                    Some(block) => place_of(node@, block, 0),
                    None => node@.len() as int,
                },
            ),
        ),
{
    let mut disconnect: Vec<BlockHash> = Vec::new();
    let mut common_ancestor: Option<BlockHash> = None;
    let mut shared_at: usize = node.len();
    let mut i: usize = 0;
    while i < wallet.len()
        invariant
            i <= wallet@.len(),
            first_shared(wallet@, node@, 0) == first_shared(wallet@, node@, i as int),
            disconnect@ == wallet@.take(i as int),
            common_ancestor is None,
            shared_at == node@.len(),
        decreases wallet@.len() - i,
    {
        let place = find_block(node, &wallet[i]);
        if place < node.len() {
            common_ancestor = Some(wallet[i]);
            shared_at = place;
            break ;
        }
        disconnect.push(wallet[i]);
        i += 1;
        assert(disconnect@ =~= wallet@.take(i as int));
    }
    let mut newer: Vec<BlockHash> = Vec::new();
    let mut j: usize = 0;
    while j < shared_at
        invariant
            j <= shared_at <= node@.len(),
            newer@ == node@.take(j as int),
        decreases shared_at - j,
    {
        newer.push(node[j]);
        j += 1;
        assert(newer@ =~= node@.take(j as int));
    }
    WalletUpdate { common_ancestor, disconnect, connect: reverse(&newer) }
}

} // verus!
