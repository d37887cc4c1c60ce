//! What the task that talks to the mainchain node asks for, in which
//! batches, and what it stores. The task itself waits and sends; here are
//! its decisions.

use crate::state::block::reversed;
use crate::types::hashes::{self, hash_equal, zero_hash};
use vstd::prelude::*;

verus! {

/// The most headers, or commitments, that are asked for at once.
pub const BATCH_REQUEST_SIZE: u32 = 1000;

/// What is asked of the mainchain task.
#[derive(Clone, Copy, Debug, PartialEq, Eq, Hash)]
pub enum Request {
    /// The headers of a mainchain block and of its ancestors, as far as
    /// they are missing.
    AncestorHeaders(hashes::Hash),
    /// The merged-mining commitments of a mainchain block and of its
    /// ancestors, as far as they are missing.
    VerifyBmm(hashes::Hash),
}

/// The mainchain node does not know the block.
#[derive(Clone, Copy, Debug, PartialEq, Eq)]
pub struct BlockNotFoundError(pub hashes::Hash);

/// Why a request could not be fulfilled.
#[derive(Clone, Copy, Debug, PartialEq, Eq)]
pub enum ResponseError {
    /// The archive refused.
    Archive,
    /// The storage could not be opened.
    DbEnv,
    /// The storage could not be written.
    DbWrite,
    /// The mainchain node could not be reached, or answered what is not
    /// understood.
    Mainchain,
}

/// The answer to a request.
#[derive(Clone, Copy, Debug, PartialEq, Eq)]
pub enum Response {
    AncestorHeaders(hashes::Hash, Result<(), ResponseError>),
    VerifyBmm(hashes::Hash, Result<Result<(), BlockNotFoundError>, ResponseError>),
}

impl Request {
    /// The request that `response` answers.
    pub fn from(response: &Response) -> (request: Request)
        ensures
            request == (match *response {
                Response::AncestorHeaders(block_hash, _) => Request::AncestorHeaders(block_hash),
                Response::VerifyBmm(block_hash, _) => Request::VerifyBmm(block_hash),
            }),
    {
        match response {
            Response::AncestorHeaders(block_hash, _) => Request::AncestorHeaders(*block_hash),
            Response::VerifyBmm(block_hash, _) => Request::VerifyBmm(*block_hash),
        }
    }
}

/// Whether `hash` is the hash of no block: 32 zero bytes.
pub fn is_zero(hash: &hashes::Hash) -> (r: bool)
    ensures
        r == (hash@ == zero_hash()),
{
    let zero = [0u8; 32];
    assert(zero@ =~= zero_hash());
    hash_equal(hash, &zero)
}

/// What the mainchain node tells of a header.
#[derive(Clone, Copy, Debug, PartialEq, Eq)]
pub struct BlockHeaderInfo {
    pub block_hash: hashes::Hash,
    pub prev_block_hash: hashes::Hash,
    pub height: u32,
    pub work: [u8; 32],
}

/// What is to be done next for a request of ancestor headers.
#[derive(Debug, PartialEq, Eq)]
pub enum HeadersAction {
    /// Nothing: the request is fulfilled.
    Done,
    /// Look in the archive whether the header of this block is known.
    AskArchive(hashes::Hash),
    /// Ask the mainchain node for the header of `tip` and of up to
    /// `max_ancestors` of its ancestors.
    Fetch { tip: hashes::Hash, max_ancestors: u32 },
    /// Store these headers, in this order, in one write; then the request
    /// is fulfilled.
    Store(Vec<BlockHeaderInfo>),
}

/// The headers gathered so far for a request of ancestor headers, the
/// newest first.
pub struct AncestorHeaders {
    gathered: Vec<BlockHeaderInfo>,
}

impl View for AncestorHeaders {
    type V = Seq<BlockHeaderInfo>;

    closed spec fn view(&self) -> Seq<BlockHeaderInfo> {
        self.gathered@
    }
}

/// The list from its last item to its first.
pub fn reverse<T: Copy>(items: &Vec<T>) -> (r: Vec<T>)
    ensures
        r@ == reversed(items@),
{
    let mut out: Vec<T> = Vec::new();
    let count = items.len();
    let mut i: usize = count;
    while i > 0
        invariant
            i <= count == items@.len(),
            out@ == reversed(items@).take(count - i),
        decreases i,
    {
        i -= 1;
        out.push(items[i]);
        assert(out@ =~= reversed(items@).take(count - i));
    }
    assert(reversed(items@).take(count as int) =~= reversed(items@));
    out
}

impl AncestorHeaders {
    /// Begins a request for the header of `block_hash` and of its
    /// ancestors: the hash of no block asks for nothing, any other is
    /// looked up in the archive first.
    pub fn start(block_hash: hashes::Hash) -> (r: (AncestorHeaders, HeadersAction))
        ensures
            r.0@ == Seq::<BlockHeaderInfo>::empty(),
            r.1 == (if block_hash@ == zero_hash() {
                HeadersAction::Done
            } else {
                HeadersAction::AskArchive(block_hash)
            }),
    {
        let request = AncestorHeaders { gathered: Vec::new() };
        if is_zero(&block_hash) {
            (request, HeadersAction::Done)
        } else {
            (request, HeadersAction::AskArchive(block_hash))
        }
    }

    /// The archive has said whether the header of `block_hash` is known.
    /// A known header ends the search: what was gathered is stored, the
    /// oldest first. An unknown header is asked of the mainchain node,
    /// with its ancestors.
    pub fn on_archive(&self, block_hash: hashes::Hash, known: bool) -> (action: HeadersAction)
        ensures
            !known ==> action == (HeadersAction::Fetch {
                tip: block_hash,
                max_ancestors: (BATCH_REQUEST_SIZE - 1) as u32,
            }),
            known && self@.len() == 0 ==> action == HeadersAction::Done,
            known && self@.len() > 0 ==> (action matches HeadersAction::Store(headers) && headers@
                == reversed(self@)),
    {
        if !known {
            HeadersAction::Fetch { tip: block_hash, max_ancestors: BATCH_REQUEST_SIZE - 1 }
        } else if self.gathered.len() == 0 {
            HeadersAction::Done
        } else {
            HeadersAction::Store(reverse(&self.gathered))
        }
    }

    /// The mainchain node has sent headers: `newer`, the newest first, and
    /// after them `oldest`. They are gathered. Where `oldest` builds on no
    /// block, all that was gathered is stored, the oldest first; else the
    /// block that it builds on is looked up in the archive.
    pub fn on_headers(&mut self, newer: &Vec<BlockHeaderInfo>, oldest: BlockHeaderInfo) -> (action:
        HeadersAction)
        ensures
            final(self)@ == old(self)@ + newer@.push(oldest),
            oldest.prev_block_hash@ != zero_hash() ==> action == HeadersAction::AskArchive(
                oldest.prev_block_hash,
            ),
            oldest.prev_block_hash@ == zero_hash() ==> (action matches HeadersAction::Store(headers)
                && headers@ == reversed(final(self)@)),
    {
        let mut i: usize = 0;
        while i < newer.len()
            invariant
                i <= newer@.len(),
                self.gathered@ == old(self).gathered@ + newer@.take(i as int),
            decreases newer@.len() - i,
        {
            self.gathered.push(newer[i]);
            i += 1;
            assert(self.gathered@ =~= old(self).gathered@ + newer@.take(i as int));
        }
        self.gathered.push(oldest);
        assert(self.gathered@ =~= old(self).gathered@ + newer@.push(oldest)) by {
            assert(newer@.take(i as int) =~= newer@);
        }
        if is_zero(&oldest.prev_block_hash) {
            HeadersAction::Store(reverse(&self.gathered))
        } else {
            HeadersAction::AskArchive(oldest.prev_block_hash)
        }
    }
}

/// The first `n` blocks of a chain of ancestors are without commitment:
/// each is a block, and the archive holds no commitment for it.
pub open spec fn all_missing(ancestors: Seq<(hashes::Hash, bool)>, n: int) -> bool {
    forall|i: int| 0 <= i < n ==> (#[trigger] ancestors[i]).0@ != zero_hash() && !ancestors[i].1
}

/// The blocks from the start of a chain of ancestors that are without
/// commitment, up to the first that has one or is no block. Each ancestor
/// comes with whether the archive holds a commitment for it.
pub fn collect_missing(ancestors: &Vec<(hashes::Hash, bool)>) -> (missing: Vec<hashes::Hash>)
    ensures
        missing@.len() <= ancestors@.len(),
        all_missing(ancestors@, missing@.len() as int),
        missing@.len() < ancestors@.len() ==> ancestors@[missing@.len() as int].0@ == zero_hash()
            || ancestors@[missing@.len() as int].1,
        forall|i: int| 0 <= i < missing@.len() ==> #[trigger] missing@[i] == ancestors@[i].0,
{
    let mut missing: Vec<hashes::Hash> = Vec::new();
    let mut i: usize = 0;
    while i < ancestors.len()
        invariant
            i <= ancestors@.len(),
            missing@.len() == i,
            all_missing(ancestors@, i as int),
            forall|j: int| 0 <= j < i ==> #[trigger] missing@[j] == ancestors@[j].0,
        decreases ancestors@.len() - i,
    {
        let (block_hash, known) = ancestors[i];
        if known || is_zero(&block_hash) {
            return missing;
        }
        missing.push(block_hash);
        i += 1;
    }
    missing
}

/// A batch of commitments to ask for: from which of the missing blocks on,
/// and for how many of its ancestors.
#[derive(Clone, Copy, Debug, PartialEq, Eq)]
pub struct Batch {
    /// The place, among the missing blocks, of the block that is asked
    /// for.
    pub start: usize,
    /// The number of ancestors of that block that are asked for with it.
    pub max_ancestors: usize,
}

/// The batch to ask for where `missing` blocks are without commitment:
/// the last thousand of them, or all where they are fewer.
pub open spec fn spec_plan_batch(missing: nat) -> Option<Batch> {
    if missing == 0 {
        None
    } else if missing >= 1000 {
        Some(Batch { start: (missing - 1000) as usize, max_ancestors: 999 })
    } else {
        Some(Batch { start: 0, max_ancestors: (missing - 1) as usize })
    }
}

/// The batch to ask for next, where `missing` blocks are without
/// commitment; none where none is missing.
pub fn plan_batch(missing: usize) -> (batch: Option<Batch>)
    ensures
        batch == spec_plan_batch(missing as nat),
        batch matches Some(b) ==> b.start + b.max_ancestors + 1 == missing,
{
    if missing == 0 {
        return None;
    }
    let max_ancestors: usize = if missing >= BATCH_REQUEST_SIZE as usize {
        BATCH_REQUEST_SIZE as usize - 1
    } else {
        missing - 1
    };
    Some(Batch { start: missing - 1 - max_ancestors, max_ancestors })
}

/// What comes of a batch of commitments.
#[derive(Debug, PartialEq, Eq)]
pub enum BatchOutcome<T> {
    /// The mainchain node sent fewer commitments than were asked for: it
    /// does not know this block.
    NotFound(BlockNotFoundError),
    /// Store each commitment for its block, in this order.
    Store(Vec<(hashes::Hash, T)>),
}

/// Settles a batch of commitments. `missing` holds the blocks without
/// commitment, the newest first; the batch was asked for the block at
/// `batch.start` and `batch.max_ancestors` of its ancestors, which are the
/// blocks after it. `first` and `rest` are the commitments that came.
/// Where fewer came than were asked for, the first block without one is
/// reported and nothing changes. Else the blocks of the batch leave
/// `missing`, and each is stored with its commitment, the oldest first:
/// the last block with the last commitment, and so on.
#[verifier::loop_isolation(false)]
pub fn settle_batch<T>(missing: &mut Vec<hashes::Hash>, batch: Batch, first: T, rest: Vec<T>) -> (outcome:
    BatchOutcome<T>)
    requires
        batch.start + batch.max_ancestors + 1 == old(missing)@.len(),
    ensures
        rest@.len() < batch.max_ancestors ==> (outcome == BatchOutcome::<T>::NotFound(
            BlockNotFoundError(old(missing)@[batch.start + rest@.len() + 1]),
        ) && final(missing)@ == old(missing)@),
        rest@.len() >= batch.max_ancestors ==> {
            &&& final(missing)@ == old(missing)@.take(batch.start as int)
            &&& outcome matches BatchOutcome::Store(pairs)
            &&& pairs@.len() == batch.max_ancestors + 1
            &&& forall|t: int|
                0 <= t < pairs@.len() ==> #[trigger] pairs@[t] == (
                    old(missing)@[old(missing)@.len() - 1 - t],
                    seq![first].add(rest@)[rest@.len() - t],
                )
        },
{
    let total = missing.len();
    assert(batch.start + batch.max_ancestors + 1 == total);
    if rest.len() < batch.max_ancestors {
        let unknown = missing[batch.start + rest.len() + 1];
        return BatchOutcome::NotFound(BlockNotFoundError(unknown));
    }
    let ghost blocks = missing@;
    let ghost came = seq![first].add(rest@);
    let mut rest = rest;
    let mut pairs: Vec<(hashes::Hash, T)> = Vec::new();
    let mut t: usize = 0;
    while t < batch.max_ancestors
        invariant
            t <= batch.max_ancestors,
            rest@ == came.subrange(1, came.len() - t),
            missing@ == blocks.take(blocks.len() - t),
            pairs@.len() == t,
            forall|j: int|
                0 <= j < t ==> #[trigger] pairs@[j] == (
                    blocks[blocks.len() - 1 - j],
                    came[came.len() - 1 - j],
                ),
        decreases batch.max_ancestors - t,
    {
        let block = match missing.pop() {
            Some(block) => block,
            None => [0u8; 32],
        };
        match rest.pop() {
            Some(commitment) => {
                pairs.push((block, commitment));
            },
            None => {},
        }
        t += 1;
        assert(rest@ =~= came.subrange(1, came.len() - t));
        assert(missing@ =~= blocks.take(blocks.len() - t));
    }
    let block = match missing.pop() {
        Some(block) => block,
        None => [0u8; 32],
    };
    assert(missing@ =~= blocks.take(batch.start as int));
    let commitment = if rest.len() == 0 {
        first
    } else {
        match rest.pop() {
            Some(commitment) => commitment,
            None => first,
        }
    };
    pairs.push((block, commitment));
    BatchOutcome::Store(pairs)
}

} // verus!
