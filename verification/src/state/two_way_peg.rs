//! What the ledger keeps of the two-way peg: the withdrawal bundles with
//! their standing on the mainchain, and the mainchain blocks whose deposits
//! and bundle events were applied.

use crate::state::rollback::HeightStamped;
use crate::state::rollback::RollBack;
use crate::types::hashes::{self, M6id};
use crate::types::transaction::{clone_vec, OutPoint, Output};
use vstd::prelude::*;

verus! {

/// Where a withdrawal bundle stands on the mainchain.
#[derive(Clone, Copy, Debug, PartialEq, Eq)]
pub enum WithdrawalBundleStatus {
    Failed,
    Confirmed,
    Submitted,
}

/// A withdrawal bundle: the outputs that it spends, and the mainchain
/// transaction that pays them out.
#[derive(Debug, PartialEq, Eq)]
pub struct WithdrawalBundle {
    /// The outputs that the bundle spends, with their outpoints.
    pub spend_utxos: Vec<(OutPoint, Output)>,
    /// The bytes of the mainchain transaction.
    pub tx: Vec<u8>,
}

pub struct WithdrawalBundleView {
    pub spend_utxos: Seq<(OutPoint, Output)>,
    pub tx: Seq<u8>,
}

impl View for WithdrawalBundle {
    type V = WithdrawalBundleView;

    open spec fn view(&self) -> WithdrawalBundleView {
        WithdrawalBundleView { spend_utxos: self.spend_utxos@, tx: self.tx@ }
    }
}

impl Clone for WithdrawalBundle {
    fn clone(&self) -> (r: Self)
        ensures
            r@ == self@,
    {
        WithdrawalBundle { spend_utxos: clone_vec(&self.spend_utxos), tx: clone_vec(&self.tx) }
    }
}

/// What is known of a withdrawal bundle.
#[derive(Debug, PartialEq, Eq)]
pub enum WithdrawalBundleInfo {
    /// The bundle is known.
    Known(WithdrawalBundle),
    /// The bundle is not known, and it is not confirmed.
    Unknown,
    /// The bundle is not known and it is confirmed: every output that was
    /// unspent then counts as spent by it.
    UnknownConfirmed { spend_utxos: Vec<(OutPoint, Output)> },
}

pub enum WithdrawalBundleInfoView {
    Known(WithdrawalBundleView),
    Unknown,
    UnknownConfirmed { spend_utxos: Seq<(OutPoint, Output)> },
}

impl View for WithdrawalBundleInfo {
    type V = WithdrawalBundleInfoView;

    open spec fn view(&self) -> WithdrawalBundleInfoView {
        match self {
            WithdrawalBundleInfo::Known(bundle) => WithdrawalBundleInfoView::Known(bundle@),
            WithdrawalBundleInfo::Unknown => WithdrawalBundleInfoView::Unknown,
            WithdrawalBundleInfo::UnknownConfirmed { spend_utxos } => {
                WithdrawalBundleInfoView::UnknownConfirmed { spend_utxos: spend_utxos@ }
            },
        }
    }
}

impl WithdrawalBundleInfo {
    /// Whether the bundle is known.
    pub fn is_known(&self) -> (r: bool)
        ensures
            r == (self@ is Known),
    {
        match self {
            WithdrawalBundleInfo::Known(_) => true,
            WithdrawalBundleInfo::Unknown => false,
            WithdrawalBundleInfo::UnknownConfirmed { .. } => false,
        }
    }
}

/// A withdrawal bundle in the ledger: what is known of it, and the standing
/// that it had on the mainchain, height by height.
pub struct BundleRecord {
    pub info: WithdrawalBundleInfo,
    pub status: RollBack<WithdrawalBundleStatus>,
}

pub struct BundleRecordView {
    pub info: WithdrawalBundleInfoView,
    pub status: Seq<HeightStamped<WithdrawalBundleStatus>>,
}

impl View for BundleRecord {
    type V = BundleRecordView;

    open spec fn view(&self) -> BundleRecordView {
        BundleRecordView { info: self.info@, status: self.status@ }
    }
}

/// The two-way peg as the contracts see it.
pub struct TwoWayPegView {
    /// The bundle that waits to be confirmed on the mainchain, and the
    /// height at which it was made.
    pub pending_withdrawal_bundle: Option<(WithdrawalBundleView, u32)>,
    /// The bundle that failed last, with the bundles that failed before it.
    pub latest_failed_withdrawal_bundle: Option<Seq<HeightStamped<M6id>>>,
    /// The bundles, by the bytes of their id.
    pub withdrawal_bundles: Map<Seq<u8>, BundleRecordView>,
    /// The mainchain blocks whose deposits were applied, each with the
    /// height at which it was, in the order in which they were.
    pub deposit_blocks: Seq<(hashes::Hash, u32)>,
    /// The mainchain blocks whose bundle events were applied, likewise.
    pub withdrawal_bundle_event_blocks: Seq<(hashes::Hash, u32)>,
}

impl TwoWayPegView {
    /// The bundle that failed last is among the bundles, and it stands as
    /// failed there.
    pub open spec fn failure_recorded(self) -> bool {
        self.latest_failed_withdrawal_bundle matches Some(failed) ==> {
            &&& failed.len() > 0
            &&& self.withdrawal_bundles.contains_key(failed.last().value.0@)
            &&& self.withdrawal_bundles[failed.last().value.0@].status.len() > 0
            &&& self.withdrawal_bundles[failed.last().value.0@].status.last().value
                == WithdrawalBundleStatus::Failed
        }
    }

    /// The bundle that failed last, with the height at which it failed.
    pub open spec fn latest_failure(self) -> Option<(u32, M6id)> {
        match self.latest_failed_withdrawal_bundle {
            Some(failed) => Some(
                (
                    self.withdrawal_bundles[failed.last().value.0@].status.last().height,
                    failed.last().value,
                ),
            ),
            None => None,
        }
    }

    /// The mainchain block of the last entry of `blocks`.
    pub open spec fn last_block(blocks: Seq<(hashes::Hash, u32)>) -> Option<hashes::Hash> {
        if blocks.len() == 0 {
            None
        } else {
            Some(blocks.last().0)
        }
    }
}

/// The mainchain block of the last entry of `blocks`.
pub fn last_block_hash(blocks: &Vec<(hashes::Hash, u32)>) -> (r: Option<hashes::Hash>)
    ensures
        r == TwoWayPegView::last_block(blocks@),
{
    if blocks.len() == 0 {
        None
    } else {
        Some(blocks[blocks.len() - 1].0)
    }
}

} // verus!
