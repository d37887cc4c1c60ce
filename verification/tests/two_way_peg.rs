use thunder_orchard::state::rollback::RollBack;
use thunder_orchard::state::two_way_peg::{
    last_block_hash, BundleRecord, WithdrawalBundle, WithdrawalBundleInfo, WithdrawalBundleStatus,
};
use thunder_orchard::state::State;
use thunder_orchard::types::hashes::M6id;
use thunder_orchard::types::transaction::{
    BitcoinOutPoint, Content, OutPoint, Output, TransparentAddress,
};

fn sample_bundle() -> WithdrawalBundle {
    WithdrawalBundle {
        spend_utxos: vec![(
            OutPoint::Deposit(BitcoinOutPoint { txid: [1; 32], vout: 2 }),
            Output {
                address: TransparentAddress([3; 20]),
                content: Content::Value(9),
            },
        )],
        tx: vec![5, 6, 7],
    }
}

#[test]
fn new_state_has_no_peg_data() {
    let state = State::new();
    assert_eq!(state.get_latest_failed_withdrawal_bundle(), None);
    assert_eq!(state.get_pending_withdrawal_bundle(), None);
    assert_eq!(state.get_last_deposit_block_hash(), None);
    assert_eq!(state.get_last_withdrawal_bundle_event_block_hash(), None);
}

#[test]
fn pending_bundle_is_handed_out_with_its_height() {
    let mut state = State::new();
    state.pending_withdrawal_bundle = Some((sample_bundle(), 12));
    assert_eq!(state.get_pending_withdrawal_bundle(), Some((sample_bundle(), 12)));
    assert_eq!(state.pending_withdrawal_bundle, Some((sample_bundle(), 12)));
}

#[test]
fn last_blocks_are_the_last_applied() {
    let mut state = State::new();
    state.deposit_blocks.push(([1; 32], 3));
    assert_eq!(state.get_last_deposit_block_hash(), Some([1; 32]));
    state.deposit_blocks.push(([2; 32], 5));
    assert_eq!(state.get_last_deposit_block_hash(), Some([2; 32]));
    assert_eq!(state.get_last_withdrawal_bundle_event_block_hash(), None);
    state.withdrawal_bundle_event_blocks.push(([7; 32], 5));
    state.withdrawal_bundle_event_blocks.push(([8; 32], 6));
    assert_eq!(state.get_last_withdrawal_bundle_event_block_hash(), Some([8; 32]));
    assert_eq!(last_block_hash(&vec![]), None);
    assert_eq!(last_block_hash(&vec![([9; 32], 0)]), Some([9; 32]));
}

#[test]
fn latest_failure_comes_with_the_height_at_which_it_failed() {
    let mut state = State::new();
    let first = M6id([1; 32]);
    let second = M6id([2; 32]);

    let mut status = RollBack::new(WithdrawalBundleStatus::Submitted, 4);
    status.push(WithdrawalBundleStatus::Failed, 9).unwrap();
    state.withdrawal_bundles.put(
        &first.0,
        BundleRecord { info: WithdrawalBundleInfo::Known(sample_bundle()), status },
    );
    state.latest_failed_withdrawal_bundle = Some(RollBack::new(first, 9));
    assert_eq!(state.get_latest_failed_withdrawal_bundle(), Some((9, first)));

    state.withdrawal_bundles.put(
        &second.0,
        BundleRecord {
            info: WithdrawalBundleInfo::Unknown,
            status: RollBack::new(WithdrawalBundleStatus::Failed, 15),
        },
    );
    state.latest_failed_withdrawal_bundle.as_mut().unwrap().push(second, 15).unwrap();
    assert_eq!(state.get_latest_failed_withdrawal_bundle(), Some((15, second)));

    state.latest_failed_withdrawal_bundle.as_mut().unwrap().pop();
    assert_eq!(state.get_latest_failed_withdrawal_bundle(), Some((9, first)));
}

#[test]
fn only_a_known_bundle_is_known() {
    assert!(WithdrawalBundleInfo::Known(sample_bundle()).is_known());
    assert!(!WithdrawalBundleInfo::Unknown.is_known());
    assert!(!WithdrawalBundleInfo::UnknownConfirmed { spend_utxos: vec![] }.is_known());
}
