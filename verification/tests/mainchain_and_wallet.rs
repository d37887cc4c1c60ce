use thunder_orchard::node::mainchain_task::{
    collect_missing, is_zero, plan_batch, reverse, settle_batch, AncestorHeaders, Batch,
    BatchOutcome, BlockHeaderInfo, BlockNotFoundError, HeadersAction, Request, Response,
    ResponseError, BATCH_REQUEST_SIZE,
};
use thunder_orchard::types::hashes::BlockHash;
use thunder_orchard::wallet_sync::{find_block, plan_update, WalletUpdate};

fn hash(n: u32) -> [u8; 32] {
    let mut hash = [0u8; 32];
    hash[..4].copy_from_slice(&n.to_be_bytes());
    hash
}

fn info(n: u32) -> BlockHeaderInfo {
    BlockHeaderInfo { block_hash: hash(n), prev_block_hash: hash(n - 1), height: n, work: [0; 32] }
}

fn blocks(numbers: &[u8]) -> Vec<BlockHash> {
    numbers.iter().map(|n| BlockHash([*n; 32])).collect()
}

#[test]
fn request_of_a_response() {
    assert_eq!(
        Request::from(&Response::AncestorHeaders(hash(3), Ok(()))),
        Request::AncestorHeaders(hash(3))
    );
    assert_eq!(
        Request::from(&Response::VerifyBmm(hash(4), Err(ResponseError::Mainchain))),
        Request::VerifyBmm(hash(4))
    );
    assert_eq!(
        Request::from(&Response::VerifyBmm(hash(4), Ok(Err(BlockNotFoundError(hash(5)))))),
        Request::VerifyBmm(hash(4))
    );
}

#[test]
fn no_block_asks_for_nothing() {
    assert!(is_zero(&[0; 32]));
    assert!(!is_zero(&hash(1)));
    let (_, action) = AncestorHeaders::start([0; 32]);
    assert_eq!(action, HeadersAction::Done);
}

#[test]
fn known_header_asks_for_nothing() {
    let (request, action) = AncestorHeaders::start(hash(5));
    assert_eq!(action, HeadersAction::AskArchive(hash(5)));
    assert_eq!(request.on_archive(hash(5), true), HeadersAction::Done);
}

#[test]
fn headers_are_gathered_down_to_a_known_one_and_stored_oldest_first() {
    let (mut request, _) = AncestorHeaders::start(hash(5));
    assert_eq!(
        request.on_archive(hash(5), false),
        HeadersAction::Fetch { tip: hash(5), max_ancestors: 999 }
    );
    assert_eq!(BATCH_REQUEST_SIZE, 1000);
    assert_eq!(request.on_headers(&vec![info(5)], info(4)), HeadersAction::AskArchive(hash(3)));
    assert_eq!(
        request.on_archive(hash(3), false),
        HeadersAction::Fetch { tip: hash(3), max_ancestors: 999 }
    );
    assert_eq!(request.on_headers(&vec![], info(3)), HeadersAction::AskArchive(hash(2)));
    assert_eq!(
        request.on_archive(hash(2), true),
        HeadersAction::Store(vec![info(3), info(4), info(5)])
    );
}

#[test]
fn headers_are_gathered_down_to_the_first_block() {
    let (mut request, _) = AncestorHeaders::start(hash(2));
    assert_eq!(
        request.on_headers(&vec![info(2)], info(1)),
        HeadersAction::Store(vec![info(1), info(2)])
    );
}

#[test]
fn missing_commitments_end_at_the_first_known() {
    let ancestors =
        vec![(hash(9), false), (hash(8), false), (hash(7), true), (hash(6), false)];
    assert_eq!(collect_missing(&ancestors), vec![hash(9), hash(8)]);
    assert_eq!(collect_missing(&vec![(hash(9), false), ([0; 32], false)]), vec![hash(9)]);
    assert_eq!(collect_missing(&vec![(hash(9), true)]), Vec::<[u8; 32]>::new());
    assert_eq!(collect_missing(&vec![(hash(9), false)]), vec![hash(9)]);
    assert_eq!(collect_missing(&vec![]), Vec::<[u8; 32]>::new());
}

#[test]
fn batches_take_the_last_thousand() {
    assert_eq!(plan_batch(0), None);
    assert_eq!(plan_batch(1), Some(Batch { start: 0, max_ancestors: 0 }));
    assert_eq!(plan_batch(2), Some(Batch { start: 0, max_ancestors: 1 }));
    assert_eq!(plan_batch(999), Some(Batch { start: 0, max_ancestors: 998 }));
    assert_eq!(plan_batch(1000), Some(Batch { start: 0, max_ancestors: 999 }));
    assert_eq!(plan_batch(1001), Some(Batch { start: 1, max_ancestors: 999 }));
    assert_eq!(plan_batch(2500), Some(Batch { start: 1500, max_ancestors: 999 }));
}

#[test]
fn full_batch_is_stored_oldest_first() {
    let mut missing: Vec<[u8; 32]> = (0..5).map(|n| hash(100 - n)).collect();
    let batch = Batch { start: 2, max_ancestors: 2 };
    let outcome = settle_batch(&mut missing, batch, 'a', vec!['b', 'c']);
    assert_eq!(
        outcome,
        BatchOutcome::Store(vec![(hash(96), 'c'), (hash(97), 'b'), (hash(98), 'a')])
    );
    assert_eq!(missing, vec![hash(100), hash(99)]);
}

#[test]
fn whole_list_in_one_batch() {
    let mut missing = vec![hash(7), hash(6), hash(5)];
    let batch = plan_batch(missing.len()).unwrap();
    let outcome = settle_batch(&mut missing, batch, 1u8, vec![2, 3]);
    assert_eq!(outcome, BatchOutcome::Store(vec![(hash(5), 3), (hash(6), 2), (hash(7), 1)]));
    assert!(missing.is_empty());
    assert_eq!(plan_batch(missing.len()), None);

    let mut single = vec![hash(7)];
    let batch = plan_batch(1).unwrap();
    assert_eq!(
        settle_batch(&mut single, batch, 1u8, vec![]),
        BatchOutcome::Store(vec![(hash(7), 1)])
    );
}

#[test]
fn short_answer_names_the_block_that_is_not_found() {
    let mut missing: Vec<[u8; 32]> = (0..5).map(|n| hash(100 - n)).collect();
    let before = missing.clone();
    let batch = Batch { start: 1, max_ancestors: 3 };
    let outcome = settle_batch(&mut missing, batch, 'a', vec!['b']);
    assert_eq!(outcome, BatchOutcome::NotFound(BlockNotFoundError(hash(97))));
    assert_eq!(missing, before);
    let outcome = settle_batch(&mut missing, batch, 'a', vec![]);
    assert_eq!(outcome, BatchOutcome::NotFound(BlockNotFoundError(hash(98))));
}

#[test]
fn more_commitments_than_asked_for_pair_from_the_end() {
    let mut missing = vec![hash(7), hash(6)];
    let batch = plan_batch(2).unwrap();
    let outcome = settle_batch(&mut missing, batch, 1u8, vec![2, 3]);
    assert_eq!(outcome, BatchOutcome::Store(vec![(hash(6), 3), (hash(7), 2)]));
}

#[test]
fn reversing() {
    assert_eq!(reverse(&vec![1, 2, 3]), vec![3, 2, 1]);
    assert_eq!(reverse(&Vec::<u8>::new()), Vec::<u8>::new());
}

#[test]
fn wallet_behind_the_node_only_connects() {
    let plan = plan_update(&blocks(&[5, 4, 3, 2, 1]), &blocks(&[3, 2, 1]));
    assert_eq!(
        plan,
        WalletUpdate {
            common_ancestor: Some(BlockHash([3; 32])),
            disconnect: vec![],
            connect: blocks(&[4, 5]),
        }
    );
}

#[test]
fn wallet_on_another_branch_goes_back_to_the_fork() {
    let plan = plan_update(&blocks(&[9, 8, 2, 1]), &blocks(&[5, 4, 3, 2, 1]));
    assert_eq!(
        plan,
        WalletUpdate {
            common_ancestor: Some(BlockHash([2; 32])),
            disconnect: blocks(&[5, 4, 3]),
            connect: blocks(&[8, 9]),
        }
    );
}

#[test]
fn wallet_at_the_tip_does_nothing() {
    let plan = plan_update(&blocks(&[2, 1]), &blocks(&[2, 1]));
    assert_eq!(
        plan,
        WalletUpdate {
            common_ancestor: Some(BlockHash([2; 32])),
            disconnect: vec![],
            connect: vec![],
        }
    );
}

#[test]
fn wallet_without_common_block_starts_over() {
    let plan = plan_update(&blocks(&[2, 1]), &blocks(&[7, 6]));
    assert_eq!(
        plan,
        WalletUpdate { common_ancestor: None, disconnect: blocks(&[7, 6]), connect: blocks(&[1, 2]) }
    );
    let fresh = plan_update(&blocks(&[2, 1]), &vec![]);
    assert_eq!(
        fresh,
        WalletUpdate { common_ancestor: None, disconnect: vec![], connect: blocks(&[1, 2]) }
    );
    let no_node = plan_update(&vec![], &blocks(&[2, 1]));
    assert_eq!(
        no_node,
        WalletUpdate { common_ancestor: None, disconnect: blocks(&[2, 1]), connect: vec![] }
    );
}

#[test]
fn finding_a_block() {
    let chain = blocks(&[5, 4, 3, 4]);
    assert_eq!(find_block(&chain, &BlockHash([4; 32])), 1);
    assert_eq!(find_block(&chain, &BlockHash([5; 32])), 0);
    assert_eq!(find_block(&chain, &BlockHash([9; 32])), 4);
}
