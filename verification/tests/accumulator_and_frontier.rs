use rustreexo::accumulator::mem_forest::MemForest;
use rustreexo::accumulator::node_hash::BitcoinNodeHash;
use thunder_orchard::types::accumulator::{
    has_distinct_nodes, Accumulator, AccumulatorDiff, UtreexoError,
};
use thunder_orchard::types::orchard::{empty_tree, NoteFrontier};
use thunder_orchard::types::transaction::Proof;

fn leaf(tag: u8) -> [u8; 32] {
    [tag; 32]
}

fn with_leaves(tags: &[u8]) -> Accumulator {
    let mut accumulator = Accumulator::new();
    let mut diff = AccumulatorDiff::default();
    for tag in tags {
        diff.insert(leaf(*tag));
    }
    accumulator.apply_diff(diff).unwrap();
    accumulator
}

#[test]
fn new_accumulator_has_no_roots() {
    assert_eq!(Accumulator::new().get_roots(), Vec::<[u8; 32]>::new());
}

#[test]
fn single_leaf_is_the_root() {
    assert_eq!(with_leaves(&[5]).get_roots(), vec![leaf(5)]);
}

#[test]
fn roots_follow_the_number_of_leaves() {
    assert_eq!(with_leaves(&[1, 2]).get_roots().len(), 1);
    assert_eq!(with_leaves(&[1, 2, 3]).get_roots().len(), 2);
    assert_eq!(with_leaves(&[1, 2, 3, 4]).get_roots().len(), 1);
    assert_ne!(with_leaves(&[1, 2]).get_roots(), with_leaves(&[2, 1]).get_roots());
    assert_eq!(with_leaves(&[1, 2, 3]).get_roots(), with_leaves(&[1, 2, 3]).get_roots());
}

#[test]
fn removing_an_unknown_leaf_fails_and_changes_nothing() {
    let mut accumulator = with_leaves(&[1, 2, 3]);
    let roots = accumulator.get_roots();
    let mut diff = AccumulatorDiff::default();
    diff.insert(leaf(4));
    diff.remove(leaf(9));
    assert_eq!(accumulator.apply_diff(diff.clone()), Err(UtreexoError));
    assert_eq!(accumulator.get_roots(), roots);
    assert_eq!(accumulator.roots_with(&diff), Err(UtreexoError));
}

#[test]
fn roots_with_leaves_the_accumulator_alone() {
    let accumulator = with_leaves(&[1, 2, 3]);
    let roots = accumulator.get_roots();
    let mut diff = AccumulatorDiff::default();
    diff.remove(leaf(2));
    diff.insert(leaf(7));
    let after = accumulator.roots_with(&diff).unwrap();
    assert_ne!(after, roots);
    assert_eq!(accumulator.get_roots(), roots);
    let mut changed = accumulator.copy();
    changed.apply_diff(diff).unwrap();
    assert_eq!(changed.get_roots(), after);
    assert_eq!(accumulator.get_roots(), roots);
}

#[test]
fn copy_shares_nothing() {
    let accumulator = with_leaves(&[1, 2, 3, 4]);
    let mut copy = accumulator.copy();
    assert_eq!(copy.get_roots(), accumulator.get_roots());
    let mut diff = AccumulatorDiff::default();
    diff.remove(leaf(1));
    copy.apply_diff(diff).unwrap();
    assert_ne!(copy.get_roots(), accumulator.get_roots());
    assert_eq!(accumulator.get_roots(), with_leaves(&[1, 2, 3, 4]).get_roots());
    let proof = accumulator.prove(&vec![leaf(1)]).unwrap();
    assert_eq!(accumulator.verify(&proof, &vec![leaf(1)]), Ok(true));
}

#[test]
fn proofs_hold_for_their_leaves_only() {
    let accumulator = with_leaves(&[1, 2, 3, 4]);
    let proof = accumulator.prove(&vec![leaf(2)]).unwrap();
    assert_eq!(proof.targets, vec![1]);
    assert_eq!(proof.hashes.len(), 2);
    assert_eq!(accumulator.verify(&proof, &vec![leaf(2)]), Ok(true));
    assert_eq!(accumulator.verify(&proof, &vec![leaf(3)]), Ok(false));
    let forged = Proof { targets: proof.targets.clone(), hashes: vec![leaf(9); 2] };
    assert_eq!(accumulator.verify(&forged, &vec![leaf(2)]), Ok(false));
    assert_eq!(accumulator.prove(&vec![leaf(9)]), Err(UtreexoError));
    assert_eq!(accumulator.verify(&Proof::default(), &vec![]), Ok(true));
    let pair = accumulator.prove(&vec![leaf(1), leaf(4)]).unwrap();
    assert_eq!(accumulator.verify(&pair, &vec![leaf(1), leaf(4)]), Ok(true));
}

#[test]
fn empty_frontier_has_the_root_of_the_empty_tree() {
    let frontier = NoteFrontier::empty();
    assert_eq!(frontier.root(), empty_tree());
    assert_eq!(empty_tree(), orchard::Anchor::empty_tree().to_bytes());
    assert_ne!(empty_tree(), [0; 32]);
}

#[test]
fn appending_changes_the_root() {
    let mut frontier = NoteFrontier::empty();
    let mut first = [0u8; 32];
    first[0] = 1;
    assert!(frontier.append(&first));
    let one = frontier.root();
    assert_ne!(one, empty_tree());
    assert_ne!(one, first);
    let copy = frontier.copy();
    assert!(frontier.append(&[0; 32]));
    assert_ne!(frontier.root(), one);
    assert_eq!(copy.root(), one);

    let mut other = NoteFrontier::empty();
    assert!(other.append(&[0; 32]));
    assert!(other.append(&first));
    assert_ne!(other.root(), frontier.root());
}

#[test]
fn what_is_no_commitment_is_not_appended() {
    let mut frontier = NoteFrontier::empty();
    assert!(frontier.append(&[0; 32]));
    let root = frontier.root();
    assert!(!frontier.append(&[0xff; 32]));
    assert_eq!(frontier.root(), root);
}

#[test]
fn a_leaf_is_never_held_twice() {
    let mut twice = AccumulatorDiff::default();
    twice.insert(leaf(7));
    twice.insert(leaf(7));
    let mut accumulator = Accumulator::new();
    assert_eq!(accumulator.apply_diff(twice.clone()), Err(UtreexoError));
    assert_eq!(accumulator.roots_with(&twice), Err(UtreexoError));
    assert_eq!(accumulator.get_roots(), Vec::<[u8; 32]>::new());

    let mut accumulator = with_leaves(&[1, 7, 3]);
    let roots = accumulator.get_roots();
    let mut again = AccumulatorDiff::default();
    again.insert(leaf(7));
    assert_eq!(accumulator.apply_diff(again.clone()), Err(UtreexoError));
    assert_eq!(accumulator.roots_with(&again), Err(UtreexoError));
    assert_eq!(accumulator.get_roots(), roots);
    let proof = accumulator.prove(&vec![leaf(7)]).unwrap();
    assert_eq!(accumulator.verify(&proof, &vec![leaf(7)]), Ok(true));

    let mut renewed = AccumulatorDiff::default();
    renewed.remove(leaf(7));
    renewed.insert(leaf(7));
    assert_eq!(accumulator.apply_diff(renewed), Ok(()));
    assert_ne!(accumulator.get_roots(), roots);
    let proof = accumulator.prove(&vec![leaf(7)]).unwrap();
    assert_eq!(accumulator.verify(&proof, &vec![leaf(7)]), Ok(true));

    let mut gone_twice = AccumulatorDiff::default();
    gone_twice.remove(leaf(1));
    gone_twice.remove(leaf(1));
    assert_eq!(accumulator.apply_diff(gone_twice), Err(UtreexoError));
}

#[test]
fn node_that_looks_like_a_branch_is_refused() {
    let pair = with_leaves(&[1, 2]);
    let branch = pair.get_roots()[0];
    let mut diff = AccumulatorDiff::default();
    diff.insert(branch);
    let mut accumulator = pair.copy();
    assert_eq!(accumulator.apply_diff(diff), Err(UtreexoError));
    assert_eq!(accumulator.get_roots(), pair.get_roots());
}

fn forest_roots(forest: &MemForest<BitcoinNodeHash>) -> Vec<[u8; 32]> {
    forest.get_roots().iter().map(|root| *root.get_data()).collect()
}

#[test]
fn leaves_go_one_by_one_as_they_go_together() {
    let tags: Vec<u8> = (1..=12).collect();
    let removals: [&[u8]; 6] = [&[2], &[1, 2], &[11, 5, 6], &[3, 4, 1, 2], &[9, 10, 11], &[8, 1, 7]];
    for removed in removals {
        let mut forest = MemForest::<BitcoinNodeHash>::new();
        let added: Vec<BitcoinNodeHash> = tags.iter().map(|t| BitcoinNodeHash::from(leaf(*t))).collect();
        forest.modify(&added, &[]).unwrap();
        let gone: Vec<BitcoinNodeHash> =
            removed.iter().map(|t| BitcoinNodeHash::from(leaf(*t))).collect();
        let more = [BitcoinNodeHash::from(leaf(20)), BitcoinNodeHash::from(leaf(21))];
        forest.modify(&more, &gone).unwrap();

        let mut accumulator = with_leaves(&tags);
        let mut diff = AccumulatorDiff::default();
        for tag in removed {
            diff.remove(leaf(*tag));
        }
        diff.insert(leaf(20));
        diff.insert(leaf(21));
        assert_eq!(accumulator.roots_with(&diff), Ok(forest_roots(&forest)));
        accumulator.apply_diff(diff).unwrap();
        assert_eq!(accumulator.get_roots(), forest_roots(&forest));

        let kept = vec![leaf(20), leaf(12)];
        let expected = forest.prove(&[kept[0].into(), kept[1].into()]).unwrap();
        let proof = accumulator.prove(&kept).unwrap();
        assert_eq!(proof.targets, expected.targets);
        let hashes: Vec<[u8; 32]> = expected.hashes.iter().map(|hash| **hash).collect();
        assert_eq!(proof.hashes, hashes);
        assert_eq!(accumulator.verify(&proof, &kept), Ok(true));
    }
}

#[test]
fn nodes_are_told_apart_by_their_hashes() {
    assert!(has_distinct_nodes(&vec![0; 16]));
    assert!(!has_distinct_nodes(&vec![0; 15]));
    assert!(!has_distinct_nodes(&vec![]));
    let node = |kind: u8, hash: u8| {
        let mut bytes = vec![kind, 0, 0, 0, 0, 0, 0, 0, 2];
        bytes.extend_from_slice(&[hash; 32]);
        bytes
    };
    let mut forest = vec![0; 16];
    forest.extend(node(0, 9));
    forest.extend(node(1, 1));
    forest.extend(node(1, 2));
    forest.extend([0, 0, 0, 0, 0, 0, 0, 0, 0]);
    assert!(has_distinct_nodes(&forest));
    let mut cut = forest.clone();
    cut.pop();
    assert!(!has_distinct_nodes(&cut));
    let mut twin = forest.clone();
    twin.extend(node(1, 9));
    assert!(!has_distinct_nodes(&twin));
    let mut other = forest.clone();
    other.extend(node(1, 3));
    assert!(has_distinct_nodes(&other));
    let mut tag = forest.clone();
    tag.extend([0, 0, 0, 0, 0, 0, 0, 0, 1]);
    assert!(!has_distinct_nodes(&tag));
}

#[test]
fn the_same_steps_give_the_same_accumulator() {
    let mut grown = with_leaves(&[1, 2, 3]);
    let mut diff = AccumulatorDiff::default();
    diff.remove(leaf(2));
    diff.insert(leaf(4));
    diff.insert(leaf(5));
    grown.apply_diff(diff.clone()).unwrap();
    let mut other = with_leaves(&[1, 2, 3]).copy();
    other.apply_diff(diff).unwrap();
    assert_eq!(grown.get_roots(), other.get_roots());
    let leaves = vec![leaf(1), leaf(5)];
    let proof = grown.prove(&leaves).unwrap();
    assert_eq!(other.prove(&leaves), Ok(proof.clone()));
    assert_eq!(other.verify(&proof, &leaves), Ok(true));
    assert_eq!(grown.prove(&vec![leaf(2)]), Err(UtreexoError));
}

#[test]
fn commitments_are_the_numbers_below_the_order_of_the_field() {
    let order: [u8; 32] = [
        1, 0, 0, 0, 237, 48, 45, 153, 27, 249, 76, 9, 252, 152, 70, 34, 0, 0, 0, 0, 0, 0, 0, 0, 0,
        0, 0, 0, 0, 0, 0, 64,
    ];
    let mut below = order;
    below[0] = 0;
    let mut above = order;
    above[0] = 2;
    let mut frontier = NoteFrontier::empty();
    assert!(!frontier.append(&order));
    assert!(!frontier.append(&above));
    assert_eq!(frontier.root(), empty_tree());
    assert!(frontier.append(&below));
    assert_ne!(frontier.root(), empty_tree());
    let mut high = [0u8; 32];
    high[31] = 65;
    assert!(!frontier.append(&high));
    high[31] = 63;
    high[0] = 255;
    assert!(frontier.append(&high));
}
