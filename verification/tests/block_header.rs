//! Tests of the blocks that the client keeps.
use miden_client::errors::SyncError;
use miden_client::mmr::MmrPeaks;
use miden_client::sync::block_header::{
    adjust_merkle_path_for_forest, authenticated_block_nodes, cache_partial_mmr,
    get_current_partial_mmr, insert_note_blocks, track_block_in_mmr, NoteBlock,
};
use miden_client::types::{BlockHeader, Word};
use miden_protocol::crypto::merkle::mmr::{Forest, InOrderIndex, Mmr, PartialMmr};
use miden_protocol::crypto::merkle::MerklePath;
use miden_protocol::Felt;

fn word(n: u64) -> Word {
    Word { e0: n, e1: 0, e2: 0, e3: 0 }
}

fn protocol_word(n: u64) -> miden_protocol::Word {
    miden_protocol::Word::new([n, 0, 0, 0].map(Felt::new_unchecked))
}

fn plain(word: miden_protocol::Word) -> Word {
    Word::from_elements(word.into_elements().map(|e| e.as_canonical_u64()))
}

fn protocol(word: Word) -> miden_protocol::Word {
    miden_protocol::Word::new(word.elements().map(Felt::new_unchecked))
}

fn plain_path(path: &MerklePath) -> Vec<Word> {
    path.nodes().iter().map(|node| plain(*node)).collect()
}

fn index(index: InOrderIndex) -> u64 {
    index.inner() as u64
}

fn header(block_num: u32, commitment: Word) -> BlockHeader {
    BlockHeader {
        block_num,
        commitment,
        chain_commitment: word(0),
        account_root: word(0),
        note_root: word(0),
        protocol_config_commitment: word(0),
        verification_base_fee: 0,
        timestamp: 0,
    }
}

/// A range over the words from zero.
fn range(leaves: u64) -> Mmr {
    let mut mmr = Mmr::new();
    for value in 0..leaves {
        mmr.add(protocol_word(value)).expect("test MMR append should succeed");
    }
    mmr
}

#[test]
fn adjust_merkle_path_truncates_to_forest_bounds() {
    // Forest 5 <=> block 4 is rightmost leaf
    let path = vec![word(1), word(2), word(3)];

    let adjusted = adjust_merkle_path_for_forest(&path, 4, 5);
    // Block 4 conforms a single leaf tree so it should be empty
    assert!(adjusted.is_empty());
}

#[test]
fn adjust_merkle_path_keeps_proof_valid_for_smaller_forest() {
    // Build a proof in a larger forest and ensure truncation does not keep siblings from a
    // different tree in the smaller forest, which would invalidate the proof.
    let mmr = range(8);
    let large_forest = Forest::new(8).expect("valid forest");
    let small_forest = Forest::new(5).expect("valid forest");
    let leaf_pos = 4usize;

    let proof = mmr.open_at(leaf_pos, large_forest).expect("valid proof");
    let adjusted_nodes = adjust_merkle_path_for_forest(&plain_path(proof.merkle_path()), 4, 5);
    let adjusted_path =
        MerklePath::new(adjusted_nodes.iter().map(|(_, node)| protocol(*node)).collect());

    let peaks = mmr.peaks_at(small_forest).unwrap();
    let mut partial = PartialMmr::from_peaks(peaks);
    let leaf = mmr.get(leaf_pos).expect("leaf exists");

    partial
        .track(leaf_pos, leaf, &adjusted_path)
        .expect("adjusted path should verify against smaller forest peaks");
}

#[test]
fn adjust_merkle_path_correct_indices() {
    // Forest 6 has trees of size 2 and 4
    // Block 1 is on tree with size 4 (merkle path should have 2 nodes)
    let nodes = vec![word(10), word(11), word(12), word(13)];

    let adjusted = adjust_merkle_path_for_forest(&nodes, 1, 6);

    assert_eq!(adjusted.len(), 2);
    assert_eq!(adjusted[0].1, nodes[0]);
    assert_eq!(adjusted[1].1, nodes[1]);

    let mut idx = InOrderIndex::from_leaf_pos(1);
    let expected0 = idx.sibling();
    idx = idx.parent();
    let expected1 = idx.sibling();

    assert_eq!(adjusted[0].0, index(expected0));
    assert_eq!(adjusted[1].0, index(expected1));
}

#[test]
fn adjust_path_limit_correct_when_siblings_in_bounds() {
    // Ensure the expected depth limit matters even when the next sibling is "in-bounds" (but
    // not part of the leaf's subtree for that forest)
    let large_leaves = 8usize;
    let small_leaves = 7usize;
    let leaf_pos = 2usize;
    let mmr = range(large_leaves as u64);

    let small_forest = Forest::new(small_leaves).expect("valid forest");
    let proof = mmr
        .open_at(leaf_pos, Forest::new(large_leaves).expect("valid forest"))
        .expect("valid proof");
    let expected_depth =
        small_forest.leaf_to_corresponding_tree(leaf_pos).expect("leaf is in forest") as usize;

    // Confirm the next sibling after the expected depth is still in bounds, which would create
    // an overlong path without the depth cap.
    let mut idx = InOrderIndex::from_leaf_pos(leaf_pos);
    for _ in 0..expected_depth {
        idx = idx.parent();
    }
    let next_sibling = idx.sibling();
    let rightmost = InOrderIndex::from_leaf_pos(small_leaves - 1);
    assert!(next_sibling <= rightmost);
    assert!(proof.merkle_path().depth() as usize > expected_depth);

    let adjusted = adjust_merkle_path_for_forest(
        &plain_path(proof.merkle_path()),
        u32::try_from(leaf_pos).unwrap(),
        u32::try_from(small_leaves).unwrap(),
    );
    assert_eq!(adjusted.len(), expected_depth);
}

#[test]
fn authenticated_block_nodes_include_leaf_commitment() {
    let block_header = header(4, word(44));
    let path_nodes = vec![
        (index(InOrderIndex::from_leaf_pos(4).sibling()), word(10)),
        (index(InOrderIndex::from_leaf_pos(4).parent().sibling()), word(11)),
    ];

    let nodes = authenticated_block_nodes(&block_header, path_nodes.clone());

    assert_eq!(nodes[0], (index(InOrderIndex::from_leaf_pos(4)), block_header.commitment));
    assert_eq!(&nodes[1..], path_nodes.as_slice());
}

#[test]
fn a_block_is_tracked_if_its_path_leads_to_the_range() {
    let mmr = range(6);
    let mut partial = PartialMmr::from_peaks(mmr.peaks());
    let path = plain_path(mmr.open(1).unwrap().merkle_path());

    let nodes = track_block_in_mmr(&mut partial, 1, word(1), &path).unwrap();
    assert_eq!(nodes.iter().map(|(_, node)| *node).collect::<Vec<_>>(), path);
    assert!(partial.is_tracked(1));

    let refused = track_block_in_mmr(&mut partial, 2, word(99), &path);
    assert!(matches!(refused, Err(SyncError::BlockNotAuthenticated { block_num: 2 })));
    assert!(!partial.is_tracked(2));
}

#[test]
fn note_blocks_are_stored_with_their_nodes() {
    let mmr = range(6);
    let mut partial = PartialMmr::from_peaks(mmr.peaks());
    let block = |number: u32| NoteBlock {
        block_header: header(number, word(u64::from(number))),
        mmr_path: plain_path(mmr.open(number as usize).unwrap().merkle_path()),
    };

    let stored = insert_note_blocks(&vec![block(0), block(5)], &mut partial).unwrap();
    assert_eq!(stored.len(), 2);
    assert_eq!(stored[0].block_header.block_num, 0);
    assert_eq!(stored[0].nodes[0], (index(InOrderIndex::from_leaf_pos(0)), word(0)));
    assert_eq!(stored[1].nodes.len(), 2);
    assert!(partial.is_tracked(0) && partial.is_tracked(5));
}

#[test]
fn the_first_note_block_that_is_not_on_the_chain_ends_it() {
    let mmr = range(6);
    let mut partial = PartialMmr::from_peaks(mmr.peaks());
    let block = |number: u32, commitment: u64| NoteBlock {
        block_header: header(number, word(commitment)),
        mmr_path: plain_path(mmr.open(number as usize).unwrap().merkle_path()),
    };

    let blocks = vec![block(0, 0), block(3, 99), block(5, 5)];
    assert!(matches!(
        insert_note_blocks(&blocks, &mut partial),
        Err(SyncError::BlockNotAuthenticated { block_num: 3 })
    ));
    assert!(partial.is_tracked(0) && !partial.is_tracked(3) && !partial.is_tracked(5));
}

fn plain_peaks(mmr: &Mmr) -> MmrPeaks {
    let (forest, peaks) = mmr.peaks().into_parts();
    MmrPeaks {
        forest: forest.num_leaves() as u32,
        peaks: peaks.into_iter().map(plain).collect(),
    }
}

#[test]
fn a_cached_range_is_used_while_it_is_that_of_the_store() {
    let mmr = range(6);
    let store_peaks = plain_peaks(&mmr);
    let followed = vec![1u32];
    let mut partial = PartialMmr::from_peaks(mmr.peaks());
    let path = plain_path(mmr.open(1).unwrap().merkle_path());
    track_block_in_mmr(&mut partial, 1, word(1), &path).unwrap();

    let cached = cache_partial_mmr(true, None, partial, &store_peaks, &followed).unwrap();
    assert!(cached.is_some());
    assert!(get_current_partial_mmr(true, &cached, &store_peaks, &followed).is_some());

    // The store moved on, other blocks are tracked, or nothing is cached.
    assert!(get_current_partial_mmr(true, &cached, &plain_peaks(&range(7)), &followed).is_none());
    assert!(get_current_partial_mmr(true, &cached, &store_peaks, &vec![1, 2]).is_none());
    assert!(get_current_partial_mmr(false, &cached, &store_peaks, &followed).is_none());
    assert!(get_current_partial_mmr(true, &None, &store_peaks, &followed).is_none());
}
