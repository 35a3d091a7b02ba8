//! Tests of following the chain.
use miden_client::collections::OrdMap;
use miden_client::errors::{ChainValidationError, SyncError};
use miden_client::mmr::MmrDelta;
use miden_client::rpc::domain::note::{
    AttachmentSchemes, CommittedNote, FetchedNote, NoteInclusionProof, NoteMetadata, NoteType,
    NullifierUpdate, SyncNotesBlock,
};
use miden_client::rpc::domain::sync::{ChainMmrInfo, ProtocolConfig, SyncTarget};
use miden_client::rpc::domain::transaction::{
    ConsumedNoteRef, TransactionHeader, TransactionRecord as RpcTransactionRecord,
};
use miden_client::rpc::errors::rpc_error::RpcError;
use miden_client::store::{InputNoteRecord, InputNoteState};
use miden_client::sync::account_updates::AccountUpdates;
use miden_client::sync::blockchain_updates::PartialBlockchainUpdates;
use miden_client::sync::chain_sync::{
    advance_mmr, block_num_from_forest, plan_fetch, validate_and_track_note_blocks,
    validate_fetched, validate_note_blocks_range, validate_transaction_records_range, FetchPlan,
    RelevantNoteBlock,
};
use miden_client::sync::execution_chain::{
    compute_ordered_nullifiers, derive_account_commitments, is_all_walkable, walk_execution_chain,
};
use miden_client::sync::note_sync::{
    check_recovered_notes, output_note_steps, public_note_record, recoverable_notes,
    relevant_note_blocks, screen_notes, NoteBlockRelevance, NoteOutcome, NoteUpdateAction,
    NoteVerdict, OnNoteReceived, OutputNoteStep, PublicDetails,
};
use miden_client::sync::state_sync::{
    build_update, finish_sync, ChainSyncData, FetchedSyncData, NoteUpdates, StateSyncUpdate,
};
use miden_client::test_utils::mock::MockRpcApi;
use miden_client::test_utils::mock_answers::ProvenBlock;
use miden_client::test_utils::mock_chain::{MockBlock, MockChain, MockChainNote};
use miden_client::transaction::{
    DiscardCause, TransactionDetails, TransactionRecord, TransactionStatus,
};
use miden_client::types::{AccountId, BlockHeader, NoteId, Word};
use miden_protocol::crypto::merkle::mmr::{Forest, Mmr, PartialMmr};
use miden_protocol::Felt;

fn word(n: u64) -> Word {
    Word { e0: n, e1: 0, e2: 0, e3: 0 }
}

fn protocol(word: Word) -> miden_protocol::Word {
    miden_protocol::Word::new(word.elements().map(Felt::new_unchecked))
}

fn plain(word: miden_protocol::Word) -> Word {
    Word::from_elements(word.into_elements().map(|e| e.as_canonical_u64()))
}

const ACCOUNT_A: AccountId = 100;
const ACCOUNT_B: AccountId = 200;

fn make_tx(
    account_id: AccountId,
    init_state: u64,
    final_state: u64,
    nullifiers: &[u64],
    block_num: u32,
) -> RpcTransactionRecord {
    RpcTransactionRecord {
        block_num,
        transaction_header: TransactionHeader {
            id: word(init_state * 1000 + final_state),
            account_id,
            initial_state_commitment: word(init_state),
            final_state_commitment: word(final_state),
            input_nullifiers: nullifiers.iter().map(|n| word(*n)).collect(),
        },
        output_notes: vec![],
        erased_output_notes: vec![],
        consumed_note_refs: vec![],
    }
}

// RANGES
// ================================================================================================

/// Verifies that `sync_transactions` records outside the requested range `(current, chain_tip]`
/// are rejected with a `ChainValidationError`.
#[test]
fn validate_transaction_records_range_rejects_out_of_range_blocks() {
    let record = |block_num| vec![make_tx(ACCOUNT_A, 1, 2, &[], block_num)];
    validate_transaction_records_range(&record(7), 5, 10).unwrap();

    let result = validate_transaction_records_range(&record(11), 5, 10);
    assert!(matches!(
        result,
        Err(SyncError::Validation(ChainValidationError::TransactionOutOfRange {
            block_num: 11,
            current: 5,
            chain_tip: 10,
        }))
    ));

    let result = validate_transaction_records_range(&record(5), 5, 10);
    assert!(matches!(
        result,
        Err(SyncError::Validation(ChainValidationError::TransactionOutOfRange { .. }))
    ));
}

fn note_block(header: BlockHeader) -> SyncNotesBlock {
    SyncNotesBlock { block_header: header, mmr_path: vec![], notes: OrdMap::new() }
}

/// Verifies that `sync_notes` blocks outside the requested range `(current, chain_tip]` are
/// rejected with a `ChainValidationError`.
#[test]
fn validate_note_blocks_range_rejects_out_of_range_blocks() {
    let api = mock_api(3);

    // Sanity check: an empty block list passes validation.
    validate_note_blocks_range(&vec![], 0, 3).unwrap();

    // A note block outside the requested range: genesis is always outside it.
    let genesis = vec![note_block(api.chain.blocks[0].header)];
    let result = validate_note_blocks_range(&genesis, 0, 3);
    assert!(matches!(
        result,
        Err(SyncError::Validation(ChainValidationError::NoteBlockOutOfRange { block_num: 0, .. }))
    ));
    assert!(validate_note_blocks_range(&vec![note_block(api.chain.blocks[3].header)], 0, 3).is_ok());
    assert!(validate_fetched(&genesis, &vec![], 0, 3).is_err());
    assert!(validate_fetched(&vec![], &vec![make_tx(ACCOUNT_A, 1, 2, &[], 4)], 0, 3).is_err());
    assert!(validate_fetched(&vec![], &vec![], 0, 3).is_ok());
}

// EXECUTION ORDER
// ================================================================================================

#[test]
fn chains_rpc_transactions_by_state_commitment() {
    // Chain: tx_a (state 1->2) -> tx_b (state 2->3) -> tx_c (state 3->4)
    //
    // Passed in reverse order to verify chaining uses state, not insertion order.
    let tx_a = make_tx(ACCOUNT_A, 1, 2, &[10], 5);
    let tx_b = make_tx(ACCOUNT_A, 2, 3, &[20], 5);
    let tx_c = make_tx(ACCOUNT_A, 3, 4, &[30], 5);

    let records = vec![tx_c, tx_a, tx_b];
    assert!(is_all_walkable(&records));
    let result = compute_ordered_nullifiers(&records);

    assert_eq!(result[0], word(10));
    assert_eq!(result[1], word(20));
    assert_eq!(result[2], word(30));
}

#[test]
fn groups_independently_by_account_and_block() {
    // Account A, block 5: two chained txs.
    let tx_a1 = make_tx(ACCOUNT_A, 1, 2, &[10], 5);
    let tx_a2 = make_tx(ACCOUNT_A, 2, 3, &[20], 5);

    // Account A, block 6: independent chain.
    let tx_a3 = make_tx(ACCOUNT_A, 3, 4, &[30], 6);

    // Account B, block 5: independent chain.
    let tx_b1 = make_tx(ACCOUNT_B, 100, 200, &[40], 5);

    let records = vec![tx_a2, tx_b1, tx_a3, tx_a1];
    assert!(is_all_walkable(&records));
    let result = compute_ordered_nullifiers(&records);

    let pos = |val: u64| -> usize { result.iter().position(|n| *n == word(val)).unwrap() };

    // Within the same group, chain order is preserved.
    assert!(pos(10) < pos(20)); // A, block 5: pos 0 < pos 1
    // Nullifiers from different groups are all present.
    assert!(result.contains(&word(30))); // A, block 6
    assert!(result.contains(&word(40))); // B, block 5
}

#[test]
fn multiple_nullifiers_per_transaction_are_consecutive() {
    // Single tx consuming 3 notes — all should appear consecutively.
    let records = vec![make_tx(ACCOUNT_A, 1, 2, &[10, 20, 30], 5)];

    let result = compute_ordered_nullifiers(&records);

    assert_eq!(result.len(), 3);
    assert!(result.contains(&word(10)));
    assert!(result.contains(&word(20)));
    assert!(result.contains(&word(30)));
}

#[test]
fn empty_input_returns_empty_vec() {
    let result = compute_ordered_nullifiers(&vec![]);
    assert!(result.is_empty());
}

#[test]
fn a_transaction_that_keeps_the_state_follows_the_one_that_leads_to_it() {
    let records = || {
        vec![
            make_tx(ACCOUNT_A, 2, 3, &[30], 5),
            make_tx(ACCOUNT_A, 2, 2, &[20], 5),
            make_tx(ACCOUNT_A, 3, 3, &[40], 5),
            make_tx(ACCOUNT_A, 1, 2, &[10], 5),
            make_tx(ACCOUNT_A, 1, 1, &[5], 5),
        ]
    };
    assert!(is_all_walkable(&records()));
    let in_order = vec![word(5), word(10), word(20), word(30), word(40)];
    assert_eq!(compute_ordered_nullifiers(&records()), in_order);
    assert_eq!(derive_account_commitments(&records()), vec![(ACCOUNT_A, word(3))]);
    assert_eq!(walk_execution_chain(&records(), &vec![0, 1, 3]), vec![3, 1, 0]);

    // Transactions that all keep the state stay as they are reported, and so do those in a state
    // that the others are never in.
    let kept = vec![make_tx(ACCOUNT_A, 5, 5, &[2], 5), make_tx(ACCOUNT_A, 5, 5, &[1], 5)];
    assert_eq!(compute_ordered_nullifiers(&kept), vec![word(2), word(1)]);
    let records = vec![make_tx(ACCOUNT_A, 9, 9, &[7], 5), make_tx(ACCOUNT_A, 1, 2, &[8], 5)];
    assert_eq!(compute_ordered_nullifiers(&records), vec![word(8), word(7)]);
}

#[test]
fn the_order_of_the_report_does_not_matter() {
    let tx = |at: u64| make_tx(ACCOUNT_A, at, at + 1, &[at, 10 + at], 5);
    let expected = vec![word(1), word(11), word(2), word(12), word(3), word(13)];
    for order in [[1, 2, 3], [1, 3, 2], [2, 1, 3], [2, 3, 1], [3, 1, 2], [3, 2, 1]] {
        assert_eq!(compute_ordered_nullifiers(&Vec::from(order.map(tx))), expected);
    }
}

#[test]
fn transactions_in_a_circle_cannot_be_ordered() {
    let records =
        vec![make_tx(ACCOUNT_A, 1, 2, &[], 5), make_tx(ACCOUNT_A, 2, 1, &[], 5)];
    assert!(!is_all_walkable(&records));
}

/// `derive_account_commitments` must walk the execution chain to get the final commitment when
/// several transactions for the same account land in the same block.
///
/// Test scenario:
/// - Account A, block 5: chain 1 - 2 - 3 (older group; must be dominated by block 6).
/// - Account A, block 6: chain 3 - 4 - 5 (final state = 5).
/// - Account B, block 6: single tx 10 - 20 (final state = 20).
#[test]
fn derive_account_commitments_walks_chains_per_account() {
    let tx_a_b5_1 = make_tx(ACCOUNT_A, 1, 2, &[], 5);
    let tx_a_b5_2 = make_tx(ACCOUNT_A, 2, 3, &[], 5);
    let tx_a_b6_1 = make_tx(ACCOUNT_A, 3, 4, &[], 6);
    let tx_a_b6_2 = make_tx(ACCOUNT_A, 4, 5, &[], 6);
    let tx_b_b6 = make_tx(ACCOUNT_B, 10, 20, &[], 6);

    // Insert transactions not ordered by execution order.
    let records = vec![tx_a_b6_1, tx_b_b6, tx_a_b5_2, tx_a_b6_2, tx_a_b5_1];
    assert!(is_all_walkable(&records));
    let result = derive_account_commitments(&records);

    assert_eq!(result.len(), 2, "one entry per account");
    assert!(
        result.contains(&(ACCOUNT_A, word(5))),
        "account A: must walk block 6's chain, not return block 5 or an intermediate",
    );
    assert!(
        result.contains(&(ACCOUNT_B, word(20))),
        "account B: must be resolved independently of account A",
    );
}

// CHAIN
// ================================================================================================

/// A chain whose headers commit to the blocks before them.
fn mock_api(tip: u32) -> MockRpcApi {
    let mut api = MockRpcApi::new(MockChain {
        blocks: vec![mock_block(0, &Mmr::new())],
        accounts: OrdMap::new(),
        notes: OrdMap::new(),
        nullifiers: vec![],
        protocol_config: ProtocolConfig { commitment: word(50), serialized: vec![] },
    });
    advance(&mut api, tip);
    api
}

fn mock_block(block_num: u32, earlier: &Mmr) -> MockBlock {
    MockBlock {
        header: BlockHeader {
            block_num,
            commitment: word(1000 + u64::from(block_num)),
            chain_commitment: plain(earlier.peaks().hash_peaks()),
            account_root: word(0),
            note_root: word(0),
            protocol_config_commitment: word(50),
            verification_base_fee: 0,
            timestamp: 77,
        },
        serialized: vec![],
        signatures: vec![],
        block_proof: vec![],
        transactions: vec![],
        updated_accounts: vec![],
    }
}

fn range_of(api: &MockRpcApi) -> Mmr {
    let mut mmr = Mmr::new();
    for block in &api.chain.blocks {
        mmr.add(protocol(block.header.commitment)).unwrap();
    }
    mmr
}

fn proven(block: MockBlock) -> ProvenBlock {
    ProvenBlock { block, accounts: OrdMap::new(), notes: OrdMap::new(), nullifiers: vec![] }
}

fn advance(api: &mut MockRpcApi, blocks: u32) {
    for _ in 0..blocks {
        let number = api.get_chain_tip_block_num() + 1;
        let block = mock_block(number, &range_of(api));
        api.prove_block(proven(block));
    }
}

fn genesis_partial_mmr(api: &MockRpcApi) -> PartialMmr {
    let peaks = range_of(api).peaks_at(Forest::new(1).expect("valid forest")).unwrap();
    PartialMmr::from_peaks(peaks)
}

fn delta_to(api: &MockRpcApi, to: usize) -> MmrDelta {
    let delta = range_of(api)
        .get_delta(Forest::new(1).unwrap(), Forest::new(to).unwrap())
        .unwrap();
    MmrDelta {
        forest: delta.forest.num_leaves() as u32,
        data: delta.data.into_iter().map(plain).collect(),
    }
}

/// Verifies that `advance_mmr` rejects an MMR delta whose post-apply peaks don't match the
/// chain tip header's chain commitment.
#[test]
fn advance_mmr_rejects_delta_inconsistent_with_chain_commitment() {
    let api = mock_api(3);
    let chain_tip_header = api.chain.blocks[3].header;

    // An MMR delta consistent with the chain tip header advances the MMR...
    let mut mmr = genesis_partial_mmr(&api);
    let mut updates = PartialBlockchainUpdates::new();
    advance_mmr(&delta_to(&api, 3), &chain_tip_header, &mut mmr, &mut updates).unwrap();
    assert_eq!(mmr.num_leaves(), 4);
    assert_eq!(mmr.peaks().hash_peaks(), range_of(&api).peaks().hash_peaks());
    assert_eq!(updates.block_headers()[0].header.block_num, 3);
    assert_eq!(block_num_from_forest(&mmr), Ok(3));

    // ...but one that stops short of the chain tip fails the chain commitment check.
    let result = advance_mmr(
        &delta_to(&api, 2),
        &chain_tip_header,
        &mut genesis_partial_mmr(&api),
        &mut PartialBlockchainUpdates::new(),
    );
    assert!(matches!(
        result,
        Err(SyncError::Validation(ChainValidationError::PeaksMismatch { .. }))
    ));

    // A delta that does not fit the range is refused too.
    let broken = MmrDelta { forest: 3, data: vec![] };
    let result = advance_mmr(
        &broken,
        &chain_tip_header,
        &mut genesis_partial_mmr(&api),
        &mut PartialBlockchainUpdates::new(),
    );
    assert!(matches!(result, Err(SyncError::InvalidDelta)));
}

#[test]
fn nothing_is_fetched_at_the_chain_tip() {
    let api = mock_api(3);
    let info = api.sync_chain_mmr(0, SyncTarget::CommittedChainTip);
    assert_eq!(
        plan_fetch(&info, 0, true, true, false),
        Ok(FetchPlan::Fetch { block_from: 1, block_to: 3, notes: true, transactions: false })
    );
    let info = api.sync_chain_mmr(3, SyncTarget::CommittedChainTip);
    assert_eq!(plan_fetch(&info, 3, true, true, true), Ok(FetchPlan::AtChainTip));
    assert!(plan_fetch(&info, 3, false, true, true).is_err());
}

fn no_notes() -> NoteUpdates {
    NoteUpdates {
        updated_input_notes: vec![],
        updated_output_notes: vec![],
        consumed_input_note_ids: vec![],
        unspent_input_note_block_numbers: vec![],
    }
}

/// Syncs a client that has note tags, with what it decides about each note.
fn sync_state(
    api: &MockRpcApi,
    mmr: &mut PartialMmr,
    tags: Vec<u32>,
    note_updates: NoteUpdates,
    verdict: impl Fn() -> NoteVerdict,
) -> StateSyncUpdate {
    let current = block_num_from_forest(mmr).unwrap();
    let info: ChainMmrInfo = api.sync_chain_mmr(current, SyncTarget::CommittedChainTip);
    let plan = plan_fetch(&info, current, true, !tags.is_empty(), false).unwrap();
    let mut data = match plan {
        FetchPlan::AtChainTip => ChainSyncData::at_chain_tip(current, note_updates, vec![]),
        FetchPlan::Fetch { block_from, block_to, .. } => {
            let note_blocks = api.sync_notes(block_from, block_to, &tags);
            let fetched = FetchedSyncData::new(info, note_blocks, vec![], current).unwrap();
            let accounts = AccountUpdates::new(vec![], vec![]);
            ChainSyncData::fetched(current, note_updates, vec![], fetched, vec![], accounts)
        },
    };
    let note_blocks = data.begin_screening();
    let relevances = note_blocks
        .iter()
        .map(|block| {
            let verdicts = block.notes.entries().iter().map(|_| verdict()).collect();
            NoteBlockRelevance::of_notes(&verdicts)
        })
        .collect();
    let relevant = relevant_note_blocks(note_blocks, &relevances);
    data.apply_transactions_and_nullifiers(relevant, None);
    finish_sync(data, mmr).unwrap()
}

fn discarded() -> NoteVerdict {
    NoteVerdict { observers: vec![], outcome: NoteOutcome::Discarded }
}

#[test]
fn sync_state_across_multiple_iterations_with_same_mmr() {
    // Setup: create a mock chain and advance it so there are blocks to sync.
    let mut api = mock_api(3);
    let chain_tip_1 = api.get_chain_tip_block_num();

    // Build the initial PartialMmr from genesis (only 1 leaf).
    let mut partial_mmr = genesis_partial_mmr(&api);
    assert_eq!(partial_mmr.forest().num_leaves(), 1);

    // First sync
    let update = sync_state(&api, &mut partial_mmr, vec![], no_notes(), discarded);

    assert_eq!(update.block_num(), chain_tip_1);
    let forest_1 = partial_mmr.forest();
    // The MMR should contain one leaf per block (genesis + the new blocks).
    assert_eq!(forest_1.num_leaves(), chain_tip_1 as usize + 1);

    // Second sync
    advance(&mut api, 2);
    let chain_tip_2 = api.get_chain_tip_block_num();

    let update = sync_state(&api, &mut partial_mmr, vec![], no_notes(), discarded);

    assert_eq!(update.block_num(), chain_tip_2);
    let forest_2 = partial_mmr.forest();
    assert!(forest_2 > forest_1);
    assert_eq!(forest_2.num_leaves(), chain_tip_2 as usize + 1);

    // Third sync (no new blocks)
    let update = sync_state(&api, &mut partial_mmr, vec![], no_notes(), discarded);

    assert_eq!(update.block_num(), chain_tip_2);
    assert_eq!(partial_mmr.forest(), forest_2);
}

/// A chain with one note in each block.
fn api_with_notes(blocks: u32) -> MockRpcApi {
    let mut api = mock_api(0);
    for number in 1..=blocks {
        let mut notes = OrdMap::new();
        notes.insert(word(u64::from(number)), MockChainNote {
            metadata: metadata(),
            inclusion_proof: NoteInclusionProof {
                block_num: number,
                node_index: 0,
                note_path: vec![],
            },
            attachments: vec![],
            attachment_words: vec![],
            public: None,
        });
        let block = mock_block(number, &range_of(&api));
        api.prove_block(ProvenBlock { notes, ..proven(block) });
    }
    api
}

fn metadata() -> NoteMetadata {
    NoteMetadata {
        sender: 1,
        note_type: NoteType::Private,
        tag: 7,
        attachment_schemes: AttachmentSchemes::none(),
        attachments_commitment: word(0),
    }
}

/// An observer's `true` result retains a note block even when the screener discards the note
/// and the regular note tracker therefore has no live note in that block.
#[test]
fn observer_relevance_persists_discarded_note_block() {
    let api = api_with_notes(2);
    let chain_tip = api.get_chain_tip_block_num();
    let mut partial_mmr = genesis_partial_mmr(&api);

    let observed =
        || NoteVerdict { observers: vec![None, Some(true)], outcome: NoteOutcome::Discarded };
    let update = sync_state(&api, &mut partial_mmr, vec![7], no_notes(), observed);
    let observed_non_tip_block = 1u32;

    let stored = update.partial_blockchain_updates().block_headers_to_store(chain_tip);
    assert!(
        stored.iter().any(|b| b.header.block_num == observed_non_tip_block && b.is_relevant),
        "an observer-relevant block must be staged as relevant"
    );
    assert!(
        partial_mmr.is_tracked(observed_non_tip_block as usize),
        "an observer-relevant block must remain tracked in the partial MMR"
    );
}

/// Blocks that still hold an unspent note of the client are tracked, and others are not.
#[test]
fn sync_state_tracks_note_blocks_in_mmr() {
    let api = api_with_notes(3);
    assert_eq!(api.sync_notes(0, 3, &vec![7]).len(), 3);
    let mut partial_mmr = genesis_partial_mmr(&api);
    let committed = || NoteVerdict {
        observers: vec![Some(false)],
        outcome: NoteOutcome::Committed { is_input_note: true },
    };
    let mut notes = no_notes();
    notes.unspent_input_note_block_numbers = vec![2];
    let update = sync_state(&api, &mut partial_mmr, vec![7], notes, committed);

    assert_eq!(partial_mmr.num_leaves(), 4);
    assert!(partial_mmr.is_tracked(2), "block 2 with notes should be tracked in partial MMR");
    assert!(!partial_mmr.is_tracked(1));
    let stored: Vec<_> = update
        .partial_blockchain_updates()
        .block_headers_to_store(3)
        .iter()
        .map(|b| b.header.block_num)
        .collect();
    assert_eq!(stored, vec![2, 3]);
}

#[test]
fn sync_notes_with_content_fetches_inclusive_upper_bound_page() {
    let api = api_with_notes(10);
    let blocks = api.sync_notes(4, 10, &vec![7]);

    assert_eq!(blocks.last().unwrap().block_header.block_num, 10);
    assert!(blocks.iter().any(|block| block.block_header.block_num == 9));
}

#[test]
fn a_sync_that_fails_leaves_the_range_as_it_was() {
    let api = api_with_notes(3);
    let mut partial_mmr = genesis_partial_mmr(&api);
    let mut info = api.sync_chain_mmr(0, SyncTarget::CommittedChainTip);
    info.block_header.chain_commitment = word(1);
    let fetched = FetchedSyncData::new(info, vec![], vec![], 0).unwrap();
    let accounts = || AccountUpdates::new(vec![], vec![]);
    let mut data = ChainSyncData::fetched(0, no_notes(), vec![], fetched, vec![], accounts());
    data.begin_screening();
    data.apply_transactions_and_nullifiers(vec![], None);
    assert!(finish_sync(data, &mut partial_mmr).is_err());
    assert_eq!(partial_mmr.num_leaves(), 1);

    // An update is not built while blocks wait for screening.
    let info = api.sync_chain_mmr(0, SyncTarget::CommittedChainTip);
    let blocks = api.sync_notes(1, 3, &vec![7]);
    let fetched = FetchedSyncData::new(info, blocks, vec![], 0).unwrap();
    let data = ChainSyncData::fetched(0, no_notes(), vec![], fetched, vec![], accounts());
    assert!(matches!(
        build_update(data, &mut partial_mmr),
        Err(SyncError::UnscreenedNoteBlocks)
    ));
}

#[test]
fn a_block_that_is_not_on_the_chain_is_refused() {
    let api = mock_api(4);
    let mut mmr = PartialMmr::from_peaks(range_of(&api).peaks());
    let block = |commitment: u64| RelevantNoteBlock {
        block_header: BlockHeader { commitment: word(commitment), ..api.chain.blocks[1].header },
        mmr_path: range_of(&api)
            .open(1)
            .unwrap()
            .merkle_path()
            .nodes()
            .iter()
            .map(|node| plain(*node))
            .collect(),
        observer_requires_block: true,
    };
    let mut updates = PartialBlockchainUpdates::new();
    validate_and_track_note_blocks(&vec![block(1001)], &vec![], &mut mmr, &mut updates).unwrap();
    assert!(mmr.is_tracked(1));
    assert!(!updates.new_authentication_nodes().is_empty());

    let mut mmr = PartialMmr::from_peaks(range_of(&api).peaks());
    let refused =
        validate_and_track_note_blocks(&vec![block(1)], &vec![], &mut mmr, &mut updates);
    assert!(matches!(refused, Err(SyncError::BlockNotAuthenticated { block_num: 1 })));
}

// TRANSACTIONS AND NULLIFIERS
// ================================================================================================

fn pending(id: u64, nullifier: u64) -> TransactionRecord {
    TransactionRecord {
        id: word(id),
        details: TransactionDetails {
            account_id: ACCOUNT_A,
            init_account_state: word(1),
            final_account_state: word(2),
            input_note_nullifiers: vec![word(nullifier)],
            submission_height: 0,
            expiration_block_num: 100,
        },
        status: TransactionStatus::Pending,
    }
}

fn synced_data(api: &MockRpcApi, transactions: Vec<RpcTransactionRecord>, local: Vec<TransactionRecord>) -> ChainSyncData {
    let info = api.sync_chain_mmr(0, SyncTarget::CommittedChainTip);
    let fetched = FetchedSyncData::new(info, vec![], transactions, 0).unwrap();
    let accounts = AccountUpdates::new(vec![], vec![]);
    ChainSyncData::fetched(0, no_notes(), local, fetched, vec![], accounts)
}

/// The notes that chained transactions consume in one block are listed in the order of the
/// transactions, and their consumer is known.
#[test]
fn sync_state_sets_consumed_tx_order_for_chained_transactions() {
    let api = mock_api(2);
    let records = vec![
        make_tx(ACCOUNT_A, 3, 4, &[30], 2),
        make_tx(ACCOUNT_A, 1, 2, &[10], 2),
        make_tx(ACCOUNT_A, 2, 3, &[20], 2),
    ];
    let mut data = synced_data(&api, records, vec![]);
    data.begin_screening();
    let (order, _) = data.apply_transactions_and_nullifiers(vec![], None).unwrap();
    assert_eq!(order, vec![word(10), word(20), word(30)]);

    let request = data.nullifier_request(true, &order).unwrap();
    assert_eq!((request.block_from, request.block_to), (1, 2));
    assert!(data.nullifier_request(false, &order).is_none());

    let update = NullifierUpdate { nullifier: word(20), block_num: 2 };
    let late = NullifierUpdate { nullifier: word(30), block_num: 9 };
    let consumptions = data.apply_nullifiers(&vec![update, late]);
    assert_eq!(consumptions.len(), 1);
    assert_eq!(consumptions[0].external_consumer, Some(ACCOUNT_A));
    assert_eq!((consumptions[0].nullifier, consumptions[0].block_num), (word(20), 2));
}

#[test]
fn a_nullified_input_discards_the_transaction() {
    let api = mock_api(2);
    let mut data = synced_data(&api, vec![], vec![pending(1, 500)]);
    data.begin_screening();
    data.apply_transactions_and_nullifiers(vec![], None);
    let update = NullifierUpdate { nullifier: word(500), block_num: 2 };
    data.apply_nullifiers(&vec![update]);
    let mut mmr = genesis_partial_mmr(&api);
    let update = finish_sync(data, &mut mmr).unwrap();
    let discarded = update.transaction_updates().discarded_transactions();
    assert_eq!(
        discarded[0].status,
        TransactionStatus::Discarded(DiscardCause::InputConsumed)
    );
}

#[test]
fn erased_notes_are_marked_as_consumed() {
    let mut record = make_tx(ACCOUNT_A, 1, 2, &[], 4);
    record.output_notes = vec![word(61)];
    record.erased_output_notes = vec![word(60)];
    let steps = output_note_steps(&vec![record]);
    assert_eq!(
        steps,
        vec![
            OutputNoteStep::Commit { note_id: word(61) },
            OutputNoteStep::ConsumeErased { note_id: word(60), block_num: 4 },
        ]
    );
}

#[test]
fn consumed_public_notes_are_recovered() {
    let mut record = make_tx(ACCOUNT_A, 1, 2, &[500, 501], 4);
    record.consumed_note_refs = vec![
        ConsumedNoteRef { nullifier: word(500), note_id: word(1) },
        ConsumedNoteRef { nullifier: word(501), note_id: word(2) },
    ];
    let recoverable = recoverable_notes(&vec![record], &vec![word(2)]);
    assert_eq!(recoverable.keys(), vec![word(1)]);
    let fetched = |nullifier| FetchedNote::Public { note_id: word(1), nullifier, block_num: 2 };

    let recovered = check_recovered_notes(&recoverable, &vec![fetched(word(500))]).unwrap();
    assert_eq!(recovered[0].note_id, word(1));
    assert_eq!((recovered[0].consumer, recovered[0].block_num), (ACCOUNT_A, 4));

    let text = |fetched| match check_recovered_notes(&recoverable, &vec![fetched]) {
        Err(RpcError::InvalidResponse(text)) => text,
        other => panic!("the answer is refused, not {other:?}"),
    };
    let id = format!("0x01{}", "0".repeat(62));
    assert_eq!(
        text(fetched(word(9))),
        format!("node returned note {id} whose nullifier doesn't match the consumed reference")
    );
    assert_eq!(
        text(FetchedNote::Private { note_id: word(1), block_num: 2 }),
        format!("node returned private note {id} for a public consumed-note reference")
    );
    // A public note that was not asked for is passed over.
    let other = FetchedNote::Public { note_id: word(7), nullifier: word(500), block_num: 2 };
    assert!(check_recovered_notes(&recoverable, &vec![other]).unwrap().is_empty());
}

// SCREENING
// ================================================================================================

/// Commits notes with an even id, inserts public ones, and discards the rest.
struct Screener;

impl OnNoteReceived for Screener {
    fn on_note_received(
        &self,
        committed_note: CommittedNote,
        public_note: Option<InputNoteRecord>,
    ) -> Result<NoteUpdateAction, miden_client::errors::ClientError> {
        Ok(if committed_note.note_id.e0 % 2 == 0 {
            NoteUpdateAction::Commit(committed_note)
        } else if let Some(record) = public_note {
            NoteUpdateAction::Insert(record)
        } else {
            NoteUpdateAction::Discard
        })
    }
}

fn committed_note(id: u64) -> CommittedNote {
    CommittedNote {
        note_id: word(id),
        metadata: metadata(),
        inclusion_proof: NoteInclusionProof { block_num: 1, node_index: 0, note_path: vec![] },
        attachments: None,
    }
}

#[test]
fn a_public_note_starts_unverified() {
    let note = committed_note(4);
    let details = PublicDetails { details_commitment: word(8), nullifier: word(9) };
    let record = public_note_record(&note, Some(details)).unwrap();
    assert_eq!(record.state, InputNoteState::Unverified);
    assert_eq!(record.note_id, Some(word(4)));
    assert_eq!((record.details_commitment, record.nullifier), (word(8), Some(word(9))));
    assert_eq!(record.inclusion_block, Some(note.inclusion_proof.block_num));
    assert!(public_note_record(&note, None).is_none());
}

#[test]
fn notes_are_screened_one_by_one() {
    let record = InputNoteRecord {
        details_commitment: word(9),
        note_id: Some(word(3)),
        nullifier: None,
        inclusion_block: None,
        state: InputNoteState::Unverified,
    };
    let notes = vec![
        (committed_note(2), None),
        (committed_note(3), Some(record)),
        (committed_note(5), None),
    ];
    let actions = screen_notes(&Screener, notes).unwrap();
    let id = |note_id: NoteId| note_id.e0;
    assert!(matches!(&actions[0], NoteUpdateAction::Commit(note) if id(note.note_id) == 2));
    assert!(matches!(actions[1], NoteUpdateAction::Insert(_)));
    assert!(matches!(actions[2], NoteUpdateAction::Discard));
}

#[test]
fn a_block_is_relevant_to_the_client_or_to_an_observer() {
    let verdict = |observers: Vec<Option<bool>>, outcome| NoteVerdict { observers, outcome };
    let of = |verdicts: Vec<NoteVerdict>| NoteBlockRelevance::of_notes(&verdicts);
    assert!(!of(vec![]).is_relevant());
    assert!(!of(vec![verdict(vec![None, Some(false)], NoteOutcome::Discarded)]).is_relevant());
    assert!(of(vec![verdict(vec![Some(true)], NoteOutcome::Discarded)]).observer_requires_block);
    assert!(of(vec![verdict(vec![], NoteOutcome::Inserted)]).has_client_note);
    let output = NoteOutcome::Committed { is_input_note: false };
    assert!(!of(vec![verdict(vec![], output)]).has_client_note);
}
