//! Tests of the updates that a sync leads to.
use miden_client::collections::OrdMap;
use miden_client::mmr::MmrPeaks;
use miden_client::rpc::domain::account::{
    AccountCode, AccountHeader, SlotId, StorageMapEntry,
};
use miden_client::rpc::domain::transaction::{
    TransactionHeader, TransactionRecord as RpcTransactionRecord,
};
use miden_client::sync::account_updates::{
    build_account_patch, AccountPatch, AccountPatchError, AccountUpdates, AccountVaultPatch,
    PublicAccountUpdate, StorageMapPatch, StorageSlotPatch, StorageValuePatch,
};
use miden_client::sync::blockchain_updates::PartialBlockchainUpdates;
use miden_client::sync::state_sync::{
    InputNoteUpdate, NoteUpdateType, NoteUpdates, OutputNoteUpdate, StateSyncUpdate, SyncSummary,
};
use miden_client::sync::transaction_updates::TransactionUpdateTracker;
use miden_client::store::{InputNoteRecord, InputNoteState};
use miden_client::transaction::{
    DiscardCause, TransactionDetails, TransactionRecord, TransactionStatus,
};
use miden_client::types::{BlockHeader, Word};

fn word(n: u64) -> Word {
    Word { e0: n, e1: 0, e2: 0, e3: 0 }
}

fn header_with_nonce(nonce: u64) -> AccountHeader {
    AccountHeader {
        id: 77,
        nonce,
        vault_root: word(0),
        storage_commitment: word(0),
        code_commitment: word(0),
    }
}

const VALUE_SLOT: SlotId = 1;
const MAP_SLOT: SlotId = 2;

fn build_patch(
    new_nonce: u64,
    value_slot_updates: Vec<(SlotId, Word)>,
    map_entries: OrdMap<SlotId, Vec<StorageMapEntry>>,
) -> Result<AccountPatch, AccountPatchError> {
    build_account_patch(
        &header_with_nonce(new_nonce),
        &value_slot_updates,
        map_entries,
        AccountVaultPatch { assets: OrdMap::new() },
        AccountCode { commitment: word(0), serialized: vec![1] },
    )
}

fn one_map(key: u64, value: u64) -> OrdMap<SlotId, Vec<StorageMapEntry>> {
    let mut map_entries = OrdMap::new();
    map_entries.insert(MAP_SLOT, vec![StorageMapEntry { key: word(key), value: word(value) }]);
    map_entries
}

#[test]
fn build_patch_empty_payload_carries_only_nonce() {
    let patch = build_patch(4, vec![], OrdMap::new()).unwrap();

    assert_eq!(patch.final_nonce, 4);
    assert!(patch.storage.entries().is_empty());
    assert!(patch.vault.assets.entries().is_empty());
    assert!(!patch.is_full_state());
}

#[test]
fn build_patch_sets_value_slot_absolutely() {
    let patch = build_patch(2, vec![(VALUE_SLOT, word(2))], OrdMap::new()).unwrap();

    assert!(matches!(
        patch.storage.get(&VALUE_SLOT),
        Some(StorageSlotPatch::Value(StorageValuePatch::Update(value))) if *value == word(2)
    ));
}

#[test]
fn build_patch_wraps_merged_map_entries() {
    let patch = build_patch(2, vec![], one_map(42, 300)).unwrap();

    let Some(StorageSlotPatch::MapEntries(StorageMapPatch::Update(entries))) =
        patch.storage.get(&MAP_SLOT)
    else {
        panic!("patch should contain map slot");
    };
    assert_eq!(entries.len(), 1);
    assert_eq!(entries[0].value, word(300));
}

#[test]
fn build_patch_rejects_zero_nonce() {
    let result = build_patch(0, vec![], OrdMap::new());
    assert!(result.is_err());
    assert!(matches!(result, Err(AccountPatchError::ZeroNonce)));
}

/// A newly created account (final nonce 1) observed via the oversized sync path yields a
/// full-state patch carrying the supplied code, rather than failing to build.
#[test]
fn build_patch_for_new_account_is_full_state() {
    let patch = build_patch(1, vec![(VALUE_SLOT, word(1))], OrdMap::new()).unwrap();

    assert!(patch.is_full_state());
    assert_eq!(patch.final_nonce, 1);
}

/// A newly created account (final nonce 1, full-state) emits each map slot as a `Create`, which
/// the store applies by starting the slot from an empty map.
#[test]
fn build_patch_emits_map_create_for_new_account() {
    let patch = build_patch(1, vec![], one_map(1, 100)).unwrap();

    assert!(matches!(
        patch.storage.get(&MAP_SLOT),
        Some(StorageSlotPatch::MapEntries(StorageMapPatch::Create(_)))
    ));
}

/// An update to an existing account (final nonce > 1) emits map slots as `Update`, never
/// `Create`, so the sync path never asks the store to re-create a populated map.
#[test]
fn build_patch_emits_map_update_for_existing_account() {
    let patch = build_patch(2, vec![], one_map(1, 100)).unwrap();

    assert!(matches!(
        patch.storage.get(&MAP_SLOT),
        Some(StorageSlotPatch::MapEntries(StorageMapPatch::Update(_)))
    ));
}

#[test]
fn build_patch_rejects_a_slot_that_is_changed_twice() {
    let repeated = build_patch(2, vec![(MAP_SLOT, word(1))], one_map(1, 100));
    assert!(matches!(repeated, Err(AccountPatchError::RepeatedSlot { slot_name: MAP_SLOT })));
    let repeated = build_patch(2, vec![(VALUE_SLOT, word(1)), (VALUE_SLOT, word(2))], OrdMap::new());
    assert!(matches!(repeated, Err(AccountPatchError::RepeatedSlot { slot_name: VALUE_SLOT })));
}

fn transaction(id: u64, from: u64, to: u64, submitted: u32, expires: u32) -> TransactionRecord {
    TransactionRecord {
        id: word(id),
        details: TransactionDetails {
            account_id: 77,
            init_account_state: word(from),
            final_account_state: word(to),
            input_note_nullifiers: vec![word(100 + id)],
            submission_height: submitted,
            expiration_block_num: expires,
        },
        status: TransactionStatus::Pending,
    }
}

fn status(tracker: &TransactionUpdateTracker, id: u64) -> TransactionStatus {
    tracker.transactions.get(&word(id)).unwrap().status
}

fn discarded(cause: DiscardCause) -> TransactionStatus {
    TransactionStatus::Discarded(cause)
}

/// A discarded transaction takes those with it that start from the state it would have led to.
#[test]
fn a_discard_reaches_the_transactions_that_build_on_it() {
    let mut tracker = TransactionUpdateTracker::new(vec![
        transaction(1, 10, 11, 5, 1000),
        transaction(2, 11, 12, 5, 1000),
        transaction(3, 12, 13, 5, 1000),
        transaction(4, 20, 21, 5, 1000),
    ]);
    tracker.apply_input_note_nullified(word(101));

    assert_eq!(status(&tracker, 1), discarded(DiscardCause::InputConsumed));
    assert_eq!(status(&tracker, 2), discarded(DiscardCause::DiscardedInitialState));
    assert_eq!(status(&tracker, 3), discarded(DiscardCause::DiscardedInitialState));
    assert_eq!(status(&tracker, 4), TransactionStatus::Pending);
    assert_eq!(tracker.discarded_transactions().len(), 3);

    // Once more makes no difference.
    tracker.apply_input_note_nullified(word(101));
    assert_eq!(tracker.discarded_transactions().len(), 3);
}

#[test]
fn stale_and_expired_transactions_are_discarded() {
    let mut tracker = TransactionUpdateTracker::new(vec![
        transaction(1, 10, 11, 5, 1000),
        transaction(2, 20, 21, 80, 90),
        transaction(3, 30, 31, 80, 1000),
    ]);
    tracker.apply_sync_height_update(100, Some(20));

    assert_eq!(status(&tracker, 1), discarded(DiscardCause::Stale));
    assert_eq!(status(&tracker, 2), discarded(DiscardCause::Expired));
    assert_eq!(status(&tracker, 3), TransactionStatus::Pending);

    let mut tracker = TransactionUpdateTracker::new(vec![transaction(1, 10, 11, 5, 1000)]);
    tracker.apply_sync_height_update(100, None);
    assert_eq!(status(&tracker, 1), TransactionStatus::Pending);
}

fn included(id: u64, block_num: u32, nullifiers: Vec<Word>) -> RpcTransactionRecord {
    RpcTransactionRecord {
        block_num,
        transaction_header: TransactionHeader {
            id: word(id),
            account_id: 77,
            initial_state_commitment: word(1),
            final_state_commitment: word(2),
            input_nullifiers: nullifiers,
        },
        output_notes: vec![],
        erased_output_notes: vec![],
        consumed_note_refs: vec![],
    }
}

#[test]
fn a_committed_transaction_stays_committed() {
    let mut tracker = TransactionUpdateTracker::new(vec![transaction(1, 10, 11, 5, 1000)]);
    tracker.apply_transaction_inclusion(&included(1, 8, vec![]), 55);
    let committed = TransactionStatus::Committed { block_number: 8, commit_timestamp: 55 };
    assert_eq!(status(&tracker, 1), committed);

    tracker.apply_input_note_nullified(word(101));
    tracker.apply_superseded_account_state(word(11));
    assert_eq!(status(&tracker, 1), committed);
    assert_eq!(tracker.committed_transactions().len(), 1);
    assert_eq!(tracker.updated_transaction_ids(), vec![word(1)]);
}

#[test]
fn the_consumer_of_a_note_is_remembered() {
    let mut tracker = TransactionUpdateTracker::new(vec![]);
    tracker.apply_transaction_inclusion(&included(9, 8, vec![word(500)]), 55);
    assert_eq!(tracker.external_nullifier_account(&word(500)), Some(77));
    assert_eq!(tracker.external_nullifier_account(&word(501)), None);
}

#[test]
fn a_superseded_state_discards_the_transaction_that_led_to_it() {
    let mut tracker = TransactionUpdateTracker::new(vec![
        transaction(1, 10, 11, 5, 1000),
        transaction(2, 11, 12, 5, 1000),
    ]);
    tracker.apply_superseded_account_states(&vec![word(11)]);
    assert_eq!(status(&tracker, 1), discarded(DiscardCause::Superseded));
    assert_eq!(status(&tracker, 2), discarded(DiscardCause::DiscardedInitialState));
}

fn block_header(block_num: u32) -> BlockHeader {
    BlockHeader {
        block_num,
        commitment: word(u64::from(block_num)),
        chain_commitment: word(0),
        account_root: word(0),
        note_root: word(0),
        protocol_config_commitment: word(0),
        verification_base_fee: 0,
        timestamp: 0,
    }
}

#[test]
fn a_relevant_block_stays_relevant() {
    let mut updates = PartialBlockchainUpdates::new();
    updates.insert(block_header(3), true);
    updates.insert(block_header(3), false);
    updates.insert(block_header(4), false);
    updates.insert(block_header(7), false);

    let relevant: Vec<_> =
        updates.block_headers().iter().map(|b| (b.header.block_num, b.is_relevant)).collect();
    assert_eq!(relevant, vec![(3, true), (4, false), (7, false)]);

    let stored: Vec<_> =
        updates.block_headers_to_store(7).iter().map(|b| b.header.block_num).collect();
    assert_eq!(stored, vec![3, 7]);

    updates.extend_authentication_nodes(vec![(1, word(1))]);
    updates.extend_authentication_nodes(vec![(2, word(2))]);
    assert_eq!(updates.new_authentication_nodes(), &vec![(1, word(1)), (2, word(2))]);
}

#[test]
fn account_updates_are_put_together() {
    let update = || PublicAccountUpdate::Patch {
        new_header: header_with_nonce(4),
        patch: build_patch(4, vec![], OrdMap::new()).unwrap(),
    };
    assert_eq!((update().id(), update().nonce()), (77, 4));

    let mut updates = AccountUpdates::new(vec![update()], vec![(1, word(1))]);
    updates.extend(AccountUpdates::new(vec![update()], vec![(2, word(2))]));
    assert_eq!(updates.updated_public_accounts().len(), 2);
    assert_eq!(updates.mismatched_private_accounts(), &vec![(1, word(1)), (2, word(2))]);
}

fn input_note(id: u64, state: InputNoteState) -> InputNoteRecord {
    InputNoteRecord {
        details_commitment: word(1000 + id),
        note_id: Some(word(id)),
        nullifier: Some(word(2000 + id)),
        inclusion_block: Some(4),
        state,
    }
}

#[test]
fn a_summary_lists_what_a_sync_changed() {
    let mut tracker = TransactionUpdateTracker::new(vec![transaction(1, 10, 11, 5, 1000)]);
    tracker.apply_transaction_inclusion(&included(1, 8, vec![]), 55);
    let update = StateSyncUpdate::from_parts(
        9,
        PartialBlockchainUpdates {
            block_headers: OrdMap::new(),
            new_authentication_nodes: vec![],
            new_peaks: MmrPeaks::empty(),
        },
        NoteUpdates {
            updated_input_notes: vec![
                InputNoteUpdate {
                    note: input_note(1, InputNoteState::Committed),
                    update_type: NoteUpdateType::InsertCommitted,
                },
                InputNoteUpdate {
                    note: input_note(2, InputNoteState::Committed),
                    update_type: NoteUpdateType::Update,
                },
                InputNoteUpdate {
                    note: input_note(4, InputNoteState::Committed),
                    update_type: NoteUpdateType::Insert,
                },
                InputNoteUpdate {
                    note: input_note(6, InputNoteState::Unverified),
                    update_type: NoteUpdateType::Update,
                },
                InputNoteUpdate {
                    note: input_note(7, InputNoteState::Committed),
                    update_type: NoteUpdateType::Unchanged,
                },
            ],
            updated_output_notes: vec![OutputNoteUpdate {
                note_id: word(3),
                is_committed: true,
                update_type: NoteUpdateType::Update,
            }],
            consumed_input_note_ids: vec![word(5)],
            unspent_input_note_block_numbers: vec![],
        },
        tracker,
        AccountUpdates::new(vec![], vec![(8, word(1))]),
        None,
    );
    assert_eq!(update.block_num(), 9);
    assert!(update.protocol_config().is_none());

    let summary = SyncSummary::from_update(&update);
    assert_eq!(summary.block_num, 9);
    assert_eq!(summary.new_public_notes, vec![word(4)]);
    assert_eq!(summary.committed_notes, vec![word(1), word(2), word(3)]);
    assert_eq!(summary.consumed_notes, vec![word(5)]);
    assert_eq!(summary.locked_accounts, vec![8]);
    assert_eq!(summary.committed_transactions, vec![word(1)]);
    assert!(summary.new_private_notes.is_empty());
    assert!(summary.updated_accounts.is_empty());
}
