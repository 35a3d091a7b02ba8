//! Syncing the client with the chain tip, and the update that a sync leads to.
use miden_protocol::crypto::merkle::mmr::PartialMmr;
use vstd::prelude::*;

use crate::collections::{first_some, lists_set, present, sorted_set, OrdMap};
use crate::errors::SyncError;
use crate::mmr::{copy, delta_applied, max_leaves, model, InOrderIndex, MmrDelta, MmrModel};
use crate::rpc::domain::note::{prefix_of, NullifierUpdate, SyncNotesBlock};
use crate::rpc::domain::sync::{ChainMmrInfo, ProtocolConfig};
use crate::rpc::domain::transaction::TransactionRecord as RpcTransactionRecord;
use crate::store::InputNoteRecord;
use crate::sync::account_updates::{AccountUpdates, PublicAccountUpdate};
use crate::sync::blockchain_updates::{with_header, BlockUpdate, PartialBlockchainUpdates};
use crate::sync::chain_sync::{
    advance_mmr, advance_problem, advanced, left_at_failure, note_block_problems,
    note_blocks_tracked, stages_new_nodes, stopped, transaction_problems,
    validate_and_track_note_blocks, validate_fetched, RelevantNoteBlock,
};
use crate::sync::execution_chain::{
    account_blocks, all_walkable, compute_ordered_nullifiers, nullifiers_over,
};
use crate::sync::note_sync::{
    all_steps, apply_nullifiers, consumptions_of, nullifier_request, nullifiers_of,
    output_note_steps, NoteConsumption, NullifierRequest, OutputNoteStep,
};
use crate::sync::transaction_updates::{
    after_sync_height, all_included, all_nullified, all_superseded, by_id, committed_of, ids_of,
    TransactionUpdateTracker,
};
use crate::transaction::TransactionRecord;
use crate::types::{AccountId, BlockHeader, BlockNumber, NoteId, Nullifier, TransactionId, Word};

verus! {

// NOTE UPDATES
// ================================================================================================
/// How a note is written to the store.
#[derive(Clone, Copy, Debug, PartialEq, Eq, Structural)]
pub enum NoteUpdateType {
    /// The note did not change.
    Unchanged,
    /// The note is new.
    Insert,
    /// The note was expected and is committed now, and is written as if it were new.
    InsertCommitted,
    /// The note changed.
    Update,
}

/// An input note and how it is written to the store.
#[derive(Clone, Copy, Debug, PartialEq, Eq, Structural)]
pub struct InputNoteUpdate {
    pub note: InputNoteRecord,
    pub update_type: NoteUpdateType,
}

/// An output note and how it is written to the store.
#[derive(Clone, Copy, Debug, PartialEq, Eq, Structural)]
pub struct OutputNoteUpdate {
    pub note_id: NoteId,
    pub is_committed: bool,
    pub update_type: NoteUpdateType,
}

/// What a sync did to the notes of the client.
#[derive(Debug)]
pub struct NoteUpdates {
    pub updated_input_notes: Vec<InputNoteUpdate>,
    pub updated_output_notes: Vec<OutputNoteUpdate>,
    pub consumed_input_note_ids: Vec<NoteId>,
    /// The blocks of the input notes that are not consumed.
    pub unspent_input_note_block_numbers: Vec<BlockNumber>,
}

// CHAIN SYNC DATA
// ================================================================================================
/// What a node sent about the blocks that are new to the client.
#[derive(Debug)]
pub struct FetchedSyncData {
    /// The delta from the current block to the chain tip, without the chain tip itself.
    pub mmr_delta: MmrDelta,
    pub chain_tip_header: BlockHeader,
    pub note_blocks: Vec<SyncNotesBlock>,
    pub transactions: Vec<RpcTransactionRecord>,
    /// The protocol configuration at the chain tip, if the node sent it.
    pub protocol_config: Option<ProtocolConfig>,
}

impl FetchedSyncData {
    /// Puts together what a node sent, and checks that it lies in the range that was asked for.
    pub fn new(
        chain_mmr_info: ChainMmrInfo,
        note_blocks: Vec<SyncNotesBlock>,
        transactions: Vec<RpcTransactionRecord>,
        current_block_num: BlockNumber,
    ) -> (data: Result<Self, SyncError>)
        ensures
            ({
                let tip = chain_mmr_info.block_to;
                let notes = first_some(note_block_problems(note_blocks@, current_block_num, tip));
                let txs = first_some(transaction_problems(transactions@, current_block_num, tip));
                match (notes, txs) {
                    (Some(problem), _) => data == Err::<Self, _>(SyncError::Validation(problem)),
                    (None, Some(problem)) => data == Err::<Self, _>(
                        SyncError::Validation(problem),
                    ),
                    (None, None) => data == Ok::<_, SyncError>(
                        FetchedSyncData {
                            mmr_delta: chain_mmr_info.mmr_delta,
                            chain_tip_header: chain_mmr_info.block_header,
                            note_blocks,
                            transactions,
                            protocol_config: chain_mmr_info.protocol_config,
                        },
                    ),
                }
            }),
    {
        if let Err(error) = validate_fetched(
            &note_blocks,
            &transactions,
            current_block_num,
            chain_mmr_info.block_to,
        ) {
            return Err(error);
        }
        Ok(
            FetchedSyncData {
                mmr_delta: chain_mmr_info.mmr_delta,
                chain_tip_header: chain_mmr_info.block_header,
                note_blocks,
                transactions,
                protocol_config: chain_mmr_info.protocol_config,
            },
        )
    }
}

/// What a sync knows of the blocks that are new to the client.
#[derive(Debug)]
pub struct ChainAdvance {
    pub chain_tip_header: BlockHeader,
    pub mmr_delta: MmrDelta,
    /// The note blocks as they arrived. They are taken for screening.
    pub note_blocks_awaiting_screening: Vec<SyncNotesBlock>,
    pub transactions: Vec<RpcTransactionRecord>,
    /// The blocks that turned out to be relevant.
    pub relevant_note_blocks: Vec<RelevantNoteBlock>,
    pub protocol_config: Option<ProtocolConfig>,
}

/// What a sync fetched, before any of it is checked against the mountain range or stored.
#[derive(Debug)]
pub struct ChainSyncData {
    /// The block the sync started from.
    pub block_from: BlockNumber,
    /// What is new since that block; nothing if it is the chain tip.
    pub advance: Option<ChainAdvance>,
    /// Account states that the network superseded.
    pub superseded_states: Vec<Word>,
    pub note_updates: NoteUpdates,
    pub transaction_updates: TransactionUpdateTracker,
    pub account_updates: AccountUpdates,
}

impl ChainSyncData {
    /// The delta does not lead past the largest range.
    pub open spec fn wf(self) -> bool {
        self.advance matches Some(advance) ==> advance.mmr_delta.forest <= max_leaves()
    }

    /// Returns what a sync works with if the client is at the chain tip.
    pub fn at_chain_tip(
        block_from: BlockNumber,
        note_updates: NoteUpdates,
        uncommitted_transactions: Vec<TransactionRecord>,
    ) -> (data: Self)
        ensures
            data.wf(),
            data.block_from == block_from,
            data.advance is None,
            data.superseded_states@ == Seq::<Word>::empty(),
            data.note_updates == note_updates,
            data.transaction_updates.transactions@ == by_id(uncommitted_transactions@),
            data.transaction_updates.external_nullifier_accounts@ == Map::<
                Nullifier,
                AccountId,
            >::empty(),
            data.account_updates.updated_public_accounts@ == Seq::<PublicAccountUpdate>::empty(),
            data.account_updates.mismatched_private_accounts@ == Seq::<(AccountId, Word)>::empty(),
    {
        ChainSyncData {
            block_from,
            advance: None,
            superseded_states: Vec::new(),
            note_updates,
            transaction_updates: TransactionUpdateTracker::new(uncommitted_transactions),
            account_updates: AccountUpdates::new(Vec::new(), Vec::new()),
        }
    }

    /// Returns what a sync works with after the new blocks and the account states were fetched.
    pub fn fetched(
        block_from: BlockNumber,
        note_updates: NoteUpdates,
        uncommitted_transactions: Vec<TransactionRecord>,
        sync_data: FetchedSyncData,
        superseded_states: Vec<Word>,
        account_updates: AccountUpdates,
    ) -> (data: Self)
        requires
            sync_data.mmr_delta.forest <= max_leaves(),
        ensures
            data.wf(),
            data.block_from == block_from,
            data.advance matches Some(advance) && {
                &&& advance.chain_tip_header == sync_data.chain_tip_header
                &&& advance.mmr_delta == sync_data.mmr_delta
                &&& advance.note_blocks_awaiting_screening == sync_data.note_blocks
                &&& advance.transactions == sync_data.transactions
                &&& advance.relevant_note_blocks@ == Seq::<RelevantNoteBlock>::empty()
                &&& advance.protocol_config == sync_data.protocol_config
            },
            data.superseded_states == superseded_states,
            data.note_updates == note_updates,
            data.transaction_updates.transactions@ == by_id(uncommitted_transactions@),
            data.transaction_updates.external_nullifier_accounts@ == Map::<
                Nullifier,
                AccountId,
            >::empty(),
            data.account_updates == account_updates,
    {
        ChainSyncData {
            block_from,
            advance: Some(
                ChainAdvance {
                    chain_tip_header: sync_data.chain_tip_header,
                    mmr_delta: sync_data.mmr_delta,
                    note_blocks_awaiting_screening: sync_data.note_blocks,
                    transactions: sync_data.transactions,
                    relevant_note_blocks: Vec::new(),
                    protocol_config: sync_data.protocol_config,
                },
            ),
            superseded_states,
            note_updates,
            transaction_updates: TransactionUpdateTracker::new(uncommitted_transactions),
            account_updates,
        }
    }

    /// Gives up the transactions that lost against the network, and takes the note blocks out for
    /// screening. Does nothing at the chain tip.
    pub fn begin_screening(&mut self) -> (note_blocks: Vec<SyncNotesBlock>)
        requires
            old(self).wf(),
        ensures
            final(self).wf(),
            final(self).block_from == old(self).block_from,
            final(self).note_updates == old(self).note_updates,
            final(self).account_updates == old(self).account_updates,
            final(self).transaction_updates.external_nullifier_accounts == old(self).transaction_updates.external_nullifier_accounts,
            match (old(self).advance, final(self).advance) {
                (None, None) => {
                    &&& note_blocks@ == Seq::<SyncNotesBlock>::empty()
                    &&& final(self).transaction_updates == old(self).transaction_updates
                    &&& final(self).superseded_states == old(self).superseded_states
                },
                (Some(before), Some(after)) => {
                    &&& note_blocks == before.note_blocks_awaiting_screening
                    &&& after.note_blocks_awaiting_screening@ == Seq::<SyncNotesBlock>::empty()
                    &&& after.chain_tip_header == before.chain_tip_header
                    &&& after.mmr_delta == before.mmr_delta
                    &&& after.transactions == before.transactions
                    &&& after.relevant_note_blocks == before.relevant_note_blocks
                    &&& after.protocol_config == before.protocol_config
                    &&& final(self).superseded_states@ == Seq::<Word>::empty()
                    &&& final(self).transaction_updates.txs() == all_superseded(
                        old(self).transaction_updates.txs(),
                        old(self).superseded_states@,
                    )
                },
                _ => false,
            },
    {
        match self.advance.take() {
            None => Vec::new(),
            Some(advance) => {
                self.transaction_updates.apply_superseded_account_states(&self.superseded_states);
                self.superseded_states = Vec::new();
                self.advance = Some(
                    ChainAdvance { note_blocks_awaiting_screening: Vec::new(), ..advance },
                );
                advance.note_blocks_awaiting_screening
            },
        }
    }

    /// Takes the relevant ones among the screened blocks, and applies the transactions of the new
    /// blocks. Returns what these mean for the notes of the client: the nullifiers in the order in
    /// which the notes were consumed, and the steps for the output notes.
    pub fn apply_transactions_and_nullifiers(
        &mut self,
        relevant_note_blocks: Vec<RelevantNoteBlock>,
        tx_discard_delta: Option<u32>,
    ) -> (notes: Option<(Vec<Nullifier>, Vec<OutputNoteStep>)>)
        requires
            old(self).wf(),
            old(self).advance matches Some(advance) ==> all_walkable(advance.transactions@),
        ensures
            final(self).wf(),
            final(self).block_from == old(self).block_from,
            final(self).note_updates == old(self).note_updates,
            final(self).account_updates == old(self).account_updates,
            final(self).superseded_states == old(self).superseded_states,
            match (old(self).advance, final(self).advance) {
                (None, None) => {
                    &&& notes is None
                    &&& final(self).transaction_updates == old(self).transaction_updates
                },
                (Some(before), Some(after)) => {
                    let tip = before.chain_tip_header;
                    let applied = all_included(
                        old(self).transaction_updates.state(),
                        before.transactions@,
                        tip.timestamp as u64,
                    );
                    &&& after == (ChainAdvance { relevant_note_blocks, ..before })
                    &&& notes is Some
                    &&& (notes->0).0@ == nullifiers_over(
                        before.transactions@,
                        account_blocks(before.transactions@),
                    )
                    &&& (notes->0).1@ == all_steps(before.transactions@)
                    &&& final(self).transaction_updates.txs() == after_sync_height(
                        applied.0,
                        tip.block_num,
                        tx_discard_delta,
                    )
                    &&& final(self).transaction_updates.external_nullifier_accounts@ == applied.1
                },
                _ => false,
            },
    {
        match self.advance.take() {
            None => None,
            Some(advance) => {
                let nullifiers = compute_ordered_nullifiers(&advance.transactions);
                let steps = output_note_steps(&advance.transactions);
                self.transaction_updates.apply_transactions(
                    &advance.transactions,
                    advance.chain_tip_header.timestamp as u64,
                    advance.chain_tip_header.block_num,
                    tx_discard_delta,
                );
                self.advance = Some(ChainAdvance { relevant_note_blocks, ..advance });
                Some((nullifiers, steps))
            },
        }
    }

    /// Returns the request for the nullifiers of the unspent notes. Nothing is requested if the
    /// nullifier sync is disabled, or at the chain tip.
    pub fn nullifier_request(
        &self,
        sync_nullifiers: bool,
        unspent_nullifiers: &Vec<Nullifier>,
    ) -> (request: Option<NullifierRequest>)
        requires
            self.advance matches Some(advance) ==> self.block_from
                < advance.chain_tip_header.block_num,
        ensures
            match self.advance {
                Some(advance) => {
                    &&& request is Some == sync_nullifiers
                    &&& request matches Some(request) ==> {
                        &&& request.prefixes@ == unspent_nullifiers@.map_values(
                            |nullifier: Nullifier| prefix_of(nullifier),
                        )
                        &&& request.block_from == self.block_from + 1
                        &&& request.block_to == advance.chain_tip_header.block_num
                    }
                },
                None => request is None,
            },
    {
        if !sync_nullifiers {
            return None;
        }
        match &self.advance {
            None => None,
            Some(advance) => Some(
                nullifier_request(
                    unspent_nullifiers,
                    self.block_from,
                    advance.chain_tip_header.block_num,
                ),
            ),
        }
    }

    /// Applies the nullifiers that a node reported, and returns the consumptions for the notes of
    /// the client. Does nothing at the chain tip.
    pub fn apply_nullifiers(&mut self, new_nullifiers: &Vec<NullifierUpdate>) -> (consumptions: Vec<
        NoteConsumption,
    >)
        requires
            old(self).wf(),
        ensures
            final(self).wf(),
            final(self).block_from == old(self).block_from,
            final(self).advance == old(self).advance,
            final(self).note_updates == old(self).note_updates,
            final(self).account_updates == old(self).account_updates,
            final(self).superseded_states == old(self).superseded_states,
            final(self).transaction_updates.external_nullifier_accounts == old(self).transaction_updates.external_nullifier_accounts,
            match old(self).advance {
                Some(advance) => {
                    &&& consumptions@ == consumptions_of(
                        old(self).transaction_updates.external_nullifier_accounts@,
                        new_nullifiers@,
                        advance.chain_tip_header.block_num,
                    )
                    &&& final(self).transaction_updates.txs() == all_nullified(
                        old(self).transaction_updates.txs(),
                        nullifiers_of(consumptions@),
                    )
                },
                None => {
                    &&& consumptions@ == Seq::<NoteConsumption>::empty()
                    &&& final(self).transaction_updates == old(self).transaction_updates
                },
            },
    {
        match &self.advance {
            None => Vec::new(),
            Some(advance) => apply_nullifiers(
                &mut self.transaction_updates,
                new_nullifiers,
                advance.chain_tip_header.block_num,
            ),
        }
    }
}

// STATE SYNC UPDATE
// ================================================================================================
/// Everything that a sync changes in the store.
#[derive(Debug)]
pub struct StateSyncUpdate {
    /// The last block that was synced.
    pub block_num: BlockNumber,
    pub partial_blockchain_updates: PartialBlockchainUpdates,
    pub note_updates: NoteUpdates,
    pub transaction_updates: TransactionUpdateTracker,
    pub account_updates: AccountUpdates,
    pub protocol_config: Option<ProtocolConfig>,
}

impl StateSyncUpdate {
    /// Puts an update together from its parts, which are taken as they are.
    pub fn from_parts(
        block_num: BlockNumber,
        partial_blockchain_updates: PartialBlockchainUpdates,
        note_updates: NoteUpdates,
        transaction_updates: TransactionUpdateTracker,
        account_updates: AccountUpdates,
        protocol_config: Option<ProtocolConfig>,
    ) -> (update: Self)
        ensures
            update == (StateSyncUpdate {
                block_num,
                partial_blockchain_updates,
                note_updates,
                transaction_updates,
                account_updates,
                protocol_config,
            }),
    {
        StateSyncUpdate {
            block_num,
            partial_blockchain_updates,
            note_updates,
            transaction_updates,
            account_updates,
            protocol_config,
        }
    }

    /// Returns the last block that was synced.
    pub fn block_num(&self) -> (block_num: BlockNumber)
        ensures
            block_num == self.block_num,
    {
        self.block_num
    }

    /// Returns the headers, nodes and peaks to be stored.
    pub fn partial_blockchain_updates(&self) -> (updates: &PartialBlockchainUpdates)
        ensures
            *updates == self.partial_blockchain_updates,
    {
        &self.partial_blockchain_updates
    }

    /// Returns what happened to the notes.
    pub fn note_updates(&self) -> (updates: &NoteUpdates)
        ensures
            *updates == self.note_updates,
    {
        &self.note_updates
    }

    /// Returns what happened to the transactions.
    pub fn transaction_updates(&self) -> (updates: &TransactionUpdateTracker)
        ensures
            *updates == self.transaction_updates,
    {
        &self.transaction_updates
    }

    /// Returns what happened to the accounts.
    pub fn account_updates(&self) -> (updates: &AccountUpdates)
        ensures
            *updates == self.account_updates,
    {
        &self.account_updates
    }

    /// Returns the protocol configuration that came with the sync, if there was one.
    pub fn protocol_config(&self) -> (config: Option<&ProtocolConfig>)
        ensures
            match (config, self.protocol_config) {
                (Some(config), Some(own)) => *config == own,
                (None, None) => true,
                _ => false,
            },
    {
        match &self.protocol_config {
            Some(config) => Some(config),
            None => None,
        }
    }

    /// Takes an update apart. Putting the parts together again gives the same update.
    pub fn into_parts(self) -> (parts: (
        BlockNumber,
        PartialBlockchainUpdates,
        NoteUpdates,
        TransactionUpdateTracker,
        AccountUpdates,
        Option<ProtocolConfig>,
    ))
        ensures
            self == (StateSyncUpdate {
                block_num: parts.0,
                partial_blockchain_updates: parts.1,
                note_updates: parts.2,
                transaction_updates: parts.3,
                account_updates: parts.4,
                protocol_config: parts.5,
            }),
    {
        (
            self.block_num,
            self.partial_blockchain_updates,
            self.note_updates,
            self.transaction_updates,
            self.account_updates,
            self.protocol_config,
        )
    }
}

// BUILDING THE UPDATE
// ================================================================================================
/// Why no update can be built.
pub open spec fn build_problem(data: ChainSyncData, mmr: MmrModel) -> Option<SyncError> {
    match data.advance {
        None => None,
        Some(advance) => if advance.note_blocks_awaiting_screening@.len() > 0 {
            Some(SyncError::UnscreenedNoteBlocks)
        } else {
            match advance_problem(mmr, advance.mmr_delta, advance.chain_tip_header) {
                Some(problem) => Some(problem),
                None => match tracked_at_tip(data, advance, mmr) {
                    Ok(_) => None,
                    Err(block_num) => Some(SyncError::BlockNotAuthenticated { block_num }),
                },
            }
        },
    }
}

/// The mountain range at the chain tip with the note blocks that are kept, and the headers to be
/// stored.
pub open spec fn tracked_at_tip(data: ChainSyncData, advance: ChainAdvance, mmr: MmrModel) -> Result<
    (MmrModel, Map<BlockNumber, BlockUpdate>),
    BlockNumber,
> {
    note_blocks_tracked(
        advanced(mmr, advance.mmr_delta, advance.chain_tip_header).0,
        with_header(Map::empty(), advance.chain_tip_header, false),
        advance.relevant_note_blocks@,
        data.note_updates.unspent_input_note_block_numbers@,
    )
}

/// The mountain range after the sync.
pub open spec fn synced_mmr(data: ChainSyncData, mmr: MmrModel) -> MmrModel {
    match data.advance {
        None => mmr,
        Some(advance) => (tracked_at_tip(data, advance, mmr)->Ok_0).0,
    }
}

/// The mountain range that is left where no update can be built.
pub open spec fn unsynced_mmr(data: ChainSyncData, mmr: MmrModel) -> MmrModel {
    match data.advance {
        None => mmr,
        Some(advance) => if advance.note_blocks_awaiting_screening@.len() > 0 {
            mmr
        } else if advance_problem(mmr, advance.mmr_delta, advance.chain_tip_header) is Some {
            stopped(mmr, advance.mmr_delta)
        } else {
            left_at_failure(
                advanced(mmr, advance.mmr_delta, advance.chain_tip_header).0,
                with_header(Map::empty(), advance.chain_tip_header, false),
                advance.relevant_note_blocks@,
                data.note_updates.unspent_input_note_block_numbers@,
            ).0
        },
    }
}

/// `update` is what the data of a sync lead to.
pub open spec fn is_update_of(update: StateSyncUpdate, data: ChainSyncData, mmr: MmrModel) -> bool {
    &&& update.note_updates == data.note_updates
    &&& update.transaction_updates == data.transaction_updates
    &&& update.account_updates == data.account_updates
    &&& match data.advance {
        None => {
            &&& update.block_num == data.block_from
            &&& update.protocol_config is None
            &&& update.partial_blockchain_updates.block_headers@ == Map::<
                BlockNumber,
                BlockUpdate,
            >::empty()
            &&& update.partial_blockchain_updates.new_authentication_nodes@ == Seq::<
                (InOrderIndex, Word),
            >::empty()
            &&& update.partial_blockchain_updates.new_peaks.forest == 0
            &&& update.partial_blockchain_updates.new_peaks.peaks@ == Seq::<Word>::empty()
        },
        Some(advance) => {
            let delta = advance.mmr_delta;
            let (at_tip, added) = advanced(mmr, delta, advance.chain_tip_header);
            let (after, headers) = tracked_at_tip(data, advance, mmr)->Ok_0;
            &&& update.block_num == advance.chain_tip_header.block_num
            &&& update.protocol_config == advance.protocol_config
            &&& update.partial_blockchain_updates.block_headers@ == headers
            &&& update.partial_blockchain_updates.new_peaks.forest == delta.forest
            &&& update.partial_blockchain_updates.new_peaks.peaks@ == (delta_applied(
                mmr,
                delta.forest as nat,
                delta.data@,
            )->0).0
            &&& stages_new_nodes(
                at_tip.nodes,
                after.nodes,
                added,
                update.partial_blockchain_updates.new_authentication_nodes@,
            )
        },
    }
}

/// Checks what was fetched against the mountain range, and turns it into the update for the store:
/// follows the chain to its tip, and keeps the note blocks that hold unspent notes or that an
/// observer requires.
pub fn build_update(chain_sync_data: ChainSyncData, partial_mmr: &mut PartialMmr) -> (update: Result<
    StateSyncUpdate,
    SyncError,
>)
    requires
        chain_sync_data.wf(),
    ensures
        match build_problem(chain_sync_data, model(*old(partial_mmr))) {
            Some(problem) => {
                &&& update == Err::<StateSyncUpdate, _>(problem)
                &&& model(*final(partial_mmr)) == unsynced_mmr(
                    chain_sync_data,
                    model(*old(partial_mmr)),
                )
            },
            None => {
                &&& update is Ok
                &&& is_update_of(update->Ok_0, chain_sync_data, model(*old(partial_mmr)))
                &&& model(*final(partial_mmr)) == synced_mmr(
                    chain_sync_data,
                    model(*old(partial_mmr)),
                )
            },
        },
{
    let mut partial_blockchain_updates = PartialBlockchainUpdates::new();
    match chain_sync_data.advance {
        None => Ok(
            StateSyncUpdate::from_parts(
                chain_sync_data.block_from,
                partial_blockchain_updates,
                chain_sync_data.note_updates,
                chain_sync_data.transaction_updates,
                chain_sync_data.account_updates,
                None,
            ),
        ),
        Some(advance) => {
            if advance.note_blocks_awaiting_screening.len() > 0 {
                return Err(SyncError::UnscreenedNoteBlocks);
            }
            if let Err(error) = advance_mmr(
                &advance.mmr_delta,
                &advance.chain_tip_header,
                partial_mmr,
                &mut partial_blockchain_updates,
            ) {
                return Err(error);
            }
            let ghost staged = partial_blockchain_updates.new_authentication_nodes@;
            proof {
                let (at_tip, added) = advanced(
                    model(*old(partial_mmr)),
                    advance.mmr_delta,
                    advance.chain_tip_header,
                );
                assert(staged =~= added);
            }
            if let Err(error) = validate_and_track_note_blocks(
                &advance.relevant_note_blocks,
                &chain_sync_data.note_updates.unspent_input_note_block_numbers,
                partial_mmr,
                &mut partial_blockchain_updates,
            ) {
                return Err(error);
            }
            Ok(
                StateSyncUpdate::from_parts(
                    advance.chain_tip_header.block_num,
                    partial_blockchain_updates,
                    chain_sync_data.note_updates,
                    chain_sync_data.transaction_updates,
                    chain_sync_data.account_updates,
                    advance.protocol_config,
                ),
            )
        },
    }
}

/// Builds the update of a sync and moves the mountain range along. If anything is wrong with the
/// data, the mountain range stays as it was.
pub fn finish_sync(chain_sync_data: ChainSyncData, current_partial_mmr: &mut PartialMmr) -> (update:
    Result<StateSyncUpdate, SyncError>)
    requires
        chain_sync_data.wf(),
    ensures
        match build_problem(chain_sync_data, model(*old(current_partial_mmr))) {
            Some(problem) => {
                &&& update == Err::<StateSyncUpdate, _>(problem)
                &&& *final(current_partial_mmr) == *old(current_partial_mmr)
            },
            None => {
                &&& update is Ok
                &&& is_update_of(update->Ok_0, chain_sync_data, model(*old(current_partial_mmr)))
                &&& model(*final(current_partial_mmr)) == synced_mmr(
                    chain_sync_data,
                    model(*old(current_partial_mmr)),
                )
            },
        },
{
    let mut working_mmr = copy(current_partial_mmr);
    match build_update(chain_sync_data, &mut working_mmr) {
        Ok(update) => {
            *current_partial_mmr = working_mmr;
            Ok(update)
        },
        Err(error) => Err(error),
    }
}

// SYNC SUMMARY
// ================================================================================================
/// What a sync changed, in short.
#[derive(Debug)]
pub struct SyncSummary {
    /// The last block that was synced.
    pub block_num: BlockNumber,
    /// The public notes that are new.
    pub new_public_notes: Vec<NoteId>,
    /// The private notes that arrived over the note transport layer.
    pub new_private_notes: Vec<NoteId>,
    /// The tracked notes that were committed.
    pub committed_notes: Vec<NoteId>,
    /// The notes that were consumed.
    pub consumed_notes: Vec<NoteId>,
    /// The accounts that changed on the network.
    pub updated_accounts: Vec<AccountId>,
    /// The private accounts whose state on the network is not the local one.
    pub locked_accounts: Vec<AccountId>,
    /// The transactions that were committed.
    pub committed_transactions: Vec<TransactionId>,
}

/// The id of the note, if it is new.
pub open spec fn new_note_id(update: InputNoteUpdate) -> Option<NoteId> {
    if update.update_type is Insert {
        update.note.note_id
    } else {
        None
    }
}

/// The id of the input note, if it was known and is committed. A note that was expected and is
/// committed now counts, although it is written as if it were new.
pub open spec fn committed_input_id(update: InputNoteUpdate) -> Option<NoteId> {
    if (update.update_type is Update || update.update_type is InsertCommitted)
        && update.note.state is Committed {
        update.note.note_id
    } else {
        None
    }
}

/// The id of the output note, if it was known and is committed.
pub open spec fn committed_output_id(update: OutputNoteUpdate) -> Option<NoteId> {
    if update.update_type is Update && update.is_committed {
        Some(update.note_id)
    } else {
        None
    }
}

/// The notes that were committed.
pub open spec fn committed_ids(updates: NoteUpdates) -> Set<NoteId> {
    Set::new(
        |note_id: NoteId|
            updates.updated_input_notes@.map_values(
                |update: InputNoteUpdate| committed_input_id(update),
            ).contains(Some(note_id)) || updates.updated_output_notes@.map_values(
                |update: OutputNoteUpdate| committed_output_id(update),
            ).contains(Some(note_id)),
    )
}

/// Returns the ids of the new notes.
fn new_notes(updates: &Vec<InputNoteUpdate>) -> (note_ids: Vec<NoteId>)
    ensures
        note_ids@ == present(
            updates@.map_values(|update: InputNoteUpdate| new_note_id(update)),
        ),
{
    let ghost ids = updates@.map_values(|update: InputNoteUpdate| new_note_id(update));
    let mut note_ids: Vec<NoteId> = Vec::new();
    let mut i: usize = 0;
    while i < updates.len()
        invariant
            i <= updates.len(),
            ids == updates@.map_values(|update: InputNoteUpdate| new_note_id(update)),
            note_ids@ == present(ids.take(i as int)),
        decreases updates.len() - i,
    {
        proof {
            assert(ids.take(i + 1).drop_last() =~= ids.take(i as int));
            assert(ids.take(i + 1).last() == new_note_id(updates@[i as int]));
        }
        if let NoteUpdateType::Insert = updates[i].update_type {
            if let Some(note_id) = updates[i].note.note_id {
                note_ids.push(note_id);
            }
        }
        i += 1;
    }
    assert(ids.take(i as int) =~= ids);
    note_ids
}

/// Returns the ids of the notes that were committed, in ascending order and each of them once.
fn committed_notes(updates: &NoteUpdates) -> (note_ids: Vec<NoteId>)
    ensures
        lists_set(note_ids@, committed_ids(*updates)),
{
    let ghost inputs = updates.updated_input_notes@.map_values(
        |update: InputNoteUpdate| committed_input_id(update),
    );
    let ghost outputs = updates.updated_output_notes@.map_values(
        |update: OutputNoteUpdate| committed_output_id(update),
    );
    let mut ids: OrdMap<NoteId, ()> = OrdMap::new();
    let mut i: usize = 0;
    while i < updates.updated_input_notes.len()
        invariant
            i <= updates.updated_input_notes.len(),
            inputs == updates.updated_input_notes@.map_values(
                |update: InputNoteUpdate| committed_input_id(update),
            ),
            forall|note_id: NoteId| #[trigger]
                ids@.contains_key(note_id) <==> inputs.take(i as int).contains(Some(note_id)),
        decreases updates.updated_input_notes.len() - i,
    {
        let update = updates.updated_input_notes[i];
        let is_known = match update.update_type {
            NoteUpdateType::Update => true,
            NoteUpdateType::InsertCommitted => true,
            NoteUpdateType::Insert => false,
            NoteUpdateType::Unchanged => false,
        };
        let ghost before = ids@;
        if is_known && update.note.is_committed() {
            if let Some(note_id) = update.note.note_id {
                ids.insert(note_id, ());
            }
        }
        proof {
            lemma_contains_next(inputs, i as int, before, ids@);
        }
        i += 1;
    }
    proof {
        assert(inputs.take(i as int) =~= inputs);
        assert(outputs.take(0) =~= Seq::<Option<NoteId>>::empty());
    }
    let mut i: usize = 0;
    while i < updates.updated_output_notes.len()
        invariant
            i <= updates.updated_output_notes.len(),
            outputs == updates.updated_output_notes@.map_values(
                |update: OutputNoteUpdate| committed_output_id(update),
            ),
            forall|note_id: NoteId| #[trigger]
                ids@.contains_key(note_id) <==> inputs.contains(Some(note_id)) || outputs.take(
                    i as int,
                ).contains(Some(note_id)),
        decreases updates.updated_output_notes.len() - i,
    {
        let update = updates.updated_output_notes[i];
        let ghost before = ids@;
        if let NoteUpdateType::Update = update.update_type {
            if update.is_committed {
                ids.insert(update.note_id, ());
            }
        }
        proof {
            assert forall|note_id: NoteId| #[trigger] ids@.contains_key(note_id) <==> inputs.contains(
                Some(note_id),
            ) || outputs.take(i + 1).contains(Some(note_id)) by {
                lemma_take_contains(outputs, i as int, note_id);
                assert(before.contains_key(note_id) <==> inputs.contains(Some(note_id))
                    || outputs.take(i as int).contains(Some(note_id)));
            }
        }
        i += 1;
    }
    assert(outputs.take(i as int) =~= outputs);
    ids.keys()
}

/// One more option adds its value to those that occur.
proof fn lemma_take_contains(options: Seq<Option<NoteId>>, i: int, note_id: NoteId)
    requires
        0 <= i < options.len(),
    ensures
        options.take(i + 1).contains(Some(note_id)) <==> options.take(i).contains(Some(note_id))
            || options[i] == Some(note_id),
{
    let longer = options.take(i + 1);
    assert(longer =~= options.take(i).push(options[i]));
    if options.take(i).contains(Some(note_id)) {
        let k = choose|k: int| 0 <= k < i && options.take(i)[k] == Some(note_id);
        assert(longer[k] == Some(note_id));
    }
    if options[i] == Some(note_id) {
        assert(longer[i] == Some(note_id));
    }
}

/// If the value of the next option was added, the map holds the values up to that option.
proof fn lemma_contains_next(
    options: Seq<Option<NoteId>>,
    i: int,
    before: Map<NoteId, ()>,
    after: Map<NoteId, ()>,
)
    requires
        0 <= i < options.len(),
        forall|note_id: NoteId| #[trigger]
            before.contains_key(note_id) <==> options.take(i).contains(Some(note_id)),
        after == match options[i] {
            Some(note_id) => before.insert(note_id, ()),
            None => before,
        },
    ensures
        forall|note_id: NoteId| #[trigger]
            after.contains_key(note_id) <==> options.take(i + 1).contains(Some(note_id)),
{
    assert forall|note_id: NoteId| #[trigger]
        after.contains_key(note_id) <==> options.take(i + 1).contains(Some(note_id)) by {
        lemma_take_contains(options, i, note_id);
        assert(before.contains_key(note_id) <==> options.take(i).contains(Some(note_id)));
    }
}

impl SyncSummary {
    /// Returns what an update changes, in short. The notes of the note transport layer are not part
    /// of the update.
    pub fn from_update(update: &StateSyncUpdate) -> (summary: Self)
        ensures
            summary.block_num == update.block_num,
            summary.new_public_notes@ == present(
                update.note_updates.updated_input_notes@.map_values(
                    |update: InputNoteUpdate| new_note_id(update),
                ),
            ),
            summary.new_private_notes@ == Seq::<NoteId>::empty(),
            lists_set(summary.committed_notes@, committed_ids(update.note_updates)),
            lists_set(
                summary.consumed_notes@,
                update.note_updates.consumed_input_note_ids@.to_set(),
            ),
            summary.updated_accounts@ == update.account_updates.updated_public_accounts@.map_values(
                |update: PublicAccountUpdate| update.account_id(),
            ),
            summary.locked_accounts@
                == update.account_updates.mismatched_private_accounts@.map_values(
                |account: (AccountId, Word)| account.0,
            ),
            summary.committed_transactions@ == ids_of(
                committed_of(update.transaction_updates.txs()),
            ),
    {
        let accounts = &update.account_updates;
        let mut updated_accounts: Vec<AccountId> = Vec::new();
        let mut i: usize = 0;
        while i < accounts.updated_public_accounts.len()
            invariant
                i <= accounts.updated_public_accounts.len(),
                updated_accounts@.len() == i,
                forall|k: int|
                    0 <= k < i ==> #[trigger] updated_accounts@[k]
                        == accounts.updated_public_accounts@[k].account_id(),
            decreases accounts.updated_public_accounts.len() - i,
        {
            updated_accounts.push(accounts.updated_public_accounts[i].id());
            i += 1;
        }
        let mut locked_accounts: Vec<AccountId> = Vec::new();
        let mut i: usize = 0;
        while i < accounts.mismatched_private_accounts.len()
            invariant
                i <= accounts.mismatched_private_accounts.len(),
                locked_accounts@.len() == i,
                forall|k: int|
                    0 <= k < i ==> #[trigger] locked_accounts@[k]
                        == accounts.mismatched_private_accounts@[k].0,
            decreases accounts.mismatched_private_accounts.len() - i,
        {
            locked_accounts.push(accounts.mismatched_private_accounts[i].0);
            i += 1;
        }
        let committed = update.transaction_updates.committed_transactions();
        let ghost committed_spec = committed_of(update.transaction_updates.txs());
        let mut committed_transactions: Vec<TransactionId> = Vec::new();
        let mut i: usize = 0;
        while i < committed.len()
            invariant
                i <= committed.len(),
                committed@.len() == committed_spec.len(),
                forall|k: int|
                    0 <= k < committed@.len() ==> *(#[trigger] committed@[k]) == committed_spec[k],
                committed_transactions@.len() == i,
                forall|k: int|
                    0 <= k < i ==> #[trigger] committed_transactions@[k] == committed_spec[k].id,
            decreases committed.len() - i,
        {
            committed_transactions.push(committed[i].id);
            i += 1;
        }
        SyncSummary {
            block_num: update.block_num,
            new_public_notes: new_notes(&update.note_updates.updated_input_notes),
            new_private_notes: Vec::new(),
            committed_notes: committed_notes(&update.note_updates),
            consumed_notes: sorted_set(&update.note_updates.consumed_input_note_ids),
            updated_accounts,
            locked_accounts,
            committed_transactions,
        }
    }
}

} // verus!
