//! How a mock node answers requests for the chain, its notes and its transactions, and takes
//! submissions.
use vstd::prelude::*;

use crate::collections::contains_key;
use crate::mmr::max_leaves;
use crate::rpc::domain::note::{
    nullifier_prefix, prefix_of, FetchedNote, NoteScript, NoteType, NullifierUpdate,
};
use crate::rpc::domain::sync::{ChainMmrInfo, ProtocolConfig, SyncTarget};
use crate::rpc::domain::transaction::{TransactionHeader, TransactionRecord};
use crate::rpc::endpoint::RpcEndpoint;
use crate::rpc::errors::rpc_error::RpcError;
use crate::rpc::grpc_client::{MmrProof, SignedBlock};
use crate::test_utils::mock::{commitments_of, updates_view, MockRpcApi};
use crate::test_utils::mock_answers::ProvenBlock;
use crate::test_utils::mock_chain::{
    mmr_delta, mmr_delta_of, mmr_path, mmr_path_of, MockBlock, MockChain, MockChainNote,
};
use crate::types::{AccountId, BlockHeader, BlockNumber, NoteId, Word, GENESIS};

verus! {

// CHAIN
// ================================================================================================
/// The two lists hold the same bytes.
pub open spec fn same_bytes(a: Seq<Vec<u8>>, b: Seq<Vec<u8>>) -> bool {
    a.len() == b.len() && forall|i: int| 0 <= i < a.len() ==> (#[trigger] a[i])@ == b[i]@
}

/// Returns a copy of the signatures.
fn copy_signatures(signatures: &Vec<Vec<u8>>) -> (copied: Vec<Vec<u8>>)
    ensures
        same_bytes(copied@, signatures@),
{
    let mut copied: Vec<Vec<u8>> = Vec::new();
    let mut i: usize = 0;
    while i < signatures.len()
        invariant
            i <= signatures.len(),
            same_bytes(copied@, signatures@.take(i as int)),
        decreases signatures.len() - i,
    {
        copied.push(signatures[i].clone());
        assert(signatures@.take(i + 1) =~= signatures@.take(i as int).push(signatures@[i as int]));
        i += 1;
    }
    assert(signatures@.take(i as int) =~= signatures@);
    copied
}

/// The protocol configuration is sent if the client starts at the first block, and if it changed over
/// the range. A client that is at the chain tip gets nothing.
pub open spec fn sends_config(chain: MockChain, current: BlockNumber) -> bool {
    current == GENESIS || (current != chain.tip()
        && chain.blocks@[current as int].header.protocol_config_commitment
        != chain.blocks@[chain.tip()].header.protocol_config_commitment)
}

impl MockRpcApi {
    /// Returns what leads from a block to the chain tip. Every block is proven, so that it makes no
    /// difference how final it has to be.
    pub fn sync_chain_mmr(&self, current_block_height: BlockNumber, _upper_bound: SyncTarget) -> (info:
        ChainMmrInfo)
        requires
            self.wf(),
            current_block_height <= self.chain.tip(),
        ensures
            info.block_from == current_block_height,
            info.block_to == self.chain.tip(),
            info.mmr_delta.forest == self.chain.tip(),
            info.mmr_delta.data@ == mmr_delta_of(
                self.chain.leaves(),
                if current_block_height == self.chain.tip() {
                    self.chain.tip() as nat
                } else {
                    (current_block_height + 1) as nat
                },
                self.chain.tip() as nat,
            ),
            info.block_header == self.chain.blocks@[self.chain.tip()].header,
            same_bytes(
                info.block_signatures@,
                self.chain.blocks@[self.chain.tip()].signatures@,
            ),
            match info.protocol_config {
                Some(config) => sends_config(self.chain, current_block_height) && config.commitment
                    == self.chain.protocol_config.commitment && config.serialized@
                    == self.chain.protocol_config.serialized@,
                None => !sends_config(self.chain, current_block_height),
            },
    {
        let target = self.chain.chain_tip();
        let from_forest: u32 = if current_block_height == target {
            target
        } else {
            current_block_height + 1
        };
        let leaves = self.chain.block_commitments();
        let mmr_delta = mmr_delta(&leaves, from_forest, target).unwrap();
        let tip: usize = self.chain.blocks.len() - 1;
        let block_header = self.chain.blocks[tip].header;
        let block_signatures = copy_signatures(&self.chain.blocks[tip].signatures);
        let send_config = if current_block_height == GENESIS {
            true
        } else if current_block_height == target {
            false
        } else {
            let commitment_at_start =
                self.chain.blocks[current_block_height as usize].header.protocol_config_commitment;
            commitment_at_start != block_header.protocol_config_commitment
        };
        let protocol_config = if send_config {
            Some(
                ProtocolConfig {
                    commitment: self.chain.protocol_config.commitment,
                    serialized: self.chain.protocol_config.serialized.clone(),
                },
            )
        } else {
            None
        };
        ChainMmrInfo {
            block_from: current_block_height,
            block_to: target,
            mmr_delta,
            block_header,
            protocol_config,
            block_signatures,
        }
    }

    /// Returns the header of a block, or of the chain tip if none is named. The opening of a block in
    /// the chain is for a block that is named.
    pub fn get_block_header_by_number(
        &self,
        block_num: Option<BlockNumber>,
        include_mmr_proof: bool,
    ) -> (found: (BlockHeader, Option<MmrProof>))
        requires
            self.wf(),
            include_mmr_proof ==> block_num is Some,
            block_num matches Some(number) ==> number <= self.chain.tip(),
        ensures
            found.0 == match block_num {
                Some(number) => self.chain.blocks@[number as int].header,
                None => self.chain.blocks@[self.chain.tip()].header,
            },
            match found.1 {
                Some(opening) => include_mmr_proof && opening.forest == self.chain.blocks@.len()
                    && opening.position == block_num->0 && opening.leaf == found.0.commitment
                    && opening.path@ == mmr_path_of(self.chain.leaves(), block_num->0 as nat),
                None => !include_mmr_proof,
            },
    {
        let number = match block_num {
            Some(number) => number,
            None => self.chain.chain_tip(),
        };
        let block_header = self.chain.blocks[number as usize].header;
        if !include_mmr_proof {
            return (block_header, None);
        }
        let leaves = self.chain.block_commitments();
        let path = mmr_path(&leaves, number).unwrap();
        let opening = MmrProof {
            forest: self.chain.blocks.len() as u32,
            position: number,
            path,
            leaf: block_header.commitment,
        };
        (block_header, Some(opening))
    }

    /// Returns a block, with its proof if that is requested.
    pub fn get_block_by_number(&self, block_num: BlockNumber, include_proof: bool) -> (found: (
        SignedBlock,
        Option<Vec<u8>>,
    ))
        requires
            self.wf(),
            block_num <= self.chain.tip(),
        ensures
            found.0.header == self.chain.blocks@[block_num as int].header,
            found.0.serialized@ == self.chain.blocks@[block_num as int].serialized@,
            match found.1 {
                Some(block_proof) => include_proof && block_proof@
                    == self.chain.blocks@[block_num as int].block_proof@,
                None => !include_proof,
            },
    {
        let block = &self.chain.blocks[block_num as usize];
        let signed = SignedBlock { header: block.header, serialized: block.serialized.clone() };
        let block_proof = if include_proof {
            Some(block.block_proof.clone())
        } else {
            None
        };
        (signed, block_proof)
    }

    /// Returns the account that was updated first.
    pub fn first_account_id(&self) -> (id: AccountId)
        requires
            exists|i: int|
                0 <= i < self.chain.blocks@.len() && (
                #[trigger] self.chain.blocks@[i]).updated_accounts@.len() > 0,
        ensures
            exists|i: int|
                0 <= i < self.chain.blocks@.len() && is_first_updating(self.chain.blocks@, i) && id
                    == (#[trigger] self.chain.blocks@[i]).updated_accounts@[0].account_id,
    {
        let mut i: usize = 0;
        while self.chain.blocks[i].updated_accounts.len() == 0
            invariant
                i < self.chain.blocks.len(),
                exists|k: int|
                    i <= k < self.chain.blocks@.len() && (
                    #[trigger] self.chain.blocks@[k]).updated_accounts@.len() > 0,
                forall|k: int|
                    0 <= k < i ==> (#[trigger] self.chain.blocks@[k]).updated_accounts@.len() == 0,
            decreases self.chain.blocks.len() - i,
        {
            i += 1;
        }
        assert(is_first_updating(self.chain.blocks@, i as int));
        self.chain.blocks[i].updated_accounts[0].account_id
    }
}

/// The block is the first one that updates an account.
pub open spec fn is_first_updating(blocks: Seq<MockBlock>, i: int) -> bool {
    blocks[i].updated_accounts@.len() > 0 && forall|k: int|
        0 <= k < i ==> (#[trigger] blocks[k]).updated_accounts@.len() == 0
}

// TRANSACTIONS AND NULLIFIERS
// ================================================================================================
/// The two headers are the same.
pub open spec fn same_header(a: TransactionHeader, b: TransactionHeader) -> bool {
    &&& a.id == b.id
    &&& a.account_id == b.account_id
    &&& a.initial_state_commitment == b.initial_state_commitment
    &&& a.final_state_commitment == b.final_state_commitment
    &&& a.input_nullifiers@ == b.input_nullifiers@
}

/// The transactions of a block that ran against one of the accounts, each with the number of the
/// block.
pub open spec fn transactions_of(
    block_num: BlockNumber,
    transactions: Seq<TransactionHeader>,
    account_ids: Seq<AccountId>,
) -> Seq<(BlockNumber, TransactionHeader)>
    decreases transactions.len(),
{
    if transactions.len() == 0 {
        Seq::empty()
    } else {
        let earlier = transactions_of(block_num, transactions.drop_last(), account_ids);
        if account_ids.contains(transactions.last().account_id) {
            earlier.push((block_num, transactions.last()))
        } else {
            earlier
        }
    }
}

/// The transactions in a range of blocks that ran against one of the accounts.
pub open spec fn transactions_in(
    blocks: Seq<MockBlock>,
    account_ids: Seq<AccountId>,
    from: BlockNumber,
    to: BlockNumber,
) -> Seq<(BlockNumber, TransactionHeader)>
    decreases blocks.len(),
{
    if blocks.len() == 0 {
        Seq::empty()
    } else {
        let last = blocks.last();
        let earlier = transactions_in(blocks.drop_last(), account_ids, from, to);
        if from <= last.header.block_num <= to {
            earlier + transactions_of(last.header.block_num, last.transactions@, account_ids)
        } else {
            earlier
        }
    }
}

/// The records are those of the transactions, each with all erased notes.
pub open spec fn are_records_of(
    records: Seq<TransactionRecord>,
    transactions: Seq<(BlockNumber, TransactionHeader)>,
    erased_notes: Seq<NoteId>,
) -> bool {
    &&& records.len() == transactions.len()
    &&& forall|i: int|
        #![trigger records[i]]
        #![trigger transactions[i]]
        0 <= i < records.len() ==> {
            &&& records[i].block_num == transactions[i].0
            &&& same_header(records[i].transaction_header, transactions[i].1)
            &&& records[i].output_notes@.len() == 0
            &&& records[i].erased_output_notes@ == erased_notes
            &&& records[i].consumed_note_refs@.len() == 0
        }
}

/// The nullifiers of a range of blocks that have one of the prefixes.
pub open spec fn nullifiers_in(
    nullifiers: Seq<NullifierUpdate>,
    prefixes: Seq<u16>,
    from: BlockNumber,
    to: BlockNumber,
) -> Seq<NullifierUpdate>
    decreases nullifiers.len(),
{
    if nullifiers.len() == 0 {
        Seq::empty()
    } else {
        let last = nullifiers.last();
        let earlier = nullifiers_in(nullifiers.drop_last(), prefixes, from, to);
        if prefixes.contains(prefix_of(last.nullifier)) && from <= last.block_num <= to {
            earlier.push(last)
        } else {
            earlier
        }
    }
}

impl MockRpcApi {
    /// Adds the records of the transactions of a block.
    fn add_records(
        &self,
        block: &MockBlock,
        account_ids: &Vec<AccountId>,
        records: &mut Vec<TransactionRecord>,
    )
        ensures
            forall|transactions: Seq<(BlockNumber, TransactionHeader)>| #[trigger]
                are_records_of(old(records)@, transactions, self.erased_notes@)
                    ==> are_records_of(
                    final(records)@,
                    transactions + transactions_of(
                        block.header.block_num,
                        block.transactions@,
                        account_ids@,
                    ),
                    self.erased_notes@,
                ),
    {
        let block_num = block.header.block_num;
        let ghost before = records@;
        let mut i: usize = 0;
        assert forall|transactions: Seq<(BlockNumber, TransactionHeader)>| #[trigger]
            are_records_of(before, transactions, self.erased_notes@) implies are_records_of(
            records@,
            transactions + transactions_of(block_num, block.transactions@.take(0), account_ids@),
            self.erased_notes@,
        ) by {
            assert(transactions + transactions_of(
                block_num,
                block.transactions@.take(0),
                account_ids@,
            ) =~= transactions);
        }
        while i < block.transactions.len()
            invariant
                i <= block.transactions.len(),
                block_num == block.header.block_num,
                forall|transactions: Seq<(BlockNumber, TransactionHeader)>| #[trigger]
                    are_records_of(before, transactions, self.erased_notes@) ==> are_records_of(
                        records@,
                        transactions + transactions_of(
                            block_num,
                            block.transactions@.take(i as int),
                            account_ids@,
                        ),
                        self.erased_notes@,
                    ),
            decreases block.transactions.len() - i,
        {
            let transaction = &block.transactions[i];
            let ghost shorter = transactions_of(
                block_num,
                block.transactions@.take(i as int),
                account_ids@,
            );
            let ghost longer = transactions_of(
                block_num,
                block.transactions@.take(i + 1),
                account_ids@,
            );
            let ghost so_far = records@;
            proof {
                let taken = block.transactions@.take(i + 1);
                assert(taken.drop_last() =~= block.transactions@.take(i as int));
                assert(taken.last() == block.transactions@[i as int]);
            }
            if contains_key(account_ids, &transaction.account_id) {
                records.push(
                    TransactionRecord {
                        block_num,
                        transaction_header: TransactionHeader {
                            id: transaction.id,
                            account_id: transaction.account_id,
                            initial_state_commitment: transaction.initial_state_commitment,
                            final_state_commitment: transaction.final_state_commitment,
                            input_nullifiers: transaction.input_nullifiers.clone(),
                        },
                        output_notes: Vec::new(),
                        erased_output_notes: self.erased_notes.clone(),
                        consumed_note_refs: Vec::new(),
                    },
                );
                assert forall|transactions: Seq<(BlockNumber, TransactionHeader)>| #[trigger]
                    are_records_of(before, transactions, self.erased_notes@) implies are_records_of(
                    records@,
                    transactions + longer,
                    self.erased_notes@,
                ) by {
                    let listed = transactions + shorter;
                    let all = transactions + longer;
                    assert(are_records_of(so_far, listed, self.erased_notes@));
                    assert(all =~= listed.push((block_num, *transaction)));
                    assert forall|k: int| 0 <= k < records@.len() implies {
                        &&& (#[trigger] records@[k]).block_num == all[k].0
                        &&& same_header(records@[k].transaction_header, all[k].1)
                        &&& records@[k].output_notes@.len() == 0
                        &&& records@[k].erased_output_notes@ == self.erased_notes@
                        &&& records@[k].consumed_note_refs@.len() == 0
                    } by {
                        if k < so_far.len() {
                            assert(records@[k] == so_far[k]);
                            assert(all[k] == listed[k]);
                        }
                    }
                }
            }
            i += 1;
        }
        assert(block.transactions@.take(i as int) =~= block.transactions@);
    }

    /// Returns the transactions in a range of blocks that ran against one of the accounts.
    pub fn sync_transactions(
        &self,
        block_from: BlockNumber,
        block_to: BlockNumber,
        account_ids: &Vec<AccountId>,
    ) -> (records: Vec<TransactionRecord>)
        ensures
            are_records_of(
                records@,
                transactions_in(self.chain.blocks@, account_ids@, block_from, block_to),
                self.erased_notes@,
            ),
    {
        let mut records: Vec<TransactionRecord> = Vec::new();
        let mut i: usize = 0;
        while i < self.chain.blocks.len()
            invariant
                i <= self.chain.blocks.len(),
                are_records_of(
                    records@,
                    transactions_in(
                        self.chain.blocks@.take(i as int),
                        account_ids@,
                        block_from,
                        block_to,
                    ),
                    self.erased_notes@,
                ),
            decreases self.chain.blocks.len() - i,
        {
            let block = &self.chain.blocks[i];
            proof {
                let longer = self.chain.blocks@.take(i + 1);
                assert(longer.drop_last() =~= self.chain.blocks@.take(i as int));
                assert(longer.last() == self.chain.blocks@[i as int]);
            }
            let block_number = block.header.block_num;
            if block_from <= block_number && block_number <= block_to {
                self.add_records(block, account_ids, &mut records);
            }
            i += 1;
        }
        assert(self.chain.blocks@.take(i as int) =~= self.chain.blocks@);
        records
    }

    /// Returns the nullifiers of a range of blocks that have one of the prefixes.
    pub fn sync_nullifiers(
        &self,
        prefixes: &Vec<u16>,
        block_from: BlockNumber,
        block_to: BlockNumber,
    ) -> (nullifiers: Vec<NullifierUpdate>)
        ensures
            nullifiers@ == nullifiers_in(self.chain.nullifiers@, prefixes@, block_from, block_to),
    {
        let mut found: Vec<NullifierUpdate> = Vec::new();
        let mut i: usize = 0;
        while i < self.chain.nullifiers.len()
            invariant
                i <= self.chain.nullifiers.len(),
                found@ == nullifiers_in(
                    self.chain.nullifiers@.take(i as int),
                    prefixes@,
                    block_from,
                    block_to,
                ),
            decreases self.chain.nullifiers.len() - i,
        {
            let update = self.chain.nullifiers[i];
            proof {
                let longer = self.chain.nullifiers@.take(i + 1);
                assert(longer.drop_last() =~= self.chain.nullifiers@.take(i as int));
                assert(longer.last() == update);
            }
            let within_range = update.block_num >= block_from && update.block_num <= block_to;
            if contains_key(prefixes, &nullifier_prefix(&update.nullifier)) && within_range {
                found.push(update);
            }
            i += 1;
        }
        assert(self.chain.nullifiers@.take(i as int) =~= self.chain.nullifiers@);
        found
    }
}

// NOTES BY ID
// ================================================================================================
/// A note that is served, with the attachments of a private one.
#[derive(Debug)]
pub struct ServedNote {
    pub note: FetchedNote,
    pub attachments: Vec<u8>,
}

/// The ids of notes that are on the chain, in the order of the request.
pub open spec fn known_ids(ids: Seq<NoteId>, notes: Map<NoteId, MockChainNote>) -> Seq<NoteId>
    decreases ids.len(),
{
    if ids.len() == 0 {
        Seq::empty()
    } else {
        let earlier = known_ids(ids.drop_last(), notes);
        if notes.contains_key(ids.last()) {
            earlier.push(ids.last())
        } else {
            earlier
        }
    }
}

/// What is served is the note on the chain. The attachments of a public note are those of the note,
/// and those of a private one what was registered for it.
pub open spec fn is_served(
    served: ServedNote,
    note_id: NoteId,
    note: MockChainNote,
    registered: Map<NoteId, Vec<u8>>,
) -> bool {
    let block_num = note.inclusion_proof.block_num;
    match note.public {
        Some(public) => served.note == (FetchedNote::Public {
            note_id,
            nullifier: public.nullifier,
            block_num,
        }) && served.attachments@ == note.attachments@,
        None => served.note == (FetchedNote::Private { note_id, block_num }) && served.attachments@
            == if registered.contains_key(note_id) {
            registered[note_id]@
        } else {
            Seq::empty()
        },
    }
}

/// The ids of the notes that are public, or of those that are private.
pub open spec fn ids_of_type(entries: Seq<(NoteId, MockChainNote)>, public: bool) -> Seq<NoteId>
    decreases entries.len(),
{
    if entries.len() == 0 {
        Seq::empty()
    } else {
        let earlier = ids_of_type(entries.drop_last(), public);
        if entries.last().1.public is Some == public {
            earlier.push(entries.last().0)
        } else {
            earlier
        }
    }
}

/// The first note with the script.
pub open spec fn is_first_with_script(
    entries: Seq<(NoteId, MockChainNote)>,
    root: Word,
    i: int,
) -> bool {
    &&& 0 <= i < entries.len()
    &&& has_script(entries[i].1, root)
    &&& forall|k: int| 0 <= k < i ==> !has_script((#[trigger] entries[k]).1, root)
}

/// The note is public and has the script.
pub open spec fn has_script(note: MockChainNote, root: Word) -> bool {
    note.public matches Some(public) && public.script.root == root
}

impl MockRpcApi {
    /// Returns the notes with the ids that are on the chain, and counts the request.
    pub fn get_notes_by_id(&mut self, note_ids: &Vec<NoteId>) -> (served: Vec<ServedNote>)
        requires
            old(self).wf(),
        ensures
            *final(self) == (MockRpcApi {
                get_notes_by_id_calls: old(self).get_notes_by_id_calls.wrapping_add(1),
                ..*old(self)
            }),
            served@.len() == known_ids(note_ids@, old(self).chain.notes@).len(),
            forall|i: int|
                0 <= i < served@.len() ==> {
                    let id = known_ids(note_ids@, old(self).chain.notes@)[i];
                    is_served(
                        #[trigger] served@[i],
                        id,
                        old(self).chain.notes@[id],
                        old(self).private_note_attachments@,
                    )
                },
    {
        self.get_notes_by_id_calls = self.get_notes_by_id_calls.wrapping_add(1);
        let mut served: Vec<ServedNote> = Vec::new();
        let mut i: usize = 0;
        let ghost notes = self.chain.notes@;
        while i < note_ids.len()
            invariant
                i <= note_ids.len(),
                self.wf(),
                notes == self.chain.notes@,
                served@.len() == known_ids(note_ids@.take(i as int), notes).len(),
                forall|k: int|
                    0 <= k < served@.len() ==> {
                        let id = known_ids(note_ids@.take(i as int), notes)[k];
                        is_served(
                            #[trigger] served@[k],
                            id,
                            notes[id],
                            self.private_note_attachments@,
                        )
                    },
            decreases note_ids.len() - i,
        {
            let note_id = note_ids[i];
            proof {
                let longer = note_ids@.take(i + 1);
                assert(longer.drop_last() =~= note_ids@.take(i as int));
                assert(longer.last() == note_id);
            }
            if let Some(note) = self.chain.notes.get(&note_id) {
                let block_num = note.inclusion_proof.block_num;
                let one = match &note.public {
                    Some(public) => ServedNote {
                        note: FetchedNote::Public {
                            note_id,
                            nullifier: public.nullifier,
                            block_num,
                        },
                        attachments: note.attachments.clone(),
                    },
                    None => ServedNote {
                        note: FetchedNote::Private { note_id, block_num },
                        attachments: match self.private_note_attachments.get(&note_id) {
                            Some(attachments) => attachments.clone(),
                            None => Vec::new(),
                        },
                    },
                };
                served.push(one);
            }
            i += 1;
        }
        assert(note_ids@.take(i as int) =~= note_ids@);
        served
    }

    /// Returns the ids of the notes on the chain.
    pub fn get_available_notes(&self) -> (ids: Vec<NoteId>)
        requires
            self.wf(),
        ensures
            ids@ == self.chain.notes.listing().map_values(
                |entry: (NoteId, MockChainNote)| entry.0,
            ),
    {
        self.chain.notes.keys()
    }

    /// Returns the ids of the public notes on the chain, or of the private ones.
    fn notes_of_type(&self, public: bool) -> (ids: Vec<NoteId>)
        ensures
            ids@ == ids_of_type(self.chain.notes.listing(), public),
    {
        let mut ids: Vec<NoteId> = Vec::new();
        let mut i: usize = 0;
        while i < self.chain.notes.len()
            invariant
                i <= self.chain.notes.listing().len(),
                ids@ == ids_of_type(self.chain.notes.listing().take(i as int), public),
            decreases self.chain.notes.listing().len() - i,
        {
            proof {
                let longer = self.chain.notes.listing().take(i + 1);
                assert(longer.drop_last() =~= self.chain.notes.listing().take(i as int));
                assert(longer.last() == self.chain.notes.listing()[i as int]);
            }
            if self.chain.notes.entries()[i].1.public.is_some() == public {
                ids.push(self.chain.notes.entries()[i].0);
            }
            i += 1;
        }
        assert(self.chain.notes.listing().take(i as int) =~= self.chain.notes.listing());
        ids
    }

    /// Returns the ids of the public notes on the chain.
    pub fn get_public_available_notes(&self) -> (ids: Vec<NoteId>)
        ensures
            ids@ == ids_of_type(self.chain.notes.listing(), true),
    {
        self.notes_of_type(true)
    }

    /// Returns the ids of the private notes on the chain.
    pub fn get_private_available_notes(&self) -> (ids: Vec<NoteId>)
        ensures
            ids@ == ids_of_type(self.chain.notes.listing(), false),
    {
        self.notes_of_type(false)
    }

    /// Returns the script with the root, if a public note has it.
    pub fn get_note_script_by_root(&self, root: Word) -> (script: Option<NoteScript>)
        ensures
            match script {
                Some(script) => exists|i: int| #[trigger]
                    is_first_with_script(self.chain.notes.listing(), root, i) && script.root == root
                        && script.serialized@
                        == self.chain.notes.listing()[i].1.public->0.script.serialized@,
                None => forall|i: int|
                    0 <= i < self.chain.notes.listing().len() ==> !has_script(
                        (#[trigger] self.chain.notes.listing()[i]).1,
                        root,
                    ),
            },
    {
        let mut i: usize = 0;
        while i < self.chain.notes.len()
            invariant
                i <= self.chain.notes.listing().len(),
                forall|k: int|
                    0 <= k < i ==> !has_script((#[trigger] self.chain.notes.listing()[k]).1, root),
            decreases self.chain.notes.listing().len() - i,
        {
            if let Some(public) = &self.chain.notes.entries()[i].1.public {
                if public.script.root == root {
                    assert(is_first_with_script(self.chain.notes.listing(), root, i as int));
                    return Some(
                        NoteScript { root, serialized: public.script.serialized.clone() },
                    );
                }
            }
            i += 1;
        }
        None
    }
}

// SUBMISSIONS
// ================================================================================================
/// A note that a transaction creates.
#[derive(Debug)]
pub struct MockOutputNote {
    pub note_id: NoteId,
    pub note_type: NoteType,
    /// The attachments in serialized form; nothing if there are none.
    pub attachments: Vec<u8>,
}

/// The attachments that are registered once private notes with attachments were created.
pub open spec fn registered_after(
    registered: Map<NoteId, Seq<u8>>,
    output_notes: Seq<MockOutputNote>,
) -> Map<NoteId, Seq<u8>>
    decreases output_notes.len(),
{
    if output_notes.len() == 0 {
        registered
    } else {
        let last = output_notes.last();
        let earlier = registered_after(registered, output_notes.drop_last());
        if last.note_type is Private && last.attachments@.len() > 0 {
            earlier.insert(last.note_id, last.attachments@)
        } else {
            earlier
        }
    }
}

/// The bytes, by note.
pub open spec fn attachments_view(registered: Map<NoteId, Vec<u8>>) -> Map<NoteId, Seq<u8>> {
    Map::new(|id: NoteId| registered.contains_key(id), |id: NoteId| registered[id]@)
}

impl MockRpcApi {
    /// Takes a transaction, appends the block that was made just for it, and returns the number of that
    /// block, or serves a failure that was staged. The attachments of the private notes of the
    /// transaction are kept, since a node has them even of private notes.
    pub fn submit_proven_transaction(
        &mut self,
        output_notes: &Vec<MockOutputNote>,
        proven: ProvenBlock,
    ) -> (submitted: Result<BlockNumber, RpcError>)
        requires
            old(self).wf(),
            old(self).chain.blocks@.len() < max_leaves(),
            proven.follows(old(self).chain.tip()),
        ensures
            final(self).wf(),
            final(self).next_call_failures@ == old(self).next_call_failures@.remove(
                RpcEndpoint::SubmitProvenTx,
            ),
            match submitted {
                Err(error) => {
                    &&& old(self).next_call_failures@.contains_key(RpcEndpoint::SubmitProvenTx)
                    &&& error == old(self).next_call_failures@[RpcEndpoint::SubmitProvenTx]
                    &&& *final(self) == (MockRpcApi {
                        next_call_failures: final(self).next_call_failures,
                        ..*old(self)
                    })
                },
                Ok(block_num) => {
                    &&& !old(self).next_call_failures@.contains_key(RpcEndpoint::SubmitProvenTx)
                    &&& block_num == old(self).chain.tip() + 1
                    &&& attachments_view(final(self).private_note_attachments@) == registered_after(
                        attachments_view(old(self).private_note_attachments@),
                        output_notes@,
                    )
                    &&& final(self).chain.blocks@ == old(self).chain.blocks@.push(proven.block)
                    &&& final(self).chain.accounts == proven.accounts
                    &&& final(self).chain.notes@ == old(self).chain.notes@.union_prefer_right(
                        proven.notes@,
                    )
                    &&& final(self).chain.nullifiers@ == old(self).chain.nullifiers@
                        + proven.nullifiers@
                    &&& final(self).chain.protocol_config == old(self).chain.protocol_config
                    &&& final(self).historical_chains@ == old(self).historical_chains@.insert(
                        old(self).chain.tip() as BlockNumber,
                        old(self).chain.accounts,
                    )
                    &&& updates_view(final(self).account_commitment_updates@)
                        == if proven.block.updated_accounts@.len() == 0 {
                        updates_view(old(self).account_commitment_updates@)
                    } else {
                        updates_view(old(self).account_commitment_updates@).insert(
                            proven.block.header.block_num,
                            commitments_of(proven.block.updated_accounts@),
                        )
                    }
                    &&& *final(self) == (MockRpcApi {
                        next_call_failures: final(self).next_call_failures,
                        private_note_attachments: final(self).private_note_attachments,
                        chain: final(self).chain,
                        historical_chains: final(self).historical_chains,
                        account_commitment_updates: final(self).account_commitment_updates,
                        ..*old(self)
                    })
                },
            },
    {
        if let Some(error) = self.take_failure(RpcEndpoint::SubmitProvenTx) {
            return Err(error);
        }
        let ghost start = *self;
        let mut i: usize = 0;
        while i < output_notes.len()
            invariant
                i <= output_notes.len(),
                self.wf(),
                *self == (MockRpcApi {
                    private_note_attachments: self.private_note_attachments,
                    ..start
                }),
                attachments_view(self.private_note_attachments@) == registered_after(
                    attachments_view(start.private_note_attachments@),
                    output_notes@.take(i as int),
                ),
            decreases output_notes.len() - i,
        {
            let note = &output_notes[i];
            let ghost before = self.private_note_attachments@;
            proof {
                let longer = output_notes@.take(i + 1);
                assert(longer.drop_last() =~= output_notes@.take(i as int));
                assert(longer.last() == output_notes@[i as int]);
            }
            if note.note_type == NoteType::Private && note.attachments.len() > 0 {
                self.private_note_attachments.insert(note.note_id, note.attachments.clone());
                assert(attachments_view(self.private_note_attachments@) =~= attachments_view(
                    before,
                ).insert(note.note_id, note.attachments@));
            }
            i += 1;
        }
        assert(output_notes@.take(i as int) =~= output_notes@);
        self.prove_block(proven);
        Ok(self.chain.chain_tip())
    }

    /// Takes a batch and returns the chain tip, or serves a failure that was staged. The sealed inputs
    /// are recorded in both cases: a submission whose answer is lost did reach the node.
    pub fn submit_proven_batch(&mut self, sealed_inputs: Vec<Vec<u8>>) -> (submitted: Result<
        BlockNumber,
        RpcError,
    >)
        requires
            old(self).wf(),
        ensures
            final(self).wf(),
            final(self).submitted_batch_sealed_inputs@ == old(self).submitted_batch_sealed_inputs@.push(sealed_inputs),
            final(self).next_call_failures@ == old(self).next_call_failures@.remove(
                RpcEndpoint::SubmitProvenBatch,
            ),
            match submitted {
                Err(error) => old(self).next_call_failures@.contains_key(
                    RpcEndpoint::SubmitProvenBatch,
                ) && error == old(self).next_call_failures@[RpcEndpoint::SubmitProvenBatch],
                Ok(tip) => !old(self).next_call_failures@.contains_key(
                    RpcEndpoint::SubmitProvenBatch,
                ) && tip == old(self).chain.tip(),
            },
            *final(self) == (MockRpcApi {
                next_call_failures: final(self).next_call_failures,
                submitted_batch_sealed_inputs: final(self).submitted_batch_sealed_inputs,
                ..*old(self)
            }),
    {
        self.submitted_batch_sealed_inputs.push(sealed_inputs);
        if let Some(error) = self.take_failure(RpcEndpoint::SubmitProvenBatch) {
            return Err(error);
        }
        Ok(self.chain.chain_tip())
    }
}

} // verus!
