//! A node that answers from a chain in memory.
use vstd::prelude::*;

use crate::collections::{OrdKey, OrdMap};
use crate::rpc::endpoint::RpcEndpoint;
use crate::rpc::errors::rpc_error::RpcError;
use crate::rpc::grpc_client::AttestedTransactionEncryptionKey;
use crate::test_utils::mock_account::MockAccountState;
use crate::test_utils::mock_chain::{MockAccountUpdate, MockBlock, MockChain};
use crate::types::{AccountId, BlockNumber, NoteId, Word};

verus! {

/// The number of blocks that a page of changes spans after its first one.
pub const PAGINATION_BLOCK_LIMIT: u32 = 5;

/// The number of entries up to which a map or a vault is sent whole.
pub const DEFAULT_OVERSIZE_THRESHOLD: usize = 1000;

/// The place of an endpoint in an order of all endpoints.
pub open spec fn endpoint_number(endpoint: RpcEndpoint) -> int {
    match endpoint {
        RpcEndpoint::Status => 0,
        RpcEndpoint::SubmitProvenTx => 1,
        RpcEndpoint::SubmitProvenBatch => 2,
        RpcEndpoint::GetBlockHeaderByNumber => 3,
        RpcEndpoint::GetBlockByNumber => 4,
        RpcEndpoint::GetNotesById => 5,
        RpcEndpoint::GetNoteScriptByRoot => 6,
        RpcEndpoint::GetAccount => 7,
        RpcEndpoint::SyncChainMmr => 8,
        RpcEndpoint::SyncNotes => 9,
        RpcEndpoint::SyncNullifiers => 10,
        RpcEndpoint::SyncAccountVault => 11,
        RpcEndpoint::SyncStorageMaps => 12,
        RpcEndpoint::SyncTransactions => 13,
        RpcEndpoint::GetLimits => 14,
        RpcEndpoint::GetNetworkNoteStatus => 15,
        RpcEndpoint::GetTransactionEncryptionKey => 16,
        RpcEndpoint::RegisterAccount => 17,
        RpcEndpoint::IsAccountAllowed => 18,
    }
}

/// Returns the place of an endpoint in an order of all endpoints.
fn number_of_endpoint(endpoint: RpcEndpoint) -> (number: u8)
    ensures
        number == endpoint_number(endpoint),
{
    match endpoint {
        RpcEndpoint::Status => 0,
        RpcEndpoint::SubmitProvenTx => 1,
        RpcEndpoint::SubmitProvenBatch => 2,
        RpcEndpoint::GetBlockHeaderByNumber => 3,
        RpcEndpoint::GetBlockByNumber => 4,
        RpcEndpoint::GetNotesById => 5,
        RpcEndpoint::GetNoteScriptByRoot => 6,
        RpcEndpoint::GetAccount => 7,
        RpcEndpoint::SyncChainMmr => 8,
        RpcEndpoint::SyncNotes => 9,
        RpcEndpoint::SyncNullifiers => 10,
        RpcEndpoint::SyncAccountVault => 11,
        RpcEndpoint::SyncStorageMaps => 12,
        RpcEndpoint::SyncTransactions => 13,
        RpcEndpoint::GetLimits => 14,
        RpcEndpoint::GetNetworkNoteStatus => 15,
        RpcEndpoint::GetTransactionEncryptionKey => 16,
        RpcEndpoint::RegisterAccount => 17,
        RpcEndpoint::IsAccountAllowed => 18,
    }
}

impl OrdKey for RpcEndpoint {
    open spec fn rank(self) -> int {
        endpoint_number(self)
    }

    proof fn rank_injective(a: Self, b: Self) {
    }

    fn same(&self, other: &Self) -> (equal: bool) {
        *self == *other
    }

    fn precedes(&self, other: &Self) -> (before: bool) {
        number_of_endpoint(*self) < number_of_endpoint(*other)
    }
}

/// A node that answers from a chain in memory. Blocks are made on demand only.
#[derive(Debug)]
pub struct MockRpcApi {
    /// The commitments of the accounts that each block updated. Blocks without updates are left out.
    pub account_commitment_updates: OrdMap<BlockNumber, OrdMap<AccountId, Word>>,
    pub chain: MockChain,
    /// The accounts at earlier blocks, for requests for an account at a block.
    pub historical_chains: OrdMap<BlockNumber, OrdMap<AccountId, MockAccountState>>,
    pub oversize_threshold: usize,
    /// Notes that are reported as erased with every transaction.
    pub erased_notes: Vec<NoteId>,
    /// Attachments of private notes. A private note that is not here is served without attachments.
    pub private_note_attachments: OrdMap<NoteId, Vec<u8>>,
    /// Paths that are sent in place of the right ones.
    pub sync_notes_mmr_path_overrides: OrdMap<BlockNumber, Vec<Word>>,
    /// The number of requests for notes by their ids.
    pub get_notes_by_id_calls: usize,
    /// Failures that are served in place of the next answers.
    pub next_call_failures: OrdMap<RpcEndpoint, RpcError>,
    /// The sealed inputs of each batch that was submitted.
    pub submitted_batch_sealed_inputs: Vec<Vec<Vec<u8>>>,
}

/// The commitments of the accounts that were updated; of several updates of an account the last one.
pub open spec fn commitments_of(updates: Seq<MockAccountUpdate>) -> Map<AccountId, Word>
    decreases updates.len(),
{
    if updates.len() == 0 {
        Map::empty()
    } else {
        commitments_of(updates.drop_last()).insert(
            updates.last().account_id,
            updates.last().final_state_commitment,
        )
    }
}

/// The commitments of the accounts that each block updated.
pub open spec fn updates_by_block(blocks: Seq<MockBlock>) -> Map<BlockNumber, Map<AccountId, Word>>
    decreases blocks.len(),
{
    if blocks.len() == 0 {
        Map::empty()
    } else {
        let last = blocks.last();
        let earlier = updates_by_block(blocks.drop_last());
        if last.updated_accounts@.len() == 0 {
            earlier
        } else {
            earlier.insert(last.header.block_num, commitments_of(last.updated_accounts@))
        }
    }
}

/// The commitments, by block and by account.
pub open spec fn updates_view(updates: Map<BlockNumber, OrdMap<AccountId, Word>>) -> Map<
    BlockNumber,
    Map<AccountId, Word>,
> {
    Map::new(|block: BlockNumber| updates.contains_key(block), |block: BlockNumber| updates[block]@)
}

/// Returns the commitments of the accounts that were updated.
pub fn commitments(updates: &Vec<MockAccountUpdate>) -> (commitments: OrdMap<AccountId, Word>)
    ensures
        commitments@ == commitments_of(updates@),
{
    let mut found: OrdMap<AccountId, Word> = OrdMap::new();
    let mut i: usize = 0;
    while i < updates.len()
        invariant
            i <= updates.len(),
            found@ == commitments_of(updates@.take(i as int)),
        decreases updates.len() - i,
    {
        proof {
            let longer = updates@.take(i + 1);
            assert(longer.drop_last() =~= updates@.take(i as int));
            assert(longer.last() == updates@[i as int]);
        }
        found.insert(updates[i].account_id, updates[i].final_state_commitment);
        i += 1;
    }
    assert(updates@.take(i as int) =~= updates@);
    found
}

/// Returns the commitments of the accounts that each block updated.
pub fn build_account_updates(chain: &MockChain) -> (updates: OrdMap<
    BlockNumber,
    OrdMap<AccountId, Word>,
>)
    ensures
        updates_view(updates@) == updates_by_block(chain.blocks@),
{
    let mut updates: OrdMap<BlockNumber, OrdMap<AccountId, Word>> = OrdMap::new();
    let mut i: usize = 0;
    assert(updates_view(updates@) =~= Map::empty());
    while i < chain.blocks.len()
        invariant
            i <= chain.blocks.len(),
            updates_view(updates@) == updates_by_block(chain.blocks@.take(i as int)),
        decreases chain.blocks.len() - i,
    {
        let ghost before = updates@;
        let block = &chain.blocks[i];
        proof {
            let longer = chain.blocks@.take(i + 1);
            assert(longer.drop_last() =~= chain.blocks@.take(i as int));
            assert(longer.last() == chain.blocks@[i as int]);
        }
        if block.updated_accounts.len() > 0 {
            updates.insert(block.header.block_num, commitments(&block.updated_accounts));
            assert(updates_view(updates@) =~= updates_view(before).insert(
                block.header.block_num,
                commitments_of(block.updated_accounts@),
            ));
        }
        i += 1;
    }
    assert(chain.blocks@.take(i as int) =~= chain.blocks@);
    updates
}

impl MockRpcApi {
    /// The node answers from a chain.
    pub open spec fn wf(self) -> bool {
        self.chain.wf()
    }

    /// Makes a node that answers from the chain.
    pub fn new(chain: MockChain) -> (api: Self)
        requires
            chain.wf(),
        ensures
            api.wf(),
            api.chain == chain,
            updates_view(api.account_commitment_updates@) == updates_by_block(chain.blocks@),
            api.historical_chains@ == Map::<BlockNumber, OrdMap<AccountId, MockAccountState>>::empty(),
            api.oversize_threshold == DEFAULT_OVERSIZE_THRESHOLD,
            api.erased_notes@ == Seq::<NoteId>::empty(),
            api.private_note_attachments@ == Map::<NoteId, Vec<u8>>::empty(),
            api.sync_notes_mmr_path_overrides@ == Map::<BlockNumber, Vec<Word>>::empty(),
            api.get_notes_by_id_calls == 0,
            api.next_call_failures@ == Map::<RpcEndpoint, RpcError>::empty(),
            api.submitted_batch_sealed_inputs@ == Seq::<Vec<Vec<u8>>>::empty(),
    {
        MockRpcApi {
            account_commitment_updates: build_account_updates(&chain),
            chain,
            historical_chains: OrdMap::new(),
            oversize_threshold: DEFAULT_OVERSIZE_THRESHOLD,
            erased_notes: Vec::new(),
            private_note_attachments: OrdMap::new(),
            sync_notes_mmr_path_overrides: OrdMap::new(),
            get_notes_by_id_calls: 0,
            next_call_failures: OrdMap::new(),
            submitted_batch_sealed_inputs: Vec::new(),
        }
    }

    /// Sets the number of entries up to which a map or a vault is sent whole.
    pub fn with_oversize_threshold(self, threshold: usize) -> (api: Self)
        ensures
            api == (MockRpcApi { oversize_threshold: threshold, ..self }),
    {
        MockRpcApi { oversize_threshold: threshold, ..self }
    }

    /// Returns the number of the latest block.
    pub fn get_chain_tip_block_num(&self) -> (tip: BlockNumber)
        requires
            self.wf(),
        ensures
            tip == self.chain.tip(),
    {
        self.chain.chain_tip()
    }

    /// Makes the next call to an endpoint fail. The failure is served once. It replaces one that was
    /// not served yet.
    pub fn fail_next_call(&mut self, endpoint: RpcEndpoint, error: RpcError)
        requires
            old(self).wf(),
        ensures
            final(self).wf(),
            final(self).next_call_failures@ == old(self).next_call_failures@.insert(endpoint, error),
            *final(self) == (MockRpcApi {
                next_call_failures: final(self).next_call_failures,
                ..*old(self)
            }),
    {
        self.next_call_failures.insert(endpoint, error);
    }

    /// Returns the failure that an endpoint serves next, and removes it.
    pub fn take_failure(&mut self, endpoint: RpcEndpoint) -> (failure: Option<RpcError>)
        requires
            old(self).wf(),
        ensures
            final(self).wf(),
            match failure {
                Some(error) => old(self).next_call_failures@.contains_key(endpoint) && error == old(self).next_call_failures@[endpoint],
                None => !old(self).next_call_failures@.contains_key(endpoint),
            },
            final(self).next_call_failures@ == old(self).next_call_failures@.remove(endpoint),
            *final(self) == (MockRpcApi {
                next_call_failures: final(self).next_call_failures,
                ..*old(self)
            }),
    {
        self.next_call_failures.remove(&endpoint)
    }

    /// Sets the attachments that are served with a private note.
    pub fn register_private_note_attachments(&mut self, note_id: NoteId, attachments: Vec<u8>)
        requires
            old(self).wf(),
        ensures
            final(self).wf(),
            final(self).private_note_attachments@ == old(self).private_note_attachments@.insert(
                note_id,
                attachments,
            ),
            *final(self) == (MockRpcApi {
                private_note_attachments: final(self).private_note_attachments,
                ..*old(self)
            }),
    {
        self.private_note_attachments.insert(note_id, attachments);
    }

    /// Sets the path that is sent for a block in place of the right one.
    pub fn set_sync_notes_mmr_path(&mut self, block_num: BlockNumber, path: Vec<Word>)
        requires
            old(self).wf(),
        ensures
            final(self).wf(),
            final(self).sync_notes_mmr_path_overrides@ == old(self).sync_notes_mmr_path_overrides@.insert(block_num, path),
            *final(self) == (MockRpcApi {
                sync_notes_mmr_path_overrides: final(self).sync_notes_mmr_path_overrides,
                ..*old(self)
            }),
    {
        self.sync_notes_mmr_path_overrides.insert(block_num, path);
    }

    /// Reports a note as erased with every transaction from now on.
    pub fn mark_note_as_erased(&mut self, note_id: NoteId)
        ensures
            final(self).erased_notes@ == old(self).erased_notes@.push(note_id),
            *final(self) == (MockRpcApi { erased_notes: final(self).erased_notes, ..*old(self) }),
    {
        self.erased_notes.push(note_id);
    }

    /// Refuses a request for the key that transactions are encrypted with. The chain has no validator
    /// whose signature could attest a key.
    pub fn get_transaction_encryption_key(&self) -> (key: Result<
        AttestedTransactionEncryptionKey,
        RpcError,
    >)
        ensures
            key matches Err(RpcError::TransactionEncryptionKeyRejected(text)) && text@
                == "the mock RPC client does not serve a transaction encryption key"@,
    {
        Err(
            RpcError::TransactionEncryptionKeyRejected(
                "the mock RPC client does not serve a transaction encryption key".to_owned(),
            ),
        )
    }

    /// Returns the number of requests for notes by their ids.
    pub fn get_notes_by_id_call_count(&self) -> (count: usize)
        ensures
            count == self.get_notes_by_id_calls,
    {
        self.get_notes_by_id_calls
    }
}

/// A failure that was staged is served once: by the next call to its endpoint, and not by the one
/// after that.
pub proof fn law_failure_is_served_once(
    failures: Map<RpcEndpoint, RpcError>,
    endpoint: RpcEndpoint,
    error: RpcError,
)
    ensures
        failures.insert(endpoint, error)[endpoint] == error,
        !failures.insert(endpoint, error).remove(endpoint).contains_key(endpoint),
        failures.insert(endpoint, error).remove(endpoint) == failures.remove(endpoint),
{
    assert(failures.insert(endpoint, error).remove(endpoint) =~= failures.remove(endpoint));
}

} // verus!
