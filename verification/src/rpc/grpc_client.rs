//! The client of a node: its settings, its requests, and how the pages of answers are put together.
use vstd::prelude::*;

use crate::account::{is_private, is_private_of};
use crate::collections::{
    entries_map, keys_ascending, lemma_take_next, present, OrdKey, OrdMap,
};
use crate::mmr::max_leaves;
use crate::protocol_config::{word_hex, word_hex_of};
use crate::rpc::domain::account::{AccountCode, AccountResponseError, SlotId};
use crate::rpc::domain::account_proof::{
    message_read, proof_problem, AccountDetails, AccountDetailsMessage, AccountProof,
    AccountStateAt, AccountWitness, GetAccountRequest, StorageMapFetch, StorageRequest,
};
use crate::rpc::domain::account_storage::AccountStorageRequirements;
use crate::rpc::domain::note::{CommittedNote, NullifierUpdate, SyncNotesBlock};
use crate::rpc::endpoint::RpcEndpoint;
use crate::rpc::errors::rpc_error::RpcError;
use crate::rpc::retry::{RetryState, DEFAULT_MAX_RETRIES, DEFAULT_RETRY_INTERVAL_MS};
use crate::sync::account_updates::AccountVaultPatch;
use crate::text::{chars_of, decimal, decimal_of};
use crate::types::{AccountId, BlockHeader, BlockNumber, NoteId, Word};

verus! {

// SETTINGS
// ================================================================================================
/// The largest answer in bytes that is accepted, unless it is set otherwise: 15 percent more than
/// four mebibytes.
pub const DEFAULT_MAX_RESPONSE_SIZE_BYTES: usize = 4 * 1024 * 1024 * 115 / 100;

/// How much a node accepts in one request.
#[derive(Clone, Copy, Debug, PartialEq, Eq, Structural)]
pub struct RpcLimits {
    pub note_ids_limit: u32,
    pub nullifiers_limit: u32,
    pub account_ids_limit: u32,
    pub note_tags_limit: u32,
}

/// The settings of the client of a node.
#[derive(Debug)]
pub struct GrpcClient {
    /// Where the node is.
    pub endpoint: String,
    /// How many milliseconds a request may take.
    pub timeout_ms: u64,
    /// The commitment to the first block. The node checks requests against it.
    pub genesis_commitment: Option<Word>,
    /// What the node said of its limits.
    pub limits: Option<RpcLimits>,
    pub max_retries: u32,
    pub retry_interval_ms: u64,
    /// The token that is sent along with every request.
    pub bearer_token: Option<String>,
    pub max_decoding_message_size: usize,
}

impl GrpcClient {
    /// Returns the client of the node at an endpoint.
    pub fn new(endpoint: &str, timeout_ms: u64) -> (client: GrpcClient)
        ensures
            client.endpoint@ == endpoint@,
            client.timeout_ms == timeout_ms,
            client.genesis_commitment is None,
            client.limits is None,
            client.max_retries == DEFAULT_MAX_RETRIES,
            client.retry_interval_ms == DEFAULT_RETRY_INTERVAL_MS,
            client.bearer_token is None,
            client.max_decoding_message_size == DEFAULT_MAX_RESPONSE_SIZE_BYTES,
    {
        GrpcClient {
            endpoint: endpoint.to_owned(),
            timeout_ms,
            genesis_commitment: None,
            limits: None,
            max_retries: DEFAULT_MAX_RETRIES,
            retry_interval_ms: DEFAULT_RETRY_INTERVAL_MS,
            bearer_token: None,
            max_decoding_message_size: DEFAULT_MAX_RESPONSE_SIZE_BYTES,
        }
    }

    /// Sets how often a call is repeated at most.
    pub fn with_max_retries(self, max_retries: u32) -> (client: Self)
        ensures
            client == (GrpcClient { max_retries, ..self }),
    {
        GrpcClient { max_retries, ..self }
    }

    /// Sets the delay before a call is repeated, for nodes that do not ask for one.
    pub fn with_retry_interval_ms(self, retry_interval_ms: u64) -> (client: Self)
        ensures
            client == (GrpcClient { retry_interval_ms, ..self }),
    {
        GrpcClient { retry_interval_ms, ..self }
    }

    /// Sets the largest answer that is accepted.
    pub fn with_max_decoding_message_size(self, max_decoding_message_size: usize) -> (client: Self)
        ensures
            client == (GrpcClient { max_decoding_message_size, ..self }),
    {
        GrpcClient { max_decoding_message_size, ..self }
    }

    /// Sets the token that is sent along. An earlier one is replaced.
    pub fn with_bearer_auth(self, token: String) -> (client: Self)
        ensures
            client == (GrpcClient { bearer_token: Some(token), ..self }),
    {
        GrpcClient { bearer_token: Some(token), ..self }
    }

    /// Returns the commitment to the first block, if it is set.
    pub fn has_genesis_commitment(&self) -> (commitment: Option<Word>)
        ensures
            commitment == self.genesis_commitment,
    {
        self.genesis_commitment
    }

    /// Sets the commitment to the first block. Does nothing if it is set already. Returns true if it
    /// was set, so that an open connection has to be told.
    pub fn set_genesis_commitment(&mut self, commitment: Word) -> (changed: bool)
        ensures
            changed == (old(self).genesis_commitment is None),
            *final(self) == with_genesis(*old(self), commitment),
    {
        if self.genesis_commitment.is_some() {
            return false;
        }
        self.genesis_commitment = Some(commitment);
        true
    }

    /// Returns the limits of the node, if they are known.
    pub fn has_rpc_limits(&self) -> (limits: Option<RpcLimits>)
        ensures
            limits == self.limits,
    {
        self.limits
    }

    /// Remembers the limits of the node.
    pub fn set_rpc_limits(&mut self, limits: RpcLimits)
        ensures
            *final(self) == (GrpcClient { limits: Some(limits), ..*old(self) }),
    {
        self.limits = Some(limits);
    }

    /// Returns the state of a new call.
    pub fn retry_state(&self, endpoint: RpcEndpoint) -> (state: RetryState)
        ensures
            state == (RetryState {
                endpoint,
                attempt: 0,
                max_retries: self.max_retries,
                retry_interval_ms: self.retry_interval_ms,
            }),
            state.wf(),
    {
        RetryState::new(endpoint, self.max_retries, self.retry_interval_ms)
    }

    /// Returns the value of the header by which the client authenticates itself, if it has a token. A
    /// token with a character that has no place in a header is refused when the client connects, so
    /// that it cannot bring in another header.
    pub fn authorization(&self) -> (header: Result<Option<String>, RpcError>)
        ensures
            match self.bearer_token {
                None => header == Ok::<Option<String>, RpcError>(None),
                Some(token) => if is_header_text(token@) {
                    header matches Ok(Some(text)) && text@ == "Bearer "@ + token@
                } else {
                    header matches Err(RpcError::ConnectionError(_))
                },
            },
    {
        let token = match &self.bearer_token {
            Some(token) => token,
            None => {
                return Ok(None);
            },
        };
        let chars = chars_of(token.as_str());
        let mut i: usize = 0;
        while i < chars.len()
            invariant
                i <= chars.len(),
                chars@ == token@,
                self.bearer_token == Some(*token),
                forall|k: int| 0 <= k < i ==> is_header_char(#[trigger] token@[k]),
            decreases chars.len() - i,
        {
            let c: char = chars[i];
            if !(' ' <= c && c <= '~' || c == '\t') {
                assert(!is_header_char(token@[i as int]));
                return Err(RpcError::ConnectionError("invalid bearer token".to_owned()));
            }
            i += 1;
        }
        Ok(Some("Bearer ".to_owned().concat(token.as_str())))
    }

    /// Returns the text for the commitment to the first block in messages about versions and
    /// networks.
    pub fn genesis_text(&self) -> (text: String)
        ensures
            text@ == match self.genesis_commitment {
                Some(commitment) => word_hex_of(commitment),
                None => "none"@,
            },
    {
        match self.genesis_commitment {
            Some(commitment) => word_hex(commitment),
            None => "none".to_owned(),
        }
    }
}

/// The character can be part of a header: it is printable, or a tab.
pub open spec fn is_header_char(c: char) -> bool {
    ' ' <= c <= '~' || c == '\t'
}

/// The text can be the value of a header.
pub open spec fn is_header_text(text: Seq<char>) -> bool {
    forall|i: int| 0 <= i < text.len() ==> is_header_char(#[trigger] text[i])
}

/// The client after the commitment to the first block was given to it.
pub open spec fn with_genesis(client: GrpcClient, commitment: Word) -> GrpcClient {
    if client.genesis_commitment is None {
        GrpcClient { genesis_commitment: Some(commitment), ..client }
    } else {
        client
    }
}

/// Of several commitments to the first block, the first one stays.
pub proof fn law_genesis_is_set_once(client: GrpcClient, first: Word, second: Word)
    ensures
        with_genesis(with_genesis(client, first), second) == with_genesis(client, first),
        with_genesis(client, first).genesis_commitment is Some,
{
}

// ACCOUNTS
// ================================================================================================
/// The part of a request for an account that asks for details.
#[derive(Debug)]
pub struct AccountDetailRequest {
    /// The commitment to the code the client holds, which the node need not send.
    pub code_commitment: Word,
    pub asset_vault_commitment: Option<Word>,
    pub storage_request: Option<StorageRequest>,
}

/// A request for an account, as it is sent.
#[derive(Debug)]
pub struct AccountRequestMessage {
    pub account_id: AccountId,
    pub block_num: Option<BlockNumber>,
    pub details: Option<AccountDetailRequest>,
}

/// What is needed to read the answer to a request for an account.
#[derive(Debug)]
pub struct AccountRequestContext {
    /// The code the client holds, by its commitment.
    pub known_codes: OrdMap<Word, AccountCode>,
    /// The map entries that were requested.
    pub requirements: AccountStorageRequirements,
}

/// The context remembers what the request names.
pub open spec fn is_context_of(context: AccountRequestContext, request: GetAccountRequest) -> bool {
    &&& context.known_codes@ == match request.known_code {
        Some(code) => Map::<Word, AccountCode>::empty().insert(code.commitment, code),
        None => Map::<Word, AccountCode>::empty(),
    }
    &&& match request.storage {
        StorageMapFetch::Slots(requirements) => context.requirements == requirements,
        _ => context.requirements.slots@ == Map::<SlotId, Vec<Word>>::empty(),
    }
}

/// Returns the message that requests an account, and what is needed to read the answer. Details are
/// requested only of accounts with public state.
pub fn account_request(account_id: AccountId, request: GetAccountRequest) -> (made: (
    AccountRequestMessage,
    AccountRequestContext,
))
    ensures
        is_context_of(made.1, request),
        made.0.account_id == account_id,
        made.0.block_num == match request.at {
            AccountStateAt::Block(number) => Some(number),
            AccountStateAt::ChainTip => None,
        },
        match made.0.details {
            None => is_private_of(account_id),
            Some(details) => {
                &&& !is_private_of(account_id)
                &&& details.code_commitment == match request.known_code {
                    Some(code) => code.commitment,
                    None => Word::spec_empty(),
                }
                &&& details.asset_vault_commitment == request.vault.requested_root()
                &&& request.storage.is_requested_by(details.storage_request)
            },
        },
{
    let GetAccountRequest { storage, at, known_code, vault } = request;
    let details = if is_private(account_id) {
        None
    } else {
        let code_commitment = match &known_code {
            Some(code) => code.commitment,
            None => Word::empty(),
        };
        Some(
            AccountDetailRequest {
                code_commitment,
                asset_vault_commitment: vault.commitment(),
                storage_request: storage.to_request(),
            },
        )
    };
    let mut known_codes: OrdMap<Word, AccountCode> = OrdMap::new();
    if let Some(code) = known_code {
        known_codes.insert(code.commitment, code);
    }
    let requirements = match storage {
        StorageMapFetch::Slots(requirements) => requirements,
        StorageMapFetch::Skip => AccountStorageRequirements { slots: OrdMap::new() },
        StorageMapFetch::All => AccountStorageRequirements { slots: OrdMap::new() },
    };
    let block_num: Option<BlockNumber> = match at {
        AccountStateAt::Block(number) => Some(number),
        AccountStateAt::ChainTip => None,
    };
    (
        AccountRequestMessage { account_id, block_num, details },
        AccountRequestContext { known_codes, requirements },
    )
}

/// An answer to a request for an account, as it arrives.
#[derive(Debug)]
pub struct AccountAnswer {
    pub witness: Option<AccountWitness>,
    pub block_num: Option<BlockNumber>,
    pub details: Option<AccountDetailsMessage>,
}

/// `read` is what comes of putting a witness and details together.
pub open spec fn proof_made(
    witness: AccountWitness,
    details: Option<AccountDetails>,
    block_num: BlockNumber,
    read: Result<(BlockNumber, AccountProof), AccountResponseError>,
) -> bool {
    match proof_problem(witness, details) {
        Some(error) => read == Err::<(BlockNumber, AccountProof), _>(
            AccountResponseError::InconsistentProof(error),
        ),
        None => read is Ok && (read->Ok_0).0 == block_num && (read->Ok_0).1.account_witness
            == witness && (read->Ok_0).1.state_headers == details,
    }
}

/// `read` is what comes of reading the details of a public account.
pub open spec fn public_account_read(
    message: AccountDetailsMessage,
    witness: AccountWitness,
    block_num: BlockNumber,
    context: AccountRequestContext,
    read: Result<(BlockNumber, AccountProof), AccountResponseError>,
) -> bool {
    exists|details: Result<AccountDetails, AccountResponseError>| #[trigger]
        message_read(message, context.known_codes@, context.requirements, details) && match details {
            Err(error) => read == Err::<(BlockNumber, AccountProof), _>(error),
            Ok(found) => proof_made(witness, Some(found), block_num, read),
        }
}

/// Reads an answer to a request for an account: the witness and the block have to be there, and the
/// details too if the account of the witness has public state.
pub fn read_account_answer(answer: AccountAnswer, context: &AccountRequestContext) -> (read: Result<
    (BlockNumber, AccountProof),
    AccountResponseError,
>)
    ensures
        match (answer.witness, answer.block_num) {
            (None, _) => read == Err::<(BlockNumber, AccountProof), _>(
                AccountResponseError::MissingWitness,
            ),
            (Some(witness), None) => read == Err::<(BlockNumber, AccountProof), _>(
                AccountResponseError::MissingBlockNum,
            ),
            (Some(witness), Some(block_num)) => if is_private_of(witness.id) {
                proof_made(witness, None, block_num, read)
            } else {
                match answer.details {
                    None => read == Err::<(BlockNumber, AccountProof), _>(
                        AccountResponseError::MissingDetails,
                    ),
                    Some(message) => public_account_read(
                        message,
                        witness,
                        block_num,
                        *context,
                        read,
                    ),
                }
            },
        },
{
    let witness = match answer.witness {
        Some(witness) => witness,
        None => {
            return Err(AccountResponseError::MissingWitness);
        },
    };
    let block_num: BlockNumber = match answer.block_num {
        Some(block_num) => block_num,
        None => {
            return Err(AccountResponseError::MissingBlockNum);
        },
    };
    let details = if is_private(witness.id) {
        None
    } else {
        match answer.details {
            None => {
                return Err(AccountResponseError::MissingDetails);
            },
            Some(message) => {
                let details = message.into_domain(&context.known_codes, &context.requirements);
                assert(message_read(
                    message,
                    context.known_codes@,
                    context.requirements,
                    details,
                ));
                match details {
                    Ok(details) => Some(details),
                    Err(error) => {
                        return Err(error);
                    },
                }
            },
        }
    };
    match AccountProof::new(witness, details) {
        Ok(checked) => Ok((block_num, checked)),
        Err(error) => Err(AccountResponseError::InconsistentProof(error)),
    }
}

// NOTES AND NULLIFIERS
// ================================================================================================
/// A note block, with its notes as a map.
#[verifier::ext_equal]
pub struct NotesBlockView {
    pub block_header: BlockHeader,
    pub mmr_path: Seq<Word>,
    pub notes: Map<NoteId, CommittedNote>,
}

/// What a note block stands for.
pub open spec fn block_view(block: SyncNotesBlock) -> NotesBlockView {
    NotesBlockView {
        block_header: block.block_header,
        mmr_path: block.mmr_path@,
        notes: block.notes@,
    }
}

/// What note blocks stand for.
pub open spec fn blocks_view(blocks: Map<BlockNumber, SyncNotesBlock>) -> Map<
    BlockNumber,
    NotesBlockView,
> {
    blocks.map_values(|block: SyncNotesBlock| block_view(block))
}

/// The blocks after one of an answer was added. A block can hold notes with tags of several requests,
/// and then arrives more than once: the header and the path stay as they were, and notes are added
/// that are new.
pub open spec fn added(
    blocks: Map<BlockNumber, NotesBlockView>,
    block: NotesBlockView,
) -> Map<BlockNumber, NotesBlockView> {
    let block_num = block.block_header.block_num;
    if blocks.contains_key(block_num) {
        blocks.insert(
            block_num,
            NotesBlockView {
                notes: block.notes.union_prefer_right(blocks[block_num].notes),
                ..blocks[block_num]
            },
        )
    } else {
        blocks.insert(block_num, block)
    }
}

/// The blocks after those of an answer were added, one after the other.
pub open spec fn all_added(
    blocks: Map<BlockNumber, NotesBlockView>,
    page: Seq<SyncNotesBlock>,
) -> Map<BlockNumber, NotesBlockView>
    decreases page.len(),
{
    if page.len() == 0 {
        blocks
    } else {
        added(all_added(blocks, page.drop_last()), block_view(page.last()))
    }
}

/// Adds a block of an answer to those that are there.
pub fn merge_note_block(
    merged_blocks: &mut OrdMap<BlockNumber, SyncNotesBlock>,
    block: SyncNotesBlock,
)
    ensures
        blocks_view(final(merged_blocks)@) == added(
            blocks_view(old(merged_blocks)@),
            block_view(block),
        ),
{
    let ghost before = merged_blocks@;
    let block_num: BlockNumber = block.block_header.block_num;
    match merged_blocks.remove(&block_num) {
        Some(existing) => {
            let mut notes = existing.notes;
            assert(before.contains_key(block_num));
            notes.insert_missing(block.notes);
            merged_blocks.insert(
                block_num,
                SyncNotesBlock {
                    block_header: existing.block_header,
                    mmr_path: existing.mmr_path,
                    notes,
                },
            );
        },
        None => {
            merged_blocks.insert(block_num, block);
        },
    }
    assert(blocks_view(merged_blocks@) =~= added(blocks_view(before), block_view(block)));
}

/// Adding a block a second time changes nothing.
pub proof fn law_merging_twice(blocks: Map<BlockNumber, NotesBlockView>, block: NotesBlockView)
    ensures
        added(added(blocks, block), block) == added(blocks, block),
{
    let once = added(blocks, block);
    let block_num = block.block_header.block_num;
    assert(block.notes.union_prefer_right(once[block_num].notes) =~= once[block_num].notes);
    assert(added(once, block) =~= once);
}

/// Which notes a block has does not depend on the order in which its parts arrive.
pub proof fn law_merging_in_any_order(
    blocks: Map<BlockNumber, NotesBlockView>,
    first: NotesBlockView,
    second: NotesBlockView,
    block_num: BlockNumber,
)
    requires
        added(added(blocks, first), second).contains_key(block_num),
    ensures
        added(added(blocks, second), first).contains_key(block_num),
        added(added(blocks, first), second)[block_num].notes.dom() == added(
            added(blocks, second),
            first,
        )[block_num].notes.dom(),
{
    assert(added(added(blocks, first), second)[block_num].notes.dom() =~= added(
        added(blocks, second),
        first,
    )[block_num].notes.dom());
}

impl OrdKey for NullifierUpdate {
    /// Ordered by nullifier, then by block.
    open spec fn rank(self) -> int {
        self.nullifier.rank() * 0x1_0000_0000 + self.block_num
    }

    proof fn rank_injective(a: Self, b: Self) {
        assert(a.nullifier.rank() == b.nullifier.rank());
        <Word as OrdKey>::rank_injective(a.nullifier, b.nullifier);
    }

    fn same(&self, other: &Self) -> (equal: bool) {
        self.nullifier.same(&other.nullifier) && self.block_num == other.block_num
    }

    fn precedes(&self, other: &Self) -> (before: bool) {
        if self.nullifier.precedes(&other.nullifier) {
            true
        } else if other.nullifier.precedes(&self.nullifier) {
            false
        } else {
            self.block_num < other.block_num
        }
    }
}

/// Adds the nullifiers of a page to those that are there, each of them once.
pub fn merge_nullifiers(
    all_nullifiers: &mut OrdMap<NullifierUpdate, ()>,
    batch: &Vec<NullifierUpdate>,
)
    ensures
        final(all_nullifiers)@.dom() == old(all_nullifiers)@.dom().union(batch@.to_set()),
{
    let ghost before = all_nullifiers@.dom();
    let mut i: usize = 0;
    assert(batch@.take(0).to_set() =~= Set::empty());
    assert(before.union(Set::empty()) =~= before);
    while i < batch.len()
        invariant
            i <= batch.len(),
            all_nullifiers@.dom() == before.union(batch@.take(i as int).to_set()),
        decreases batch.len() - i,
    {
        let ghost now = all_nullifiers@.dom();
        all_nullifiers.insert(batch[i], ());
        proof {
            let shorter = batch@.take(i as int);
            let longer = batch@.take(i + 1);
            let update = batch@[i as int];
            assert(longer =~= shorter.push(update));
            assert forall|u: NullifierUpdate|
                longer.to_set().contains(u) <==> shorter.to_set().contains(u) || u == update by {
                if shorter.contains(u) {
                    let k = choose|k: int| 0 <= k < shorter.len() && shorter[k] == u;
                    assert(longer[k] == u);
                }
                assert(longer[i as int] == update);
            }
            assert(all_nullifiers@.dom() =~= before.union(longer.to_set()));
        }
        i += 1;
    }
    assert(batch@.take(i as int) =~= batch@);
}

// STORAGE MAPS AND VAULTS
// ================================================================================================
/// The entries of storage maps that changed, by slot and by key.
#[derive(Debug)]
pub struct StorageMapInfo {
    pub chain_tip: BlockNumber,
    pub block_number: BlockNumber,
    pub map_entries: OrdMap<SlotId, OrdMap<Word, Word>>,
}

/// The assets of a vault that changed.
#[derive(Debug)]
pub struct AccountVaultInfo {
    pub chain_tip: BlockNumber,
    pub block_number: BlockNumber,
    pub vault_patch: AccountVaultPatch,
}

/// The entries of a slot; none if the slot is not there.
pub open spec fn slot_entries(maps: Map<SlotId, OrdMap<Word, Word>>, slot: SlotId) -> Map<
    Word,
    Word,
> {
    if maps.contains_key(slot) {
        maps[slot]@
    } else {
        Map::empty()
    }
}

/// A later page was added: in each slot, its entries replace those that were there.
pub open spec fn is_page_added(
    before: Map<SlotId, OrdMap<Word, Word>>,
    page: Map<SlotId, OrdMap<Word, Word>>,
    after: Map<SlotId, OrdMap<Word, Word>>,
) -> bool {
    &&& after.dom() == before.dom().union(page.dom())
    &&& forall|slot: SlotId| #[trigger]
        after.contains_key(slot) ==> after[slot]@ == slot_entries(before, slot).union_prefer_right(
            slot_entries(page, slot),
        )
}

/// Adds the map entries of a later page.
pub fn merge_storage_page(
    map_entries: &mut OrdMap<SlotId, OrdMap<Word, Word>>,
    page: OrdMap<SlotId, OrdMap<Word, Word>>,
)
    ensures
        is_page_added(old(map_entries)@, page@, final(map_entries)@),
{
    let ghost before = map_entries@;
    let ghost all = page.listing();
    let ghost mut n: int = 0;
    proof {
        assert(entries_map(all.take(0)) =~= Map::empty());
        assert(before.dom().union(Set::empty()) =~= before.dom());
        assert forall|slot: SlotId| #[trigger] before.contains_key(slot) implies before[slot]@
            == slot_entries(before, slot).union_prefer_right(Map::empty()) by {
            assert(before[slot]@ =~= slot_entries(before, slot).union_prefer_right(Map::empty()));
        }
    }
    let listed = page.into_entries();
    for entry in iter: listed
        invariant
            iter.seq() == all,
            n == iter.index(),
            keys_ascending(all),
            is_page_added(before, entries_map(all.take(n)), map_entries@),
    {
        let (slot, entries) = entry;
        let ghost now = map_entries@;
        let ghost part = entries_map(all.take(n));
        let ghost longer = entries_map(all.take(n + 1));
        proof {
            lemma_take_next(all, n);
            assert(all[n] == entry);
        }
        let mut merged = match map_entries.remove(&slot) {
            Some(existing) => existing,
            None => OrdMap::new(),
        };
        assert(merged@ =~= slot_entries(before, slot)) by {
            if now.contains_key(slot) {
                assert(now[slot]@ == slot_entries(before, slot).union_prefer_right(
                    slot_entries(part, slot),
                ));
            }
        }
        merged.insert_all(entries);
        map_entries.insert(slot, merged);
        proof {
            assert(map_entries@.dom() =~= before.dom().union(longer.dom()));
            assert forall|s: SlotId| #[trigger] map_entries@.contains_key(s) implies map_entries@[s]@
                == slot_entries(before, s).union_prefer_right(slot_entries(longer, s)) by {
                if s != slot {
                    assert(now.contains_key(s));
                }
            }
            n = n + 1;
        }
    }
    assert(all.take(n) =~= all);
}

/// Adds the changed assets of a later page, which replace those that were there.
pub fn merge_vault_page(vault_patch: &mut AccountVaultPatch, page: AccountVaultPatch)
    ensures
        final(vault_patch).assets@ == old(vault_patch).assets@.union_prefer_right(page.assets@),
{
    vault_patch.assets.insert_all(page.assets);
}

// BLOCKS
// ================================================================================================
/// An answer to a request for a header, as it arrives.
#[derive(Debug)]
pub struct BlockHeaderAnswer {
    pub block_header: Option<BlockHeader>,
    pub chain_length: Option<u64>,
    pub mmr_path: Option<Vec<Word>>,
}

/// The path from a block to a peak of a mountain range.
#[derive(Debug)]
pub struct MmrProof {
    pub forest: u32,
    pub position: BlockNumber,
    pub path: Vec<Word>,
    pub leaf: Word,
}

/// A part of an answer is missing, and the text names it.
pub open spec fn is_missing<T>(read: Result<T, RpcError>, name: Seq<char>) -> bool {
    read matches Err(RpcError::ExpectedDataMissing(text)) && text@ == name
}

/// The answer is refused with the text.
pub open spec fn is_invalid<T>(read: Result<T, RpcError>, reason: Seq<char>) -> bool {
    read matches Err(RpcError::InvalidResponse(text)) && text@ == reason
}

/// The proof of a block is not a proof.
pub open spec fn is_malformed<T>(read: Result<T, RpcError>) -> bool {
    read matches Err(RpcError::DeserializationError(text)) && text@
        == "the proof of the block is malformed"@
}

/// Reads an answer to a request for a header, with the path to it if that was requested. No mountain
/// range has more than `max_leaves` leaves.
pub fn read_block_header_answer(answer: BlockHeaderAnswer, include_mmr_proof: bool) -> (read: Result<
    (BlockHeader, Option<MmrProof>),
    RpcError,
>)
    ensures
        match answer.block_header {
            None => is_missing(read, "BlockHeader"@),
            Some(header) => if !include_mmr_proof {
                read == Ok::<_, RpcError>((header, None::<MmrProof>))
            } else {
                match (answer.chain_length, answer.mmr_path) {
                    (None, _) => is_missing(read, "ChainLength"@),
                    (Some(_), None) => is_missing(read, "MmrPath"@),
                    (Some(forest), Some(path)) => if forest > max_leaves() {
                        is_invalid(read, "invalid forest size: "@ + decimal_of(forest as nat))
                    } else {
                        read == Ok::<_, RpcError>(
                            (
                                header,
                                Some(
                                    MmrProof {
                                        forest: forest as u32,
                                        position: header.block_num,
                                        path,
                                        leaf: header.commitment,
                                    },
                                ),
                            ),
                        )
                    },
                }
            },
        },
{
    let block_header = match answer.block_header {
        Some(block_header) => block_header,
        None => {
            return Err(RpcError::ExpectedDataMissing("BlockHeader".to_owned()));
        },
    };
    if !include_mmr_proof {
        return Ok((block_header, None));
    }
    let forest: u64 = match answer.chain_length {
        Some(forest) => forest,
        None => {
            return Err(RpcError::ExpectedDataMissing("ChainLength".to_owned()));
        },
    };
    let path = match answer.mmr_path {
        Some(path) => path,
        None => {
            return Err(RpcError::ExpectedDataMissing("MmrPath".to_owned()));
        },
    };
    let limit: u64 = if (u32::MAX as usize) < usize::MAX / 2 {
        u32::MAX as u64
    } else {
        (usize::MAX / 2) as u64
    };
    if forest > limit {
        let text = "invalid forest size: ".to_owned().concat(decimal(forest).as_str());
        return Err(RpcError::InvalidResponse(text));
    }
    let found = MmrProof {
        forest: forest as u32,
        position: block_header.block_num,
        path,
        leaf: block_header.commitment,
    };
    Ok((block_header, Some(found)))
}

/// A block with its signatures.
#[derive(Debug)]
pub struct SignedBlock {
    pub header: BlockHeader,
    pub serialized: Vec<u8>,
}

/// The bytes can be read as a proof of a block.
pub uninterp spec fn is_execution_proof_of(bytes: Seq<u8>) -> bool;

/// `ExecutionProof::from_bytes`: true if the bytes can be read as a proof. Which ones can is only
/// named.
#[verifier::external_body]
fn is_execution_proof(bytes: &Vec<u8>) -> (readable: bool)
    ensures
        readable == is_execution_proof_of(bytes@),
{
    miden_protocol::vm::ExecutionProof::from_bytes(bytes).is_ok()
}

/// Decides about an answer to a request for a block, given whether its proof can be read.
pub fn check_block_response(
    block: Option<SignedBlock>,
    block_proof: Option<Vec<u8>>,
    proof_is_readable: bool,
) -> (read: Result<(SignedBlock, Option<Vec<u8>>), RpcError>)
    ensures
        match (block, block_proof) {
            (None, _) => is_missing(read, "GetBlockByNumberResponse.block"@),
            (Some(block), Some(_)) if !proof_is_readable => is_malformed(read),
            (Some(block), block_proof) => read == Ok::<_, RpcError>((block, block_proof)),
        },
{
    match block {
        None => Err(RpcError::ExpectedDataMissing("GetBlockByNumberResponse.block".to_owned())),
        Some(block) => {
            if block_proof.is_some() && !proof_is_readable {
                return Err(
                    RpcError::DeserializationError("the proof of the block is malformed".to_owned()),
                );
            }
            Ok((block, block_proof))
        },
    }
}

/// Reads an answer to a request for a block. A node leaves the proof out if it was not requested, and
/// if the block is not proven yet, so that an absent proof is no error.
pub fn decode_block_response(block: Option<SignedBlock>, block_proof: Option<Vec<u8>>) -> (read:
    Result<(SignedBlock, Option<Vec<u8>>), RpcError>)
    ensures
        match (block, block_proof) {
            (None, _) => is_missing(read, "GetBlockByNumberResponse.block"@),
            (Some(block), Some(bytes)) if !is_execution_proof_of(bytes@) => is_malformed(read),
            (Some(block), block_proof) => read == Ok::<_, RpcError>((block, block_proof)),
        },
{
    let readable = match &block_proof {
        Some(bytes) => is_execution_proof(bytes),
        None => true,
    };
    check_block_response(block, block_proof, readable)
}

// TRANSACTION ENCRYPTION KEY
// ================================================================================================
/// A key together with the signature of a validator over it, in serialized form.
#[derive(Debug)]
pub struct ValidatorAttestation {
    pub validator_key: Vec<u8>,
    pub signature: Vec<u8>,
}

/// The key that follows the current one, as it arrives.
#[derive(Debug)]
pub struct NextKeyMessage {
    pub scheme: i32,
    pub key_id: Vec<u8>,
    pub public_key: Vec<u8>,
    pub rotation_block_num: BlockNumber,
}

/// An answer to a request for the key that transactions are encrypted with, as it arrives. An
/// attestation that cannot be read is `None`.
#[derive(Debug)]
pub struct EncryptionKeyMessage {
    pub scheme: i32,
    pub key_id: Vec<u8>,
    pub public_key: Vec<u8>,
    pub attestations: Vec<Option<ValidatorAttestation>>,
    pub next_key: Option<NextKeyMessage>,
}

/// The key that follows the current one.
#[derive(Debug)]
pub struct NextTransactionEncryptionKey {
    pub scheme: u32,
    pub key_id: Vec<u8>,
    pub public_key: Vec<u8>,
    pub rotation_block_num: BlockNumber,
}

/// The key that transactions are encrypted with, and the attestations for it.
#[derive(Debug)]
pub struct AttestedTransactionEncryptionKey {
    pub scheme: u32,
    pub key_id: Vec<u8>,
    pub public_key: Vec<u8>,
    pub attestations: Vec<ValidatorAttestation>,
    pub next_key: Option<NextTransactionEncryptionKey>,
}

/// What is said of a scheme that is negative, which is no scheme at all.
pub open spec fn negative_scheme_text(scheme: i32) -> Seq<char> {
    "negative IES scheme '-"@ + decimal_of((-scheme) as nat) + "'"@
}

/// Reads the number of a scheme.
fn wire_scheme(scheme: i32) -> (read: Result<u32, RpcError>)
    ensures
        if scheme < 0 {
            is_invalid(read, negative_scheme_text(scheme))
        } else {
            read == Ok::<_, RpcError>(scheme as u32)
        },
{
    if scheme < 0 {
        let digits = decimal((-(scheme as i64)) as u64);
        let text = "negative IES scheme '-".to_owned().concat(digits.as_str()).concat("'");
        Err(RpcError::InvalidResponse(text))
    } else {
        Ok(scheme as u32)
    }
}

/// Returns the attestations that can be read. One that cannot be read is left out, so that it does
/// not hide a valid one.
fn readable_attestations(attestations: Vec<Option<ValidatorAttestation>>) -> (readable: Vec<
    ValidatorAttestation,
>)
    ensures
        readable@ == present(attestations@),
{
    let ghost all = attestations@;
    let ghost mut n: int = 0;
    let mut readable: Vec<ValidatorAttestation> = Vec::new();
    for attestation in iter: attestations
        invariant
            iter.seq() == all,
            n == iter.index(),
            readable@ == present(all.take(n)),
    {
        proof {
            assert(all.take(n + 1).drop_last() =~= all.take(n));
            assert(all.take(n + 1).last() == attestation);
            n = n + 1;
        }
        if let Some(attestation) = attestation {
            readable.push(attestation);
        }
    }
    assert(all.take(n) =~= all);
    readable
}

/// Reads an answer to a request for the key that transactions are encrypted with. A negative scheme
/// is refused, that of the next key first.
pub fn read_encryption_key(message: EncryptionKeyMessage) -> (read: Result<
    AttestedTransactionEncryptionKey,
    RpcError,
>)
    ensures
        match message.next_key {
            Some(next) if next.scheme < 0 => is_invalid(read, negative_scheme_text(next.scheme)),
            next_key => if message.scheme < 0 {
                is_invalid(read, negative_scheme_text(message.scheme))
            } else {
                &&& read is Ok
                &&& read->Ok_0.scheme == message.scheme
                &&& read->Ok_0.key_id == message.key_id
                &&& read->Ok_0.public_key == message.public_key
                &&& read->Ok_0.attestations@ == present(message.attestations@)
                &&& match (next_key, read->Ok_0.next_key) {
                    (None, None) => true,
                    (Some(next), Some(own)) => {
                        &&& own.scheme == next.scheme
                        &&& own.key_id == next.key_id
                        &&& own.public_key == next.public_key
                        &&& own.rotation_block_num == next.rotation_block_num
                    },
                    _ => false,
                }
            },
        },
{
    let attestations = readable_attestations(message.attestations);
    let next_key = match message.next_key {
        None => None,
        Some(next) => match wire_scheme(next.scheme) {
            Ok(scheme) => Some(
                NextTransactionEncryptionKey {
                    scheme,
                    key_id: next.key_id,
                    public_key: next.public_key,
                    rotation_block_num: next.rotation_block_num,
                },
            ),
            Err(error) => {
                return Err(error);
            },
        },
    };
    match wire_scheme(message.scheme) {
        Ok(scheme) => Ok(
            AttestedTransactionEncryptionKey {
                scheme,
                key_id: message.key_id,
                public_key: message.public_key,
                attestations,
                next_key,
            },
        ),
        Err(error) => Err(error),
    }
}

} // verus!
