//! Bringing tracked accounts to the state the network has for them.
//!
//! The transactions of a sync tell which accounts changed. A public account that differs from the
//! local one is fetched, and its state is adopted if it is newer. A private account that differs is
//! only reported, once a proof shows that it does.
use vstd::prelude::*;

use crate::account::{is_private, is_private_of};
use crate::collections::{lemma_first_some_is_one, lemma_first_some_none, OrdMap};
use crate::errors::{ChainValidationError, SyncError};
use crate::rpc::domain::account::{
    header_commitment, header_commitment_of, same_code, Account, AccountHeader,
    AccountResponseError, SlotId, StorageMapEntry, StorageSlotHeader, StorageSlotType,
};
use crate::rpc::domain::account_proof::{
    account_problem, is_account_of, oversize_problems, slot_problems, AccountDetails, AccountProof,
    AccountStateAt, GetAccountRequest, StorageMapFetch, VaultFetch,
};
use crate::rpc::domain::account_storage::AccountStorageMapDetails;
use crate::sync::account_updates::{
    build_account_patch, changes_distinct, is_repeated_slot, is_storage_patch, AccountPatchError,
    AccountUpdates, AccountVaultPatch, PublicAccountUpdate,
};
use crate::types::{AccountId, BlockHeader, BlockNumber, Word};

verus! {

// DIVERGING ACCOUNTS
// ================================================================================================
/// The last of the headers that is of the account.
pub open spec fn last_header(accounts: Seq<AccountHeader>, id: AccountId) -> Option<AccountHeader>
    decreases accounts.len(),
{
    if accounts.len() == 0 {
        None
    } else if accounts.last().id == id {
        Some(accounts.last())
    } else {
        last_header(accounts.drop_last(), id)
    }
}

/// The headers of accounts with public state.
pub open spec fn public_accounts(accounts: Seq<AccountHeader>) -> Seq<AccountHeader>
    decreases accounts.len(),
{
    if accounts.len() == 0 {
        Seq::empty()
    } else if is_private_of(accounts.last().id) {
        public_accounts(accounts.drop_last())
    } else {
        public_accounts(accounts.drop_last()).push(accounts.last())
    }
}

/// The tracked public accounts whose local state is not the reported one, in the order in which
/// they are reported.
pub open spec fn diverging_public(
    accounts: Seq<AccountHeader>,
    commitment_updates: Seq<(AccountId, Word)>,
) -> Seq<AccountHeader>
    decreases commitment_updates.len(),
{
    if commitment_updates.len() == 0 {
        Seq::empty()
    } else {
        let rest = diverging_public(accounts, commitment_updates.drop_last());
        let (id, commitment) = commitment_updates.last();
        match last_header(public_accounts(accounts), id) {
            Some(header) => if header_commitment_of(header) != Some(commitment) {
                rest.push(header)
            } else {
                rest
            },
            None => rest,
        }
    }
}

/// A state other than the local one is reported for the account.
pub open spec fn is_contradicted(
    header: AccountHeader,
    commitment_updates: Seq<(AccountId, Word)>,
) -> bool {
    exists|i: int|
        0 <= i < commitment_updates.len() && (#[trigger] commitment_updates[i]).0 == header.id
            && header_commitment_of(header) != Some(commitment_updates[i].1)
}

/// The private accounts for which a state other than the local one is reported.
pub open spec fn diverging_private(
    accounts: Seq<AccountHeader>,
    commitment_updates: Seq<(AccountId, Word)>,
) -> Seq<AccountHeader>
    decreases accounts.len(),
{
    if accounts.len() == 0 {
        Seq::empty()
    } else {
        let rest = diverging_private(accounts.drop_last(), commitment_updates);
        if is_private_of(accounts.last().id) && is_contradicted(
            accounts.last(),
            commitment_updates,
        ) {
            rest.push(accounts.last())
        } else {
            rest
        }
    }
}

/// Returns the headers of accounts with public state.
fn select_public(accounts: &Vec<AccountHeader>) -> (public: Vec<AccountHeader>)
    ensures
        public@ == public_accounts(accounts@),
{
    let mut public: Vec<AccountHeader> = Vec::new();
    let mut i: usize = 0;
    while i < accounts.len()
        invariant
            i <= accounts.len(),
            public@ == public_accounts(accounts@.take(i as int)),
        decreases accounts.len() - i,
    {
        assert(accounts@.take(i + 1).drop_last() =~= accounts@.take(i as int));
        assert(accounts@.take(i + 1).last() == accounts@[i as int]);
        if !is_private(accounts[i].id) {
            public.push(accounts[i]);
        }
        i += 1;
    }
    assert(accounts@.take(accounts.len() as int) =~= accounts@);
    public
}

/// Returns the last of the headers that is of the account.
fn find_last_header(accounts: &Vec<AccountHeader>, id: AccountId) -> (header: Option<AccountHeader>)
    ensures
        header == last_header(accounts@, id),
{
    let mut header: Option<AccountHeader> = None;
    let mut i: usize = 0;
    while i < accounts.len()
        invariant
            i <= accounts.len(),
            header == last_header(accounts@.take(i as int), id),
        decreases accounts.len() - i,
    {
        assert(accounts@.take(i + 1).drop_last() =~= accounts@.take(i as int));
        assert(accounts@.take(i + 1).last() == accounts@[i as int]);
        if accounts[i].id == id {
            header = Some(accounts[i]);
        }
        i += 1;
    }
    assert(accounts@.take(accounts.len() as int) =~= accounts@);
    header
}

/// Returns the tracked public accounts whose local state is not the reported one. Their states are
/// to be fetched.
pub fn diverging_public_accounts(
    accounts: &Vec<AccountHeader>,
    commitment_updates: &Vec<(AccountId, Word)>,
) -> (diverging: Vec<AccountHeader>)
    ensures
        diverging@ == diverging_public(accounts@, commitment_updates@),
{
    let public = select_public(accounts);
    let mut diverging: Vec<AccountHeader> = Vec::new();
    let mut i: usize = 0;
    while i < commitment_updates.len()
        invariant
            i <= commitment_updates.len(),
            public@ == public_accounts(accounts@),
            diverging@ == diverging_public(accounts@, commitment_updates@.take(i as int)),
        decreases commitment_updates.len() - i,
    {
        let (id, commitment) = commitment_updates[i];
        assert(commitment_updates@.take(i + 1).drop_last() =~= commitment_updates@.take(i as int));
        assert(commitment_updates@.take(i + 1).last() == commitment_updates@[i as int]);
        if let Some(header) = find_last_header(&public, id) {
            if !has_commitment(&header, &commitment) {
                diverging.push(header);
            }
        }
        i += 1;
    }
    assert(commitment_updates@.take(commitment_updates.len() as int) =~= commitment_updates@);
    diverging
}

/// Returns true if the commitment is that of the account with the header.
fn has_commitment(header: &AccountHeader, commitment: &Word) -> (has: bool)
    ensures
        has == (header_commitment_of(*header) == Some(*commitment)),
{
    match header_commitment(header) {
        Some(local) => local == *commitment,
        None => false,
    }
}

/// Returns the private accounts for which a state other than the local one is reported. The report
/// is to be proven before an account counts as mismatched.
pub fn diverging_private_accounts(
    accounts: &Vec<AccountHeader>,
    commitment_updates: &Vec<(AccountId, Word)>,
) -> (diverging: Vec<AccountHeader>)
    ensures
        diverging@ == diverging_private(accounts@, commitment_updates@),
{
    let mut diverging: Vec<AccountHeader> = Vec::new();
    let mut i: usize = 0;
    while i < accounts.len()
        invariant
            i <= accounts.len(),
            diverging@ == diverging_private(accounts@.take(i as int), commitment_updates@),
        decreases accounts.len() - i,
    {
        let header = accounts[i];
        assert(accounts@.take(i + 1).drop_last() =~= accounts@.take(i as int));
        assert(accounts@.take(i + 1).last() == accounts@[i as int]);
        if is_private(header.id) {
            let mut contradicted: bool = false;
            let mut j: usize = 0;
            while j < commitment_updates.len()
                invariant
                    j <= commitment_updates.len(),
                    contradicted == exists|k: int|
                        0 <= k < j && (#[trigger] commitment_updates@[k]).0 == header.id
                            && header_commitment_of(header) != Some(commitment_updates@[k].1),
                decreases commitment_updates.len() - j,
            {
                let (id, commitment) = commitment_updates[j];
                if id == header.id && !has_commitment(&header, &commitment) {
                    assert(commitment_updates@[j as int].0 == header.id);
                    contradicted = true;
                }
                j += 1;
            }
            if contradicted {
                diverging.push(header);
            }
        }
        i += 1;
    }
    assert(accounts@.take(accounts.len() as int) =~= accounts@);
    diverging
}

// PROOFS
// ================================================================================================
/// What an answer says of a private account whose local state is contradicted: why it is refused,
/// or the commitment to the state that was proven, if that is another state than the local one.
pub open spec fn private_mismatch(
    account_id: AccountId,
    local_commitment: Word,
    tip: BlockHeader,
    proof_block_num: BlockNumber,
    answer: AccountProof,
) -> Result<Option<Word>, SyncError> {
    let witness = answer.account_witness;
    if proof_block_num != tip.block_num {
        Err(
            SyncError::Validation(
                ChainValidationError::ProofBlockMismatch {
                    expected: tip.block_num,
                    received: proof_block_num,
                },
            ),
        )
    } else if !witness.opens_under(tip.account_root) {
        Err(
            SyncError::Validation(
                ChainValidationError::ProofNotUnderRoot { account_id, block_num: tip.block_num },
            ),
        )
    } else if witness.id != account_id || witness.state_commitment == Word::spec_empty()
        || witness.state_commitment == local_commitment {
        Ok(None)
    } else {
        Ok(Some(witness.state_commitment))
    }
}

/// Returns the request by which the state of a private account at the chain tip is proven.
pub fn private_account_request(tip: &BlockHeader) -> (request: GetAccountRequest)
    ensures
        request.at == AccountStateAt::Block(tip.block_num),
        request.storage is Skip,
        request.vault == VaultFetch::Skip,
        request.known_code is None,
{
    GetAccountRequest::new().at(AccountStateAt::Block(tip.block_num))
}

/// Returns the commitment that the network provably has for a private account, if it is another
/// than the local one. A report that cannot be proven counts for nothing: the witness may be of
/// another account with the same prefix, and the account may not be on the chain.
pub fn verify_private_account_mismatch(
    account_id: AccountId,
    local_commitment: Word,
    chain_tip_header: &BlockHeader,
    proof_block_num: BlockNumber,
    answer: &AccountProof,
) -> (mismatch: Result<Option<Word>, SyncError>)
    ensures
        mismatch == private_mismatch(
            account_id,
            local_commitment,
            *chain_tip_header,
            proof_block_num,
            *answer,
        ),
{
    let chain_tip: BlockNumber = chain_tip_header.block_num;
    if proof_block_num != chain_tip {
        return Err(
            SyncError::Validation(
                ChainValidationError::ProofBlockMismatch {
                    expected: chain_tip,
                    received: proof_block_num,
                },
            ),
        );
    }
    let witness = &answer.account_witness;
    if !witness.verify(&chain_tip_header.account_root) {
        return Err(
            SyncError::Validation(
                ChainValidationError::ProofNotUnderRoot { account_id, block_num: chain_tip },
            ),
        );
    }
    if witness.id != account_id || witness.state_commitment == Word::empty()
        || witness.state_commitment == local_commitment {
        return Ok(None);
    }
    Ok(Some(witness.state_commitment))
}

/// What the answer proves about a private account, of which the client has the header. A header that
/// is of no account is compared with nothing.
pub open spec fn header_mismatch(
    header: AccountHeader,
    tip: BlockHeader,
    proof_block_num: BlockNumber,
    answer: AccountProof,
) -> Result<Option<Word>, SyncError> {
    match header_commitment_of(header) {
        Some(local) => private_mismatch(header.id, local, tip, proof_block_num, answer),
        None => Ok(None),
    }
}

/// Returns the commitment that the network provably has for a private account, if it is another
/// than that of the header the client has.
pub fn private_account_mismatch(
    header: &AccountHeader,
    chain_tip_header: &BlockHeader,
    proof_block_num: BlockNumber,
    answer: &AccountProof,
) -> (mismatch: Result<Option<Word>, SyncError>)
    ensures
        mismatch == header_mismatch(*header, *chain_tip_header, proof_block_num, *answer),
{
    match header_commitment(header) {
        Some(local) => verify_private_account_mismatch(
            header.id,
            local,
            chain_tip_header,
            proof_block_num,
            answer,
        ),
        None => Ok(None),
    }
}

/// Why the proof of a public account is refused.
pub open spec fn public_proof_problem(
    answer: AccountProof,
    proof_block_num: BlockNumber,
    account_id: AccountId,
    tip: BlockHeader,
) -> Option<ChainValidationError> {
    if proof_block_num != tip.block_num {
        Some(
            ChainValidationError::ProofBlockMismatch {
                expected: tip.block_num,
                received: proof_block_num,
            },
        )
    } else if answer.account_witness.id != account_id {
        Some(
            ChainValidationError::ProofAccountMismatch {
                expected: account_id,
                received: answer.account_witness.id,
            },
        )
    } else if !answer.account_witness.opens_under(tip.account_root) {
        Some(ChainValidationError::ProofNotUnderRoot { account_id, block_num: tip.block_num })
    } else if answer.state_headers is None {
        Some(ChainValidationError::MissingAccountDetails { account_id })
    } else {
        None
    }
}

/// Checks that an answer is for the requested account and block, that it opens under the account
/// root of the block, and that it carries details, and returns these.
pub fn validate_account_proof(
    answer: AccountProof,
    proof_block_num: BlockNumber,
    account_id: AccountId,
    chain_tip_header: &BlockHeader,
) -> (details: Result<AccountDetails, SyncError>)
    ensures
        match details {
            Ok(d) => public_proof_problem(
                answer,
                proof_block_num,
                account_id,
                *chain_tip_header,
            ) is None && answer.state_headers == Some(d),
            Err(error) => match public_proof_problem(
                answer,
                proof_block_num,
                account_id,
                *chain_tip_header,
            ) {
                Some(problem) => error == SyncError::Validation(problem),
                None => false,
            },
        },
{
    let block_num: BlockNumber = chain_tip_header.block_num;
    if proof_block_num != block_num {
        return Err(
            SyncError::Validation(
                ChainValidationError::ProofBlockMismatch {
                    expected: block_num,
                    received: proof_block_num,
                },
            ),
        );
    }
    let (witness, details) = answer.into_parts();
    if witness.id != account_id {
        return Err(
            SyncError::Validation(
                ChainValidationError::ProofAccountMismatch {
                    expected: account_id,
                    received: witness.id,
                },
            ),
        );
    }
    if !witness.verify(&chain_tip_header.account_root) {
        return Err(
            SyncError::Validation(ChainValidationError::ProofNotUnderRoot { account_id, block_num }),
        );
    }
    match details {
        Some(details) => Ok(details),
        None => Err(
            SyncError::Validation(ChainValidationError::MissingAccountDetails { account_id }),
        ),
    }
}

// PUBLIC ACCOUNTS
// ================================================================================================
/// What to do about the state the network has for a public account.
#[derive(Clone, Copy, Debug, PartialEq, Eq, Structural)]
pub enum PublicAccountAction {
    /// The network is behind: the local state was not committed yet.
    Ignore,
    /// The network has another state with the same nonce: the local transaction has lost.
    Superseded,
    /// The network is ahead, and its answer holds the whole state.
    AdoptState,
    /// The network is ahead, and the account is too large for one answer.
    AdoptPatch,
}

/// Some map was left out because it has too many entries.
pub open spec fn any_map_oversized(map_details: Seq<AccountStorageMapDetails>) -> bool {
    exists|i: int| 0 <= i < map_details.len() && (#[trigger] map_details[i]).limit_exceeded()
}

/// What is to be done about a public account.
pub open spec fn public_action(details: AccountDetails, local_nonce: u64) -> PublicAccountAction {
    if details.header.nonce < local_nonce {
        PublicAccountAction::Ignore
    } else if details.header.nonce == local_nonce {
        PublicAccountAction::Superseded
    } else if details.vault_details.too_many_assets || any_map_oversized(
        details.storage_details.map_details@,
    ) {
        PublicAccountAction::AdoptPatch
    } else {
        PublicAccountAction::AdoptState
    }
}

/// Returns the request by which the whole state of a public account at the chain tip is fetched:
/// the vault, and the entries of every map.
pub fn public_account_request(tip: &BlockHeader) -> (request: GetAccountRequest)
    ensures
        request.at == AccountStateAt::Block(tip.block_num),
        request.storage is All,
        request.vault == VaultFetch::Always,
        request.known_code is None,
{
    GetAccountRequest::new().at(AccountStateAt::Block(tip.block_num)).with_storage(
        StorageMapFetch::All,
    ).with_vault(VaultFetch::Always)
}

/// Returns what to do about the state the network has for a public account.
pub fn classify_public_account(details: &AccountDetails, local_header: &AccountHeader) -> (action:
    PublicAccountAction)
    ensures
        action == public_action(*details, local_header.nonce),
{
    if details.header.nonce < local_header.nonce {
        return PublicAccountAction::Ignore;
    }
    if details.header.nonce == local_header.nonce {
        return PublicAccountAction::Superseded;
    }
    let maps = &details.storage_details.map_details;
    let mut oversized: bool = false;
    let mut i: usize = 0;
    while i < maps.len()
        invariant
            i <= maps.len(),
            oversized == exists|k: int| 0 <= k < i && (#[trigger] maps@[k]).limit_exceeded(),
        decreases maps.len() - i,
    {
        if maps[i].is_limit_exceeded() {
            assert(maps@[i as int].limit_exceeded());
            oversized = true;
        }
        i += 1;
    }
    if details.vault_details.too_many_assets || oversized {
        PublicAccountAction::AdoptPatch
    } else {
        PublicAccountAction::AdoptState
    }
}

/// The values of the value slots.
pub open spec fn value_slots(slots: Seq<StorageSlotHeader>) -> Seq<(SlotId, Word)>
    decreases slots.len(),
{
    if slots.len() == 0 {
        Seq::empty()
    } else {
        let rest = value_slots(slots.drop_last());
        if slots.last().slot_type == StorageSlotType::Value {
            rest.push((slots.last().slot_name, slots.last().value))
        } else {
            rest
        }
    }
}

/// Returns the values of the value slots.
fn value_slot_updates(slots: &Vec<StorageSlotHeader>) -> (values: Vec<(SlotId, Word)>)
    ensures
        values@ == value_slots(slots@),
{
    let mut values: Vec<(SlotId, Word)> = Vec::new();
    let mut i: usize = 0;
    while i < slots.len()
        invariant
            i <= slots.len(),
            values@ == value_slots(slots@.take(i as int)),
        decreases slots.len() - i,
    {
        assert(slots@.take(i + 1).drop_last() =~= slots@.take(i as int));
        assert(slots@.take(i + 1).last() == slots@[i as int]);
        if slots[i].slot_type == StorageSlotType::Value {
            values.push((slots[i].slot_name, slots[i].value));
        }
        i += 1;
    }
    assert(slots@.take(slots.len() as int) =~= slots@);
    values
}

/// Builds the update of an account that is too large for one answer, from its details and from what
/// changed of its maps and its vault since the last sync.
pub fn build_patch_update(
    details: &AccountDetails,
    map_entries: OrdMap<SlotId, Vec<StorageMapEntry>>,
    vault_patch: AccountVaultPatch,
) -> (update: Result<PublicAccountUpdate, AccountPatchError>)
    ensures
        ({
            let values = value_slots(details.storage_details.header@);
            let maps = map_entries.listing();
            let nonce = details.header.nonce;
            match update {
                Ok(PublicAccountUpdate::Patch { new_header, patch }) => {
                    &&& changes_distinct(values, maps) && nonce != 0
                    &&& new_header == details.header
                    &&& patch.id == details.header.id
                    &&& patch.final_nonce == nonce
                    &&& patch.vault == vault_patch
                    &&& match patch.code {
                        Some(code) => nonce == 1 && same_code(code, details.code),
                        None => nonce != 1,
                    }
                    &&& is_storage_patch(nonce == 1, values, maps, patch.storage@)
                },
                Ok(PublicAccountUpdate::Full(_)) => false,
                Err(AccountPatchError::RepeatedSlot { slot_name }) => {
                    &&& !changes_distinct(values, maps)
                    &&& is_repeated_slot(values, maps, slot_name)
                },
                Err(AccountPatchError::ZeroNonce) => changes_distinct(values, maps) && nonce == 0,
            }
        }),
{
    let values = value_slot_updates(&details.storage_details.header);
    match build_account_patch(
        &details.header,
        &values,
        map_entries,
        vault_patch,
        details.code.copy(),
    ) {
        Ok(patch) => Ok(PublicAccountUpdate::Patch { new_header: details.header, patch }),
        Err(error) => Err(error),
    }
}

/// Builds the update of an account whose whole state is in one answer.
pub fn build_full_update(details: &AccountDetails) -> (update: Result<
    PublicAccountUpdate,
    AccountResponseError,
>)
    ensures
        match update {
            Ok(PublicAccountUpdate::Full(account)) => account_problem(*details) is None
                && is_account_of(*details, account),
            Ok(PublicAccountUpdate::Patch { .. }) => false,
            Err(error) => account_problem(*details) == Some(error),
        },
{
    match Account::try_from_details(details) {
        Ok(account) => Ok(PublicAccountUpdate::Full(account)),
        Err(error) => Err(error),
    }
}

// FOLDING
// ================================================================================================
/// What came of syncing a public account.
#[derive(Debug)]
pub enum PublicAccountSync {
    /// The state of the network is adopted.
    Apply(PublicAccountUpdate),
    /// The local state has lost against another one with the same nonce.
    Superseded,
    /// Nothing changes.
    Ignore,
}

/// The updates among what came of syncing public accounts, in order.
pub open spec fn applied(synced: Seq<PublicAccountSync>) -> Seq<PublicAccountUpdate>
    decreases synced.len(),
{
    if synced.len() == 0 {
        Seq::empty()
    } else {
        let rest = applied(synced.drop_last());
        match synced.last() {
            PublicAccountSync::Apply(update) => rest.push(update),
            _ => rest,
        }
    }
}

/// The commitments to the local states that have lost, in order.
pub open spec fn superseded(headers: Seq<AccountHeader>, synced: Seq<PublicAccountSync>) -> Seq<Word>
    decreases synced.len(),
{
    if synced.len() == 0 {
        Seq::empty()
    } else {
        let rest = superseded(headers.drop_last(), synced.drop_last());
        if synced.last() is Superseded && header_commitment_of(headers.last()) is Some {
            rest.push(header_commitment_of(headers.last())->0)
        } else {
            rest
        }
    }
}

/// Takes what came of syncing the diverging public accounts into the updates, in the order in which
/// the accounts were reported, and returns the commitments to the local states that have lost. The
/// transactions that produced these are to be discarded.
pub fn fold_public_accounts(
    account_updates: &mut AccountUpdates,
    diverging: &Vec<AccountHeader>,
    synced: Vec<PublicAccountSync>,
) -> (superseded_states: Vec<Word>)
    requires
        diverging@.len() == synced@.len(),
    ensures
        final(account_updates).updated_public_accounts@ == old(account_updates).updated_public_accounts@ + applied(synced@),
        final(account_updates).mismatched_private_accounts@ == old(account_updates).mismatched_private_accounts@,
        superseded_states@ == superseded(diverging@, synced@),
{
    let ghost all = synced@;
    let mut superseded_states: Vec<Word> = Vec::new();
    let mut i: usize = 0;
    for outcome in iter: synced
        invariant
            iter.seq() == all,
            i == iter.index(),
            diverging@.len() == all.len(),
            account_updates.updated_public_accounts@ == old(account_updates).updated_public_accounts@ + applied(all.take(i as int)),
            account_updates.mismatched_private_accounts@ == old(account_updates).mismatched_private_accounts@,
            superseded_states@ == superseded(diverging@.take(i as int), all.take(i as int)),
    {
        proof {
            assert(all.take(i + 1).drop_last() =~= all.take(i as int));
            assert(all.take(i + 1).last() == all[i as int]);
            assert(diverging@.take(i + 1).drop_last() =~= diverging@.take(i as int));
            assert(diverging@.take(i + 1).last() == diverging@[i as int]);
        }
        match outcome {
            PublicAccountSync::Apply(update) => {
                let mut updates: Vec<PublicAccountUpdate> = Vec::new();
                updates.push(update);
                account_updates.extend(AccountUpdates::new(updates, Vec::new()));
            },
            PublicAccountSync::Superseded => {
                if let Some(commitment) = header_commitment(&diverging[i]) {
                    superseded_states.push(commitment);
                }
            },
            PublicAccountSync::Ignore => {},
        }
        assert(i < diverging.len());
        i += 1;
    }
    assert(all.take(all.len() as int) =~= all);
    assert(diverging@.take(diverging@.len() as int) =~= diverging@);
    superseded_states
}

/// The accounts with a proven commitment, with it, in order.
pub open spec fn mismatched(headers: Seq<AccountHeader>, proven: Seq<Option<Word>>) -> Seq<
    (AccountId, Word),
>
    decreases proven.len(),
{
    if proven.len() == 0 {
        Seq::empty()
    } else {
        let rest = mismatched(headers.drop_last(), proven.drop_last());
        match proven.last() {
            Some(commitment) => rest.push((headers.last().id, commitment)),
            None => rest,
        }
    }
}

/// Takes the private accounts whose mismatch was proven into the updates.
pub fn fold_private_accounts(
    account_updates: &mut AccountUpdates,
    diverging: &Vec<AccountHeader>,
    proven_commitments: &Vec<Option<Word>>,
)
    requires
        diverging@.len() == proven_commitments@.len(),
    ensures
        final(account_updates).updated_public_accounts@ == old(account_updates).updated_public_accounts@,
        final(account_updates).mismatched_private_accounts@ == old(account_updates).mismatched_private_accounts@ + mismatched(diverging@, proven_commitments@),
{
    let mut accounts: Vec<(AccountId, Word)> = Vec::new();
    let ghost all = proven_commitments@;
    let mut i: usize = 0;
    while i < proven_commitments.len()
        invariant
            i <= proven_commitments.len(),
            all == proven_commitments@,
            diverging@.len() == all.len(),
            accounts@ == mismatched(diverging@.take(i as int), all.take(i as int)),
        decreases proven_commitments.len() - i,
    {
        proof {
            assert(all.take(i + 1).drop_last() =~= all.take(i as int));
            assert(all.take(i + 1).last() == all[i as int]);
            assert(diverging@.take(i + 1).drop_last() =~= diverging@.take(i as int));
            assert(diverging@.take(i + 1).last() == diverging@[i as int]);
        }
        if let Some(commitment) = proven_commitments[i] {
            accounts.push((diverging[i].id, commitment));
        }
        i += 1;
    }
    assert(all.take(all.len() as int) =~= all);
    assert(diverging@.take(diverging@.len() as int) =~= diverging@);
    account_updates.extend(AccountUpdates::new(Vec::new(), accounts));
}

// LAWS
// ================================================================================================
/// The state of a public account is only replaced by one with a higher nonce.
pub proof fn law_adopted_state_is_newer(details: AccountDetails, local_nonce: u64)
    requires
        public_action(details, local_nonce) == PublicAccountAction::AdoptState || public_action(
            details,
            local_nonce,
        ) == PublicAccountAction::AdoptPatch,
    ensures
        details.header.nonce > local_nonce,
{
}

/// An answer that holds the whole state can be adopted unless its parts are missing or invalid: it
/// is never refused for its size.
pub proof fn law_adopted_state_fits(details: AccountDetails, local_nonce: u64)
    requires
        public_action(details, local_nonce) == PublicAccountAction::AdoptState,
    ensures
        account_problem(details) matches Some(error) ==> !(error is VaultTooLarge) && !(
        error is MapTooLarge),
{
    let maps = details.storage_details.map_details@;
    let problems = oversize_problems(maps);
    lemma_first_some_none(problems);
    assert forall|i: int| 0 <= i < problems.len() implies (#[trigger] problems[i]) is None by {
        if maps[i].limit_exceeded() {
            assert(any_map_oversized(maps));
        }
    }
    let slots = details.storage_details.header@;
    let others = slot_problems(maps, slots);
    lemma_first_some_is_one(others);
}

/// A private account is reported as mismatched only if the state on the network was proven under
/// the account root of the synced block, and is another than the local one.
pub proof fn law_mismatch_is_proven(
    account_id: AccountId,
    local_commitment: Word,
    tip: BlockHeader,
    proof_block_num: BlockNumber,
    answer: AccountProof,
    commitment: Word,
)
    requires
        private_mismatch(account_id, local_commitment, tip, proof_block_num, answer) == Ok::<_, SyncError>(
            Some(commitment),
        ),
    ensures
        proof_block_num == tip.block_num,
        answer.account_witness.id == account_id,
        answer.account_witness.state_commitment == commitment,
        answer.account_witness.opens_under(tip.account_root),
        commitment != local_commitment,
        commitment != Word::spec_empty(),
{
}

} // verus!
