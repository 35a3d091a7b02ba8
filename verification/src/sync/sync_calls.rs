//! What the steps of a sync return, stated of their calls.
use miden_protocol::crypto::merkle::mmr::PartialMmr;
use vstd::prelude::*;

use crate::errors::SyncError;
use crate::mmr::{mmr_leaves, InOrderIndex};
use crate::rpc::domain::account::{witness_root_of, AccountHeader};
use crate::rpc::domain::account_proof::{
    AccountDetails, AccountProof, AccountStateAt, GetAccountRequest,
};
use crate::rpc::domain::note::{CommittedNote, SyncNotesBlock};
use crate::rpc::domain::sync::ChainMmrInfo;
use crate::rpc::domain::transaction::TransactionRecord;
use crate::rpc::rpc_laws::law_nullifier_prefix;
use crate::store::{InputNoteRecord, InputNoteState};
use crate::sync::account_laws::{law_higher_nonce_wins, law_public_proof_accepted};
use crate::sync::account_sync::{
    classify_public_account, private_account_request, public_account_request,
    validate_account_proof, PublicAccountAction,
};
use crate::sync::block_header::authenticated_block_nodes;
use crate::sync::chain_laws::{
    law_chain_answer, law_in_order, law_note_blocks_in_range, law_transactions_in_range,
};
use crate::sync::chain_sync::{
    block_num_from_forest, plan_fetch, validate_chain_mmr_response, validate_fetched, FetchPlan,
};
use crate::sync::note_laws::law_verdict;
use crate::sync::note_sync::{
    nullifier_request, public_note_record, NoteBlockRelevance, NoteOutcome, NoteVerdict,
    NullifierRequest, PublicDetails,
};
use crate::sync::state_sync::{FetchedSyncData, StateSyncUpdate, SyncSummary};
use crate::types::{AccountId, BlockHeader, BlockNumber, NoteId, Nullifier, Word};

verus! {

// CHAIN
// ================================================================================================
/// An answer about the chain is accepted if and only if it starts where the client is, leads to the block
/// of its header, does not lead back, and its header is signed.
pub proof fn law_checked_chain_answer(
    info: ChainMmrInfo,
    current: BlockNumber,
    signatures_valid: bool,
    checked: Result<(), SyncError>,
)
    requires
        call_ensures(validate_chain_mmr_response, (&info, current, signatures_valid), checked),
    ensures
        checked is Ok <==> info.block_from == current && info.block_to
            == info.block_header.block_num && info.block_to >= current && signatures_valid,
{
    law_chain_answer(info, current, signatures_valid);
}

/// Nothing is fetched if and only if the client is at the tip; otherwise every block after the current
/// one and up to the tip is asked for, and no other.
pub proof fn law_fetch_plan(
    info: ChainMmrInfo,
    current: BlockNumber,
    signatures_valid: bool,
    has_note_tags: bool,
    has_accounts: bool,
    plan: Result<FetchPlan, SyncError>,
    block_num: BlockNumber,
)
    requires
        call_ensures(
            plan_fetch,
            (&info, current, signatures_valid, has_note_tags, has_accounts),
            plan,
        ),
    ensures
        plan is Ok <==> info.block_from == current && info.block_to == info.block_header.block_num
            && info.block_to >= current && signatures_valid,
        plan == Ok::<_, SyncError>(FetchPlan::AtChainTip) ==> info.block_to == current,
        plan matches Ok(FetchPlan::Fetch { block_from, block_to, notes, transactions }) ==> {
            &&& block_from <= block_num <= block_to <==> block_num > current && block_num
                <= info.block_to
            &&& block_from <= block_to
            &&& notes == has_note_tags
            &&& transactions == has_accounts
        },
{
    law_chain_answer(info, current, signatures_valid);
}

/// What was fetched is accepted if and only if every note block and every transaction lies after the
/// current block and not after the tip.
pub proof fn law_checked_fetch(
    note_blocks: Vec<SyncNotesBlock>,
    transactions: Vec<TransactionRecord>,
    current: BlockNumber,
    chain_tip: BlockNumber,
    checked: Result<(), SyncError>,
)
    requires
        call_ensures(validate_fetched, (&note_blocks, &transactions, current, chain_tip), checked),
    ensures
        checked is Ok <==> (forall|i: int|
            0 <= i < note_blocks@.len() ==> current < (
            #[trigger] note_blocks@[i]).block_header.block_num <= chain_tip) && (forall|i: int|
            0 <= i < transactions@.len() ==> current < (#[trigger] transactions@[i]).block_num
                <= chain_tip),
{
    law_note_blocks_in_range(note_blocks@, current, chain_tip);
    law_transactions_in_range(transactions@, current, chain_tip);
    if forall|i: int|
        0 <= i < note_blocks@.len() ==> current < (
        #[trigger] note_blocks@[i]).block_header.block_num <= chain_tip {
        assert forall|i: int| 0 <= i < note_blocks@.len() implies (
        #[trigger] note_blocks@[i]).block_header.block_num > current
            && note_blocks@[i].block_header.block_num <= chain_tip by {}
    }
    if forall|i: int|
        0 <= i < transactions@.len() ==> current < (#[trigger] transactions@[i]).block_num
            <= chain_tip {
        assert forall|i: int| 0 <= i < transactions@.len() implies (
        #[trigger] transactions@[i]).block_num > current && transactions@[i].block_num
            <= chain_tip by {}
    }
}

/// The last block is that of the last leaf.
pub proof fn law_last_block(mmr: PartialMmr, block_num: Result<BlockNumber, SyncError>)
    requires
        call_ensures(block_num_from_forest, (&mmr,), block_num),
        mmr_leaves(mmr) <= u32::MAX,
    ensures
        block_num is Ok,
        mmr_leaves(mmr) > 0 ==> block_num->Ok_0 + 1 == mmr_leaves(mmr),
        mmr_leaves(mmr) == 0 ==> block_num->Ok_0 == 0,
{
}

/// A header is stored with its leaf first, and then with its path as it is.
pub proof fn law_stored_nodes(
    header: BlockHeader,
    path: Vec<(InOrderIndex, Word)>,
    nodes: Vec<(InOrderIndex, Word)>,
)
    requires
        call_ensures(authenticated_block_nodes, (&header, path), nodes),
    ensures
        nodes@.len() == path@.len() + 1,
        nodes@[0].0 == 2 * header.block_num + 1,
        nodes@[0].1 == header.commitment,
        nodes@.skip(1) == path@,
{
    law_in_order(0, header.block_num as nat);
    assert(nodes@.skip(1) =~= path@);
}

// ACCOUNTS
// ================================================================================================
/// The state of an account is asked for at the tip: of a private account the proof alone, of a public one
/// all of it.
pub proof fn law_account_requests(
    tip: BlockHeader,
    private: GetAccountRequest,
    public: GetAccountRequest,
)
    requires
        call_ensures(private_account_request, (&tip,), private),
        call_ensures(public_account_request, (&tip,), public),
    ensures
        private.at == AccountStateAt::Block(tip.block_num),
        public.at == AccountStateAt::Block(tip.block_num),
        private.storage is Skip && private.vault is Skip,
        public.storage is All && public.vault is Always,
        private.known_code is None && public.known_code is None,
{
}

/// The proof of a public account is accepted if and only if it is for the tip, of the account, under the
/// root of the tip, and with details, which are returned.
pub proof fn law_checked_account_proof(
    answer: AccountProof,
    proof_block_num: BlockNumber,
    account_id: AccountId,
    tip: BlockHeader,
    details: Result<AccountDetails, SyncError>,
)
    requires
        call_ensures(validate_account_proof, (answer, proof_block_num, account_id, &tip), details),
    ensures
        details is Ok <==> proof_block_num == tip.block_num && answer.account_witness.id
            == account_id && answer.account_witness.path@.len() == 64
            && witness_root_of(
            answer.account_witness.id,
            answer.account_witness.state_commitment,
            answer.account_witness.path@,
        ) == Some(tip.account_root) && answer.state_headers is Some,
        details matches Ok(found) ==> answer.state_headers == Some(found),
{
    law_public_proof_accepted(answer, proof_block_num, account_id, tip);
}

/// A state is adopted if and only if its nonce is higher than the local one.
pub proof fn law_classified_account(
    details: AccountDetails,
    local: AccountHeader,
    action: PublicAccountAction,
)
    requires
        call_ensures(classify_public_account, (&details, &local), action),
    ensures
        action is AdoptState || action is AdoptPatch <==> details.header.nonce > local.nonce,
        action is Superseded <==> details.header.nonce == local.nonce,
        action is AdoptPatch ==> details.vault_details.too_many_assets || exists|i: int|
            0 <= i < details.storage_details.map_details@.len() && (
            #[trigger] details.storage_details.map_details@[i]).entries is LimitExceeded,
{
    law_higher_nonce_wins(details, local.nonce);
}

// NOTES
// ================================================================================================
/// The record of a public note has what is known of the note, and a proof that was not checked; there is
/// none for a private note.
pub proof fn law_public_note_record(
    note: CommittedNote,
    details: Option<PublicDetails>,
    record: Option<InputNoteRecord>,
)
    requires
        call_ensures(public_note_record, (&note, details), record),
    ensures
        record is Some <==> details is Some,
        record matches Some(made) ==> made.note_id == Some(note.note_id) && made.nullifier == Some(
            details->0.nullifier,
        ) && made.details_commitment == details->0.details_commitment && made.inclusion_block
            == Some(note.inclusion_proof.block_num) && made.state == InputNoteState::Unverified,
{
}

/// A block matters if any of its notes does, wherever the note stands: to the client because the note was
/// stored or is an input note, or to an observer, whichever it is.
pub proof fn law_relevance_of_notes(
    notes: Vec<NoteVerdict>,
    relevance: NoteBlockRelevance,
    i: int,
    k: int,
)
    requires
        call_ensures(NoteBlockRelevance::of_notes, (&notes,), relevance),
    ensures
        0 <= i < notes@.len() && (notes@[i].outcome is Inserted || notes@[i].outcome == (
        NoteOutcome::Committed { is_input_note: true })) ==> relevance.has_client_note,
        0 <= i < notes@.len() && 0 <= k < notes@[i].observers@.len() && notes@[i].observers@[k]
            == Some(true) ==> relevance.observer_requires_block,
        relevance.has_client_note ==> exists|j: int|
            0 <= j < notes@.len() && ((#[trigger] notes@[j]).outcome is Inserted
                || notes@[j].outcome == (NoteOutcome::Committed { is_input_note: true })),
        relevance.observer_requires_block ==> exists|j: int|
            0 <= j < notes@.len() && (#[trigger] notes@[j]).observers@.contains(Some(true)),
{
    if 0 <= i < notes@.len() {
        law_verdict(notes@[i], k);
        assert(notes@[i].outcome is Inserted ==> notes@[i].is_client_note());
        assert(notes@[i].is_client_note() ==> relevance.has_client_note);
        assert(notes@[i].is_required() ==> relevance.observer_requires_block);
    }
    if relevance.has_client_note {
        let j = choose|j: int| 0 <= j < notes@.len() && (#[trigger] notes@[j]).is_client_note();
        law_verdict(notes@[j], 0);
        assert(notes@[j].outcome is Inserted || notes@[j].outcome == (NoteOutcome::Committed {
            is_input_note: true,
        }));
    }
    if relevance.observer_requires_block {
        let j = choose|j: int| 0 <= j < notes@.len() && (#[trigger] notes@[j]).is_required();
        law_verdict(notes@[j], 0);
        assert(notes@[j].observers@.contains(Some(true)));
    }
}

/// The nullifiers of all unspent notes are asked for, by their sixteen most significant bits, in every
/// block after the current one up to the tip.
pub proof fn law_nullifier_request(
    unspent: Vec<Nullifier>,
    current: BlockNumber,
    chain_tip: BlockNumber,
    request: NullifierRequest,
    i: int,
    block_num: BlockNumber,
)
    requires
        current < chain_tip,
        call_ensures(nullifier_request, (&unspent, current, chain_tip), request),
    ensures
        request.prefixes@.len() == unspent@.len(),
        0 <= i < unspent@.len() ==> request.prefixes@[i] == unspent@[i].e3 / 0x1_0000_0000_0000,
        request.block_from <= block_num <= request.block_to <==> current < block_num <= chain_tip,
{
    if 0 <= i < unspent@.len() {
        law_nullifier_prefix(unspent@[i]);
    }
}

/// What is fetched is passed on as it came, if all of it lies in the range.
pub proof fn law_fetched_data(
    info: ChainMmrInfo,
    note_blocks: Vec<SyncNotesBlock>,
    transactions: Vec<TransactionRecord>,
    current: BlockNumber,
    data: Result<FetchedSyncData, SyncError>,
)
    requires
        call_ensures(FetchedSyncData::new, (info, note_blocks, transactions, current), data),
    ensures
        data matches Ok(found) ==> {
            &&& found.mmr_delta == info.mmr_delta
            &&& found.chain_tip_header == info.block_header
            &&& found.note_blocks == note_blocks
            &&& found.transactions == transactions
            &&& found.protocol_config == info.protocol_config
            &&& forall|i: int|
                0 <= i < note_blocks@.len() ==> current < (
                #[trigger] note_blocks@[i]).block_header.block_num <= info.block_to
            &&& forall|i: int|
                0 <= i < transactions@.len() ==> current < (#[trigger] transactions@[i]).block_num
                    <= info.block_to
        },
{
    law_note_blocks_in_range(note_blocks@, current, info.block_to);
    law_transactions_in_range(transactions@, current, info.block_to);
}

/// A summary names the block, every account that was updated or does not match, and every note that was
/// consumed.
pub proof fn law_summary(update: StateSyncUpdate, summary: SyncSummary, note_id: NoteId, i: int)
    requires
        call_ensures(SyncSummary::from_update, (&update,), summary),
    ensures
        summary.block_num == update.block_num,
        summary.updated_accounts@.len() == update.account_updates.updated_public_accounts@.len(),
        0 <= i < update.account_updates.updated_public_accounts@.len()
            ==> summary.updated_accounts@[i]
            == update.account_updates.updated_public_accounts@[i].account_id(),
        summary.locked_accounts@.len()
            == update.account_updates.mismatched_private_accounts@.len(),
        0 <= i < update.account_updates.mismatched_private_accounts@.len()
            ==> summary.locked_accounts@[i]
            == update.account_updates.mismatched_private_accounts@[i].0,
        summary.consumed_notes@.contains(note_id)
            <==> update.note_updates.consumed_input_note_ids@.contains(note_id),
        summary.new_private_notes@.len() == 0,
{
    let consumed = update.note_updates.consumed_input_note_ids@;
    assert(summary.consumed_notes@.contains(note_id) <==> consumed.to_set().contains(note_id));
}

} // verus!
