//! What talking to a node returns, stated of the calls.
use vstd::prelude::*;

use crate::account::is_private_of;
use crate::collections::{law_present, picks};
use crate::mmr::max_leaves;
use crate::note::retrieval::{find_by_id_prefix, has_id_prefix, IdPrefixFetchError};
use crate::protocol_config::{load_protocol_config, word_hex_of, ProtocolConfigError};
use crate::rpc::domain::account_proof::{
    AccountProof, AccountStateAt, GetAccountRequest, VaultFetch,
};
use crate::rpc::domain::note::{FetchedNote, NoteScript, NullifierUpdate, SyncNotesBlock};
use crate::rpc::domain::sync::{ChainMmrInfo, ChainMmrMessage, ProtocolConfig};
use crate::rpc::domain::transaction::TransactionRecord;
use crate::rpc::errors::rpc_error::RpcError;
use crate::rpc::grpc_client::{
    account_request, check_block_response, read_block_header_answer, read_encryption_key,
    AccountRequestContext, AccountRequestMessage, AttestedTransactionEncryptionKey,
    BlockHeaderAnswer, EncryptionKeyMessage, MmrProof, SignedBlock,
};
use crate::rpc::rpc_laws::{
    law_missing_part, law_tags_of_blocks, law_unrequested, law_what_is_checked,
};
use crate::rpc::verifying_client::{
    accounts_of, ids_of_notes, prefixes_of, tags_of_blocks, verify_account, verify_account_ids,
    verify_block_num, verify_note_ids, verify_note_script_root, verify_note_tags,
    verify_nullifier_prefixes,
};
use crate::store::InputNoteRecord;
use crate::text_laws::law_id_prefix;
use crate::types::{AccountId, BlockHeader, BlockNumber, NoteId, NoteTag, Word};

verus! {

// CHECKED ANSWERS
// ================================================================================================
/// A block is accepted if and only if it is the one that was requested, or none in particular was.
pub proof fn law_checked_block(
    requested: Option<BlockNumber>,
    returned: BlockNumber,
    checked: Result<(), RpcError>,
)
    requires
        call_ensures(verify_block_num, (requested, returned), checked),
    ensures
        checked is Ok <==> requested is None || requested == Some(returned),
{
}

/// Notes are accepted if and only if the id of each was requested.
pub proof fn law_checked_notes(
    requested: Vec<NoteId>,
    notes: Vec<FetchedNote>,
    checked: Result<(), RpcError>,
)
    requires
        call_ensures(verify_note_ids, (&requested, &notes), checked),
    ensures
        checked is Ok <==> forall|i: int|
            0 <= i < notes@.len() ==> match #[trigger] notes@[i] {
                FetchedNote::Public { note_id, .. } => requested@.contains(note_id),
                FetchedNote::Private { note_id, .. } => requested@.contains(note_id),
            },
{
    let ids = ids_of_notes(notes@);
    law_unrequested(requested@, ids);
    assert forall|i: int| 0 <= i < notes@.len() implies #[trigger] ids[i] == (match notes@[i] {
        FetchedNote::Public { note_id, .. } => note_id,
        FetchedNote::Private { note_id, .. } => note_id,
    }) by {
        law_what_is_checked(notes@, Seq::empty(), Seq::empty(), i);
    }
    law_what_is_checked(notes@, Seq::empty(), Seq::empty(), 0);
    if checked is Ok {
        assert forall|i: int| 0 <= i < notes@.len() implies match #[trigger] notes@[i] {
            FetchedNote::Public { note_id, .. } => requested@.contains(note_id),
            FetchedNote::Private { note_id, .. } => requested@.contains(note_id),
        } by {
            assert(requested@.contains(ids[i]));
        }
    }
}

/// Note blocks are accepted if and only if the tag of each note in each of them was requested.
pub proof fn law_checked_tags(
    requested: Vec<NoteTag>,
    blocks: Vec<SyncNotesBlock>,
    checked: Result<(), RpcError>,
)
    requires
        call_ensures(verify_note_tags, (&requested, &blocks), checked),
    ensures
        checked is Ok <==> forall|b: int, n: int|
            #![trigger blocks@[b].notes.listing()[n]]
            0 <= b < blocks@.len() && 0 <= n < blocks@[b].notes.listing().len()
                ==> requested@.contains(blocks@[b].notes.listing()[n].1.metadata.tag),
{
    let tags = tags_of_blocks(blocks@);
    law_unrequested(requested@, tags);
    if checked is Ok {
        assert forall|b: int, n: int|
            #![trigger blocks@[b].notes.listing()[n]]
            0 <= b < blocks@.len() && 0 <= n
                < blocks@[b].notes.listing().len() implies requested@.contains(
            blocks@[b].notes.listing()[n].1.metadata.tag,
        ) by {
            let tag = blocks@[b].notes.listing()[n].1.metadata.tag;
            law_tags_of_blocks(blocks@, tag);
            assert(tags.contains(tag));
            let k = choose|k: int| 0 <= k < tags.len() && tags[k] == tag;
            assert(requested@.contains(tags[k]));
        }
    } else {
        let k = choose|k: int| 0 <= k < tags.len() && !requested@.contains(#[trigger] tags[k]);
        assert(tags.contains(tags[k]));
        law_tags_of_blocks(blocks@, tags[k]);
        let (b, n) = choose|b: int, n: int|
            #![trigger blocks@[b].notes.listing()[n]]
            0 <= b < blocks@.len() && 0 <= n < blocks@[b].notes.listing().len()
                && blocks@[b].notes.listing()[n].1.metadata.tag == tags[k];
        assert(!requested@.contains(blocks@[b].notes.listing()[n].1.metadata.tag));
    }
}

/// Nullifiers are accepted if and only if the prefix of each was requested, and transactions if and only
/// if the account of each was.
pub proof fn law_checked_nullifiers_and_accounts(
    prefixes: Vec<u16>,
    batch: Vec<NullifierUpdate>,
    nullifiers_checked: Result<(), RpcError>,
    accounts: Vec<AccountId>,
    records: Vec<TransactionRecord>,
    records_checked: Result<(), RpcError>,
)
    requires
        call_ensures(verify_nullifier_prefixes, (&prefixes, &batch), nullifiers_checked),
        call_ensures(verify_account_ids, (&accounts, &records), records_checked),
    ensures
        nullifiers_checked is Ok <==> forall|i: int|
            0 <= i < batch@.len() ==> prefixes@.contains(
                ((#[trigger] batch@[i]).nullifier.e3 / 0x1_0000_0000_0000) as u16,
            ),
        records_checked is Ok <==> forall|i: int|
            0 <= i < records@.len() ==> accounts@.contains(
                (#[trigger] records@[i]).transaction_header.account_id,
            ),
{
    let found = prefixes_of(batch@);
    let ids = accounts_of(records@);
    law_unrequested(prefixes@, found);
    law_unrequested(accounts@, ids);
    law_what_is_checked(Seq::empty(), batch@, records@, 0);
    assert forall|i: int| 0 <= i < batch@.len() implies #[trigger] found[i] == (
    batch@[i].nullifier.e3 / 0x1_0000_0000_0000) as u16 by {
        law_what_is_checked(Seq::empty(), batch@, records@, i);
    }
    assert forall|i: int| 0 <= i < records@.len() implies #[trigger] ids[i]
        == records@[i].transaction_header.account_id by {
        law_what_is_checked(Seq::empty(), batch@, records@, i);
    }
    if nullifiers_checked is Ok {
        assert forall|i: int| 0 <= i < batch@.len() implies prefixes@.contains(
            ((#[trigger] batch@[i]).nullifier.e3 / 0x1_0000_0000_0000) as u16,
        ) by {
            assert(prefixes@.contains(found[i]));
        }
    }
    if records_checked is Ok {
        assert forall|i: int| 0 <= i < records@.len() implies accounts@.contains(
            (#[trigger] records@[i]).transaction_header.account_id,
        ) by {
            assert(accounts@.contains(ids[i]));
        }
    }
}

/// A script is accepted if and only if it has the root that was requested; an account if and only if it
/// is the one that was requested, at the block that was requested, if one was.
pub proof fn law_checked_script_and_account(
    root: Word,
    script: NoteScript,
    script_checked: Result<(), RpcError>,
    account_id: AccountId,
    at: AccountStateAt,
    block_num: BlockNumber,
    account_proof: AccountProof,
    account_checked: Result<(), RpcError>,
)
    requires
        call_ensures(verify_note_script_root, (root, &script), script_checked),
        call_ensures(verify_account, (account_id, at, block_num, &account_proof), account_checked),
    ensures
        script_checked is Ok <==> script.root == root,
        account_checked is Ok <==> account_proof.account_witness.id == account_id && (at is ChainTip
            || at == AccountStateAt::Block(block_num)),
{
}

// REQUESTS AND ANSWERS
// ================================================================================================
/// An account is asked for by its id and at the block that was asked for. Details are asked for if and
/// only if it is not private.
pub proof fn law_account_request(
    account_id: AccountId,
    request: GetAccountRequest,
    made: (AccountRequestMessage, AccountRequestContext),
)
    requires
        call_ensures(account_request, (account_id, request), made),
    ensures
        made.0.account_id == account_id,
        request.at is ChainTip <==> made.0.block_num is None,
        request.at matches AccountStateAt::Block(block_num) ==> made.0.block_num == Some(block_num),
        made.0.details is None <==> is_private_of(account_id),
        made.0.details matches Some(details) ==> {
            &&& details.asset_vault_commitment is None <==> request.vault is Skip
            &&& request.vault matches VaultFetch::IfChangedFrom(root)
                ==> details.asset_vault_commitment == Some(root)
            &&& request.known_code matches Some(code) ==> details.code_commitment == code.commitment
        },
{
}

/// A header is returned if it came, with a proof if and only if one was asked for; the proof is of the
/// header, in a range that is not too large.
pub proof fn law_block_header_answer(
    answer: BlockHeaderAnswer,
    include_mmr_proof: bool,
    read: Result<(BlockHeader, Option<MmrProof>), RpcError>,
)
    requires
        call_ensures(read_block_header_answer, (answer, include_mmr_proof), read),
    ensures
        read is Ok <==> answer.block_header is Some && (!include_mmr_proof || (
        answer.chain_length is Some && answer.mmr_path is Some && answer.chain_length->0
            <= max_leaves())),
        read matches Ok((header, proven)) ==> {
            &&& answer.block_header == Some(header)
            &&& proven is Some <==> include_mmr_proof
            &&& proven matches Some(made) ==> made.position == header.block_num && made.leaf
                == header.commitment && made.forest as int == answer.chain_length->0
                && answer.mmr_path == Some(made.path)
        },
{
}

/// A block is returned as it came; it is refused if it is missing, or if its proof cannot be read.
pub proof fn law_block_answer(
    block: Option<SignedBlock>,
    block_proof: Option<Vec<u8>>,
    proof_is_readable: bool,
    read: Result<(SignedBlock, Option<Vec<u8>>), RpcError>,
)
    requires
        call_ensures(check_block_response, (block, block_proof, proof_is_readable), read),
    ensures
        read is Ok <==> block is Some && (block_proof is None || proof_is_readable),
        read matches Ok((found, sent)) ==> block == Some(found) && sent == block_proof,
{
}

/// A key is accepted if and only if no scheme is negative; the attestations that came are kept, in order.
pub proof fn law_encryption_key(
    message: EncryptionKeyMessage,
    read: Result<AttestedTransactionEncryptionKey, RpcError>,
)
    requires
        call_ensures(read_encryption_key, (message,), read),
    ensures
        read is Ok <==> message.scheme >= 0 && (message.next_key is None
            || message.next_key->0.scheme >= 0),
        read matches Ok(key) ==> {
            &&& key.scheme as int == message.scheme
            &&& key.key_id == message.key_id
            &&& key.public_key == message.public_key
            &&& key.next_key is Some <==> message.next_key is Some
            &&& key.next_key matches Some(next) ==> next.rotation_block_num
                == message.next_key->0.rotation_block_num && next.key_id
                == message.next_key->0.key_id && next.public_key == message.next_key->0.public_key
            &&& picks(
                key.attestations@,
                message.attestations@.len() as int,
                |i: int| message.attestations@[i] is Some,
                |i: int| message.attestations@[i]->0,
            )
        },
{
    law_present(message.attestations@);
}

/// An answer about the chain is read if and only if it has a range, a delta and a header, and a
/// configuration that came is the one that the header commits to.
pub proof fn law_chain_message(message: ChainMmrMessage, info: Result<ChainMmrInfo, RpcError>)
    requires
        call_ensures(ChainMmrInfo::try_from_message, (message,), info),
    ensures
        info is Ok <==> message.block_range is Some && message.mmr_delta is Some
            && message.block_header is Some && (message.protocol_config is None
            || message.protocol_config->0.commitment
            == message.block_header->0.protocol_config_commitment),
        info matches Ok(found) ==> {
            &&& message.block_range->0.block_from == found.block_from
            &&& message.block_range->0.block_to == found.block_to
            &&& message.mmr_delta == Some(found.mmr_delta)
            &&& message.block_header == Some(found.block_header)
            &&& found.protocol_config == message.protocol_config
            &&& found.block_signatures == message.block_signatures
        },
{
    law_missing_part(message);
}

/// A configuration is loaded if and only if one is stored that has the commitment.
pub proof fn law_loaded_config(
    commitment: Word,
    stored: Option<Option<ProtocolConfig>>,
    config: Result<ProtocolConfig, ProtocolConfigError>,
)
    requires
        call_ensures(load_protocol_config, (commitment, stored), config),
    ensures
        config is Ok <==> stored is Some && stored->0 is Some && stored->0->0.commitment
            == commitment,
        config matches Ok(found) ==> stored == Some(Some(found)),
        stored is None <==> config == Err::<ProtocolConfig, _>(
            ProtocolConfigError::NotFound(commitment),
        ),
{
}

/// A note is found by a prefix if and only if the text of exactly one id starts with it.
pub proof fn law_found_by_prefix(
    records: Vec<InputNoteRecord>,
    prefix: &str,
    found: Result<usize, IdPrefixFetchError>,
    k: int,
)
    requires
        call_ensures(find_by_id_prefix, (&records, prefix), found),
        0 <= k < records@.len(),
        records@[k].note_id matches Some(id) && prefix@.is_prefix_of(word_hex_of(id)),
    ensures
        found matches Ok(i) ==> i == k,
        !(found matches Err(IdPrefixFetchError::NoMatch(_))),
{
    law_id_prefix(records@[k], prefix@);
    assert(has_id_prefix(records@[k], prefix@));
}

} // verus!
