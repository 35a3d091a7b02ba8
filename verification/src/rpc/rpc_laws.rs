//! What talking to a node comes to, over all answers and all failures.
use vstd::prelude::*;

use crate::collections::{first_some, law_first_some, lists_set, OrdKey};
use crate::rpc::domain::account::AccountResponseError;
use crate::rpc::domain::account_proof::{
    message_read, proof_problem, AccountDetails, AccountDetailsMessage, AccountProof,
    AccountWitness, GetAccountRequest, StorageMapFetch,
};
use crate::rpc::domain::note::{
    prefix_of, FetchedNote, NullifierUpdate, SyncNotesBlock,
};
use crate::rpc::domain::sync::{missing_part, ChainMmrMessage};
use crate::rpc::domain::transaction::TransactionRecord;
use crate::rpc::endpoint::RpcEndpoint;
use crate::rpc::errors::node::{
    has_codes, is_coded, is_error_of, AddTransactionError, CodedError, EndpointError,
    GetAccountError, RegisterAccountError,
};
use crate::rpc::errors::rpc_error::{
    is_status_error, GrpcError, NodeStatus, PaginationError, RpcError,
};
use crate::rpc::grpc_client::{
    added, all_added, block_view, blocks_view, is_context_of, is_header_text, is_invalid, is_missing,
    is_page_added, proof_made, public_account_read, with_genesis, AccountRequestContext, GrpcClient,
    NotesBlockView,
};
use crate::rpc::paged_requests::{after_page, refused, step, PageError, PageInfo};
use crate::rpc::pagination::{target_block, BlockPagination, PaginationResult};
use crate::rpc::retry::{delay_of, retries_after, retry_after_of, retryable, RetryState};
use crate::rpc::verifying_client::{
    accounts_of, ids_of_notes, is_refused, is_unrequested, prefixes_of, tags_of_block,
    tags_of_blocks, texts_of, unrequested, RequestKey,
};
use crate::text::{joined, number_of};
use crate::types::{BlockNumber, NoteId, NoteTag, Nullifier, Word};

verus! {

// ANSWERS
// ================================================================================================
/// An answer about the chain is complete if and only if it has a range, a delta and a header.
pub proof fn law_missing_part(message: ChainMmrMessage)
    ensures
        missing_part(message) is None <==> message.block_range is Some && message.mmr_delta is Some
            && message.block_header is Some,
        message.block_range is None ==> missing_part(message) == Some("missing block_range"@),
{
}

/// What a node returns was requested if and only if each of it was, in whatever order; the first that
/// was not is what is named.
pub proof fn law_unrequested<K>(requested: Seq<K>, returned: Seq<K>)
    ensures
        first_some(unrequested(requested, returned)) is None <==> forall|i: int|
            0 <= i < returned.len() ==> requested.contains(#[trigger] returned[i]),
        first_some(unrequested(requested, returned)) matches Some(key) ==> exists|i: int|
            0 <= i < returned.len() && #[trigger] returned[i] == key && !requested.contains(key)
                && forall|j: int| 0 <= j < i ==> requested.contains(#[trigger] returned[j]),
{
    let problems = unrequested(requested, returned);
    law_first_some(problems);
    assert(problems.len() == returned.len());
    if first_some(problems) is Some {
        let i = choose|i: int|
            0 <= i < problems.len() && #[trigger] problems[i] == first_some(problems) && forall|
                j: int,
            |
                0 <= j < i ==> #[trigger] problems[j] is None;
        assert(!requested.contains(returned[i]));
        assert forall|j: int| 0 <= j < i implies requested.contains(#[trigger] returned[j]) by {
            assert(problems[j] is None);
        }
    } else {
        assert forall|i: int| 0 <= i < returned.len() implies requested.contains(
            #[trigger] returned[i],
        ) by {
            assert(problems[i] is None);
        }
    }
}

/// An answer that is refused is refused as invalid. What is said names what was returned and all that
/// was requested.
pub proof fn law_refused<K: RequestKey>(
    checked: Result<(), RpcError>,
    what: Seq<char>,
    requested: Seq<K>,
    returned: K,
)
    requires
        is_unrequested(checked, what, requested, returned),
    ensures
        checked is Err,
        checked->Err_0 is InvalidResponse,
        exists|listed: Seq<K>| #[trigger]
            lists_set(listed, requested.to_set()) && checked->Err_0->InvalidResponse_0@ == what
                + returned.text_of() + " but ["@ + joined(texts_of(listed)) + "] were requested"@,
{
    let listed = choose|listed: Seq<K>| #[trigger]
        lists_set(listed, requested.to_set()) && is_refused(
            checked,
            what + returned.text_of() + " but ["@ + joined(texts_of(listed)) + "] were requested"@,
        );
    assert(lists_set(listed, requested.to_set()));
}

/// Notes are held against a request by their ids, nullifiers by their prefixes, and transactions by
/// their accounts, each of them at its position.
pub proof fn law_what_is_checked(
    notes: Seq<FetchedNote>,
    batch: Seq<NullifierUpdate>,
    records: Seq<TransactionRecord>,
    i: int,
)
    ensures
        ids_of_notes(notes).len() == notes.len(),
        prefixes_of(batch).len() == batch.len(),
        accounts_of(records).len() == records.len(),
        0 <= i < notes.len() ==> match notes[i] {
            FetchedNote::Public { note_id, .. } => ids_of_notes(notes)[i] == note_id,
            FetchedNote::Private { note_id, .. } => ids_of_notes(notes)[i] == note_id,
        },
        0 <= i < batch.len() ==> prefixes_of(batch)[i] == batch[i].nullifier.e3
            / 0x1_0000_0000_0000,
        0 <= i < records.len() ==> accounts_of(records)[i]
            == records[i].transaction_header.account_id,
{
    if 0 <= i < batch.len() {
        law_nullifier_prefix(batch[i].nullifier);
    }
}

/// The prefix of a nullifier is its sixteen most significant bits.
pub proof fn law_nullifier_prefix(nullifier: Nullifier)
    ensures
        prefix_of(nullifier) as int * 0x1_0000_0000_0000 <= nullifier.e3,
        nullifier.e3 < (prefix_of(nullifier) + 1) * 0x1_0000_0000_0000,
        prefix_of(nullifier) == nullifier.e3 / 0x1_0000_0000_0000,
{
}

/// The tags of note blocks are those of all notes in all of the blocks.
pub proof fn law_tags_of_blocks(blocks: Seq<SyncNotesBlock>, tag: NoteTag)
    ensures
        tags_of_blocks(blocks).contains(tag) <==> exists|b: int, n: int|
            #![trigger blocks[b].notes.listing()[n]]
            0 <= b < blocks.len() && 0 <= n < blocks[b].notes.listing().len()
                && blocks[b].notes.listing()[n].1.metadata.tag == tag,
    decreases blocks.len(),
{
    if blocks.len() > 0 {
        let before = blocks.drop_last();
        let last = blocks.last();
        let own = tags_of_block(last);
        let earlier = tags_of_blocks(before);
        let all = tags_of_blocks(blocks);
        law_tags_of_blocks(before, tag);
        assert(all == earlier + own);
        if earlier.contains(tag) {
            let (b, n) = choose|b: int, n: int|
                #![trigger before[b].notes.listing()[n]]
                0 <= b < before.len() && 0 <= n < before[b].notes.listing().len()
                    && before[b].notes.listing()[n].1.metadata.tag == tag;
            assert(blocks[b].notes.listing()[n].1.metadata.tag == tag);
            let k = choose|k: int| 0 <= k < earlier.len() && earlier[k] == tag;
            assert(all[k] == tag);
        }
        if own.contains(tag) {
            let k = choose|k: int| 0 <= k < own.len() && own[k] == tag;
            assert(blocks[blocks.len() - 1].notes.listing()[k].1.metadata.tag == tag);
            assert(all[earlier.len() + k] == tag);
        }
        if all.contains(tag) {
            let k = choose|k: int| 0 <= k < all.len() && all[k] == tag;
            if k < earlier.len() {
                assert(earlier[k] == tag);
            } else {
                assert(own[k - earlier.len()] == tag);
            }
        }
        if exists|b: int, n: int|
            #![trigger blocks[b].notes.listing()[n]]
            0 <= b < blocks.len() && 0 <= n < blocks[b].notes.listing().len()
                && blocks[b].notes.listing()[n].1.metadata.tag == tag {
            let (b, n) = choose|b: int, n: int|
                #![trigger blocks[b].notes.listing()[n]]
                0 <= b < blocks.len() && 0 <= n < blocks[b].notes.listing().len()
                    && blocks[b].notes.listing()[n].1.metadata.tag == tag;
            if b < before.len() {
                assert(before[b].notes.listing()[n].1.metadata.tag == tag);
            } else {
                assert(own[n] == tag);
            }
        }
    }
}

/// An answer about an account is accepted if and only if its parts agree, and then as it is.
pub proof fn law_proof_made(
    witness: AccountWitness,
    details: Option<AccountDetails>,
    block_num: BlockNumber,
    read: Result<(BlockNumber, AccountProof), AccountResponseError>,
)
    requires
        proof_made(witness, details, block_num, read),
    ensures
        read is Ok <==> proof_problem(witness, details) is None,
        read matches Ok((at, made)) ==> at == block_num && made.account_witness == witness
            && made.state_headers == details,
        read matches Err(error) ==> (proof_problem(witness, details) matches Some(problem) && error
            == AccountResponseError::InconsistentProof(problem)),
{
}

/// A public account is accepted only with details that were read from the message, and that agree with
/// the witness.
pub proof fn law_public_account_read(
    message: AccountDetailsMessage,
    witness: AccountWitness,
    block_num: BlockNumber,
    context: AccountRequestContext,
    read: Result<(BlockNumber, AccountProof), AccountResponseError>,
)
    requires
        public_account_read(message, witness, block_num, context, read),
    ensures
        read matches Ok((at, made)) ==> {
            &&& at == block_num
            &&& made.account_witness == witness
            &&& made.state_headers matches Some(found) && message_read(
                message,
                context.known_codes@,
                context.requirements,
                Ok(found),
            )
            &&& proof_problem(witness, made.state_headers) is None
        },
        read matches Err(error) ==> exists|
            details: Result<AccountDetails, AccountResponseError>,
        | #[trigger]
            message_read(message, context.known_codes@, context.requirements, details)
                && match details {
                Err(unread) => unread == error,
                Ok(found) => proof_problem(witness, Some(found)) matches Some(problem) && error
                    == AccountResponseError::InconsistentProof(problem),
            },
{
    let details = choose|details: Result<AccountDetails, AccountResponseError>| #[trigger]
        message_read(message, context.known_codes@, context.requirements, details) && match details {
            Err(error) => read == Err::<(BlockNumber, AccountProof), _>(error),
            Ok(found) => proof_made(witness, Some(found), block_num, read),
        };
    assert(message_read(message, context.known_codes@, context.requirements, details));
}

/// An answer is read with the code the client said it knows, and held against the slots it required;
/// otherwise nothing is known or required.
pub proof fn law_context(context: AccountRequestContext, request: GetAccountRequest, commitment: Word)
    requires
        is_context_of(context, request),
    ensures
        request.known_code is None ==> !context.known_codes@.contains_key(commitment),
        request.known_code matches Some(code) ==> {
            &&& context.known_codes@.contains_key(commitment) <==> commitment == code.commitment
            &&& context.known_codes@[code.commitment] == code
        },
        request.storage matches StorageMapFetch::Slots(requirements) ==> context.requirements
            == requirements,
        !(request.storage is Slots) ==> context.requirements.slots@.dom().len() == 0,
{
}

// NOTE PAGES
// ================================================================================================
/// A block that arrives in several pages keeps the header and the path that came first, and holds the
/// notes of all of its pages; of a note that comes twice, the first one stays. Other blocks stay as
/// they are.
pub proof fn law_added(
    blocks: Map<BlockNumber, NotesBlockView>,
    block: NotesBlockView,
    note_id: NoteId,
    other: BlockNumber,
)
    ensures
        ({
            let now = added(blocks, block);
            let block_num = block.block_header.block_num;
            &&& now.contains_key(block_num)
            &&& !blocks.contains_key(block_num) ==> now[block_num] == block
            &&& blocks.contains_key(block_num) ==> {
                let before = blocks[block_num];
                let after = now[block_num];
                &&& after.block_header == before.block_header
                &&& after.mmr_path == before.mmr_path
                &&& after.notes.contains_key(note_id) <==> before.notes.contains_key(note_id)
                    || block.notes.contains_key(note_id)
                &&& before.notes.contains_key(note_id) ==> after.notes[note_id]
                    == before.notes[note_id]
                &&& !before.notes.contains_key(note_id) && block.notes.contains_key(note_id)
                    ==> after.notes[note_id] == block.notes[note_id]
            }
            &&& other != block_num ==> now.contains_key(other) == blocks.contains_key(other) && (
            blocks.contains_key(other) ==> now[other] == blocks[other])
        }),
{
}

/// Pages are added block by block: adding some blocks, and then others, is adding all of them.
pub proof fn law_pages_in_parts(
    blocks: Map<BlockNumber, NotesBlockView>,
    page: Seq<SyncNotesBlock>,
    others: Seq<SyncNotesBlock>,
    block: SyncNotesBlock,
)
    ensures
        all_added(blocks, Seq::empty()) == blocks,
        all_added(blocks, seq![block]) == added(blocks, block_view(block)),
        all_added(blocks, page + others) == all_added(all_added(blocks, page), others),
    decreases others.len(),
{
    assert(seq![block].drop_last() =~= Seq::empty());
    assert(all_added(blocks, Seq::<SyncNotesBlock>::empty()) == blocks);
    if others.len() == 0 {
        assert(page + others =~= page);
    } else {
        law_pages_in_parts(blocks, page, others.drop_last(), block);
        assert((page + others).drop_last() =~= page + others.drop_last());
    }
}

/// A block is seen with its header, its path and its notes; a map of blocks, block by block.
pub proof fn law_block_view(
    block: SyncNotesBlock,
    blocks: Map<BlockNumber, SyncNotesBlock>,
    block_num: BlockNumber,
)
    ensures
        block_view(block).block_header == block.block_header,
        block_view(block).mmr_path == block.mmr_path@,
        block_view(block).notes == block.notes@,
        blocks_view(blocks).contains_key(block_num) == blocks.contains_key(block_num),
        blocks.contains_key(block_num) ==> blocks_view(blocks)[block_num] == block_view(
            blocks[block_num],
        ),
{
}

/// Recorded nullifiers are ordered as nullifiers, and those of one note by block.
pub proof fn law_nullifier_update_order(a: NullifierUpdate, b: NullifierUpdate)
    ensures
        a.rank() < b.rank() <==> a.nullifier.rank() < b.nullifier.rank() || (a.nullifier
            == b.nullifier && a.block_num < b.block_num),
{
    if a.nullifier.rank() == b.nullifier.rank() {
        <Word as OrdKey>::rank_injective(a.nullifier, b.nullifier);
    }
}

/// A page adds its entries to those of its slots: what it says of a key replaces what was known, and
/// what it does not mention stays.
pub proof fn law_page_of_entries(
    before: Map<u128, crate::collections::OrdMap<Word, Word>>,
    page: Map<u128, crate::collections::OrdMap<Word, Word>>,
    after: Map<u128, crate::collections::OrdMap<Word, Word>>,
    slot: u128,
    key: Word,
)
    requires
        is_page_added(before, page, after),
    ensures
        ({
            let was = before.contains_key(slot) && before[slot]@.contains_key(key);
            let came = page.contains_key(slot) && page[slot]@.contains_key(key);
            &&& after.contains_key(slot) <==> before.contains_key(slot) || page.contains_key(slot)
            &&& after.contains_key(slot) ==> (after[slot]@.contains_key(key) <==> was || came)
            &&& came ==> after[slot]@[key] == page[slot]@[key]
            &&& was && !came ==> after[slot]@[key] == before[slot]@[key]
        }),
{
    assert(after.dom().contains(slot) <==> before.dom().contains(slot) || page.dom().contains(slot));
}

// CLIENT
// ================================================================================================
/// A text can stand in a header if and only if it is made of visible characters, spaces and tabs.
pub proof fn law_header_text(text: Seq<char>)
    ensures
        is_header_text(text) <==> forall|i: int|
            0 <= i < text.len() ==> (32 <= (#[trigger] text[i]) as int <= 126 || text[i] as int
                == 9),
{
    assert(' ' as int == 32 && '~' as int == 126 && '\t' as int == 9);
    if forall|i: int|
        0 <= i < text.len() ==> (32 <= (#[trigger] text[i]) as int <= 126 || text[i] as int == 9) {
        assert forall|i: int| 0 <= i < text.len() implies crate::rpc::grpc_client::is_header_char(
            #[trigger] text[i],
        ) by {
            assert(32 <= text[i] as int <= 126 || text[i] as int == 9);
        }
    }
    if is_header_text(text) {
        assert forall|i: int| 0 <= i < text.len() implies (32 <= (#[trigger] text[i]) as int <= 126
            || text[i] as int == 9) by {
            assert(crate::rpc::grpc_client::is_header_char(text[i]));
        }
    }
}

/// The first genesis commitment that is set stays; nothing else of the client changes.
pub proof fn law_with_genesis(client: GrpcClient, commitment: Word, other: Word)
    ensures
        with_genesis(client, commitment).genesis_commitment is Some,
        client.genesis_commitment is None ==> with_genesis(client, commitment).genesis_commitment
            == Some(commitment),
        client.genesis_commitment is Some ==> with_genesis(client, commitment) == client,
        with_genesis(with_genesis(client, commitment), other) == with_genesis(client, commitment),
        ({
            let now = with_genesis(client, commitment);
            &&& now.endpoint == client.endpoint
            &&& now.timeout_ms == client.timeout_ms
            &&& now.limits == client.limits
            &&& now.max_retries == client.max_retries
            &&& now.retry_interval_ms == client.retry_interval_ms
            &&& now.bearer_token == client.bearer_token
            &&& now.max_decoding_message_size == client.max_decoding_message_size
        }),
{
}

/// Missing data and invalid answers are different errors, each with its text.
pub proof fn law_read_errors<T>(read: Result<T, RpcError>, text: Seq<char>)
    ensures
        is_missing(read, text) ==> read is Err && read->Err_0 is ExpectedDataMissing
            && read->Err_0->ExpectedDataMissing_0@ == text,
        is_invalid(read, text) ==> read is Err && read->Err_0 is InvalidResponse
            && read->Err_0->InvalidResponse_0@ == text,
{
}

// PAGES
// ================================================================================================
/// The range ends at its last block or at the chain tip, whichever comes first.
pub proof fn law_target_block(block_to: BlockNumber, chain_tip: BlockNumber)
    ensures
        target_block(block_to, chain_tip) <= block_to,
        target_block(block_to, chain_tip) <= chain_tip,
        target_block(block_to, chain_tip) == block_to || target_block(block_to, chain_tip)
            == chain_tip,
{
}

/// A page is refused if a thousand were read, or if it ends before it starts. A page that reaches the
/// end of the range, or the tip, ends the part, and the next part starts over. Any other is followed by
/// one that starts right after it, so that no block is left out and none is read twice.
pub proof fn law_page_step(
    current: int,
    pagination: BlockPagination,
    block_from: BlockNumber,
    page: PageInfo,
)
    requires
        pagination.iterations <= 1000,
    ensures
        ({
            let next = step(current, pagination, block_from, page);
            let ends = page.block_num >= pagination.block_to || page.block_num >= page.chain_tip;
            let too_many = pagination.iterations >= 1000;
            let backwards = page.block_num < pagination.current_block_from;
            &&& next is Err <==> too_many || backwards
            &&& too_many ==> next == Err::<(int, BlockPagination), _>(
                PageError::Pagination(PaginationError::TooManyPages),
            )
            &&& !too_many && backwards ==> next == Err::<(int, BlockPagination), _>(
                PageError::Pagination(PaginationError::WentBackwards),
            )
            &&& next matches Ok((part, after)) ==> {
                &&& after.block_to == pagination.block_to
                &&& ends ==> part == current + 1 && after.current_block_from == block_from
                    && after.iterations == 0
                &&& !ends ==> part == current && after.current_block_from == page.block_num + 1
                    && after.iterations == pagination.iterations + 1
            }
        }),
{
}

/// A page that is refused leaves the range as it was, and counts only if it went backwards.
pub proof fn law_page_refused(pagination: BlockPagination, error: PageError)
    requires
        pagination.iterations <= 1000,
    ensures
        refused(pagination, error).current_block_from == pagination.current_block_from,
        refused(pagination, error).block_to == pagination.block_to,
        error == PageError::Pagination(PaginationError::WentBackwards) ==> refused(
            pagination,
            error,
        ).iterations == pagination.iterations + 1,
        error != PageError::Pagination(PaginationError::WentBackwards) ==> refused(
            pagination,
            error,
        ).iterations == pagination.iterations,
{
}

/// A page is refused if a thousand were read or if it ends before it starts; it is the last one if it
/// reaches the end of the range or the tip; otherwise the next one starts right after it.
pub proof fn law_after_page(
    pagination: BlockPagination,
    block_num: BlockNumber,
    chain_tip: BlockNumber,
    result: Result<PaginationResult, PaginationError>,
    after: BlockPagination,
)
    requires
        pagination.iterations <= 1000,
        after_page(pagination, block_num, chain_tip, result, after),
    ensures
        ({
            let ends = block_num >= pagination.block_to || block_num >= chain_tip;
            let too_many = pagination.iterations >= 1000;
            let backwards = block_num < pagination.current_block_from;
            &&& after.block_to == pagination.block_to
            &&& too_many <==> result == Err::<PaginationResult, _>(PaginationError::TooManyPages)
            &&& !too_many && backwards <==> result == Err::<PaginationResult, _>(
                PaginationError::WentBackwards,
            )
            &&& !too_many && !backwards && ends <==> result == Ok::<_, PaginationError>(
                PaginationResult::Done { chain_tip, block_num },
            )
            &&& !too_many && !backwards && !ends <==> result == Ok::<_, PaginationError>(
                PaginationResult::Continue,
            )
            &&& result == Ok::<_, PaginationError>(PaginationResult::Continue)
                ==> after.current_block_from == block_num + 1
            &&& result != Ok::<_, PaginationError>(PaginationResult::Continue)
                ==> after.current_block_from == pagination.current_block_from
            &&& after.iterations == if too_many {
                pagination.iterations as int
            } else {
                pagination.iterations + 1
            }
        }),
{
}

// RETRIES
// ================================================================================================
/// The calls that change the state of the node are those that submit transactions or register
/// accounts.
pub proof fn law_changes_state(endpoint: RpcEndpoint)
    ensures
        endpoint.changes_state() <==> match endpoint {
            RpcEndpoint::SubmitProvenTx => true,
            RpcEndpoint::SubmitProvenBatch => true,
            RpcEndpoint::RegisterAccount => true,
            _ => false,
        },
{
}

/// A call is repeated if the node has too much to do, whatever the call is; and if the node was not
/// reached, unless the call may have changed its state. Nothing else is repeated.
pub proof fn law_retryable(endpoint: RpcEndpoint, code: i32)
    ensures
        code == 8 ==> retryable(endpoint, code),
        code == 14 ==> retryable(endpoint, code) == !(endpoint is SubmitProvenTx
            || endpoint is SubmitProvenBatch || endpoint is RegisterAccount),
        code != 8 && code != 14 ==> !retryable(endpoint, code),
{
}

/// A client waits as long as the node asks for, in seconds, if that is more than nothing, and otherwise
/// as long as it is set to.
pub proof fn law_delay(status: NodeStatus, fallback_ms: u64, seconds: u64)
    ensures
        status.retry_after is None ==> retry_after_of(status) is None,
        status.retry_after matches Some(text) ==> retry_after_of(status) == number_of(text@),
        retry_after_of(status) == Some(seconds) && seconds > 0 ==> delay_of(status, fallback_ms)
            == 1000 * seconds,
        retry_after_of(status) == Some(0u64) ==> delay_of(status, fallback_ms) == fallback_ms,
        retry_after_of(status) is None ==> delay_of(status, fallback_ms) == fallback_ms,
{
}

/// A failure counts as one attempt if the call is repeated after it, and leaves the state as it was if
/// not. Nothing but the number of attempts changes.
pub proof fn law_retry_counts(state: RetryState, codes: Seq<i32>, code: i32)
    requires
        state.attempt <= state.max_retries,
    ensures
        ({
            let now = retries_after(state, codes);
            let next = retries_after(state, codes.push(code));
            let repeated = now.attempt < state.max_retries && retryable(state.endpoint, code);
            &&& retries_after(state, Seq::empty()) == state
            &&& now.endpoint == state.endpoint && now.max_retries == state.max_retries
                && now.retry_interval_ms == state.retry_interval_ms
            &&& now.attempt <= state.max_retries
            &&& next.attempt == if repeated {
                now.attempt + 1
            } else {
                now.attempt as int
            }
        }),
    decreases codes.len(),
{
    assert(codes.push(code).drop_last() =~= codes);
    if codes.len() > 0 {
        law_retry_counts(state, codes.drop_last(), codes.last());
        assert(codes.drop_last().push(codes.last()) =~= codes);
    }
}

// ERRORS
// ================================================================================================
/// The kind of an error tells the code it came with.
pub proof fn law_error_kind(error: GrpcError, code: i32, message: Seq<char>)
    requires
        error.is_of_code(code, message),
    ensures
        match error {
            GrpcError::Cancelled => code == 1,
            GrpcError::InvalidArgument => code == 3,
            GrpcError::DeadlineExceeded => code == 4,
            GrpcError::NotFound => code == 5,
            GrpcError::AlreadyExists => code == 6,
            GrpcError::PermissionDenied => code == 7,
            GrpcError::ResourceExhausted => code == 8,
            GrpcError::FailedPrecondition => code == 9,
            GrpcError::Unimplemented => code == 12,
            GrpcError::Internal => code == 13,
            GrpcError::Unavailable => code == 14,
            GrpcError::Unauthenticated => code == 16,
            GrpcError::Unknown(own) => own@ == message && code != 1 && !(3 <= code <= 9) && !(12
                <= code <= 14) && code != 16,
        },
{
}

/// An error that came with a code says so: which call it is of, and which code and message it came
/// with.
pub proof fn law_coded_error(
    error: EndpointError,
    endpoint: RpcEndpoint,
    code: u8,
    message: Seq<char>,
)
    requires
        is_error_of(error, endpoint, code, message),
    ensures
        has_codes(endpoint),
        match error {
            EndpointError::AddTransaction(own) => endpoint is SubmitProvenTx && (
            own matches AddTransactionError::Other(coded) && coded.code == code && coded.message@
                == message),
            EndpointError::GetBlockHeader(coded) => endpoint is GetBlockHeaderByNumber && coded.code
                == code && coded.message@ == message,
            EndpointError::GetBlockByNumber(coded) => endpoint is GetBlockByNumber && coded.code
                == code && coded.message@ == message,
            EndpointError::NoteSync(coded) => endpoint is SyncNotes && coded.code == code
                && coded.message@ == message,
            EndpointError::SyncNullifiers(coded) => endpoint is SyncNullifiers && coded.code == code
                && coded.message@ == message,
            EndpointError::SyncAccountVault(coded) => endpoint is SyncAccountVault && coded.code
                == code && coded.message@ == message,
            EndpointError::SyncStorageMaps(coded) => endpoint is SyncStorageMaps && coded.code
                == code && coded.message@ == message,
            EndpointError::SyncTransactions(coded) => endpoint is SyncTransactions && coded.code
                == code && coded.message@ == message,
            EndpointError::GetNotesById(coded) => endpoint is GetNotesById && coded.code == code
                && coded.message@ == message,
            EndpointError::GetNoteScriptByRoot(coded) => endpoint is GetNoteScriptByRoot
                && coded.code == code && coded.message@ == message,
            EndpointError::GetAccount(own) => endpoint is GetAccount && match own {
                GetAccountError::Internal => code == 0,
                GetAccountError::DeserializationFailed => code == 1,
                GetAccountError::AccountNotFound => code == 2,
                GetAccountError::AccountNotPublic => code == 3,
                GetAccountError::UnknownBlock => code == 4,
                GetAccountError::BlockPruned => code == 5,
                GetAccountError::Unknown { code: kept, message: said } => code > 5 && kept == code
                    && said@ == message,
            },
            EndpointError::RegisterAccount(_) => false,
        },
{
}

/// A registration that fails is told apart by the kind of the error; of any other call the kind alone
/// says nothing more.
pub proof fn law_status_error(
    error: Option<EndpointError>,
    endpoint: RpcEndpoint,
    error_kind: GrpcError,
    message: Seq<char>,
)
    requires
        is_status_error(error, endpoint, error_kind, message),
    ensures
        error is Some <==> endpoint is RegisterAccount && (error_kind is NotFound
            || error_kind is AlreadyExists || error_kind is InvalidArgument),
        error matches Some(found) ==> match found {
            EndpointError::RegisterAccount(RegisterAccountError::InvitationNotFound) => error_kind
                is NotFound,
            EndpointError::RegisterAccount(RegisterAccountError::AlreadyRegistered) => error_kind
                is AlreadyExists,
            EndpointError::RegisterAccount(RegisterAccountError::InvalidRequest(said)) => error_kind
                is InvalidArgument && said@ == message,
            _ => false,
        },
{
}

/// The calls whose errors come with codes.
pub proof fn law_has_codes(endpoint: RpcEndpoint)
    ensures
        has_codes(endpoint) <==> match endpoint {
            RpcEndpoint::SubmitProvenTx => true,
            RpcEndpoint::GetBlockHeaderByNumber => true,
            RpcEndpoint::GetBlockByNumber => true,
            RpcEndpoint::GetNotesById => true,
            RpcEndpoint::GetNoteScriptByRoot => true,
            RpcEndpoint::GetAccount => true,
            RpcEndpoint::SyncNotes => true,
            RpcEndpoint::SyncNullifiers => true,
            RpcEndpoint::SyncAccountVault => true,
            RpcEndpoint::SyncStorageMaps => true,
            RpcEndpoint::SyncTransactions => true,
            _ => false,
        },
{
}

/// A coded error keeps its code and its message.
pub proof fn law_is_coded(error: CodedError, code: u8, message: Seq<char>)
    ensures
        is_coded(error, code, message) <==> error.code == code && error.message@ == message,
{
}

} // verus!
