//! What a sync comes to as a whole, over all that a node can send.
use vstd::prelude::*;

use crate::collections::{
    law_present, lemma_picks_next, lemma_picks_none, lemma_picks_same, picks, present,
};
use crate::errors::SyncError;
use crate::mmr::{peaks_hash, MmrModel};
use crate::rpc::domain::transaction::TransactionRecord;
use crate::sync::blockchain_updates::BlockUpdate;
use crate::sync::chain_laws::law_staged_nodes;
use crate::sync::chain_sync::{
    advance_problem, advanced, law_note_blocks_leave_the_chain, law_required_blocks_are_kept,
    law_tracked_blocks_stay_tracked, left_at_failure, lists_new_nodes, note_blocks_tracked, stopped,
    RelevantNoteBlock,
};
use crate::sync::execution_chain::{
    by_initial_state, execution_order, final_of, first_start, follow, init_of, is_latest_block,
    is_start, key_of, lemma_first_start, lists_account_blocks, members, members_upto, nullifiers_in,
    nullifiers_over, occurs, reached, select, starting, terminal_state, walkable, weave,
};
use crate::sync::execution_laws::{is_chain, law_chain_is_recovered};
use crate::sync::state_sync::{
    build_problem, committed_ids, committed_input_id, committed_output_id, is_update_of, new_note_id,
    synced_mmr, tracked_at_tip, unsynced_mmr, ChainSyncData, InputNoteUpdate, NoteUpdateType,
    NoteUpdates, OutputNoteUpdate, StateSyncUpdate,
};
use crate::types::{AccountBlock, AccountId, BlockNumber, NoteId, Word};

verus! {

// UPDATE
// ================================================================================================
/// An update is refused if and only if there are note blocks that were not screened, the range cannot
/// follow the chain, or the path of a note block does not authenticate it; the first of these is what
/// is reported. At the chain tip nothing is refused.
pub proof fn law_build_problem(data: ChainSyncData, mmr: MmrModel)
    ensures
        data.advance is None ==> build_problem(data, mmr) is None,
        data.advance matches Some(advance) ==> {
            let following = advance_problem(mmr, advance.mmr_delta, advance.chain_tip_header);
            let problem = build_problem(data, mmr);
            &&& advance.note_blocks_awaiting_screening@.len() > 0 ==> problem == Some(
                SyncError::UnscreenedNoteBlocks,
            )
            &&& advance.note_blocks_awaiting_screening@.len() == 0 && following is Some ==> problem
                == following
            &&& advance.note_blocks_awaiting_screening@.len() == 0 && following is None ==> {
                let at_tip = advanced(mmr, advance.mmr_delta, advance.chain_tip_header).0;
                let checked = note_blocks_tracked(
                    at_tip,
                    map![
                        advance.chain_tip_header.block_num => BlockUpdate {
                            header: advance.chain_tip_header,
                            is_relevant: false,
                        },
                    ],
                    advance.relevant_note_blocks@,
                    data.note_updates.unspent_input_note_block_numbers@,
                );
                &&& problem is None <==> checked is Ok
                &&& checked matches Err(block_num) ==> problem == Some(
                    SyncError::BlockNotAuthenticated { block_num },
                )
            }
        },
{
    if let Some(advance) = data.advance {
        assert(Map::<BlockNumber, BlockUpdate>::empty().insert(
            advance.chain_tip_header.block_num,
            BlockUpdate { header: advance.chain_tip_header, is_relevant: false },
        ) =~= map![
            advance.chain_tip_header.block_num => BlockUpdate {
                header: advance.chain_tip_header,
                is_relevant: false,
            },
        ]);
    }
}

/// The block is one of the note blocks that an observer requires or that hold an unspent note.
pub open spec fn is_required_block(
    blocks: Seq<RelevantNoteBlock>,
    unspent: Seq<BlockNumber>,
    block_num: BlockNumber,
) -> bool {
    exists|i: int|
        0 <= i < blocks.len() && (#[trigger] blocks[i]).block_header.block_num == block_num && (
        blocks[i].observer_requires_block || unspent.contains(block_num))
}

/// Only headers of required blocks are added, and only these become relevant.
proof fn lemma_stored_headers(
    mmr: MmrModel,
    headers: Map<BlockNumber, BlockUpdate>,
    blocks: Seq<RelevantNoteBlock>,
    unspent: Seq<BlockNumber>,
    block_num: BlockNumber,
)
    requires
        note_blocks_tracked(mmr, headers, blocks, unspent) is Ok,
    ensures
        ({
            let stored = (note_blocks_tracked(mmr, headers, blocks, unspent)->Ok_0).1;
            &&& headers.contains_key(block_num) ==> stored.contains_key(block_num)
                && stored[block_num].header == headers[block_num].header && (
            headers[block_num].is_relevant ==> stored[block_num].is_relevant)
            &&& stored.contains_key(block_num) && !is_required_block(blocks, unspent, block_num)
                ==> headers.contains_key(block_num) && stored[block_num] == headers[block_num]
        }),
    decreases blocks.len(),
{
    if blocks.len() > 0 {
        let before = blocks.drop_last();
        lemma_stored_headers(mmr, headers, before, unspent, block_num);
        let last = blocks.len() - 1;
        if is_required_block(before, unspent, block_num) {
            let i = choose|i: int|
                0 <= i < before.len() && (#[trigger] before[i]).block_header.block_num == block_num
                    && (before[i].observer_requires_block || unspent.contains(block_num));
            assert(blocks[i].block_header.block_num == block_num);
        }
        if blocks[last].block_header.block_num == block_num && (
        blocks[last].observer_requires_block || unspent.contains(block_num)) {
            assert(is_required_block(blocks, unspent, block_num));
        }
    }
}

/// An update at the chain tip changes nothing of the chain. Any other leads to the tip: it stores the
/// header of the tip and the headers of the required note blocks, which alone are relevant, and no
/// others; its peaks are those the tip commits to. What happened to notes, transactions and accounts
/// is passed on.
pub proof fn law_update(
    update: StateSyncUpdate,
    data: ChainSyncData,
    mmr: MmrModel,
    block_num: BlockNumber,
)
    requires
        build_problem(data, mmr) is None,
        is_update_of(update, data, mmr),
    ensures
        update.note_updates == data.note_updates,
        update.transaction_updates == data.transaction_updates,
        update.account_updates == data.account_updates,
        data.advance is None ==> {
            let chain = update.partial_blockchain_updates;
            &&& update.block_num == data.block_from
            &&& update.protocol_config is None
            &&& !chain.block_headers@.contains_key(block_num)
            &&& chain.new_authentication_nodes@.len() == 0
            &&& chain.new_peaks.forest == 0 && chain.new_peaks.peaks@.len() == 0
            &&& synced_mmr(data, mmr) == mmr
        },
        data.advance matches Some(advance) ==> {
            let headers = update.partial_blockchain_updates.block_headers@;
            let peaks = update.partial_blockchain_updates.new_peaks;
            let tip = advance.chain_tip_header;
            let required = is_required_block(
                advance.relevant_note_blocks@,
                data.note_updates.unspent_input_note_block_numbers@,
                block_num,
            );
            &&& update.block_num == tip.block_num
            &&& update.protocol_config == advance.protocol_config
            &&& headers.contains_key(tip.block_num) && headers[tip.block_num].header == tip
            &&& headers.contains_key(block_num) <==> block_num == tip.block_num || required
            &&& headers.contains_key(block_num) ==> headers[block_num].is_relevant == required
            &&& peaks.forest == advance.mmr_delta.forest
            &&& peaks_hash(peaks.forest as nat, peaks.peaks@) == Some(tip.chain_commitment)
            &&& ({
                let nodes = update.partial_blockchain_updates.new_authentication_nodes@;
                let (at_tip, added) = advanced(mmr, advance.mmr_delta, tip);
                &&& added.is_prefix_of(nodes)
                &&& lists_new_nodes(
                    at_tip.nodes,
                    synced_mmr(data, mmr).nodes,
                    nodes.skip(added.len() as int),
                )
            })
            &&& synced_mmr(data, mmr).leaves == advance.mmr_delta.forest + 1
            &&& required ==> synced_mmr(data, mmr).leaves_kept.contains(block_num as nat)
            &&& mmr.leaves_kept.contains(block_num as nat) ==> synced_mmr(
                data,
                mmr,
            ).leaves_kept.contains(block_num as nat)
        },
{
    if let Some(advance) = data.advance {
        let tip = advance.chain_tip_header;
        let at_tip = advanced(mmr, advance.mmr_delta, tip).0;
        let headers = Map::<BlockNumber, BlockUpdate>::empty().insert(
            tip.block_num,
            BlockUpdate { header: tip, is_relevant: false },
        );
        let blocks = advance.relevant_note_blocks@;
        let unspent = data.note_updates.unspent_input_note_block_numbers@;
        assert(tracked_at_tip(data, advance, mmr) == note_blocks_tracked(
            at_tip,
            headers,
            blocks,
            unspent,
        ));
        lemma_stored_headers(at_tip, headers, blocks, unspent, block_num);
        lemma_stored_headers(at_tip, headers, blocks, unspent, tip.block_num);
        law_staged_nodes(
            at_tip.nodes,
            synced_mmr(data, mmr).nodes,
            advanced(mmr, advance.mmr_delta, tip).1,
            update.partial_blockchain_updates.new_authentication_nodes@,
        );
        law_note_blocks_leave_the_chain(at_tip, headers, blocks, unspent);
        if is_required_block(blocks, unspent, block_num) {
            let i = choose|i: int|
                0 <= i < blocks.len() && (#[trigger] blocks[i]).block_header.block_num == block_num
                    && (blocks[i].observer_requires_block || unspent.contains(block_num));
            law_required_blocks_are_kept(at_tip, headers, blocks, unspent, i);
        }
        if mmr.leaves_kept.contains(block_num as nat) {
            law_tracked_blocks_stay_tracked(at_tip, headers, blocks, unspent, block_num as nat);
        }
    }
}

/// Where no update can be built because of blocks that were not screened, or at the tip, the range is
/// as it was; where the range cannot follow the chain, it is where the delta led to.
pub proof fn law_unsynced(data: ChainSyncData, mmr: MmrModel)
    ensures
        data.advance is None ==> unsynced_mmr(data, mmr) == mmr,
        data.advance matches Some(advance) ==> {
            &&& advance.note_blocks_awaiting_screening@.len() > 0 ==> unsynced_mmr(data, mmr) == mmr
            &&& advance.note_blocks_awaiting_screening@.len() == 0 && advance_problem(
                mmr,
                advance.mmr_delta,
                advance.chain_tip_header,
            ) is Some ==> unsynced_mmr(data, mmr) == stopped(mmr, advance.mmr_delta)
            &&& advance.note_blocks_awaiting_screening@.len() == 0 && advance_problem(
                mmr,
                advance.mmr_delta,
                advance.chain_tip_header,
            ) is None ==> unsynced_mmr(data, mmr) == left_at_failure(
                advanced(mmr, advance.mmr_delta, advance.chain_tip_header).0,
                map![
                    advance.chain_tip_header.block_num => BlockUpdate {
                        header: advance.chain_tip_header,
                        is_relevant: false,
                    },
                ],
                advance.relevant_note_blocks@,
                data.note_updates.unspent_input_note_block_numbers@,
            ).0
        },
{
    if let Some(advance) = data.advance {
        assert(Map::<BlockNumber, BlockUpdate>::empty().insert(
            advance.chain_tip_header.block_num,
            BlockUpdate { header: advance.chain_tip_header, is_relevant: false },
        ) =~= map![
            advance.chain_tip_header.block_num => BlockUpdate {
                header: advance.chain_tip_header,
                is_relevant: false,
            },
        ]);
    }
}

// SUMMARY
// ================================================================================================
/// A summary names a note as new if it is inserted and has an id, in the order of the notes, each of
/// them.
pub proof fn law_new_notes_are_named(updates: Seq<InputNoteUpdate>)
    ensures
        picks(
            present(updates.map_values(|update: InputNoteUpdate| new_note_id(update))),
            updates.len() as int,
            |i: int| updates[i].update_type is Insert && updates[i].note.note_id is Some,
            |i: int| updates[i].note.note_id->0,
        ),
{
    let ids = updates.map_values(|update: InputNoteUpdate| new_note_id(update));
    law_present(ids);
    lemma_picks_same(
        present(ids),
        updates.len() as int,
        |i: int| ids[i] is Some,
        |i: int| ids[i]->0,
        |i: int| updates[i].update_type is Insert && updates[i].note.note_id is Some,
        |i: int| updates[i].note.note_id->0,
    );
}

/// A summary names a note as committed if and only if an input note with the id, that was known or
/// expected, is committed now, or an output note with the id, that was known, is. Where the note stands
/// among the notes does not matter.
pub proof fn law_committed_notes_are_named(updates: NoteUpdates, note_id: NoteId)
    ensures
        committed_ids(updates).contains(note_id) <==> (exists|i: int|
            {
                let update = #[trigger] updates.updated_input_notes@[i];
                &&& 0 <= i < updates.updated_input_notes@.len()
                &&& update.update_type == NoteUpdateType::Update || update.update_type
                    == NoteUpdateType::InsertCommitted
                &&& update.note.state is Committed
                &&& update.note.note_id == Some(note_id)
            }) || (exists|i: int|
            {
                let update = #[trigger] updates.updated_output_notes@[i];
                &&& 0 <= i < updates.updated_output_notes@.len()
                &&& update.update_type == NoteUpdateType::Update
                &&& update.is_committed
                &&& update.note_id == note_id
            }),
{
    let inputs = updates.updated_input_notes@;
    let outputs = updates.updated_output_notes@;
    let input_ids = inputs.map_values(|update: InputNoteUpdate| committed_input_id(update));
    let output_ids = outputs.map_values(|update: OutputNoteUpdate| committed_output_id(update));
    if input_ids.contains(Some(note_id)) {
        let i = choose|i: int| 0 <= i < input_ids.len() && input_ids[i] == Some(note_id);
        assert(committed_input_id(inputs[i]) == Some(note_id));
    }
    if output_ids.contains(Some(note_id)) {
        let i = choose|i: int| 0 <= i < output_ids.len() && output_ids[i] == Some(note_id);
        assert(committed_output_id(outputs[i]) == Some(note_id));
    }
    assert forall|i: int|
        0 <= i < inputs.len() && committed_input_id(#[trigger] inputs[i]) == Some(
            note_id,
        ) implies input_ids.contains(Some(note_id)) by {
        assert(input_ids[i] == Some(note_id));
    }
    assert forall|i: int|
        0 <= i < outputs.len() && committed_output_id(#[trigger] outputs[i]) == Some(
            note_id,
        ) implies output_ids.contains(Some(note_id)) by {
        assert(output_ids[i] == Some(note_id));
    }
}

// EXECUTION
// ================================================================================================
/// A transaction belongs to its account in its block. It leads from its initial state to its final
/// one, and keeps the state if these are the same.
pub proof fn law_record_parts(records: Seq<TransactionRecord>, tx: usize)
    requires
        tx < records.len(),
    ensures
        key_of(records[tx as int]).account_id == records[tx as int].transaction_header.account_id,
        key_of(records[tx as int]).block_num == records[tx as int].block_num,
        init_of(records, tx)
            == records[tx as int].transaction_header.initial_state_commitment,
        final_of(records, tx) == records[tx as int].transaction_header.final_state_commitment,
        records[tx as int].transaction_header.keeps_state() <==> init_of(records, tx) == final_of(
            records,
            tx,
        ),
{
}

/// The transactions of an account in a block are all those that were reported for it, in order.
pub proof fn law_members(records: Seq<TransactionRecord>, key: AccountBlock, n: int)
    requires
        0 <= n <= records.len(),
    ensures
        picks(
            members_upto(records, key, n),
            n,
            |i: int|
                records[i].transaction_header.account_id == key.account_id && records[i].block_num
                    == key.block_num,
            |i: int| i as usize,
        ),
        members(records, key) == members_upto(records, key, records.len() as int),
    decreases n,
{
    let wanted = |i: int|
        records[i].transaction_header.account_id == key.account_id && records[i].block_num
            == key.block_num;
    let value = |i: int| i as usize;
    if n == 0 {
        lemma_picks_none(wanted, value);
    } else {
        law_members(records, key, n - 1);
        lemma_picks_next(
            members_upto(records, key, n - 1),
            wanted,
            value,
            members_upto(records, key, n),
            n,
            wanted,
            value,
        );
    }
}

/// The latest block of an account is one with a transaction of the account, and no transaction of the
/// account is in a later one.
pub proof fn law_latest_block(
    records: Seq<TransactionRecord>,
    account_id: AccountId,
    block_num: BlockNumber,
    i: int,
)
    requires
        is_latest_block(records, account_id, block_num),
    ensures
        exists|k: int|
            0 <= k < records.len() && (#[trigger] records[k]).transaction_header.account_id
                == account_id && records[k].block_num == block_num,
        0 <= i < records.len() && records[i].transaction_header.account_id == account_id
            ==> records[i].block_num <= block_num,
{
    let key = AccountBlock { account_id, block_num };
    let k = choose|k: int| 0 <= k < records.len() && key_of(#[trigger] records[k]) == key;
    assert(records[k].transaction_header.account_id == account_id);
    if 0 <= i < records.len() && records[i].transaction_header.account_id == account_id {
        let later = AccountBlock { account_id, block_num: records[i].block_num };
        assert(key_of(records[i]) == later);
        assert(occurs(records, later));
    }
}

/// If the transactions of an account in a block were executed one after the other, the account is left
/// in the state that the last of them led to.
pub proof fn law_terminal_state(
    records: Seq<TransactionRecord>,
    key: AccountBlock,
    chain: Seq<usize>,
)
    requires
        is_chain(records, chain),
        chain.len() > 0,
        members(records, key).to_multiset() == chain.to_multiset(),
    ensures
        terminal_state(records, key) == records[chain.last() as int]
            .transaction_header
            .final_state_commitment,
{
    law_chain_is_recovered(records, members(records, key), chain);
}

/// The nullifiers of transactions are those of each, one after the other, in the order in which each
/// consumed its notes.
pub proof fn law_nullifiers_in_order(
    records: Seq<TransactionRecord>,
    order: Seq<usize>,
    others: Seq<usize>,
    tx: usize,
)
    ensures
        nullifiers_in(records, Seq::empty()).len() == 0,
        nullifiers_in(records, seq![tx])
            == records[tx as int].transaction_header.input_nullifiers@,
        nullifiers_in(records, order + others) == nullifiers_in(records, order) + nullifiers_in(
            records,
            others,
        ),
    decreases others.len(),
{
    assert(seq![tx].drop_last() =~= Seq::empty());
    assert(nullifiers_in(records, Seq::<usize>::empty()).len() == 0);
    assert(nullifiers_in(records, seq![tx])
        =~= records[tx as int].transaction_header.input_nullifiers@);
    if others.len() == 0 {
        assert(order + others =~= order);
        assert(nullifiers_in(records, order) + nullifiers_in(records, others) =~= nullifiers_in(
            records,
            order,
        ));
    } else {
        law_nullifiers_in_order(records, order, others.drop_last(), tx);
        assert((order + others).drop_last() =~= order + others.drop_last());
        assert(nullifiers_in(records, order + others) =~= nullifiers_in(records, order)
            + nullifiers_in(records, others));
    }
}

/// The nullifiers of several groups are those of each, one after the other, each in its order of
/// execution.
pub proof fn law_nullifiers_over_groups(
    records: Seq<TransactionRecord>,
    keys: Seq<AccountBlock>,
    others: Seq<AccountBlock>,
    key: AccountBlock,
)
    ensures
        nullifiers_over(records, Seq::empty()).len() == 0,
        nullifiers_over(records, seq![key]) == nullifiers_in(
            records,
            execution_order(records, members(records, key)),
        ),
        nullifiers_over(records, keys + others) == nullifiers_over(records, keys)
            + nullifiers_over(records, others),
    decreases others.len(),
{
    assert(seq![key].drop_last() =~= Seq::empty());
    assert(nullifiers_over(records, Seq::<AccountBlock>::empty()).len() == 0);
    assert(nullifiers_over(records, seq![key]) =~= nullifiers_in(
        records,
        execution_order(records, members(records, key)),
    ));
    if others.len() == 0 {
        assert(keys + others =~= keys);
        assert(nullifiers_over(records, keys) + nullifiers_over(records, others)
            =~= nullifiers_over(records, keys));
    } else {
        law_nullifiers_over_groups(records, keys, others.drop_last(), key);
        assert((keys + others).drop_last() =~= keys + others.drop_last());
        assert(nullifiers_over(records, keys + others) =~= nullifiers_over(records, keys)
            + nullifiers_over(records, others));
    }
}

/// The groups are listed by account, and those of one account by block; each that has a transaction
/// is there, and no other.
pub proof fn law_groups_are_listed(
    records: Seq<TransactionRecord>,
    keys: Seq<AccountBlock>,
    key: AccountBlock,
)
    requires
        lists_account_blocks(records, keys),
    ensures
        keys.contains(key) <==> exists|i: int|
            0 <= i < records.len() && (#[trigger] records[i]).transaction_header.account_id
                == key.account_id && records[i].block_num == key.block_num,
        forall|i: int, j: int|
            0 <= i < j < keys.len() ==> (#[trigger] keys[i]).account_id < (
            #[trigger] keys[j]).account_id || (keys[i].account_id == keys[j].account_id
                && keys[i].block_num < keys[j].block_num),
{
    assert(keys.contains(key) <==> occurs(records, key));
    if occurs(records, key) {
        let i = choose|i: int| 0 <= i < records.len() && key_of(#[trigger] records[i]) == key;
        assert(records[i].transaction_header.account_id == key.account_id);
    }
    assert forall|i: int|
        0 <= i < records.len() && (#[trigger] records[i]).transaction_header.account_id
            == key.account_id && records[i].block_num == key.block_num implies occurs(
        records,
        key,
    ) by {
        assert(key_of(records[i]) == key);
    }
    assert forall|i: int, j: int| 0 <= i < j < keys.len() implies (#[trigger] keys[i]).account_id < (
    #[trigger] keys[j]).account_id || (keys[i].account_id == keys[j].account_id
        && keys[i].block_num < keys[j].block_num) by {
        assert(crate::collections::OrdKey::rank(keys[i]) < crate::collections::OrdKey::rank(
            keys[j],
        ));
    }
}

/// Transactions that change the state, and those that keep it, are told apart by their states, and each
/// keep their order.
pub proof fn law_select(
    records: Seq<TransactionRecord>,
    txs: Seq<usize>,
    keeps_state: bool,
)
    ensures
        picks(
            select(records, txs, keeps_state),
            txs.len() as int,
            |i: int| (records[txs[i] as int].transaction_header.initial_state_commitment
                == records[txs[i] as int].transaction_header.final_state_commitment)
                == keeps_state,
            |i: int| txs[i],
        ),
    decreases txs.len(),
{
    let wanted = |i: int| (records[txs[i] as int].transaction_header.initial_state_commitment
                == records[txs[i] as int].transaction_header.final_state_commitment)
                == keeps_state;
    let value = |i: int| txs[i];
    if txs.len() == 0 {
        lemma_picks_none(wanted, value);
    } else {
        let txs_before = txs.drop_last();
        law_select(records, txs_before, keeps_state);
        lemma_picks_next(
            select(records, txs_before, keeps_state),
            |i: int| (records[txs_before[i] as int].transaction_header.initial_state_commitment
                == records[txs_before[i] as int].transaction_header.final_state_commitment)
                == keeps_state,
            |i: int| txs_before[i],
            select(records, txs, keeps_state),
            txs.len() as int,
            wanted,
            value,
        );
    }
}


/// Of several transactions that start from one state, the last one counts as the one that does.
pub proof fn law_by_initial_state(records: Seq<TransactionRecord>, txs: Seq<usize>, i: int)
    requires
        0 <= i < txs.len(),
        forall|j: int|
            i < j < txs.len() ==> records[(
            #[trigger] txs[j]) as int].transaction_header.initial_state_commitment
                != records[txs[i] as int].transaction_header.initial_state_commitment,
    ensures
        ({
            let state = records[txs[i] as int].transaction_header.initial_state_commitment;
            &&& by_initial_state(records, txs).contains_key(state)
            &&& by_initial_state(records, txs)[state] == txs[i]
        }),
    decreases txs.len(),
{
    if i < txs.len() - 1 {
        assert(txs[txs.len() - 1] == txs.last());
        law_by_initial_state(records, txs.drop_last(), i);
    }
}

/// A walk goes from state to state, by the transaction that starts there, and ends where none does. Each
/// transaction is taken once.
pub proof fn law_follow(records: Seq<TransactionRecord>, next: Map<Word, usize>, state: Word)
    requires
        next.dom().finite(),
    ensures
        !next.contains_key(state) ==> follow(records, next, state).len() == 0,
        next.contains_key(state) ==> {
            let walk = follow(records, next, state);
            let tx = next[state];
            &&& walk.len() > 0
            &&& walk[0] == tx
            &&& walk.skip(1) == follow(
                records,
                next.remove(state),
                records[tx as int].transaction_header.final_state_commitment,
            )
        },
{
    if next.contains_key(state) {
        let walk = follow(records, next, state);
        let rest = follow(
            records,
            next.remove(state),
            records[next[state] as int].transaction_header.final_state_commitment,
        );
        assert(walk == seq![next[state]] + rest);
        assert(walk.skip(1) =~= rest);
    }
}

/// Transactions that keep the state stand where the walk first is in their state; those with a state that
/// the walk is never in come last. None is lost.
pub proof fn law_weave(
    records: Seq<TransactionRecord>,
    walk: Seq<usize>,
    state: Word,
    keeping: Seq<usize>,
)
    ensures
        ({
            let here = starting(records, keeping, state, true);
            let elsewhere = starting(records, keeping, state, false);
            let all = weave(records, walk, state, keeping);
            &&& here.is_prefix_of(all)
            &&& walk.len() == 0 ==> all == here + elsewhere
            &&& walk.len() > 0 ==> all.len() > here.len() && all[here.len() as int] == walk[0]
                && all.skip((here.len() + 1) as int) == weave(
                records,
                walk.skip(1),
                records[walk[0] as int].transaction_header.final_state_commitment,
                elsewhere,
            )
        }),
{
    let here = starting(records, keeping, state, true);
    let all = weave(records, walk, state, keeping);
    assert(here =~= all.take(here.len() as int));
    if walk.len() > 0 {
        let rest = weave(
            records,
            walk.skip(1),
            records[walk[0] as int].transaction_header.final_state_commitment,
            starting(records, keeping, state, false),
        );
        assert(all == here + (seq![walk[0]] + rest));
        assert(all.skip((here.len() + 1) as int) =~= rest);
    }
}

/// Transactions can be walked if none of them changes the state, or one that does starts from a state
/// that none of them leads to. The first such one is where the walk starts.
pub proof fn law_walkable(records: Seq<TransactionRecord>, txs: Seq<usize>, at: int)
    ensures
        select(records, txs, false).len() == 0 ==> walkable(records, txs),
        ({
            let chained = select(records, txs, false);
            0 <= at < chained.len() && (forall|j: int|
                0 <= j < chained.len() ==> records[(
                #[trigger] chained[j]) as int].transaction_header.final_state_commitment
                    != records[chained[at] as int].transaction_header.initial_state_commitment)
                ==> walkable(records, txs)
        }),
        ({
            let chained = select(records, txs, false);
            walkable(records, txs) && chained.len() > 0 ==> {
                let first = first_start(records, chained);
                &&& 0 <= first < chained.len()
                &&& forall|j: int|
                    0 <= j < chained.len() ==> records[(
                    #[trigger] chained[j]) as int].transaction_header.final_state_commitment
                        != records[chained[first] as int].transaction_header.initial_state_commitment
            }
        }),
{
    let chained = select(records, txs, false);
    if 0 <= at < chained.len() && (forall|j: int|
        0 <= j < chained.len() ==> records[(
        #[trigger] chained[j]) as int].transaction_header.final_state_commitment
            != records[chained[at] as int].transaction_header.initial_state_commitment) {
        assert(is_start(records, chained, at));
    }
    if walkable(records, txs) && chained.len() > 0 {
        let some = choose|at: int| #[trigger] is_start(records, chained, at);
        lemma_first_start(records, chained, some);
        let first = first_start(records, chained);
        assert(is_start(records, chained, first));
        assert forall|j: int| 0 <= j < chained.len() implies records[(
        #[trigger] chained[j]) as int].transaction_header.final_state_commitment
            != records[chained[first] as int].transaction_header.initial_state_commitment by {
            assert(final_of(records, chained[j]) != init_of(records, chained[first]));
        }
    }
}

/// Transactions that start from a state, and those that do not, each keep their order.
pub proof fn law_starting(
    records: Seq<TransactionRecord>,
    txs: Seq<usize>,
    state: Word,
    from_state: bool,
)
    ensures
        picks(
            starting(records, txs, state, from_state),
            txs.len() as int,
            |i: int| (records[txs[i] as int].transaction_header.initial_state_commitment == state)
                == from_state,
            |i: int| txs[i],
        ),
    decreases txs.len(),
{
    let wanted = |i: int| (records[txs[i] as int].transaction_header.initial_state_commitment == state)
                == from_state;
    let value = |i: int| txs[i];
    if txs.len() == 0 {
        lemma_picks_none(wanted, value);
    } else {
        let txs_before = txs.drop_last();
        law_starting(records, txs_before, state, from_state);
        lemma_picks_next(
            starting(records, txs_before, state, from_state),
            |i: int| (records[txs_before[i] as int].transaction_header.initial_state_commitment == state)
                == from_state,
            |i: int| txs_before[i],
            starting(records, txs, state, from_state),
            txs.len() as int,
            wanted,
            value,
        );
    }
}


/// Transactions that change the state are walked from the first one that starts from a state which none of
/// them leads to; those that keep the state are woven in. Without any that change it, the others keep
/// their order.
pub proof fn law_execution_order(records: Seq<TransactionRecord>, txs: Seq<usize>, at: int)
    ensures
        select(records, txs, false).len() == 0 ==> execution_order(records, txs) == select(
            records,
            txs,
            true,
        ),
        ({
            let chained = select(records, txs, false);
            let first = chained[at];
            let state = records[first as int].transaction_header.initial_state_commitment;
            0 <= at < chained.len() && is_start(records, chained, at) && (forall|j: int|
                0 <= j < at ==> !is_start(records, chained, j)) ==> execution_order(records, txs)
                == weave(
                records,
                follow(records, by_initial_state(records, chained), state),
                state,
                select(records, txs, true),
            )
        }),
{
    let chained = select(records, txs, false);
    if 0 <= at < chained.len() && is_start(records, chained, at) && (forall|j: int|
        0 <= j < at ==> !is_start(records, chained, j)) {
        lemma_first_start(records, chained, at);
        let first = first_start(records, chained);
        reveal(first_start);
        assert(first == at) by {
            if first < at {
                assert(!is_start(records, chained, first));
            }
            if at < first {
                assert(!is_start(records, chained, at));
            }
        }
    }
}

/// A transaction starts a walk if and only if none of the transactions, wherever it stands, leads to the
/// state that it starts from.
pub proof fn law_is_start(records: Seq<TransactionRecord>, txs: Seq<usize>, at: int)
    requires
        0 <= at < txs.len(),
    ensures
        is_start(records, txs, at) <==> forall|j: int|
            0 <= j < txs.len() ==> records[(
            #[trigger] txs[j]) as int].transaction_header.final_state_commitment
                != records[txs[at] as int].transaction_header.initial_state_commitment,
{
    if !is_start(records, txs, at) {
        let j = choose|j: int|
            0 <= j < txs.len() && final_of(records, #[trigger] txs[j]) == init_of(records, txs[at]);
        assert(records[txs[j] as int].transaction_header.final_state_commitment
            == records[txs[at] as int].transaction_header.initial_state_commitment);
    } else {
        assert forall|j: int| 0 <= j < txs.len() implies records[(
        #[trigger] txs[j]) as int].transaction_header.final_state_commitment
            != records[txs[at] as int].transaction_header.initial_state_commitment by {
            if final_of(records, txs[j]) == init_of(records, txs[at]) {
                assert(reached(records, txs, init_of(records, txs[at])));
            }
        }
    }
}

} // verus!
