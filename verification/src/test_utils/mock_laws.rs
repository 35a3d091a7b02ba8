//! What the node that runs in memory answers, over all chains and requests.
use vstd::prelude::*;

use crate::collections::{lemma_picks_next, lemma_picks_none, picks, OrdMap};
use crate::mmr::canonical;
use crate::rpc::domain::account::{
    header_commitment_of, smt_keys, smt_root, storage_map_root_of, AccountProofError, SlotId,
    StorageMapEntry, StorageSlotHeader,
};
use crate::rpc::domain::account_proof::{
    AccountDetails, AccountProof, AccountStateAt, AccountWitness, StorageMapFetch,
};
use crate::rpc::domain::account_storage::StorageMapEntries;
use crate::rpc::domain::note::{CommittedNote, FetchedNote, NullifierUpdate, SyncNotesBlock};
use crate::rpc::domain::transaction::{TransactionHeader, TransactionRecord};
use crate::test_utils::mock::{commitments_of, updates_by_block, updates_view, MockRpcApi};
use crate::test_utils::mock_account::{
    all_maps, can_serve, has_entries, is_answer_for, is_details_of, is_first_invalid, is_map_answer,
    is_map_slot, is_state_among, requested_maps, state_problem, tree_entries, MockAccount,
    MockAccountState,
};
use crate::test_utils::mock_answers::{
    accounts_at, is_answer_of, notes_after, nullifiers_after, ProvenBlock,
};
use crate::test_utils::mock_chain::{
    blocks_in_order, chain_changes, maps_merged, merged, update_changes, updates_changes,
    AccountChanges, MockAccountUpdate, MockBlock, MockChain, MockChainNote,
};
use crate::test_utils::mock_notes::{
    are_grouped, are_notes_of, is_committed_of, is_listed, is_notes_block, is_requested, path_sent,
};
use crate::test_utils::mock_sync::{
    are_records_of, attachments_view, has_script, ids_of_type, is_first_updating,
    is_first_with_script, is_served, known_ids, nullifiers_in, registered_after, same_bytes,
    same_header, sends_config, transactions_in, transactions_of, MockOutputNote, ServedNote,
};
use crate::types::{AccountId, BlockNumber, NoteId, NoteTag, Word};

verus! {

// ACCOUNTS
// ================================================================================================
/// A slot is a map if any header, wherever it stands, says so.
pub proof fn law_map_slot(slots: Seq<StorageSlotHeader>, slot: SlotId, i: int)
    ensures
        0 <= i < slots.len() && slots[i].slot_type is MapRoot ==> is_map_slot(
            slots,
            slots[i].slot_name,
        ),
        is_map_slot(slots, slot) ==> exists|k: int|
            0 <= k < slots.len() && (#[trigger] slots[k]).slot_name == slot
                && slots[k].slot_type is MapRoot,
{
}

/// The entries of a map slot are those whose root the slot has; a value slot needs none. The first slot
/// without them is what is named.
pub proof fn law_map_entries(account: MockAccount, slot: StorageSlotHeader, i: int)
    ensures
        slot.slot_type is Value ==> has_entries(account, slot),
        slot.slot_type is MapRoot ==> (has_entries(account, slot) <==> account.maps@.contains_key(
            slot.slot_name,
        ) && storage_map_root_of(account.maps@[slot.slot_name]@) == Some(slot.value)),
        is_first_invalid(account, i) ==> 0 <= i < account.slots@.len() && !has_entries(
            account,
            account.slots@[i],
        ) && forall|k: int| 0 <= k < i ==> has_entries(account, #[trigger] account.slots@[k]),
{
}

/// A state is accepted if and only if the witness is of the same account and state, and the code is the
/// one that the header commits to.
pub proof fn law_state_problem(witness: AccountWitness, account: MockAccount)
    ensures
        ({
            let problem = state_problem(witness, account);
            let same = header_commitment_of(account.header) == Some(witness.state_commitment);
            &&& problem is None <==> same && witness.id == account.header.id
                && account.header.code_commitment == account.code.commitment
            &&& !same <==> problem == Some(AccountProofError::InconsistentAccountCommitment)
            &&& same && witness.id != account.header.id <==> problem == Some(
                AccountProofError::InconsistentAccountId,
            )
        }),
{
}

/// All maps of an account are those slots that are maps, in order, with no keys.
pub proof fn law_all_maps(
    slots: Seq<StorageSlotHeader>,
)
    ensures
        picks(
            all_maps(slots),
            slots.len() as int,
            |i: int| slots[i].slot_type is MapRoot,
            |i: int| (slots[i].slot_name, Seq::<Word>::empty()),
        ),
    decreases slots.len(),
{
    let wanted = |i: int| slots[i].slot_type is MapRoot;
    let value = |i: int| (slots[i].slot_name, Seq::<Word>::empty());
    if slots.len() == 0 {
        lemma_picks_none(wanted, value);
    } else {
        let slots_before = slots.drop_last();
        law_all_maps(slots_before);
        lemma_picks_next(
            all_maps(slots_before),
            |i: int| slots_before[i].slot_type is MapRoot,
            |i: int| (slots_before[i].slot_name, Seq::<Word>::empty()),
            all_maps(slots),
            slots.len() as int,
            wanted,
            value,
        );
    }
}

/// What is asked of the maps is nothing, the required keys of the required slots, or all maps. It can be
/// served if every required slot is a map.
pub proof fn law_requested_maps(account: MockAccount, storage: StorageMapFetch, slot: SlotId, i: int)
    ensures
        storage is Skip ==> requested_maps(account.slots@, storage).len() == 0 && can_serve(
            account,
            storage,
        ),
        storage is All ==> requested_maps(account.slots@, storage) == all_maps(account.slots@)
            && can_serve(account, storage),
        storage matches StorageMapFetch::Slots(requirements) ==> {
            let listed = requirements.slots.listing();
            let maps = requested_maps(account.slots@, storage);
            &&& maps.len() == listed.len()
            &&& 0 <= i < listed.len() ==> maps[i].0 == listed[i].0 && maps[i].1 == listed[i].1@
            &&& can_serve(account, storage) && requirements.slots@.contains_key(slot)
                ==> is_map_slot(account.slots@, slot)
        },
{
}

/// With keys a map is answered by a tree that carries their values; without, by all entries, or by
/// saying that there are too many.
pub proof fn law_map_answer(
    answer: StorageMapEntries,
    entries: Seq<StorageMapEntry>,
    keys: Seq<Word>,
    oversize_threshold: usize,
)
    requires
        is_answer_for(answer, entries, keys, oversize_threshold),
    ensures
        answer is PartialMap <==> keys.len() > 0,
        answer is LimitExceeded <==> keys.len() == 0 && entries.len() > oversize_threshold,
        answer matches StorageMapEntries::AllEntries(sent) ==> sent@ == entries,
        answer matches StorageMapEntries::PartialMap { map_keys, partial_smt } ==> {
            &&& map_keys@ == keys
            &&& storage_map_root_of(entries) == Some(smt_root(partial_smt))
            &&& forall|i: int|
                0 <= i < keys.len() ==> smt_keys(partial_smt).contains(#[trigger] keys[i])
        },
{
}

/// Details are those of the account: its header, its code, its slots, its assets, and the answer for
/// each map that was asked for, in order.
pub proof fn law_details_of_account(
    details: AccountDetails,
    account: MockAccount,
    storage: StorageMapFetch,
    oversize_threshold: usize,
    i: int,
)
    requires
        is_details_of(details, account, storage, oversize_threshold),
    ensures
        details.header == account.header,
        details.code.commitment == account.code.commitment,
        details.code.serialized@ == account.code.serialized@,
        details.storage_details.header@ == account.slots@,
        details.vault_details.assets@ == account.assets@,
        details.vault_details.too_many_assets == (account.assets@.len() > oversize_threshold),
        ({
            let maps = details.storage_details.map_details@;
            let requested = requested_maps(account.slots@, storage);
            &&& maps.len() == requested.len()
            &&& 0 <= i < requested.len() ==> maps[i].slot_name == requested[i].0 && is_answer_for(
                maps[i].entries,
                account.maps@[requested[i].0]@,
                requested[i].1,
                oversize_threshold,
            )
        }),
{
    let requested = requested_maps(account.slots@, storage);
    if 0 <= i < requested.len() {
        assert(is_map_answer(
            details.storage_details.map_details@[i],
            account,
            requested[i],
            oversize_threshold,
        ));
    }
}

/// A state is in the tree if it is no state at all, or that of any entry.
pub proof fn law_state_among(
    state_commitment: Word,
    entries: Seq<(AccountId, Word)>,
    i: int,
    accounts: OrdMap<AccountId, MockAccountState>,
)
    ensures
        is_state_among(Word { e0: 0, e1: 0, e2: 0, e3: 0 }, entries),
        0 <= i < entries.len() ==> is_state_among(canonical(entries[i].1), entries),
        is_state_among(state_commitment, entries) ==> state_commitment == (Word {
            e0: 0,
            e1: 0,
            e2: 0,
            e3: 0,
        }) || exists|k: int|
            0 <= k < entries.len() && canonical((#[trigger] entries[k]).1) == state_commitment,
        tree_entries(accounts).len() == accounts.listing().len(),
        0 <= i < accounts.listing().len() ==> tree_entries(accounts)[i].0 == accounts.listing()[i].0
            && tree_entries(accounts)[i].1 == accounts.listing()[i].1.witness().state_commitment,
{
}

/// The accounts at the tip are the current ones, by whatever name the tip goes; those at an earlier
/// block are the ones that were kept, if they were.
pub proof fn law_accounts_at(api: MockRpcApi, at: AccountStateAt)
    ensures
        at is ChainTip ==> accounts_at(api, at) == Some(api.chain.accounts) && api.block_of(at)
            == api.chain.blocks@.len() - 1,
        at matches AccountStateAt::Block(number) ==> {
            &&& api.block_of(at) == number
            &&& number + 1 == api.chain.blocks@.len() ==> accounts_at(api, at) == Some(
                api.chain.accounts,
            )
            &&& number + 1 != api.chain.blocks@.len() && api.historical_chains@.contains_key(number)
                ==> accounts_at(api, at) == Some(api.historical_chains@[number])
            &&& number + 1 != api.chain.blocks@.len() && !api.historical_chains@.contains_key(
                number,
            ) ==> accounts_at(api, at) is None
        },
{
}

/// An account is answered with its witness, and with details if it is public; the parts agree.
pub proof fn law_account_answer(
    found: AccountProof,
    state: MockAccountState,
    storage: StorageMapFetch,
    oversize_threshold: usize,
)
    requires
        is_answer_of(found, state, storage, oversize_threshold),
    ensures
        found.is_consistent(),
        found.account_witness.id == state.witness().id,
        found.account_witness.state_commitment == state.witness().state_commitment,
        found.account_witness.path@ == state.witness().path@,
        found.state_headers is Some <==> state.account() is Some,
        found.state_headers matches Some(details) ==> is_details_of(
            details,
            state.account()->0,
            storage,
            oversize_threshold,
        ),
{
}

/// A page ends five blocks after its start, at the end of the range or at the tip, whichever comes
/// first.
pub proof fn law_page_end(api: MockRpcApi, block_from: BlockNumber, block_to: BlockNumber)
    ensures
        api.page_end(block_from, block_to) <= block_from + 5,
        api.page_end(block_from, block_to) <= block_to,
        api.page_end(block_from, block_to) < api.chain.blocks@.len(),
        api.page_end(block_from, block_to) == block_from + 5 || api.page_end(block_from, block_to)
            == block_to || api.page_end(block_from, block_to) == api.chain.blocks@.len() - 1,
{
}

// CHAIN
// ================================================================================================
/// Blocks are in order if each has the number of its position. The tip is the last one, and the leaves
/// are the commitments of all of them.
pub proof fn law_chain_parts(chain: MockChain, i: int)
    ensures
        chain.tip() == chain.blocks@.len() - 1,
        chain.leaves().len() == chain.blocks@.len(),
        0 <= i < chain.blocks@.len() ==> chain.leaves()[i] == chain.blocks@[i].header.commitment,
        blocks_in_order(chain.blocks@) && 0 <= i < chain.blocks@.len()
            ==> chain.blocks@[i].header.block_num == i,
        (forall|k: int|
            0 <= k < chain.blocks@.len() ==> (#[trigger] chain.blocks@[k]).header.block_num == k)
            ==> blocks_in_order(chain.blocks@),
{
}

/// A block that is proven follows the tip directly.
pub proof fn law_proven_block_follows(proven: ProvenBlock, tip: int)
    ensures
        proven.follows(tip) <==> proven.block.header.block_num == tip + 1,
{
}

/// Proven blocks add their notes and nullifiers, one block after the other; the notes of a later block
/// replace those of an earlier one.
pub proof fn law_proven_blocks(
    notes: Map<NoteId, MockChainNote>,
    nullifiers: Seq<NullifierUpdate>,
    proven: Seq<ProvenBlock>,
    block: ProvenBlock,
    note_id: NoteId,
)
    ensures
        notes_after(notes, Seq::empty()) == notes,
        nullifiers_after(nullifiers, Seq::empty()) == nullifiers,
        nullifiers_after(nullifiers, proven.push(block)) == nullifiers_after(nullifiers, proven)
            + block.nullifiers@,
        ({
            let before = notes_after(notes, proven);
            let now = notes_after(notes, proven.push(block));
            &&& now.contains_key(note_id) <==> before.contains_key(note_id)
                || block.notes@.contains_key(note_id)
            &&& block.notes@.contains_key(note_id) ==> now[note_id] == block.notes@[note_id]
            &&& before.contains_key(note_id) && !block.notes@.contains_key(note_id)
                ==> now[note_id] == before[note_id]
        }),
{
    assert(proven.push(block).drop_last() =~= proven);
}

/// Later changes of an account replace earlier ones, key by key; what they do not mention stays.
pub proof fn law_merged(
    earlier: AccountChanges,
    later: AccountChanges,
    asset: Word,
    slot: SlotId,
    key: Word,
)
    ensures
        ({
            let now = merged(earlier, later);
            let was = earlier.maps.contains_key(slot) && earlier.maps[slot].contains_key(key);
            let came = later.maps.contains_key(slot) && later.maps[slot].contains_key(key);
            &&& now.assets.contains_key(asset) <==> earlier.assets.contains_key(asset)
                || later.assets.contains_key(asset)
            &&& later.assets.contains_key(asset) ==> now.assets[asset] == later.assets[asset]
            &&& earlier.assets.contains_key(asset) && !later.assets.contains_key(asset)
                ==> now.assets[asset] == earlier.assets[asset]
            &&& now.maps.contains_key(slot) <==> earlier.maps.contains_key(slot)
                || later.maps.contains_key(slot)
            &&& now.maps.contains_key(slot) ==> (now.maps[slot].contains_key(key) <==> was || came)
            &&& came ==> now.maps[slot][key] == later.maps[slot][key]
            &&& was && !came ==> now.maps[slot][key] == earlier.maps[slot][key]
            &&& now.maps == maps_merged(earlier.maps, later.maps)
        }),
{
}

/// An update changes its own account, by what its patch says, if it has one, and no other account.
pub proof fn law_update_changes(update: MockAccountUpdate, account_id: AccountId, slot: SlotId)
    ensures
        update.account_id != account_id || update.public_patch is None ==> update_changes(
            update,
            account_id,
        ).assets.dom().len() == 0 && update_changes(update, account_id).maps.dom().len() == 0,
        update.public_patch matches Some(patch) ==> (update.account_id == account_id ==> {
            let changes = update_changes(update, account_id);
            &&& changes.assets == patch.vault.assets@
            &&& changes.maps.contains_key(slot) == patch.maps@.contains_key(slot)
            &&& patch.maps@.contains_key(slot) ==> changes.maps[slot] == patch.maps@[slot]@
        }),
{
}

/// Updates are taken one after the other, and so are the blocks of the range, both ends included; blocks
/// outside of it change nothing.
pub proof fn law_changes_in_order(
    updates: Seq<MockAccountUpdate>,
    update: MockAccountUpdate,
    blocks: Seq<MockBlock>,
    block: MockBlock,
    account_id: AccountId,
    from: int,
    to: int,
)
    ensures
        updates_changes(Seq::empty(), account_id).assets.dom().len() == 0,
        updates_changes(Seq::empty(), account_id).maps.dom().len() == 0,
        updates_changes(updates.push(update), account_id) == merged(
            updates_changes(updates, account_id),
            update_changes(update, account_id),
        ),
        chain_changes(Seq::empty(), account_id, from, to).assets.dom().len() == 0,
        chain_changes(Seq::empty(), account_id, from, to).maps.dom().len() == 0,
        block.header.block_num >= from && block.header.block_num <= to ==> chain_changes(
            blocks.push(block),
            account_id,
            from,
            to,
        ) == merged(
            chain_changes(blocks, account_id, from, to),
            updates_changes(block.updated_accounts@, account_id),
        ),
        block.header.block_num < from || block.header.block_num > to ==> chain_changes(
            blocks.push(block),
            account_id,
            from,
            to,
        ) == chain_changes(blocks, account_id, from, to),
{
    assert(updates.push(update).drop_last() =~= updates);
    assert(blocks.push(block).drop_last() =~= blocks);
}

/// The last update of an account in a block says its commitment.
pub proof fn law_commitments(updates: Seq<MockAccountUpdate>, i: int)
    requires
        0 <= i < updates.len(),
        forall|j: int|
            i < j < updates.len() ==> (#[trigger] updates[j]).account_id != updates[i].account_id,
    ensures
        commitments_of(updates).contains_key(updates[i].account_id),
        commitments_of(updates)[updates[i].account_id] == updates[i].final_state_commitment,
    decreases updates.len(),
{
    if i < updates.len() - 1 {
        assert(updates[updates.len() - 1].account_id != updates[i].account_id);
        law_commitments(updates.drop_last(), i);
    }
}

/// An account without an update has no commitment.
pub proof fn law_no_commitment(updates: Seq<MockAccountUpdate>, account_id: AccountId)
    requires
        forall|i: int|
            0 <= i < updates.len() ==> (#[trigger] updates[i]).account_id != account_id,
    ensures
        !commitments_of(updates).contains_key(account_id),
    decreases updates.len(),
{
    if updates.len() > 0 {
        assert(updates[updates.len() - 1].account_id != account_id);
        law_no_commitment(updates.drop_last(), account_id);
    }
}

/// Updates are kept for each block that has some, and for no other.
pub proof fn law_updates_by_block(
    blocks: Seq<MockBlock>,
    block: MockBlock,
    other: BlockNumber,
    updates: Map<BlockNumber, OrdMap<AccountId, Word>>,
)
    ensures
        updates_by_block(Seq::empty()).dom().len() == 0,
        block.updated_accounts@.len() == 0 ==> updates_by_block(blocks.push(block))
            == updates_by_block(blocks),
        block.updated_accounts@.len() > 0 ==> {
            let now = updates_by_block(blocks.push(block));
            &&& now.contains_key(block.header.block_num)
            &&& now[block.header.block_num] == commitments_of(block.updated_accounts@)
            &&& other != block.header.block_num ==> now.contains_key(other) == updates_by_block(
                blocks,
            ).contains_key(other) && now[other] == updates_by_block(blocks)[other]
        },
        updates_view(updates).contains_key(other) == updates.contains_key(other),
        updates.contains_key(other) ==> updates_view(updates)[other] == updates[other]@,
{
    assert(blocks.push(block).drop_last() =~= blocks);
}

// NOTES
// ================================================================================================
/// A note is sent if and only if its tag is one of the tags, whichever one, and its block lies in the
/// range, both ends included.
pub proof fn law_requested_note(
    note: MockChainNote,
    tags: Seq<NoteTag>,
    from: BlockNumber,
    to: BlockNumber,
)
    ensures
        is_requested(note, tags, from, to) <==> note.inclusion_proof.block_num >= from
            && note.inclusion_proof.block_num <= to && exists|k: int|
            0 <= k < tags.len() && #[trigger] tags[k] == note.metadata.tag,
{
    if tags.contains(note.metadata.tag) {
        let k = choose|k: int| 0 <= k < tags.len() && tags[k] == note.metadata.tag;
        assert(tags[k] == note.metadata.tag);
    }
}

/// A note that is sent is the note of the chain, with its attachments if each of them is a single word.
pub proof fn law_committed_note(committed: CommittedNote, id: NoteId, note: MockChainNote)
    requires
        is_committed_of(committed, id, note),
    ensures
        committed.note_id == id,
        committed.metadata == note.metadata,
        committed.inclusion_proof.block_num == note.inclusion_proof.block_num,
        committed.inclusion_proof.node_index == note.inclusion_proof.node_index,
        committed.inclusion_proof.note_path@ == note.inclusion_proof.note_path@,
        committed.attachments is Some <==> forall|i: int|
            0 <= i < note.attachment_words@.len() ==> #[trigger] note.attachment_words@[i] == 1,
        committed.attachments matches Some(sent) ==> sent@ == note.attachments@,
{
}

/// The notes that are sent for a block are those of the block that were asked for, all of them.
pub proof fn law_notes_of_block(
    sent: Map<NoteId, CommittedNote>,
    notes: Map<NoteId, MockChainNote>,
    tags: Seq<NoteTag>,
    from: BlockNumber,
    to: BlockNumber,
    block_num: BlockNumber,
    id: NoteId,
)
    requires
        are_notes_of(sent, notes, tags, from, to, block_num),
    ensures
        sent.contains_key(id) <==> notes.contains_key(id) && is_requested(notes[id], tags, from, to)
            && notes[id].inclusion_proof.block_num == block_num,
        sent.contains_key(id) ==> is_committed_of(sent[id], id, notes[id]),
{
    assert(sent.contains_key(id) <==> is_listed(notes, tags, from, to, block_num, id));
}

/// Notes are grouped by block: every note that was asked for is in the group of its block, and no group
/// is empty.
pub proof fn law_grouped_notes(
    grouped: Map<BlockNumber, OrdMap<NoteId, CommittedNote>>,
    notes: Map<NoteId, MockChainNote>,
    tags: Seq<NoteTag>,
    from: BlockNumber,
    to: BlockNumber,
    id: NoteId,
    block_num: BlockNumber,
)
    requires
        are_grouped(grouped, notes, tags, from, to),
    ensures
        notes.contains_key(id) && is_requested(notes[id], tags, from, to) ==> {
            let at = notes[id].inclusion_proof.block_num;
            &&& grouped.contains_key(at)
            &&& grouped[at]@.contains_key(id)
            &&& is_committed_of(grouped[at]@[id], id, notes[id])
        },
        grouped.contains_key(block_num) ==> grouped[block_num].listing().len() > 0 && (
        grouped[block_num]@.contains_key(id) ==> notes.contains_key(id)
            && notes[id].inclusion_proof.block_num == block_num && is_requested(
            notes[id],
            tags,
            from,
            to,
        )),
{
    if grouped.contains_key(block_num) {
        law_notes_of_block(grouped[block_num]@, notes, tags, from, to, block_num, id);
    }
    if notes.contains_key(id) && is_requested(notes[id], tags, from, to) {
        let at = notes[id].inclusion_proof.block_num;
        assert(grouped.contains_key(at));
        law_notes_of_block(grouped[at]@, notes, tags, from, to, at, id);
    }
}

/// A block is sent with its header, with the path that was set for it or else its own, and with at least
/// one note.
pub proof fn law_notes_block(
    api: MockRpcApi,
    block: SyncNotesBlock,
    tags: Seq<NoteTag>,
    from: BlockNumber,
    to: BlockNumber,
)
    requires
        is_notes_block(api, block, tags, from, to),
    ensures
        ({
            let block_num = block.block_header.block_num;
            &&& block_num < api.chain.blocks@.len()
            &&& block.block_header == api.chain.blocks@[block_num as int].header
            &&& api.sync_notes_mmr_path_overrides@.contains_key(block_num) ==> block.mmr_path@
                == api.sync_notes_mmr_path_overrides@[block_num]@
            &&& !api.sync_notes_mmr_path_overrides@.contains_key(block_num) ==> block.mmr_path@
                == crate::test_utils::mock_chain::mmr_path_of(
                api.chain.leaves(),
                block_num as nat,
            )
            &&& block.notes.listing().len() > 0
            &&& are_notes_of(block.notes@, api.chain.notes@, tags, from, to, block_num)
        }),
{
    assert(block.mmr_path@ == path_sent(api, block.block_header.block_num));
}

// SYNC
// ================================================================================================
/// Lists of bytes are the same if they have as many, and the same at each position.
pub proof fn law_same_bytes(a: Seq<Vec<u8>>, b: Seq<Vec<u8>>, i: int)
    requires
        same_bytes(a, b),
    ensures
        a.len() == b.len(),
        0 <= i < a.len() ==> a[i]@ == b[i]@,
{
}

/// The configuration is sent to a client at the first block, and to one for which it changed up to the
/// tip.
pub proof fn law_sends_config(chain: MockChain, current: BlockNumber)
    ensures
        current == 0 ==> sends_config(chain, current),
        current > 0 && current + 1 == chain.blocks@.len() ==> !sends_config(chain, current),
        current > 0 && current + 1 != chain.blocks@.len() ==> (sends_config(chain, current)
            <==> chain.blocks@[current as int].header.protocol_config_commitment
            != chain.blocks@[chain.blocks@.len() - 1].header.protocol_config_commitment),
{
}

/// The first block that updates accounts does, and none before it does.
pub proof fn law_first_updating(blocks: Seq<MockBlock>, i: int, k: int)
    requires
        is_first_updating(blocks, i),
    ensures
        blocks[i].updated_accounts@.len() > 0,
        0 <= k < i ==> blocks[k].updated_accounts@.len() == 0,
{
}

/// Headers are the same if all of their parts are.
pub proof fn law_same_header(a: TransactionHeader, b: TransactionHeader)
    ensures
        same_header(a, b) <==> a.id == b.id && a.account_id == b.account_id
            && a.initial_state_commitment == b.initial_state_commitment && a.final_state_commitment
            == b.final_state_commitment && a.input_nullifiers@ == b.input_nullifiers@,
{
}

/// The transactions of a block that are sent are those of the accounts that were asked for, whichever
/// of them, all and in order.
pub proof fn law_transactions_of_block(
    block_num: BlockNumber,
    transactions: Seq<TransactionHeader>,
    account_ids: Seq<AccountId>,
)
    ensures
        picks(
            transactions_of(block_num, transactions, account_ids),
            transactions.len() as int,
            |i: int| account_ids.contains(transactions[i].account_id),
            |i: int| (block_num, transactions[i]),
        ),
    decreases transactions.len(),
{
    let wanted = |i: int| account_ids.contains(transactions[i].account_id);
    let value = |i: int| (block_num, transactions[i]);
    if transactions.len() == 0 {
        lemma_picks_none(wanted, value);
    } else {
        let transactions_before = transactions.drop_last();
        law_transactions_of_block(block_num, transactions_before, account_ids);
        lemma_picks_next(
            transactions_of(block_num, transactions_before, account_ids),
            |i: int| account_ids.contains(transactions_before[i].account_id),
            |i: int| (block_num, transactions_before[i]),
            transactions_of(block_num, transactions, account_ids),
            transactions.len() as int,
            wanted,
            value,
        );
    }
}

/// Transactions are sent block by block, for the blocks of the range, both ends included.
pub proof fn law_transactions_in_range(
    blocks: Seq<MockBlock>,
    block: MockBlock,
    account_ids: Seq<AccountId>,
    from: BlockNumber,
    to: BlockNumber,
)
    ensures
        transactions_in(Seq::empty(), account_ids, from, to).len() == 0,
        block.header.block_num >= from && block.header.block_num <= to ==> transactions_in(
            blocks.push(block),
            account_ids,
            from,
            to,
        ) == transactions_in(blocks, account_ids, from, to) + transactions_of(
            block.header.block_num,
            block.transactions@,
            account_ids,
        ),
        block.header.block_num < from || block.header.block_num > to ==> transactions_in(
            blocks.push(block),
            account_ids,
            from,
            to,
        ) == transactions_in(blocks, account_ids, from, to),
{
    assert(blocks.push(block).drop_last() =~= blocks);
}

/// A record is sent for each transaction, with its block and its header.
pub proof fn law_records(
    records: Seq<TransactionRecord>,
    transactions: Seq<(BlockNumber, TransactionHeader)>,
    erased_notes: Seq<NoteId>,
    i: int,
)
    requires
        are_records_of(records, transactions, erased_notes),
        0 <= i < transactions.len(),
    ensures
        records.len() == transactions.len(),
        records[i].block_num == transactions[i].0,
        records[i].transaction_header.id == transactions[i].1.id,
        records[i].transaction_header.account_id == transactions[i].1.account_id,
        records[i].transaction_header.initial_state_commitment
            == transactions[i].1.initial_state_commitment,
        records[i].transaction_header.final_state_commitment
            == transactions[i].1.final_state_commitment,
        records[i].transaction_header.input_nullifiers@ == transactions[i].1.input_nullifiers@,
        records[i].erased_output_notes@ == erased_notes,
        records[i].output_notes@.len() == 0,
        records[i].consumed_note_refs@.len() == 0,
{
}

/// The nullifiers that are sent are those with one of the prefixes, whichever one, that were recorded in
/// the range, both ends included, all of them and in order.
pub proof fn law_nullifiers_in_range(
    nullifiers: Seq<NullifierUpdate>,
    prefixes: Seq<u16>,
    from: BlockNumber,
    to: BlockNumber,
)
    ensures
        picks(
            nullifiers_in(nullifiers, prefixes, from, to),
            nullifiers.len() as int,
            |i: int| prefixes.contains((nullifiers[i].nullifier.e3 / 0x1_0000_0000_0000) as u16)
                && nullifiers[i].block_num >= from && nullifiers[i].block_num <= to,
            |i: int| nullifiers[i],
        ),
    decreases nullifiers.len(),
{
    let wanted = |i: int| prefixes.contains((nullifiers[i].nullifier.e3 / 0x1_0000_0000_0000) as u16)
                && nullifiers[i].block_num >= from && nullifiers[i].block_num <= to;
    let value = |i: int| nullifiers[i];
    if nullifiers.len() == 0 {
        lemma_picks_none(wanted, value);
    } else {
        let nullifiers_before = nullifiers.drop_last();
        law_nullifiers_in_range(nullifiers_before, prefixes, from, to);
        lemma_picks_next(
            nullifiers_in(nullifiers_before, prefixes, from, to),
            |i: int| prefixes.contains((nullifiers_before[i].nullifier.e3 / 0x1_0000_0000_0000) as u16)
                && nullifiers_before[i].block_num >= from && nullifiers_before[i].block_num <= to,
            |i: int| nullifiers_before[i],
            nullifiers_in(nullifiers, prefixes, from, to),
            nullifiers.len() as int,
            wanted,
            value,
        );
    }
}

/// The notes that are sent are those that the chain has, in the order in which they were asked for.
pub proof fn law_known_ids(
    ids: Seq<NoteId>,
    notes: Map<NoteId, MockChainNote>,
)
    ensures
        picks(
            known_ids(ids, notes),
            ids.len() as int,
            |i: int| notes.contains_key(ids[i]),
            |i: int| ids[i],
        ),
    decreases ids.len(),
{
    let wanted = |i: int| notes.contains_key(ids[i]);
    let value = |i: int| ids[i];
    if ids.len() == 0 {
        lemma_picks_none(wanted, value);
    } else {
        let ids_before = ids.drop_last();
        law_known_ids(ids_before, notes);
        lemma_picks_next(
            known_ids(ids_before, notes),
            |i: int| notes.contains_key(ids_before[i]),
            |i: int| ids_before[i],
            known_ids(ids, notes),
            ids.len() as int,
            wanted,
            value,
        );
    }
}

/// A public note is served with its nullifier and attachments; a private one with those that were
/// registered for it, if any were.
pub proof fn law_served_note(
    served: ServedNote,
    note_id: NoteId,
    note: MockChainNote,
    registered: Map<NoteId, Vec<u8>>,
)
    requires
        is_served(served, note_id, note, registered),
    ensures
        served.note is Public <==> note.public is Some,
        served.note matches FetchedNote::Public { note_id: id, nullifier, block_num } ==> id
            == note_id && nullifier == note.public->0.nullifier && block_num
            == note.inclusion_proof.block_num && served.attachments@ == note.attachments@,
        served.note matches FetchedNote::Private { note_id: id, block_num } ==> id == note_id
            && block_num == note.inclusion_proof.block_num && (registered.contains_key(note_id)
            ==> served.attachments@ == registered[note_id]@) && (!registered.contains_key(note_id)
            ==> served.attachments@.len() == 0),
{
}

/// The public notes are those with details, and the private ones those without, in order.
pub proof fn law_ids_of_type(
    entries: Seq<(NoteId, MockChainNote)>,
    public: bool,
)
    ensures
        picks(
            ids_of_type(entries, public),
            entries.len() as int,
            |i: int| (entries[i].1.public is Some) == public,
            |i: int| entries[i].0,
        ),
    decreases entries.len(),
{
    let wanted = |i: int| (entries[i].1.public is Some) == public;
    let value = |i: int| entries[i].0;
    if entries.len() == 0 {
        lemma_picks_none(wanted, value);
    } else {
        let entries_before = entries.drop_last();
        law_ids_of_type(entries_before, public);
        lemma_picks_next(
            ids_of_type(entries_before, public),
            |i: int| (entries_before[i].1.public is Some) == public,
            |i: int| entries_before[i].0,
            ids_of_type(entries, public),
            entries.len() as int,
            wanted,
            value,
        );
    }
}

/// A script is found in the first public note that has its root.
pub proof fn law_first_with_script(entries: Seq<(NoteId, MockChainNote)>, root: Word, i: int, k: int)
    requires
        is_first_with_script(entries, root, i),
    ensures
        0 <= i < entries.len(),
        entries[i].1.public is Some && entries[i].1.public->0.script.root == root,
        0 <= k < i && entries[k].1.public is Some ==> entries[k].1.public->0.script.root != root,
{
    if 0 <= k < i {
        assert(!has_script(entries[k].1, root));
    }
}

/// The attachments of a private note are registered if there are any, and replace earlier ones; nothing
/// is registered for other notes.
pub proof fn law_registered_attachments(
    registered: Map<NoteId, Seq<u8>>,
    output_notes: Seq<MockOutputNote>,
    note: MockOutputNote,
    stored: Map<NoteId, Vec<u8>>,
    id: NoteId,
)
    ensures
        registered_after(registered, Seq::empty()) == registered,
        note.note_type is Private && note.attachments@.len() > 0 ==> registered_after(
            registered,
            output_notes.push(note),
        ) == registered_after(registered, output_notes).insert(note.note_id, note.attachments@),
        note.note_type is Public || note.attachments@.len() == 0 ==> registered_after(
            registered,
            output_notes.push(note),
        ) == registered_after(registered, output_notes),
        attachments_view(stored).contains_key(id) == stored.contains_key(id),
        stored.contains_key(id) ==> attachments_view(stored)[id] == stored[id]@,
{
    assert(output_notes.push(note).drop_last() =~= output_notes);
}

} // verus!
