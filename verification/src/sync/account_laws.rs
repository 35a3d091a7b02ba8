//! What a sync does with the accounts of the client, over all answers of a node.
use vstd::prelude::*;

use crate::account::is_private_of;
use crate::collections::{
    has_key, is_first_repeat, lemma_picks_next, lemma_picks_none, picks,
};
use crate::errors::{ChainValidationError, SyncError};
use crate::rpc::domain::account::{
    header_commitment_of, witness_root_of, AccountHeader, SlotId, StorageMapEntry,
    StorageSlotHeader,
};
use crate::rpc::domain::account_proof::{AccountDetails, AccountProof};
use crate::sync::account_sync::{
    applied, diverging_private, diverging_public, header_mismatch, last_header, mismatched,
    private_mismatch, public_accounts, public_action, public_proof_problem, superseded,
    value_slots, PublicAccountSync,
};
use crate::sync::account_updates::{
    changed_slots, changes_distinct, is_map_patch, is_repeated_slot, is_storage_patch,
    is_value_patch, AccountPatch, PublicAccountUpdate, StorageMapPatch, StorageSlotPatch,
    StorageValuePatch,
};
use crate::types::{AccountId, BlockHeader, BlockNumber, Word};

verus! {

// DIVERGING ACCOUNTS
// ================================================================================================
/// The header at the position is the last one of the account.
pub open spec fn is_last_of(accounts: Seq<AccountHeader>, j: int, id: AccountId) -> bool {
    &&& 0 <= j < accounts.len()
    &&& accounts[j].id == id
    &&& forall|k: int| j < k < accounts.len() ==> (#[trigger] accounts[k]).id != id
}

/// The account has public state, and the commitment that is reported for it is not that of the
/// last of its headers.
pub open spec fn is_reported_other(accounts: Seq<AccountHeader>, update: (AccountId, Word)) -> bool {
    &&& !is_private_of(update.0)
    &&& exists|j: int| #[trigger]
        is_last_of(accounts, j, update.0) && header_commitment_of(accounts[j]) != Some(update.1)
}

/// Accounts with public state are found by their ids: the headers of an account with public state
/// stay, in order, and no others do.
pub proof fn law_public_accounts(accounts: Seq<AccountHeader>)
    ensures
        picks(
            public_accounts(accounts),
            accounts.len() as int,
            |i: int| !is_private_of(accounts[i].id),
            |i: int| accounts[i],
        ),
    decreases accounts.len(),
{
    let wanted = |i: int| !is_private_of(accounts[i].id);
    let value = |i: int| accounts[i];
    if accounts.len() == 0 {
        lemma_picks_none(wanted, value);
    } else {
        let before = accounts.drop_last();
        law_public_accounts(before);
        lemma_picks_next(
            public_accounts(before),
            |i: int| !is_private_of(before[i].id),
            |i: int| before[i],
            public_accounts(accounts),
            accounts.len() as int,
            wanted,
            value,
        );
    }
}

/// A later header of an account replaces an earlier one; an account without a header has none.
pub proof fn law_last_header(accounts: Seq<AccountHeader>, id: AccountId)
    ensures
        match last_header(accounts, id) {
            Some(header) => exists|j: int| #[trigger]
                is_last_of(accounts, j, id) && accounts[j] == header,
            None => forall|i: int| 0 <= i < accounts.len() ==> (#[trigger] accounts[i]).id != id,
        },
    decreases accounts.len(),
{
    if accounts.len() > 0 {
        let before = accounts.drop_last();
        law_last_header(before, id);
        if accounts.last().id == id {
            assert(is_last_of(accounts, accounts.len() - 1, id));
        } else {
            match last_header(before, id) {
                Some(header) => {
                    let j = choose|j: int| #[trigger]
                        is_last_of(before, j, id) && before[j] == header;
                    assert forall|k: int| j < k < accounts.len() implies (
                    #[trigger] accounts[k]).id != id by {
                        if k < before.len() {
                            assert(before[k] == accounts[k]);
                        }
                    }
                    assert(is_last_of(accounts, j, id) && accounts[j] == header);
                },
                None => {
                    assert forall|i: int| 0 <= i < accounts.len() implies (
                    #[trigger] accounts[i]).id != id by {
                        if i < before.len() {
                            assert(before[i] == accounts[i]);
                        }
                    }
                },
            }
        }
    }
}

/// Leaving out accounts with private state changes nothing about an account with public state.
proof fn lemma_last_public(accounts: Seq<AccountHeader>, id: AccountId)
    ensures
        last_header(public_accounts(accounts), id) == if is_private_of(id) {
            None
        } else {
            last_header(accounts, id)
        },
    decreases accounts.len(),
{
    if accounts.len() > 0 {
        let before = accounts.drop_last();
        lemma_last_public(before, id);
        if !is_private_of(accounts.last().id) {
            let public = public_accounts(accounts);
            assert(public.drop_last() =~= public_accounts(before));
            assert(public.last() == accounts.last());
        }
    }
}

/// A report is followed up if and only if it contradicts what the client has for an account with
/// public state, and then with what the client has. Reports keep their order.
pub proof fn law_diverging_public(
    accounts: Seq<AccountHeader>,
    commitment_updates: Seq<(AccountId, Word)>,
)
    ensures
        picks(
            diverging_public(accounts, commitment_updates),
            commitment_updates.len() as int,
            |i: int| is_reported_other(accounts, commitment_updates[i]),
            |i: int|
                accounts[choose|j: int| #[trigger]
                    is_last_of(accounts, j, commitment_updates[i].0)],
        ),
    decreases commitment_updates.len(),
{
    let wanted = |i: int| is_reported_other(accounts, commitment_updates[i]);
    let value = |i: int|
        accounts[choose|j: int| #[trigger] is_last_of(accounts, j, commitment_updates[i].0)];
    if commitment_updates.len() == 0 {
        lemma_picks_none(wanted, value);
    } else {
        let before = commitment_updates.drop_last();
        law_diverging_public(accounts, before);
        let n = commitment_updates.len() as int;
        let (id, commitment) = commitment_updates.last();
        lemma_last_public(accounts, id);
        law_last_header(accounts, id);
        if let Some(header) = last_header(accounts, id) {
            let j = choose|j: int| #[trigger]
                is_last_of(accounts, j, id) && accounts[j] == header;
            let chosen = choose|j: int| #[trigger] is_last_of(accounts, j, id);
            assert(is_last_of(accounts, chosen, id));
            assert(chosen == j) by {
                if chosen < j {
                    assert(accounts[j].id != id);
                }
                if j < chosen {
                    assert(accounts[chosen].id != id);
                }
            }
            assert(value(n - 1) == header);
            if header_commitment_of(header) != Some(commitment) {
                assert(is_last_of(accounts, j, id) && header_commitment_of(accounts[j]) != Some(
                    commitment,
                ));
            } else {
                assert forall|i: int| #[trigger] is_last_of(accounts, i, id) implies i == j by {
                    if i < j {
                        assert(accounts[j].id != id);
                    }
                    if j < i {
                        assert(accounts[i].id != id);
                    }
                }
            }
        } else {
            assert forall|i: int| !#[trigger] is_last_of(accounts, i, id) by {
                if 0 <= i < accounts.len() {
                    assert(accounts[i].id != id);
                }
            }
        }
        assert forall|i: int| 0 <= i < n - 1 implies before[i] == commitment_updates[i] by {}
        lemma_picks_next(
            diverging_public(accounts, before),
            |i: int| is_reported_other(accounts, before[i]),
            |i: int| accounts[choose|j: int| #[trigger] is_last_of(accounts, j, before[i].0)],
            diverging_public(accounts, commitment_updates),
            n,
            wanted,
            value,
        );
    }
}

/// A private account is looked into if and only if some report, at any position, contradicts what
/// the client has for it.
pub proof fn law_diverging_private(
    accounts: Seq<AccountHeader>,
    commitment_updates: Seq<(AccountId, Word)>,
)
    ensures
        picks(
            diverging_private(accounts, commitment_updates),
            accounts.len() as int,
            |i: int|
                is_private_of(accounts[i].id) && exists|k: int|
                    0 <= k < commitment_updates.len() && (#[trigger] commitment_updates[k]).0
                        == accounts[i].id && header_commitment_of(accounts[i]) != Some(
                        commitment_updates[k].1,
                    ),
            |i: int| accounts[i],
        ),
    decreases accounts.len(),
{
    let wanted = |i: int|
        is_private_of(accounts[i].id) && exists|k: int|
            0 <= k < commitment_updates.len() && (#[trigger] commitment_updates[k]).0
                == accounts[i].id && header_commitment_of(accounts[i]) != Some(
                commitment_updates[k].1,
            );
    let value = |i: int| accounts[i];
    if accounts.len() == 0 {
        lemma_picks_none(wanted, value);
    } else {
        let before = accounts.drop_last();
        law_diverging_private(before, commitment_updates);
        lemma_picks_next(
            diverging_private(before, commitment_updates),
            |i: int|
                is_private_of(before[i].id) && exists|k: int|
                    0 <= k < commitment_updates.len() && (#[trigger] commitment_updates[k]).0
                        == before[i].id && header_commitment_of(before[i]) != Some(
                        commitment_updates[k].1,
                    ),
            |i: int| before[i],
            diverging_private(accounts, commitment_updates),
            accounts.len() as int,
            wanted,
            value,
        );
    }
}

// PROOFS
// ================================================================================================
/// An answer about a private account is refused if and only if it is for another block than the tip,
/// or its path does not lead to the account root of the tip.
pub proof fn law_private_answer_refused(
    header: AccountHeader,
    tip: BlockHeader,
    proof_block_num: BlockNumber,
    answer: AccountProof,
)
    requires
        header_commitment_of(header) is Some,
    ensures
        header_mismatch(header, tip, proof_block_num, answer) is Err <==> proof_block_num
            != tip.block_num || answer.account_witness.path@.len() != 64 || witness_root_of(
            answer.account_witness.id,
            answer.account_witness.state_commitment,
            answer.account_witness.path@,
        ) != Some(tip.account_root),
        proof_block_num != tip.block_num ==> header_mismatch(header, tip, proof_block_num, answer)
            == Err::<Option<Word>, _>(
            SyncError::Validation(
                ChainValidationError::ProofBlockMismatch {
                    expected: tip.block_num,
                    received: proof_block_num,
                },
            ),
        ),
{
}

/// Every state that is proven for a private account is reported unless it is the local one or no
/// state at all; nothing else is reported.
pub proof fn law_private_mismatch_reported(
    header: AccountHeader,
    tip: BlockHeader,
    proof_block_num: BlockNumber,
    answer: AccountProof,
    commitment: Word,
)
    ensures
        header_mismatch(header, tip, proof_block_num, answer) == Ok::<_, SyncError>(Some(commitment))
            <==> {
            let witness = answer.account_witness;
            &&& header_commitment_of(header) is Some
            &&& proof_block_num == tip.block_num
            &&& witness.path@.len() == 64
            &&& witness_root_of(witness.id, commitment, witness.path@) == Some(tip.account_root)
            &&& witness.id == header.id
            &&& witness.state_commitment == commitment
            &&& header_commitment_of(header) != Some(commitment)
            &&& !(commitment.e0 == 0 && commitment.e1 == 0 && commitment.e2 == 0 && commitment.e3
                == 0)
        },
        header_commitment_of(header) matches Some(local) ==> private_mismatch(
            header.id,
            local,
            tip,
            proof_block_num,
            answer,
        ) == header_mismatch(header, tip, proof_block_num, answer),
{
    assert(Word::spec_empty() == (Word { e0: 0, e1: 0, e2: 0, e3: 0 }));
}

/// The proof of a public account is accepted if and only if it is for the tip and for the account,
/// leads to the account root of the tip and comes with details. The first thing that is wrong is
/// what is reported.
pub proof fn law_public_proof_accepted(
    answer: AccountProof,
    proof_block_num: BlockNumber,
    account_id: AccountId,
    tip: BlockHeader,
)
    ensures
        ({
            let witness = answer.account_witness;
            let problem = public_proof_problem(answer, proof_block_num, account_id, tip);
            let leads = witness.path@.len() == 64 && witness_root_of(
                witness.id,
                witness.state_commitment,
                witness.path@,
            ) == Some(tip.account_root);
            &&& problem is None <==> proof_block_num == tip.block_num && witness.id == account_id
                && leads && answer.state_headers is Some
            &&& proof_block_num != tip.block_num ==> problem == Some(
                ChainValidationError::ProofBlockMismatch {
                    expected: tip.block_num,
                    received: proof_block_num,
                },
            )
            &&& problem matches Some(ChainValidationError::ProofAccountMismatch { expected, received })
                ==> expected == account_id && received == witness.id && expected != received
            &&& problem is Some && proof_block_num == tip.block_num && witness.id == account_id
                ==> problem == Some(
                if leads {
                    ChainValidationError::MissingAccountDetails { account_id }
                } else {
                    ChainValidationError::ProofNotUnderRoot {
                        account_id,
                        block_num: tip.block_num,
                    }
                },
            )
            &&& proof_block_num == tip.block_num && witness.id != account_id
                ==> problem is Some && problem->0 is ProofAccountMismatch
        }),
{
}

// PUBLIC ACCOUNTS
// ================================================================================================
/// Of two states with different nonces the one with the higher nonce stays; with equal nonces the
/// local one has lost. What is adopted is the whole state if and only if nothing was left out of
/// the answer for its size.
pub proof fn law_higher_nonce_wins(details: AccountDetails, local_nonce: u64)
    ensures
        ({
            let action = public_action(details, local_nonce);
            let maps = details.storage_details.map_details@;
            &&& action is Ignore <==> local_nonce > details.header.nonce
            &&& action is Superseded <==> local_nonce == details.header.nonce
            &&& action is AdoptState <==> {
                &&& local_nonce < details.header.nonce
                &&& !details.vault_details.too_many_assets
                &&& forall|i: int|
                    0 <= i < maps.len() ==> !((#[trigger] maps[i]).entries is LimitExceeded)
            }
        }),
{
    let maps = details.storage_details.map_details@;
    assert forall|i: int| 0 <= i < maps.len() implies (#[trigger] maps[i]).limit_exceeded() == (
    maps[i].entries is LimitExceeded) by {}
    if forall|i: int| 0 <= i < maps.len() ==> !((#[trigger] maps[i]).entries is LimitExceeded) {
    } else {
        let i = choose|i: int|
            0 <= i < maps.len() && (#[trigger] maps[i]).entries is LimitExceeded;
        assert(maps[i].limit_exceeded());
    }
}

/// A patch takes its values from the value slots, from each of them, in order.
pub proof fn law_value_slots(slots: Seq<StorageSlotHeader>)
    ensures
        picks(
            value_slots(slots),
            slots.len() as int,
            |i: int| slots[i].slot_type is Value,
            |i: int| (slots[i].slot_name, slots[i].value),
        ),
    decreases slots.len(),
{
    let wanted = |i: int| slots[i].slot_type is Value;
    let value = |i: int| (slots[i].slot_name, slots[i].value);
    if slots.len() == 0 {
        lemma_picks_none(wanted, value);
    } else {
        let before = slots.drop_last();
        law_value_slots(before);
        lemma_picks_next(
            value_slots(before),
            |i: int| before[i].slot_type is Value,
            |i: int| (before[i].slot_name, before[i].value),
            value_slots(slots),
            slots.len() as int,
            wanted,
            value,
        );
    }
}

// FOLDING
// ================================================================================================
/// Every state that is adopted is among the updates, once, in the order of the accounts, and no
/// other update is.
pub proof fn law_adopted_states_are_kept(synced: Seq<PublicAccountSync>)
    ensures
        picks(
            applied(synced),
            synced.len() as int,
            |i: int| synced[i] is Apply,
            |i: int| synced[i]->Apply_0,
        ),
    decreases synced.len(),
{
    let wanted = |i: int| synced[i] is Apply;
    let value = |i: int| synced[i]->Apply_0;
    if synced.len() == 0 {
        lemma_picks_none(wanted, value);
    } else {
        let before = synced.drop_last();
        law_adopted_states_are_kept(before);
        lemma_picks_next(
            applied(before),
            |i: int| before[i] is Apply,
            |i: int| before[i]->Apply_0,
            applied(synced),
            synced.len() as int,
            wanted,
            value,
        );
    }
}

/// Every local state that has lost is given up, by its commitment, in the order of the accounts, and
/// no other state is.
pub proof fn law_lost_states_are_superseded(
    headers: Seq<AccountHeader>,
    synced: Seq<PublicAccountSync>,
)
    requires
        headers.len() == synced.len(),
    ensures
        picks(
            superseded(headers, synced),
            synced.len() as int,
            |i: int| synced[i] is Superseded && header_commitment_of(headers[i]) is Some,
            |i: int| header_commitment_of(headers[i])->0,
        ),
    decreases synced.len(),
{
    let wanted = |i: int| synced[i] is Superseded && header_commitment_of(headers[i]) is Some;
    let value = |i: int| header_commitment_of(headers[i])->0;
    if synced.len() == 0 {
        lemma_picks_none(wanted, value);
    } else {
        let before = synced.drop_last();
        let headers_before = headers.drop_last();
        law_lost_states_are_superseded(headers_before, before);
        lemma_picks_next(
            superseded(headers_before, before),
            |i: int| before[i] is Superseded && header_commitment_of(headers_before[i]) is Some,
            |i: int| header_commitment_of(headers_before[i])->0,
            superseded(headers, synced),
            synced.len() as int,
            wanted,
            value,
        );
    }
}

/// Every private account with a proven commitment is reported with it, in the order of the accounts,
/// and no other account is.
pub proof fn law_proven_mismatches_are_kept(
    headers: Seq<AccountHeader>,
    proven: Seq<Option<Word>>,
)
    requires
        headers.len() == proven.len(),
    ensures
        picks(
            mismatched(headers, proven),
            proven.len() as int,
            |i: int| proven[i] is Some,
            |i: int| (headers[i].id, proven[i]->0),
        ),
    decreases proven.len(),
{
    let wanted = |i: int| proven[i] is Some;
    let value = |i: int| (headers[i].id, proven[i]->0);
    if proven.len() == 0 {
        lemma_picks_none(wanted, value);
    } else {
        let before = proven.drop_last();
        let headers_before = headers.drop_last();
        law_proven_mismatches_are_kept(headers_before, before);
        lemma_picks_next(
            mismatched(headers_before, before),
            |i: int| before[i] is Some,
            |i: int| (headers_before[i].id, before[i]->0),
            mismatched(headers, proven),
            proven.len() as int,
            wanted,
            value,
        );
    }
}

// PATCHES
// ================================================================================================
/// What a patch that holds the whole state changes is created; what another one changes is updated.
/// The value and the entries are those that were given.
pub proof fn law_slot_patch(
    full: bool,
    value: Word,
    entries: Vec<StorageMapEntry>,
    patch: StorageSlotPatch,
)
    ensures
        is_value_patch(full, value, patch) && full ==> patch == StorageSlotPatch::Value(
            StorageValuePatch::Create(value),
        ),
        is_value_patch(full, value, patch) && !full ==> patch == StorageSlotPatch::Value(
            StorageValuePatch::Update(value),
        ),
        is_map_patch(full, entries, patch) && full ==> patch == StorageSlotPatch::MapEntries(
            StorageMapPatch::Create(entries),
        ),
        is_map_patch(full, entries, patch) && !full ==> patch == StorageSlotPatch::MapEntries(
            StorageMapPatch::Update(entries),
        ),
{
}

/// The slots that are changed are those of the values, and then those of the maps.
pub proof fn law_changed_slots(
    values: Seq<(SlotId, Word)>,
    maps: Seq<(SlotId, Vec<StorageMapEntry>)>,
)
    ensures
        changed_slots(values, maps).len() == values.len() + maps.len(),
        forall|i: int|
            0 <= i < values.len() ==> #[trigger] changed_slots(values, maps)[i] == values[i].0,
        forall|i: int|
            0 <= i < maps.len() ==> #[trigger] changed_slots(values, maps)[values.len() + i]
                == maps[i].0,
{
}

/// Changes are distinct if and only if no slot stands at two positions among those that are changed,
/// given that no map does among the maps.
pub proof fn law_changes_distinct(
    values: Seq<(SlotId, Word)>,
    maps: Seq<(SlotId, Vec<StorageMapEntry>)>,
)
    requires
        forall|i: int, j: int|
            0 <= i < j < maps.len() ==> (#[trigger] maps[i]).0 != (#[trigger] maps[j]).0,
    ensures
        changes_distinct(values, maps) <==> forall|i: int, j: int|
            0 <= i < j < changed_slots(values, maps).len() ==> #[trigger] changed_slots(
                values,
                maps,
            )[i] != #[trigger] changed_slots(values, maps)[j],
{
    let slots = changed_slots(values, maps);
    let n = values.len() as int;
    if changes_distinct(values, maps) {
        assert forall|i: int, j: int| 0 <= i < j < slots.len() implies #[trigger] slots[i]
            != #[trigger] slots[j] by {
            if j < n {
                assert(slots[i] == values[i].0 && slots[j] == values[j].0);
            } else if i < n {
                assert(slots[i] == values[i].0 && slots[j] == maps[j - n].0);
            } else {
                assert(slots[i] == maps[i - n].0 && slots[j] == maps[j - n].0);
            }
        }
    }
    if forall|i: int, j: int|
        0 <= i < j < slots.len() ==> #[trigger] slots[i] != #[trigger] slots[j] {
        assert forall|i: int, j: int| 0 <= i < j < values.len() implies (#[trigger] values[i]).0
            != (#[trigger] values[j]).0 by {
            assert(slots[i] != slots[j]);
        }
        assert forall|i: int, j: int| 0 <= i < values.len() && 0 <= j < maps.len() implies (
        #[trigger] values[i]).0 != (#[trigger] maps[j]).0 by {
            assert(slots[i] != slots[n + j]);
        }
    }
}

/// A slot that is named as repeated is changed twice, and nothing before its second change is.
pub proof fn law_repeated_slot(
    values: Seq<(SlotId, Word)>,
    maps: Seq<(SlotId, Vec<StorageMapEntry>)>,
    slot_name: SlotId,
)
    requires
        is_repeated_slot(values, maps, slot_name),
    ensures
        ({
            let slots = changed_slots(values, maps);
            exists|j: int, i: int|
                {
                    &&& 0 <= j < i < slots.len()
                    &&& #[trigger] slots[j] == slot_name && #[trigger] slots[i] == slot_name
                    &&& forall|a: int, b: int|
                        0 <= a < b < i ==> #[trigger] slots[a] != #[trigger] slots[b]
                }
        }),
{
    let slots = changed_slots(values, maps);
    let i = choose|i: int| #[trigger] is_first_repeat(slots, i) && slots[i] == slot_name;
    let earlier = slots.take(i);
    let j = choose|j: int| 0 <= j < earlier.len() && earlier[j] == slot_name;
    assert(slots[j] == slot_name && slots[i] == slot_name);
    assert forall|a: int, b: int| 0 <= a < b < i implies #[trigger] slots[a]
        != #[trigger] slots[b] by {
        assert(earlier[a] != earlier[b]);
    }
}

/// A patch changes every slot that is to be changed, to what it is to be, and no other slot.
pub proof fn law_storage_patch(
    full: bool,
    values: Seq<(SlotId, Word)>,
    maps: Seq<(SlotId, Vec<StorageMapEntry>)>,
    storage: Map<SlotId, StorageSlotPatch>,
    slot_name: SlotId,
)
    requires
        is_storage_patch(full, values, maps, storage),
    ensures
        storage.contains_key(slot_name) <==> (exists|i: int|
            0 <= i < values.len() && (#[trigger] values[i]).0 == slot_name) || (exists|i: int|
            0 <= i < maps.len() && (#[trigger] maps[i]).0 == slot_name),
        forall|i: int|
            0 <= i < values.len() && (#[trigger] values[i]).0 == slot_name ==> storage[slot_name]
                == StorageSlotPatch::Value(
                if full {
                    StorageValuePatch::Create(values[i].1)
                } else {
                    StorageValuePatch::Update(values[i].1)
                },
            ),
        forall|i: int|
            0 <= i < maps.len() && (#[trigger] maps[i]).0 == slot_name ==> storage[slot_name]
                == StorageSlotPatch::MapEntries(
                if full {
                    StorageMapPatch::Create(maps[i].1)
                } else {
                    StorageMapPatch::Update(maps[i].1)
                },
            ),
{
    if exists|i: int| 0 <= i < values.len() && (#[trigger] values[i]).0 == slot_name {
        let i = choose|i: int| 0 <= i < values.len() && (#[trigger] values[i]).0 == slot_name;
        assert(storage.contains_key(values[i].0));
    }
    if exists|i: int| 0 <= i < maps.len() && (#[trigger] maps[i]).0 == slot_name {
        let i = choose|i: int| 0 <= i < maps.len() && (#[trigger] maps[i]).0 == slot_name;
        assert(storage.contains_key(maps[i].0));
    }
    if storage.contains_key(slot_name) {
        if has_key(values, slot_name) {
            let i = choose|i: int| 0 <= i < values.len() && (#[trigger] values[i]).0 == slot_name;
            assert(values[i].0 == slot_name);
        } else {
            assert(has_key(maps, slot_name));
            let i = choose|i: int| 0 <= i < maps.len() && (#[trigger] maps[i]).0 == slot_name;
            assert(maps[i].0 == slot_name);
        }
    }
}

/// A patch holds the whole state if and only if it has the code. An update is of the account that it
/// leads to.
pub proof fn law_update_parts(patch: AccountPatch, update: PublicAccountUpdate)
    ensures
        patch.code is Some <==> patch.holds_full_state(),
        update matches PublicAccountUpdate::Full(account) ==> update.account_id() == account.id,
        update matches PublicAccountUpdate::Patch { new_header, patch: _ } ==> update.account_id()
            == new_header.id,
{
}

} // verus!
