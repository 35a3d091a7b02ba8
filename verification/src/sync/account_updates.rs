//! What a sync does to the accounts the client tracks.
use vstd::prelude::*;

use crate::collections::{has_key, is_first_repeat, keys_ascending, OrdKey, OrdMap};
use crate::rpc::domain::account::{Account, AccountCode, AccountHeader, SlotId, StorageMapEntry};
use crate::types::{AccountId, Word};

verus! {

// ACCOUNT PATCH
// ================================================================================================
/// A change of the value of a storage slot.
#[derive(Clone, Copy, Debug, PartialEq, Eq, Structural)]
pub enum StorageValuePatch {
    /// The slot is new and has the value.
    Create(Word),
    /// The value of the slot is now this one.
    Update(Word),
}

/// A change of the entries of a storage map.
#[derive(Debug)]
pub enum StorageMapPatch {
    /// The map is new and has the entries.
    Create(Vec<StorageMapEntry>),
    /// The entries of the map have these values now.
    Update(Vec<StorageMapEntry>),
}

/// A change of a storage slot.
#[derive(Debug)]
pub enum StorageSlotPatch {
    Value(StorageValuePatch),
    MapEntries(StorageMapPatch),
}

/// Changes of a vault: for each key of a changed asset, the value it has now.
#[derive(Debug)]
pub struct AccountVaultPatch {
    pub assets: OrdMap<Word, Word>,
}

/// What turns an account into a later state of itself, by values that do not depend on the earlier
/// state.
#[derive(Debug)]
pub struct AccountPatch {
    pub id: AccountId,
    pub storage: OrdMap<SlotId, StorageSlotPatch>,
    pub vault: AccountVaultPatch,
    /// The code, if the patch holds the whole state.
    pub code: Option<AccountCode>,
    pub final_nonce: u64,
}

/// Why changes do not make a patch.
#[derive(Clone, Copy, Debug, PartialEq, Eq, Structural)]
pub enum AccountPatchError {
    /// A slot is changed twice.
    RepeatedSlot { slot_name: SlotId },
    /// The nonce is that of an account without transactions.
    ZeroNonce,
}

impl AccountPatch {
    /// The patch holds the whole state of the account.
    pub open spec fn holds_full_state(self) -> bool {
        self.code is Some
    }

    /// Returns true if the patch holds the whole state of the account.
    pub fn is_full_state(&self) -> (full: bool)
        ensures
            full == self.holds_full_state(),
    {
        self.code.is_some()
    }
}

/// The change of a slot to a value.
pub open spec fn value_patch(full: bool, value: Word) -> StorageValuePatch {
    if full {
        StorageValuePatch::Create(value)
    } else {
        StorageValuePatch::Update(value)
    }
}

/// The slot patch is the change of a slot to a value.
pub open spec fn is_value_patch(full: bool, value: Word, patch: StorageSlotPatch) -> bool {
    patch == StorageSlotPatch::Value(value_patch(full, value))
}

/// The slot patch is the change of the entries of a map.
pub open spec fn is_map_patch(
    full: bool,
    entries: Vec<StorageMapEntry>,
    patch: StorageSlotPatch,
) -> bool {
    patch == StorageSlotPatch::MapEntries(
        if full {
            StorageMapPatch::Create(entries)
        } else {
            StorageMapPatch::Update(entries)
        },
    )
}

/// No slot is changed twice.
pub open spec fn changes_distinct(
    values: Seq<(SlotId, Word)>,
    maps: Seq<(SlotId, Vec<StorageMapEntry>)>,
) -> bool {
    &&& forall|i: int, j: int|
        0 <= i < j < values.len() ==> (#[trigger] values[i]).0 != (#[trigger] values[j]).0
    &&& forall|i: int, j: int|
        0 <= i < values.len() && 0 <= j < maps.len() ==> (#[trigger] values[i]).0 != (
        #[trigger] maps[j]).0
}

/// The storage changes are just the given ones.
pub open spec fn is_storage_patch(
    full: bool,
    values: Seq<(SlotId, Word)>,
    maps: Seq<(SlotId, Vec<StorageMapEntry>)>,
    storage: Map<SlotId, StorageSlotPatch>,
) -> bool {
    &&& forall|i: int|
        0 <= i < values.len() ==> storage.contains_key((#[trigger] values[i]).0) && is_value_patch(
            full,
            values[i].1,
            storage[values[i].0],
        )
    &&& forall|i: int|
        0 <= i < maps.len() ==> storage.contains_key((#[trigger] maps[i]).0) && is_map_patch(
            full,
            maps[i].1,
            storage[maps[i].0],
        )
    &&& forall|slot_name: SlotId| #[trigger]
        storage.contains_key(slot_name) ==> has_key(values, slot_name) || has_key(maps, slot_name)
}

/// The slots that are changed: first those with values, then the maps.
pub open spec fn changed_slots(
    values: Seq<(SlotId, Word)>,
    maps: Seq<(SlotId, Vec<StorageMapEntry>)>,
) -> Seq<SlotId> {
    values.map_values(|change: (SlotId, Word)| change.0) + maps.map_values(
        |change: (SlotId, Vec<StorageMapEntry>)| change.0,
    )
}

/// The slot is the first one that is changed twice.
pub open spec fn is_repeated_slot(
    values: Seq<(SlotId, Word)>,
    maps: Seq<(SlotId, Vec<StorageMapEntry>)>,
    slot_name: SlotId,
) -> bool {
    exists|i: int| #[trigger]
        is_first_repeat(changed_slots(values, maps), i) && changed_slots(values, maps)[i]
            == slot_name
}

/// Builds the patch that the changes reported by a node make.
///
/// The changes hold the new value of every changed slot, map entry and asset, so the earlier state
/// of the account is not needed. An account that is new, with a nonce of one, has no earlier state,
/// and its patch holds the whole state, with the code.
pub fn build_account_patch(
    new_header: &AccountHeader,
    value_slot_updates: &Vec<(SlotId, Word)>,
    map_entries: OrdMap<SlotId, Vec<StorageMapEntry>>,
    vault_patch: AccountVaultPatch,
    code: AccountCode,
) -> (patch: Result<AccountPatch, AccountPatchError>)
    ensures
        match patch {
            Ok(p) => {
                &&& changes_distinct(value_slot_updates@, map_entries.listing())
                &&& new_header.nonce != 0
                &&& p.id == new_header.id
                &&& p.final_nonce == new_header.nonce
                &&& p.vault == vault_patch
                &&& p.code == if new_header.nonce == 1 {
                    Some(code)
                } else {
                    None
                }
                &&& is_storage_patch(
                    new_header.nonce == 1,
                    value_slot_updates@,
                    map_entries.listing(),
                    p.storage@,
                )
            },
            Err(AccountPatchError::RepeatedSlot { slot_name }) => {
                &&& !changes_distinct(value_slot_updates@, map_entries.listing())
                &&& is_repeated_slot(value_slot_updates@, map_entries.listing(), slot_name)
            },
            Err(AccountPatchError::ZeroNonce) => changes_distinct(
                value_slot_updates@,
                map_entries.listing(),
            ) && new_header.nonce == 0,
        },
{
    let full: bool = new_header.nonce == 1;
    let ghost values = value_slot_updates@;
    let ghost maps = map_entries.listing();
    let mut storage: OrdMap<SlotId, StorageSlotPatch> = OrdMap::new();
    let mut i: usize = 0;
    while i < value_slot_updates.len()
        invariant
            i <= value_slot_updates.len(),
            values == value_slot_updates@,
            maps == map_entries.listing(),
            is_storage_patch(full, values.take(i as int), Seq::empty(), storage@),
            forall|a: int, b: int|
                0 <= a < b < i ==> (#[trigger] values[a]).0 != (#[trigger] values[b]).0,
        decreases value_slot_updates.len() - i,
    {
        let (slot_name, value) = value_slot_updates[i];
        let ghost before = storage@;
        let ghost shorter = values.take(i as int);
        let ghost longer = values.take(i + 1);
        if storage.contains(&slot_name) {
            proof {
                assert(has_key(shorter, slot_name));
                let k = choose|k: int| 0 <= k < shorter.len() && (#[trigger] shorter[k]).0
                    == slot_name;
                assert(values[k].0 == values[i as int].0);
                assert(!changes_distinct(values, maps));
                let slots = changed_slots(values, maps);
                let earlier = slots.take(i as int);
                assert forall|a: int, b: int| 0 <= a < earlier.len() && 0 <= b < earlier.len() && a
                    != b implies earlier[a] != earlier[b] by {
                    assert(earlier[a] == values[a].0 && earlier[b] == values[b].0);
                }
                assert(earlier[k] == slot_name);
                assert(slots[i as int] == slot_name);
                assert(is_first_repeat(slots, i as int));
            }
            return Err(AccountPatchError::RepeatedSlot { slot_name });
        }
        let value_patch = if full {
            StorageValuePatch::Create(value)
        } else {
            StorageValuePatch::Update(value)
        };
        storage.insert(slot_name, StorageSlotPatch::Value(value_patch));
        proof {
            assert forall|k: int| 0 <= k < longer.len() implies storage@.contains_key(
                (#[trigger] longer[k]).0,
            ) && is_value_patch(full, longer[k].1, storage@[longer[k].0]) by {
                if k < i {
                    assert(shorter[k] == longer[k]);
                }
            }
            assert forall|s: SlotId| #[trigger] storage@.contains_key(s) implies has_key(
                longer,
                s,
            ) by {
                if s == slot_name {
                    assert(longer[i as int].0 == s);
                } else {
                    assert(before.contains_key(s));
                    let k = choose|k: int| 0 <= k < shorter.len() && (#[trigger] shorter[k]).0 == s;
                    assert(longer[k].0 == s);
                }
            }
            assert forall|a: int, b: int| 0 <= a < b < i + 1 implies (#[trigger] values[a]).0 != (
            #[trigger] values[b]).0 by {
                if b == i {
                    assert(shorter[a] == values[a]);
                    assert(before.contains_key(shorter[a].0));
                }
            }
        }
        i += 1;
    }
    assert(values.take(values.len() as int) =~= values);
    let listed = map_entries.into_entries();
    for entry in iter: listed
        invariant
            iter.seq() == maps,
            values == value_slot_updates@,
            maps == map_entries.listing(),
            keys_ascending(maps),
            is_storage_patch(full, values, maps.take(iter.index() as int), storage@),
            changes_distinct(values, maps.take(iter.index() as int)),
    {
        let ghost at = iter.index() as int;
        let (slot_name, entries) = entry;
        let ghost before = storage@;
        let ghost shorter = maps.take(at);
        let ghost longer = maps.take(at + 1);
        if storage.contains(&slot_name) {
            proof {
                if has_key(shorter, slot_name) {
                    let k = choose|k: int| 0 <= k < shorter.len() && (#[trigger] shorter[k]).0
                        == slot_name;
                    assert(maps[k].0.rank() < maps[at].0.rank());
                }
                let k = choose|k: int| 0 <= k < values.len() && (#[trigger] values[k]).0
                    == slot_name;
                assert(values[k].0 == maps[at].0);
                assert(!changes_distinct(values, maps));
                let slots = changed_slots(values, maps);
                let n = values.len() as int;
                let earlier = slots.take(n + at);
                assert forall|a: int, b: int| 0 <= a < b < earlier.len() implies earlier[a]
                    != earlier[b] by {
                    if b < n {
                        assert(earlier[a] == values[a].0 && earlier[b] == values[b].0);
                    } else if a < n {
                        assert(earlier[a] == values[a].0 && earlier[b] == shorter[b - n].0);
                    } else {
                        assert(earlier[a] == maps[a - n].0 && earlier[b] == maps[b - n].0);
                        assert(maps[a - n].0.rank() < maps[b - n].0.rank());
                    }
                }
                assert(earlier[k] == slot_name);
                assert(slots[n + at] == slot_name);
                assert(is_first_repeat(slots, n + at));
            }
            return Err(AccountPatchError::RepeatedSlot { slot_name });
        }
        let ghost moved = entries;
        let map_patch = if full {
            StorageMapPatch::Create(entries)
        } else {
            StorageMapPatch::Update(entries)
        };
        storage.insert(slot_name, StorageSlotPatch::MapEntries(map_patch));
        proof {
            assert forall|k: int| 0 <= k < longer.len() implies storage@.contains_key(
                (#[trigger] longer[k]).0,
            ) && is_map_patch(full, longer[k].1, storage@[longer[k].0]) by {
                if k < at {
                    assert(shorter[k] == longer[k]);
                    assert(maps[k].0.rank() < maps[at].0.rank());
                }
            }
            assert forall|s: SlotId| #[trigger] storage@.contains_key(s) implies has_key(values, s)
                || has_key(longer, s) by {
                if s == slot_name {
                    assert(longer[at].0 == s);
                } else {
                    assert(before.contains_key(s));
                    if !has_key(values, s) {
                        let k = choose|k: int| 0 <= k < shorter.len() && (#[trigger] shorter[k]).0
                            == s;
                        assert(longer[k].0 == s);
                    }
                }
            }
            assert forall|a: int, b: int| 0 <= a < values.len() && 0 <= b < longer.len() implies (
            #[trigger] values[a]).0 != (#[trigger] longer[b]).0 by {
                if b < at {
                    assert(shorter[b] == longer[b]);
                } else {
                    assert(before.contains_key(values[a].0));
                }
            }
        }
    }
    assert(maps.take(maps.len() as int) =~= maps);
    if new_header.nonce == 0 {
        return Err(AccountPatchError::ZeroNonce);
    }
    Ok(
        AccountPatch {
            id: new_header.id,
            storage,
            vault: vault_patch,
            code: if full {
                Some(code)
            } else {
                None
            },
            final_nonce: new_header.nonce,
        },
    )
}

// ACCOUNT UPDATES
// ================================================================================================
/// An update of a tracked public account.
#[derive(Debug)]
pub enum PublicAccountUpdate {
    /// The whole new state.
    Full(Account),
    /// The account is too large for one answer. The patch leads to the state with the header.
    Patch { new_header: AccountHeader, patch: AccountPatch },
}

impl PublicAccountUpdate {
    /// The id of the account.
    pub open spec fn account_id(self) -> AccountId {
        match self {
            PublicAccountUpdate::Full(account) => account.id,
            PublicAccountUpdate::Patch { new_header, patch } => new_header.id,
        }
    }

    /// Returns the id of the account.
    pub fn id(&self) -> (id: AccountId)
        ensures
            id == self.account_id(),
    {
        match self {
            PublicAccountUpdate::Full(account) => account.id,
            PublicAccountUpdate::Patch { new_header, .. } => new_header.id,
        }
    }

    /// Returns the nonce of the state that the update leads to.
    pub fn nonce(&self) -> (nonce: u64)
        ensures
            nonce == match *self {
                PublicAccountUpdate::Full(account) => account.nonce,
                PublicAccountUpdate::Patch { new_header, patch } => new_header.nonce,
            },
    {
        match self {
            PublicAccountUpdate::Full(account) => account.nonce,
            PublicAccountUpdate::Patch { new_header, .. } => new_header.nonce,
        }
    }
}

/// Account changes to be stored.
#[derive(Debug)]
pub struct AccountUpdates {
    /// The public accounts that changed.
    pub updated_public_accounts: Vec<PublicAccountUpdate>,
    /// The private accounts whose state on the network is not the local one, with the commitment to
    /// the state on the network. The local state may not have been committed yet; otherwise the
    /// account may be locked until its state is restored.
    pub mismatched_private_accounts: Vec<(AccountId, Word)>,
}

impl AccountUpdates {
    /// Creates account updates.
    pub fn new(
        updated_public_accounts: Vec<PublicAccountUpdate>,
        mismatched_private_accounts: Vec<(AccountId, Word)>,
    ) -> (updates: Self)
        ensures
            updates == (AccountUpdates { updated_public_accounts, mismatched_private_accounts }),
    {
        AccountUpdates { updated_public_accounts, mismatched_private_accounts }
    }

    /// Returns the public accounts that changed.
    pub fn updated_public_accounts(&self) -> (updates: &Vec<PublicAccountUpdate>)
        ensures
            *updates == self.updated_public_accounts,
    {
        &self.updated_public_accounts
    }

    /// Returns the private accounts whose state on the network is not the local one.
    pub fn mismatched_private_accounts(&self) -> (accounts: &Vec<(AccountId, Word)>)
        ensures
            *accounts == self.mismatched_private_accounts,
    {
        &self.mismatched_private_accounts
    }

    /// Adds other updates after these.
    pub fn extend(&mut self, other: AccountUpdates)
        ensures
            final(self).updated_public_accounts@ == old(self).updated_public_accounts@
                + other.updated_public_accounts@,
            final(self).mismatched_private_accounts@ == old(self).mismatched_private_accounts@
                + other.mismatched_private_accounts@,
    {
        let mut other = other;
        self.updated_public_accounts.append(&mut other.updated_public_accounts);
        self.mismatched_private_accounts.append(&mut other.mismatched_private_accounts);
    }
}

} // verus!
