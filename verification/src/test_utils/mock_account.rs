//! Accounts on the chain of a mock node, and how it answers requests for them.
use miden_protocol::account::AccountId as ProtocolAccountId;
use miden_protocol::block::account_tree::AccountTree;
use miden_protocol::crypto::merkle::smt::Smt;
use miden_protocol::crypto::merkle::MerklePath;
use miden_protocol::{Felt, Word as ProtocolWord};
use vstd::prelude::*;

use crate::account::is_account_id_of;
use crate::collections::OrdMap;
use crate::mmr::canonical;
use crate::rpc::domain::account::{
    header_commitment, header_commitment_of, open_map, same_code, smt_keys, smt_root,
    storage_map_root, storage_map_root_of, AccountCode, AccountHeader, AccountProofError, Asset,
    SlotId, StorageMapEntry, StorageSlotHeader, StorageSlotType, ACCOUNT_TREE_DEPTH,
};
use crate::rpc::domain::account_proof::{
    AccountDetails, AccountProof, AccountVaultDetails, AccountWitness, StorageMapFetch,
};
use crate::rpc::domain::account_storage::{
    AccountStorageDetails, AccountStorageMapDetails, AccountStorageRequirements, StorageMapEntries,
};
use crate::types::{AccountId, Word};

verus! {

/// The state of a public account.
#[derive(Debug)]
pub struct MockAccount {
    pub header: AccountHeader,
    pub code: AccountCode,
    /// The headers of all slots, in order.
    pub slots: Vec<StorageSlotHeader>,
    /// The entries of the storage maps.
    pub maps: OrdMap<SlotId, Vec<StorageMapEntry>>,
    pub assets: Vec<Asset>,
}

/// Why there is no such account.
#[derive(Clone, Copy, Debug, PartialEq, Eq, Structural)]
pub enum MockAccountError {
    /// The account is not the one the tree holds.
    Inconsistent(AccountProofError),
    /// The entries of a slot do not make the map that its header names.
    InvalidMap(SlotId),
}

/// The slot of the account is a storage map.
pub open spec fn is_map_slot(slots: Seq<StorageSlotHeader>, slot: SlotId) -> bool {
    exists|i: int|
        0 <= i < slots.len() && (#[trigger] slots[i]).slot_name == slot && slots[i].slot_type
            is MapRoot
}

/// The account has the entries of the map of a slot.
pub open spec fn has_entries(account: MockAccount, slot: StorageSlotHeader) -> bool {
    slot.slot_type is MapRoot ==> account.maps@.contains_key(slot.slot_name) && storage_map_root_of(
        account.maps@[slot.slot_name]@,
    ) == Some(slot.value)
}

/// The slot at the position is the first one whose map the account does not have the entries of.
pub open spec fn is_first_invalid(account: MockAccount, i: int) -> bool {
    &&& 0 <= i < account.slots@.len()
    &&& !has_entries(account, account.slots@[i])
    &&& forall|k: int| 0 <= k < i ==> has_entries(account, #[trigger] account.slots@[k])
}

impl MockAccount {
    /// The account has the entries of all its maps.
    pub open spec fn wf(self) -> bool {
        forall|i: int| 0 <= i < self.slots@.len() ==> has_entries(self, #[trigger] self.slots@[i])
    }
}

/// How an account is not the one that the tree of accounts holds.
pub open spec fn state_problem(witness: AccountWitness, account: MockAccount) -> Option<
    AccountProofError,
> {
    if header_commitment_of(account.header) != Some(witness.state_commitment) {
        Some(AccountProofError::InconsistentAccountCommitment)
    } else if account.header.id != witness.id {
        Some(AccountProofError::InconsistentAccountId)
    } else if account.code.commitment != account.header.code_commitment {
        Some(AccountProofError::InconsistentCodeCommitment)
    } else {
        None
    }
}

/// An account in the tree of accounts, with the state of a public one.
#[derive(Debug)]
pub struct MockAccountState {
    witness: AccountWitness,
    account: Option<MockAccount>,
}

impl MockAccountState {
    /// The place of the account in the tree.
    pub closed spec fn witness(self) -> AccountWitness {
        self.witness
    }

    /// The state of a public account.
    pub closed spec fn account(self) -> Option<MockAccount> {
        self.account
    }

    #[verifier::type_invariant]
    spec fn inv(self) -> bool {
        match self.account {
            Some(account) => account.wf() && state_problem(self.witness, account) is None,
            None => true,
        }
    }

    /// Puts an account into the tree.
    pub fn new(witness: AccountWitness, account: Option<MockAccount>) -> (made: Result<
        Self,
        MockAccountError,
    >)
        ensures
            match (made, account) {
                (Ok(state), None) => state.witness() == witness && state.account() is None,
                (Ok(state), Some(a)) => {
                    &&& state.witness() == witness
                    &&& state.account() == account
                    &&& a.wf()
                    &&& state_problem(witness, a) is None
                },
                (Err(_), None) => false,
                (Err(MockAccountError::Inconsistent(error)), Some(a)) => state_problem(witness, a)
                    == Some(error),
                (Err(MockAccountError::InvalidMap(slot)), Some(a)) => {
                    &&& state_problem(witness, a) is None
                    &&& exists|i: int| #[trigger] is_first_invalid(a, i) && a.slots@[i].slot_name == slot
                },
            },
    {
        if let Some(public) = &account {
            match header_commitment(&public.header) {
                Some(commitment) if commitment == witness.state_commitment => {},
                _ => {
                    return Err(
                        MockAccountError::Inconsistent(
                            AccountProofError::InconsistentAccountCommitment,
                        ),
                    );
                },
            }
            if public.header.id != witness.id {
                return Err(
                    MockAccountError::Inconsistent(AccountProofError::InconsistentAccountId),
                );
            }
            if public.code.commitment != public.header.code_commitment {
                return Err(
                    MockAccountError::Inconsistent(AccountProofError::InconsistentCodeCommitment),
                );
            }
            let mut i: usize = 0;
            while i < public.slots.len()
                invariant
                    i <= public.slots.len(),
                    account == Some(*public),
                    state_problem(witness, *public) is None,
                    forall|k: int|
                        0 <= k < i ==> has_entries(*public, #[trigger] public.slots@[k]),
                decreases public.slots.len() - i,
            {
                let slot = public.slots[i];
                if slot.slot_type == StorageSlotType::MapRoot {
                    let root = match public.maps.get(&slot.slot_name) {
                        Some(entries) => storage_map_root(entries),
                        None => None,
                    };
                    if root != Some(slot.value) {
                        assert(!has_entries(*public, public.slots@[i as int]));
                        assert(is_first_invalid(*public, i as int));
                        return Err(MockAccountError::InvalidMap(slot.slot_name));
                    }
                }
                i += 1;
            }
        }
        Ok(MockAccountState { witness, account })
    }

    /// Answers a request for the account. What the client holds makes no difference: the code and the
    /// assets are always sent.
    pub fn answer(&self, storage: &StorageMapFetch, oversize_threshold: usize) -> (answer:
        AccountProof)
        requires
            self.account() matches Some(account) ==> can_serve(account, *storage),
        ensures
            answer.account_witness.id == self.witness().id,
            answer.account_witness.state_commitment == self.witness().state_commitment,
            answer.account_witness.path@ == self.witness().path@,
            answer.is_consistent(),
            match self.account() {
                Some(account) => answer.state_headers matches Some(details) && is_details_of(
                    details,
                    account,
                    *storage,
                    oversize_threshold,
                ),
                None => answer.state_headers is None,
            },
    {
        proof {
            use_type_invariant(self);
        }
        let account_witness = AccountWitness {
            id: self.witness.id,
            state_commitment: self.witness.state_commitment,
            path: self.witness.path.clone(),
        };
        let state_headers = match &self.account {
            Some(account) => Some(
                AccountDetails {
                    header: account.header,
                    storage_details: storage_answer(account, storage, oversize_threshold),
                    code: account.code.copy(),
                    vault_details: vault_answer(account, oversize_threshold),
                },
            ),
            None => None,
        };
        AccountProof { account_witness, state_headers }
    }
}

// STORAGE
// ================================================================================================
/// The maps that are requested: the keys that are requested of each, where none stands for all.
pub open spec fn requested_maps(slots: Seq<StorageSlotHeader>, storage: StorageMapFetch) -> Seq<
    (SlotId, Seq<Word>),
> {
    match storage {
        StorageMapFetch::Skip => Seq::empty(),
        StorageMapFetch::Slots(requirements) => requirements.slots.listing().map_values(
            |entry: (SlotId, Vec<Word>)| (entry.0, entry.1@),
        ),
        StorageMapFetch::All => all_maps(slots),
    }
}

/// All maps of an account, in the order of their slots, with all their entries requested.
pub open spec fn all_maps(slots: Seq<StorageSlotHeader>) -> Seq<(SlotId, Seq<Word>)>
    decreases slots.len(),
{
    if slots.len() == 0 {
        Seq::empty()
    } else if slots.last().slot_type is MapRoot {
        all_maps(slots.drop_last()).push((slots.last().slot_name, Seq::empty()))
    } else {
        all_maps(slots.drop_last())
    }
}

/// The slots that are requested by name are storage maps of the account.
pub open spec fn can_serve(account: MockAccount, storage: StorageMapFetch) -> bool {
    storage matches StorageMapFetch::Slots(requirements) ==> forall|slot: SlotId| #[trigger]
        requirements.slots@.contains_key(slot) ==> is_map_slot(account.slots@, slot)
}

/// What is sent of a map. If keys are requested, it is the part of the tree of the map that carries
/// them. Otherwise it is the whole map, unless that is too large.
pub open spec fn is_answer_for(
    answer: StorageMapEntries,
    entries: Seq<StorageMapEntry>,
    keys: Seq<Word>,
    oversize_threshold: usize,
) -> bool {
    if keys.len() > 0 {
        answer matches StorageMapEntries::PartialMap { map_keys, partial_smt } && map_keys@ == keys
            && storage_map_root_of(entries) == Some(smt_root(partial_smt)) && forall|i: int|
            0 <= i < keys.len() ==> smt_keys(partial_smt).contains(#[trigger] keys[i])
    } else if entries.len() > oversize_threshold {
        answer is LimitExceeded
    } else {
        answer matches StorageMapEntries::AllEntries(sent) && sent@ == entries
    }
}

/// The data of a map are what is requested of it.
pub open spec fn is_map_answer(
    details: AccountStorageMapDetails,
    account: MockAccount,
    requested: (SlotId, Seq<Word>),
    oversize_threshold: usize,
) -> bool {
    details.slot_name == requested.0 && is_answer_for(
        details.entries,
        account.maps@[requested.0]@,
        requested.1,
        oversize_threshold,
    )
}

/// The data of the maps are what is requested, map by map.
pub open spec fn are_map_answers(
    map_details: Seq<AccountStorageMapDetails>,
    account: MockAccount,
    requested: Seq<(SlotId, Seq<Word>)>,
    oversize_threshold: usize,
) -> bool {
    &&& map_details.len() == requested.len()
    &&& forall|i: int|
        #![trigger map_details[i]]
        #![trigger requested[i]]
        0 <= i < requested.len() ==> is_map_answer(
            map_details[i],
            account,
            requested[i],
            oversize_threshold,
        )
}

/// The details are those of the account, with the maps that are requested.
pub open spec fn is_details_of(
    details: AccountDetails,
    account: MockAccount,
    storage: StorageMapFetch,
    oversize_threshold: usize,
) -> bool {
    &&& details.header == account.header
    &&& same_code(details.code, account.code)
    &&& details.storage_details.header@ == account.slots@
    &&& are_map_answers(
        details.storage_details.map_details@,
        account,
        requested_maps(account.slots@, storage),
        oversize_threshold,
    )
    &&& details.vault_details.assets@ == account.assets@
    &&& details.vault_details.too_many_assets == (details.vault_details.assets@.len()
        > oversize_threshold)
}

/// Returns what is sent of a map.
fn map_answer(entries: &Vec<StorageMapEntry>, keys: &Vec<Word>, oversize_threshold: usize) -> (
answer: StorageMapEntries)
    requires
        storage_map_root_of(entries@) is Some,
    ensures
        is_answer_for(answer, entries@, keys@, oversize_threshold),
{
    if keys.len() > 0 {
        if let Some(partial_smt) = open_map(entries, keys) {
            return StorageMapEntries::PartialMap { map_keys: keys.clone(), partial_smt };
        }
    }
    if entries.len() > oversize_threshold {
        StorageMapEntries::LimitExceeded
    } else {
        StorageMapEntries::AllEntries(entries.clone())
    }
}

/// A slot that is a map has its entries.
proof fn lemma_map_slot(account: MockAccount, slot: SlotId)
    requires
        account.wf(),
        is_map_slot(account.slots@, slot),
    ensures
        account.maps@.contains_key(slot),
        storage_map_root_of(account.maps@[slot]@) is Some,
{
    let i = choose|i: int|
        0 <= i < account.slots@.len() && (#[trigger] account.slots@[i]).slot_name == slot
            && account.slots@[i].slot_type is MapRoot;
    assert(has_entries(account, account.slots@[i]));
}

/// Returns the data of the maps that are requested by name.
fn named_maps(
    account: &MockAccount,
    requirements: &AccountStorageRequirements,
    oversize_threshold: usize,
) -> (map_details: Vec<AccountStorageMapDetails>)
    requires
        account.wf(),
        forall|slot: SlotId| #[trigger]
            requirements.slots@.contains_key(slot) ==> is_map_slot(account.slots@, slot),
    ensures
        are_map_answers(
            map_details@,
            *account,
            requirements.slots.listing().map_values(
                |entry: (SlotId, Vec<Word>)| (entry.0, entry.1@),
            ),
            oversize_threshold,
        ),
{
    let ghost requested = requirements.slots.listing().map_values(
        |entry: (SlotId, Vec<Word>)| (entry.0, entry.1@),
    );
    let mut map_details: Vec<AccountStorageMapDetails> = Vec::new();
    let mut i: usize = 0;
    while i < requirements.slots.len()
        invariant
            i <= requirements.slots.listing().len(),
            account.wf(),
            forall|slot: SlotId| #[trigger]
                requirements.slots@.contains_key(slot) ==> is_map_slot(account.slots@, slot),
            requested == requirements.slots.listing().map_values(
                |entry: (SlotId, Vec<Word>)| (entry.0, entry.1@),
            ),
            are_map_answers(
                map_details@,
                *account,
                requested.take(i as int),
                oversize_threshold,
            ),
        decreases requirements.slots.listing().len() - i,
    {
        let slot_name = requirements.slots.entries()[i].0;
        let keys = &requirements.slots.entries()[i].1;
        proof {
            assert(requirements.slots.listing()[i as int].0 == slot_name);
            assert(requirements.slots@.contains_key(slot_name));
            lemma_map_slot(*account, slot_name);
        }
        if let Some(entries) = account.maps.get(&slot_name) {
            let entries = map_answer(entries, keys, oversize_threshold);
            map_details.push(AccountStorageMapDetails { slot_name, entries });
        }
        assert(requested.take(i + 1) =~= requested.take(i as int).push(requested[i as int]));
        i += 1;
    }
    assert(requested.take(i as int) =~= requested);
    map_details
}

/// Returns the data of all maps.
fn every_map(account: &MockAccount, oversize_threshold: usize) -> (map_details: Vec<
    AccountStorageMapDetails,
>)
    requires
        account.wf(),
    ensures
        are_map_answers(map_details@, *account, all_maps(account.slots@), oversize_threshold),
{
    let no_keys: Vec<Word> = Vec::new();
    let mut map_details: Vec<AccountStorageMapDetails> = Vec::new();
    let mut i: usize = 0;
    while i < account.slots.len()
        invariant
            i <= account.slots.len(),
            account.wf(),
            no_keys@ == Seq::<Word>::empty(),
            are_map_answers(
                map_details@,
                *account,
                all_maps(account.slots@.take(i as int)),
                oversize_threshold,
            ),
        decreases account.slots.len() - i,
    {
        let slot = account.slots[i];
        proof {
            let longer = account.slots@.take(i + 1);
            assert(longer.drop_last() =~= account.slots@.take(i as int));
            assert(longer.last() == account.slots@[i as int]);
            assert(has_entries(*account, account.slots@[i as int]));
        }
        if slot.slot_type == StorageSlotType::MapRoot {
            if let Some(entries) = account.maps.get(&slot.slot_name) {
                let entries = map_answer(entries, &no_keys, oversize_threshold);
                map_details.push(
                    AccountStorageMapDetails { slot_name: slot.slot_name, entries },
                );
            }
        }
        i += 1;
    }
    assert(account.slots@.take(i as int) =~= account.slots@);
    map_details
}

/// Returns the storage data that are requested.
fn storage_answer(account: &MockAccount, storage: &StorageMapFetch, oversize_threshold: usize) -> (
details: AccountStorageDetails)
    requires
        account.wf(),
        can_serve(*account, *storage),
    ensures
        details.header@ == account.slots@,
        are_map_answers(
            details.map_details@,
            *account,
            requested_maps(account.slots@, *storage),
            oversize_threshold,
        ),
{
    let map_details = match storage {
        StorageMapFetch::Skip => Vec::new(),
        StorageMapFetch::Slots(requirements) => named_maps(
            account,
            requirements,
            oversize_threshold,
        ),
        StorageMapFetch::All => every_map(account, oversize_threshold),
    };
    AccountStorageDetails { header: account.slots.clone(), map_details }
}

/// Returns the vault data.
fn vault_answer(account: &MockAccount, oversize_threshold: usize) -> (details: AccountVaultDetails)
    ensures
        details.assets@ == account.assets@,
        details.too_many_assets == (details.assets@.len() > oversize_threshold),
{
    let assets = account.assets.clone();
    AccountVaultDetails { too_many_assets: assets.len() > oversize_threshold, assets }
}

// TREE
// ================================================================================================
/// The opening of an account in the tree over the accounts and their states: the account that has the
/// place, its state, and the path; `None` if there is no such tree or no such account id.
pub uninterp spec fn account_opened_of(entries: Seq<(AccountId, Word)>, id: AccountId) -> Option<
    (AccountId, Word, Seq<Word>),
>;

/// The state is none, or that of one of the accounts.
pub open spec fn is_state_among(state_commitment: Word, entries: Seq<(AccountId, Word)>) -> bool {
    state_commitment == Word::spec_empty() || exists|i: int|
        0 <= i < entries.len() && canonical((#[trigger] entries[i]).1) == state_commitment
}

/// `AccountTree::insert` of each entry, and `AccountTree::open`: the place of an account in the tree,
/// which is a proof that the account is not there if the tree does not have it. `None` if an integer
/// is not an account id, or if two accounts have the same place. The path is as long as the tree is
/// deep, and the state is one of those that were inserted, or none. What is opened is only named.
#[verifier::external_body]
fn open_account(entries: &Vec<(AccountId, Word)>, id: AccountId) -> (witness: Option<AccountWitness>)
    ensures
        match (witness, account_opened_of(entries@, id)) {
            (Some(witness), Some((found, state_commitment, path))) => {
                &&& witness.id == found
                &&& witness.state_commitment == state_commitment
                &&& witness.path@ == path
            },
            (None, None) => true,
            _ => false,
        },
        witness is Some ==> witness->0.path@.len() == ACCOUNT_TREE_DEPTH,
        witness is Some ==> is_state_among(witness->0.state_commitment, entries@),
        entries@.len() == 0 ==> (witness is Some <==> is_account_id_of(id)),
{
    let mut tree = AccountTree::<Smt>::default();
    for (id, state) in entries {
        let state = ProtocolWord::new(state.elements().map(Felt::new_unchecked));
        tree.insert(ProtocolAccountId::try_from(*id).ok()?, state).ok()?;
    }
    let opened = tree.open(ProtocolAccountId::try_from(id).ok()?);
    let plain =
        |w: ProtocolWord| Word::from_elements(w.into_elements().map(|e| e.as_canonical_u64()));
    let path = MerklePath::from(opened.path().clone()).into_iter().map(plain).collect();
    let state_commitment = plain(opened.state_commitment());
    Some(AccountWitness { id: opened.id().into(), state_commitment, path })
}

/// The accounts with the commitments to their states.
pub open spec fn tree_entries(accounts: OrdMap<AccountId, MockAccountState>) -> Seq<
    (AccountId, Word),
> {
    accounts.listing().map_values(
        |entry: (AccountId, MockAccountState)| (entry.0, entry.1.witness().state_commitment),
    )
}

/// Returns the proof that an account is not among those of the chain: it has no state, or its place
/// in the tree is taken by another account.
pub(crate) fn absent_account(
    accounts: &OrdMap<AccountId, MockAccountState>,
    account_id: AccountId,
) -> (answer: Option<AccountProof>)
    ensures
        match (answer, account_opened_of(tree_entries(*accounts), account_id)) {
            (Some(answer), Some((id, state_commitment, path))) => {
                &&& answer.account_witness.id == id
                &&& answer.account_witness.state_commitment == state_commitment
                &&& answer.account_witness.path@ == path
                &&& answer.account_witness.path@.len() == ACCOUNT_TREE_DEPTH
                &&& is_state_among(state_commitment, tree_entries(*accounts))
                &&& answer.state_headers is None
            },
            (None, None) => true,
            _ => false,
        },
        accounts.listing().len() == 0 ==> (answer is Some <==> is_account_id_of(account_id)),
{
    let mut entries: Vec<(AccountId, Word)> = Vec::new();
    let mut i: usize = 0;
    while i < accounts.len()
        invariant
            i <= accounts.listing().len(),
            entries@ == tree_entries(*accounts).take(i as int),
        decreases accounts.listing().len() - i,
    {
        let (id, state) = &accounts.entries()[i];
        entries.push((*id, state.witness.state_commitment));
        proof {
            let all = tree_entries(*accounts);
            assert(all.take(i + 1) =~= all.take(i as int).push(all[i as int]));
        }
        i += 1;
    }
    assert(tree_entries(*accounts).take(i as int) =~= tree_entries(*accounts));
    match open_account(&entries, account_id) {
        Some(account_witness) => Some(AccountProof { account_witness, state_headers: None }),
        None => None,
    }
}

} // verus!
