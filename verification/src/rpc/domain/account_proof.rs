//! Proofs of account states, the details that come with them, and the requests for both.
use vstd::prelude::*;

use crate::collections::{first_some, lemma_first_some_at, lemma_first_some_step, OrdMap};
use crate::rpc::domain::account::{
    header_commitment, header_commitment_of, same_code, storage_map_root, storage_map_root_of,
    vault_root, vault_root_of, witness_root, witness_root_of, Account, AccountCode, AccountHeader,
    AccountProofError, AccountResponseError, Asset, SlotId, StorageSlotContent, StorageSlotHeader,
    StorageSlotType, ACCOUNT_TREE_DEPTH, MAX_STORAGE_SLOTS,
};
use crate::rpc::domain::account_storage::{
    are_requests_of, coverage_problems, details_of, storage_read, AccountStorageDetails,
    AccountStorageMapDetails, AccountStorageRequirements, MapDetailsMessage,
    StorageMapDetailRequest, StorageMapEntries,
};
use crate::types::{AccountId, BlockNumber, Word};

verus! {

// ACCOUNT DETAILS
// ================================================================================================
/// The vault of an account.
#[derive(Debug)]
pub struct AccountVaultDetails {
    /// The vault has too many assets for one answer, and they have to be fetched block by block.
    pub too_many_assets: bool,
    /// The assets, unless there are too many.
    pub assets: Vec<Asset>,
}

/// What a node reports of a public account.
#[derive(Debug)]
pub struct AccountDetails {
    pub header: AccountHeader,
    pub storage_details: AccountStorageDetails,
    pub code: AccountCode,
    pub vault_details: AccountVaultDetails,
}

/// The storage of an account as it arrives.
#[derive(Debug)]
pub struct StorageDetailsMessage {
    pub header: Option<Vec<StorageSlotHeader>>,
    pub map_details: Vec<MapDetailsMessage>,
}

/// The details of an account as they arrive.
#[derive(Debug)]
pub struct AccountDetailsMessage {
    pub header: Option<AccountHeader>,
    pub storage_details: Option<StorageDetailsMessage>,
    pub code: Option<AccountCode>,
    pub vault_details: Option<AccountVaultDetails>,
}

/// `details` is what comes of reading the details of an account, given the storage that was read.
pub open spec fn details_read(
    message: AccountDetailsMessage,
    header: AccountHeader,
    storage: AccountStorageDetails,
    known_codes: Map<Word, AccountCode>,
    requirements: AccountStorageRequirements,
    details: Result<AccountDetails, AccountResponseError>,
) -> bool {
    match first_some(coverage_problems(storage.map_details@, requirements)) {
        Some(error) => details == Err::<AccountDetails, _>(error),
        None => if message.code is None && !known_codes.contains_key(header.code_commitment) {
            details == Err::<AccountDetails, _>(AccountResponseError::MissingCode)
        } else if message.vault_details is None {
            details == Err::<AccountDetails, _>(AccountResponseError::MissingField)
        } else {
            &&& details is Ok
            &&& details->Ok_0.header == header
            &&& details->Ok_0.storage_details == storage
            &&& details->Ok_0.vault_details == message.vault_details->0
            &&& match message.code {
                Some(code) => details->Ok_0.code == code,
                None => same_code(details->Ok_0.code, known_codes[header.code_commitment]),
            }
        },
    }
}

/// `details` is what comes of reading the details of an account.
pub open spec fn message_read(
    message: AccountDetailsMessage,
    known_codes: Map<Word, AccountCode>,
    requirements: AccountStorageRequirements,
    details: Result<AccountDetails, AccountResponseError>,
) -> bool {
    if message.header is None || message.storage_details is None {
        details == Err::<AccountDetails, _>(AccountResponseError::MissingField)
    } else {
        exists|storage: Result<AccountStorageDetails, AccountResponseError>| #[trigger]
            storage_read(
                message.storage_details->0.header,
                message.storage_details->0.map_details@,
                storage,
            ) && match storage {
                Err(error) => details == Err::<AccountDetails, _>(error),
                Ok(storage) => details_read(
                    message,
                    message.header->0,
                    storage,
                    known_codes,
                    requirements,
                    details,
                ),
            }
    }
}

impl AccountDetailsMessage {
    /// Reads the details of an account.
    ///
    /// A node leaves out code whose commitment it was told the client knows. It is then taken from
    /// `known_account_codes`. The partial maps are checked against the request they answer.
    pub fn into_domain(
        self,
        known_account_codes: &OrdMap<Word, AccountCode>,
        storage_requirements: &AccountStorageRequirements,
    ) -> (details: Result<AccountDetails, AccountResponseError>)
        ensures
            message_read(self, known_account_codes@, *storage_requirements, details),
    {
        let AccountDetailsMessage { header, storage_details, code, vault_details } = self;
        let (header, storage_message) = match (header, storage_details) {
            (Some(header), Some(storage)) => (header, storage),
            _ => {
                return Err(AccountResponseError::MissingField);
            },
        };
        let read = AccountStorageDetails::try_from_message(
            storage_message.header,
            storage_message.map_details,
        );
        assert(storage_read(
            self.storage_details->0.header,
            self.storage_details->0.map_details@,
            read,
        ));
        let storage = match read {
            Ok(storage) => storage,
            Err(error) => {
                return Err(error);
            },
        };
        if let Err(error) = storage.validate_against_request(storage_requirements) {
            return Err(error);
        }
        let code = match code {
            Some(code) => code,
            None => match known_account_codes.get(&header.code_commitment) {
                Some(code) => code.copy(),
                None => {
                    return Err(AccountResponseError::MissingCode);
                },
            },
        };
        match vault_details {
            Some(vault_details) => Ok(
                AccountDetails { header, storage_details: storage, code, vault_details },
            ),
            None => Err(AccountResponseError::MissingField),
        }
    }
}

// ACCOUNT FROM DETAILS
// ================================================================================================
/// Whether a map was left out, one by one.
pub open spec fn oversize_problems(map_details: Seq<AccountStorageMapDetails>) -> Seq<
    Option<AccountResponseError>,
> {
    map_details.map_values(
        |details: AccountStorageMapDetails|
            if details.limit_exceeded() {
                Some(AccountResponseError::MapTooLarge { slot_name: details.slot_name })
            } else {
                None
            },
    )
}

/// Why the content of a slot cannot be taken from the details.
pub open spec fn slot_problem(
    map_details: Seq<AccountStorageMapDetails>,
    slot: StorageSlotHeader,
) -> Option<AccountResponseError> {
    let slot_name = slot.slot_name;
    match slot.slot_type {
        StorageSlotType::Value => None,
        StorageSlotType::MapRoot => match details_of(map_details, slot_name) {
            None => Some(AccountResponseError::MissingMapDetails { slot_name }),
            Some(details) => match details.entries {
                StorageMapEntries::AllEntries(entries) => if storage_map_root_of(
                    entries@,
                ) is None {
                    Some(AccountResponseError::InvalidMapEntries { slot_name })
                } else {
                    None
                },
                _ => Some(AccountResponseError::IncompleteMap { slot_name }),
            },
        },
    }
}

/// Why the contents of the slots cannot be taken from the details, one by one.
pub open spec fn slot_problems(
    map_details: Seq<AccountStorageMapDetails>,
    slots: Seq<StorageSlotHeader>,
) -> Seq<Option<AccountResponseError>> {
    slots.map_values(|slot: StorageSlotHeader| slot_problem(map_details, slot))
}

/// The content of a slot is what the details say.
pub open spec fn is_content_of(
    map_details: Seq<AccountStorageMapDetails>,
    slot: StorageSlotHeader,
    content: StorageSlotContent,
) -> bool {
    match content {
        StorageSlotContent::Value(value) => slot.slot_type == StorageSlotType::Value && value
            == slot.value,
        StorageSlotContent::MapEntries { root, entries } => slot.slot_type
            == StorageSlotType::MapRoot && match details_of(map_details, slot.slot_name) {
            Some(details) => match details.entries {
                StorageMapEntries::AllEntries(received) => entries@ == received@ && Some(root)
                    == storage_map_root_of(received@),
                _ => false,
            },
            None => false,
        },
    }
}

/// No two slots have the same name.
pub open spec fn slots_distinct(slots: Seq<StorageSlotHeader>) -> bool {
    forall|i: int, j: int|
        0 <= i < j < slots.len() ==> (#[trigger] slots[i]).slot_name != (
        #[trigger] slots[j]).slot_name
}

/// Why the whole account cannot be built from the details.
pub open spec fn account_problem(details: AccountDetails) -> Option<AccountResponseError> {
    let maps = details.storage_details.map_details@;
    let slots = details.storage_details.header@;
    if details.vault_details.too_many_assets {
        Some(AccountResponseError::VaultTooLarge)
    } else if first_some(oversize_problems(maps)) is Some {
        first_some(oversize_problems(maps))
    } else if first_some(slot_problems(maps, slots)) is Some {
        first_some(slot_problems(maps, slots))
    } else if vault_root_of(details.vault_details.assets@) is None {
        Some(AccountResponseError::InvalidAssets)
    } else if slots.len() > MAX_STORAGE_SLOTS || !slots_distinct(slots) {
        Some(AccountResponseError::InvalidStorageSlots)
    } else if details.header.nonce == 0 {
        Some(AccountResponseError::MissingSeed)
    } else {
        None
    }
}

/// The account is the one the details describe.
pub open spec fn is_account_of(details: AccountDetails, account: Account) -> bool {
    let maps = details.storage_details.map_details@;
    let slots = details.storage_details.header@;
    &&& account.id == details.header.id
    &&& account.nonce == details.header.nonce
    &&& Some(account.vault_root) == vault_root_of(details.vault_details.assets@)
    &&& account.assets@ == details.vault_details.assets@
    &&& same_code(account.code, details.code)
    &&& forall|i: int|
        0 <= i < slots.len() ==> account.storage@.contains_key((#[trigger] slots[i]).slot_name)
            && is_content_of(maps, slots[i], account.storage@[slots[i].slot_name])
    &&& forall|slot_name: SlotId| #[trigger]
        account.storage@.contains_key(slot_name) ==> exists|i: int|
            0 <= i < slots.len() && (#[trigger] slots[i]).slot_name == slot_name
}

/// Returns the slot of the first map that was left out.
fn first_oversized(map_details: &Vec<AccountStorageMapDetails>) -> (error: Option<
    AccountResponseError,
>)
    ensures
        error == first_some(oversize_problems(map_details@)),
{
    let ghost problems = oversize_problems(map_details@);
    let mut i: usize = 0;
    while i < map_details.len()
        invariant
            i <= map_details.len(),
            problems == oversize_problems(map_details@),
            first_some(problems.take(i as int)) is None,
        decreases map_details.len() - i,
    {
        assert(problems.len() == map_details@.len());
        if map_details[i].is_limit_exceeded() {
            proof {
                lemma_first_some_at(problems, i as int);
            }
            return Some(
                AccountResponseError::MapTooLarge { slot_name: map_details[i].slot_name },
            );
        }
        proof {
            lemma_first_some_step(problems, i as int);
        }
        i += 1;
    }
    assert(problems.take(map_details.len() as int) =~= problems);
    None
}

/// Returns the content of a slot.
fn slot_content(details: &AccountStorageDetails, slot: &StorageSlotHeader) -> (content: Result<
    StorageSlotContent,
    AccountResponseError,
>)
    ensures
        match content {
            Ok(c) => slot_problem(details.map_details@, *slot) is None && is_content_of(
                details.map_details@,
                *slot,
                c,
            ),
            Err(error) => slot_problem(details.map_details@, *slot) == Some(error),
        },
{
    let slot_name: SlotId = slot.slot_name;
    match slot.slot_type {
        StorageSlotType::Value => Ok(StorageSlotContent::Value(slot.value)),
        StorageSlotType::MapRoot => match details.find_map_details(slot_name) {
            None => Err(AccountResponseError::MissingMapDetails { slot_name }),
            Some(map_details) => match &map_details.entries {
                StorageMapEntries::AllEntries(entries) => match storage_map_root(entries) {
                    Some(root) => Ok(
                        StorageSlotContent::MapEntries { root, entries: entries.clone() },
                    ),
                    None => Err(AccountResponseError::InvalidMapEntries { slot_name }),
                },
                _ => Err(AccountResponseError::IncompleteMap { slot_name }),
            },
        },
    }
}

impl Account {
    /// Builds the account that the details describe. This fails if they are incomplete: if the
    /// vault or a map is too large for one answer, or if only some keys of a map were requested.
    pub fn try_from_details(details: &AccountDetails) -> (account: Result<
        Self,
        AccountResponseError,
    >)
        ensures
            match account {
                Ok(a) => account_problem(*details) is None && is_account_of(*details, a),
                Err(error) => account_problem(*details) == Some(error),
            },
    {
        if details.vault_details.too_many_assets {
            return Err(AccountResponseError::VaultTooLarge);
        }
        if let Some(error) = first_oversized(&details.storage_details.map_details) {
            return Err(error);
        }
        let slots = &details.storage_details.header;
        let ghost maps = details.storage_details.map_details@;
        let ghost problems = slot_problems(maps, slots@);
        let mut storage: OrdMap<SlotId, StorageSlotContent> = OrdMap::new();
        let mut distinct: bool = true;
        let mut i: usize = 0;
        while i < slots.len()
            invariant
                i <= slots.len(),
                slots@ == details.storage_details.header@,
                maps == details.storage_details.map_details@,
                !details.vault_details.too_many_assets,
                first_some(oversize_problems(maps)) is None,
                problems == slot_problems(maps, slots@),
                first_some(problems.take(i as int)) is None,
                distinct == slots_distinct(slots@.take(i as int)),
                forall|k: int|
                    0 <= k < i ==> storage@.contains_key((#[trigger] slots@[k]).slot_name),
                distinct ==> forall|k: int|
                    0 <= k < i ==> is_content_of(
                        maps,
                        #[trigger] slots@[k],
                        storage@[slots@[k].slot_name],
                    ),
                forall|slot_name: SlotId| #[trigger]
                    storage@.contains_key(slot_name) ==> exists|k: int|
                        0 <= k < i && (#[trigger] slots@[k]).slot_name == slot_name,
            decreases slots.len() - i,
        {
            let slot = slots[i];
            assert(problems[i as int] == slot_problem(maps, slots@[i as int]));
            let ghost before = storage@;
            match slot_content(&details.storage_details, &slot) {
                Ok(content) => {
                    proof {
                        lemma_first_some_step(problems, i as int);
                    }
                    let repeated = storage.contains(&slot.slot_name);
                    proof {
                        let shorter = slots@.take(i as int);
                        let longer = slots@.take(i + 1);
                        if repeated {
                            let k = choose|k: int|
                                0 <= k < i && (#[trigger] slots@[k]).slot_name == slot.slot_name;
                            assert(longer[k].slot_name == longer[i as int].slot_name);
                            assert(!slots_distinct(longer));
                        } else {
                            if slots_distinct(shorter) {
                                assert forall|a: int, b: int| 0 <= a < b < longer.len() implies (
                                #[trigger] longer[a]).slot_name != (
                                #[trigger] longer[b]).slot_name by {
                                    if b < i {
                                        assert(shorter[a].slot_name != shorter[b].slot_name);
                                    } else {
                                        assert(before.contains_key(slots@[a].slot_name));
                                    }
                                }
                            } else {
                                let (a, b) = choose|a: int, b: int|
                                    0 <= a < b < shorter.len() && (#[trigger] shorter[a]).slot_name
                                        == (#[trigger] shorter[b]).slot_name;
                                assert(longer[a].slot_name == longer[b].slot_name);
                            }
                        }
                    }
                    if repeated {
                        distinct = false;
                    }
                    storage.insert(slot.slot_name, content);
                    proof {
                        assert forall|slot_name: SlotId| #[trigger]
                            storage@.contains_key(slot_name) implies exists|k: int|
                            0 <= k < i + 1 && (#[trigger] slots@[k]).slot_name == slot_name by {
                            if slot_name == slot.slot_name {
                                assert(slots@[i as int].slot_name == slot_name);
                            } else {
                                assert(before.contains_key(slot_name));
                                let k = choose|k: int|
                                    0 <= k < i && (#[trigger] slots@[k]).slot_name == slot_name;
                                assert(slots@[k].slot_name == slot_name);
                            }
                        }
                    }
                },
                Err(error) => {
                    proof {
                        lemma_first_some_at(problems, i as int);
                    }
                    return Err(error);
                },
            }
            i += 1;
        }
        assert(problems.take(slots.len() as int) =~= problems);
        assert(slots@.take(slots.len() as int) =~= slots@);
        let root = match vault_root(&details.vault_details.assets) {
            Some(root) => root,
            None => {
                return Err(AccountResponseError::InvalidAssets);
            },
        };
        if slots.len() > MAX_STORAGE_SLOTS || !distinct {
            return Err(AccountResponseError::InvalidStorageSlots);
        }
        if details.header.nonce == 0 {
            return Err(AccountResponseError::MissingSeed);
        }
        Ok(
            Account {
                id: details.header.id,
                nonce: details.header.nonce,
                vault_root: root,
                assets: details.vault_details.assets.clone(),
                storage,
                code: details.code.copy(),
            },
        )
    }
}

// ACCOUNT PROOF
// ================================================================================================
/// Shows that an account has a state in the account tree.
#[derive(Debug)]
pub struct AccountWitness {
    pub id: AccountId,
    /// The commitment to the state; the empty word if the account is not in the tree.
    pub state_commitment: Word,
    /// The path from the account to the root of the tree.
    pub path: Vec<Word>,
}

impl AccountWitness {
    /// The witness opens under the root.
    pub open spec fn opens_under(self, account_root: Word) -> bool {
        &&& self.path@.len() == ACCOUNT_TREE_DEPTH
        &&& witness_root_of(self.id, self.state_commitment, self.path@) == Some(account_root)
    }

    /// Returns true if the witness opens under the root.
    pub fn verify(&self, account_root: &Word) -> (opens: bool)
        ensures
            opens == self.opens_under(*account_root),
    {
        if self.path.len() != ACCOUNT_TREE_DEPTH {
            return false;
        }
        match witness_root(self.id, self.state_commitment, &self.path) {
            Some(root) => root == *account_root,
            None => false,
        }
    }
}

/// A proof of the state of an account, with the details of a public account.
#[derive(Debug)]
pub struct AccountProof {
    pub account_witness: AccountWitness,
    pub state_headers: Option<AccountDetails>,
}

/// How a witness and the details that come with it disagree.
pub open spec fn proof_problem(witness: AccountWitness, details: Option<AccountDetails>) -> Option<
    AccountProofError,
> {
    match details {
        None => None,
        Some(d) => if header_commitment_of(d.header) != Some(witness.state_commitment) {
            Some(AccountProofError::InconsistentAccountCommitment)
        } else if d.header.id != witness.id {
            Some(AccountProofError::InconsistentAccountId)
        } else if d.code.commitment != d.header.code_commitment {
            Some(AccountProofError::InconsistentCodeCommitment)
        } else {
            None
        },
    }
}

impl AccountProof {
    /// The witness and the details agree.
    pub open spec fn is_consistent(self) -> bool {
        proof_problem(self.account_witness, self.state_headers) is None
    }

    /// Puts a witness and details together if they agree.
    pub fn new(account_witness: AccountWitness, account_details: Option<AccountDetails>) -> (made:
        Result<Self, AccountProofError>)
        ensures
            match made {
                Ok(p) => p.is_consistent() && p.account_witness == account_witness
                    && p.state_headers == account_details,
                Err(error) => proof_problem(account_witness, account_details) == Some(error),
            },
    {
        if let Some(details) = &account_details {
            match header_commitment(&details.header) {
                Some(commitment) => {
                    if commitment != account_witness.state_commitment {
                        return Err(AccountProofError::InconsistentAccountCommitment);
                    }
                },
                None => {
                    return Err(AccountProofError::InconsistentAccountCommitment);
                },
            }
            if details.header.id != account_witness.id {
                return Err(AccountProofError::InconsistentAccountId);
            }
            if details.code.commitment != details.header.code_commitment {
                return Err(AccountProofError::InconsistentCodeCommitment);
            }
        }
        Ok(AccountProof { account_witness, state_headers: account_details })
    }

    /// Returns the id of the account.
    pub fn account_id(&self) -> (id: AccountId)
        ensures
            id == self.account_witness.id,
    {
        self.account_witness.id
    }

    /// Returns the header of a public account.
    pub fn account_header(&self) -> (header: Option<AccountHeader>)
        ensures
            header == match self.state_headers {
                Some(details) => Some(details.header),
                None => None,
            },
    {
        match &self.state_headers {
            Some(details) => Some(details.header),
            None => None,
        }
    }

    /// Returns the headers of the storage slots of a public account.
    pub fn storage_header(&self) -> (header: Option<&Vec<StorageSlotHeader>>)
        ensures
            match header {
                Some(slots) => self.state_headers is Some && *slots
                    == self.state_headers->0.storage_details.header,
                None => self.state_headers is None,
            },
    {
        match &self.state_headers {
            Some(details) => Some(&details.storage_details.header),
            None => None,
        }
    }

    /// Returns the storage of a public account.
    pub fn storage_details(&self) -> (storage: Option<&AccountStorageDetails>)
        ensures
            match storage {
                Some(d) => self.state_headers is Some && *d
                    == self.state_headers->0.storage_details,
                None => self.state_headers is None,
            },
    {
        match &self.state_headers {
            Some(details) => Some(&details.storage_details),
            None => None,
        }
    }

    /// Returns the vault of a public account.
    pub fn vault_details(&self) -> (vault: Option<&AccountVaultDetails>)
        ensures
            match vault {
                Some(d) => self.state_headers is Some && *d == self.state_headers->0.vault_details,
                None => self.state_headers is None,
            },
    {
        match &self.state_headers {
            Some(details) => Some(&details.vault_details),
            None => None,
        }
    }

    /// Returns the first details of a storage map of a public account.
    pub fn find_map_details(&self, slot_name: SlotId) -> (details: Option<
        &AccountStorageMapDetails,
    >)
        ensures
            match details {
                Some(d) => self.state_headers is Some && details_of(
                    self.state_headers->0.storage_details.map_details@,
                    slot_name,
                ) == Some(*d),
                None => self.state_headers is Some ==> details_of(
                    self.state_headers->0.storage_details.map_details@,
                    slot_name,
                ) is None,
            },
    {
        match &self.state_headers {
            Some(details) => details.storage_details.find_map_details(slot_name),
            None => None,
        }
    }

    /// Returns the code of a public account.
    pub fn account_code(&self) -> (code: Option<&AccountCode>)
        ensures
            match code {
                Some(c) => self.state_headers is Some && *c == self.state_headers->0.code,
                None => self.state_headers is None,
            },
    {
        match &self.state_headers {
            Some(details) => Some(&details.code),
            None => None,
        }
    }

    /// Returns the commitment to the code of a public account.
    pub fn code_commitment(&self) -> (commitment: Option<Word>)
        ensures
            commitment == match self.state_headers {
                Some(details) => Some(details.code.commitment),
                None => None,
            },
    {
        match &self.state_headers {
            Some(details) => Some(details.code.commitment),
            None => None,
        }
    }

    /// Returns the commitment to the state of the account.
    pub fn account_commitment(&self) -> (commitment: Word)
        ensures
            commitment == self.account_witness.state_commitment,
    {
        self.account_witness.state_commitment
    }

    /// Returns the witness.
    pub fn account_witness(&self) -> (witness: &AccountWitness)
        ensures
            *witness == self.account_witness,
    {
        &self.account_witness
    }

    /// Returns the path from the account to the root of the account tree.
    pub fn merkle_proof(&self) -> (path: &Vec<Word>)
        ensures
            *path == self.account_witness.path,
    {
        &self.account_witness.path
    }

    /// Takes the proof apart.
    pub fn into_parts(self) -> (parts: (AccountWitness, Option<AccountDetails>))
        ensures
            parts == (self.account_witness, self.state_headers),
    {
        (self.account_witness, self.state_headers)
    }

    /// Returns the details of a public account.
    pub fn into_details(self) -> (details: Option<AccountDetails>)
        ensures
            details == self.state_headers,
    {
        self.state_headers
    }

    /// Reads a proof as it arrives, for a request that named no maps and no known code.
    pub fn try_from_message(
        witness: Option<AccountWitness>,
        details: Option<AccountDetailsMessage>,
    ) -> (read: Result<Self, AccountResponseError>)
        ensures
            match (witness, details) {
                (None, _) => read == Err::<Self, _>(AccountResponseError::MissingWitness),
                (Some(w), None) => read is Ok && read->Ok_0.account_witness == w
                    && read->Ok_0.state_headers is None,
                (Some(w), Some(message)) => exists|
                    requirements: AccountStorageRequirements,
                    d: Result<AccountDetails, AccountResponseError>,
                | #[trigger]
                    message_read(message, Map::empty(), requirements, d)
                        && requirements.slots@ == Map::<SlotId, Vec<Word>>::empty() && match d {
                        Err(error) => read == Err::<Self, _>(error),
                        Ok(found) => match proof_problem(w, Some(found)) {
                            Some(error) => read == Err::<Self, _>(
                                AccountResponseError::InconsistentProof(error),
                            ),
                            None => read is Ok && read->Ok_0.account_witness == w
                                && read->Ok_0.state_headers == Some(found),
                        },
                    },
            },
    {
        let witness = match witness {
            Some(witness) => witness,
            None => {
                return Err(AccountResponseError::MissingWitness);
            },
        };
        let details = match details {
            None => None,
            Some(message) => {
                let known: OrdMap<Word, AccountCode> = OrdMap::new();
                let requirements = AccountStorageRequirements { slots: OrdMap::new() };
                let read = message.into_domain(&known, &requirements);
                assert(message_read(message, Map::empty(), requirements, read));
                match read {
                    Ok(details) => Some(details),
                    Err(error) => {
                        return Err(error);
                    },
                }
            },
        };
        match AccountProof::new(witness, details) {
            Ok(checked) => Ok(checked),
            Err(error) => Err(AccountResponseError::InconsistentProof(error)),
        }
    }
}

/// A consistent proof with details is of the account and the code its details are about.
pub proof fn law_consistent_proof(account_proof: AccountProof)
    requires
        account_proof.is_consistent(),
         account_proof.state_headers is Some,
    ensures
         account_proof.state_headers->0.header.id == account_proof.account_witness.id,
        header_commitment_of(account_proof.state_headers->0.header) == Some(
            account_proof.account_witness.state_commitment,
        ),
         account_proof.state_headers->0.code.commitment ==  account_proof.state_headers->0.header.code_commitment,
{
}

// REQUESTS
// ================================================================================================
/// The state of an account at which block is requested.
#[derive(Clone, Copy, Debug, PartialEq, Eq, Structural)]
pub enum AccountStateAt {
    Block(BlockNumber),
    ChainTip,
}

/// Whether vault data is put into an answer.
#[derive(Clone, Copy, Debug, PartialEq, Eq, Structural)]
pub enum VaultFetch {
    /// No vault data.
    Skip,
    /// The vault data.
    Always,
    /// The vault data, if the root of the vault is not this one. Assets that were left out look
    /// like those of an empty vault, so the caller must keep the vault whose root it names.
    IfChangedFrom(Word),
}

impl VaultFetch {
    /// The vault commitment that requests this: none skips the vault, and the empty word, which is no
    /// root of a vault, always fetches it.
    pub open spec fn requested_root(self) -> Option<Word> {
        match self {
            VaultFetch::Skip => None,
            VaultFetch::Always => Some(Word::spec_empty()),
            VaultFetch::IfChangedFrom(root) => Some(root),
        }
    }

    /// Returns the vault commitment that requests this.
    pub fn commitment(&self) -> (commitment: Option<Word>)
        ensures
            commitment == self.requested_root(),
    {
        match self {
            VaultFetch::Skip => None,
            VaultFetch::Always => Some(Word::empty()),
            VaultFetch::IfChangedFrom(root) => Some(*root),
        }
    }
}

/// Which storage map entries are put into an answer. The headers of all slots always are.
#[derive(Debug)]
pub enum StorageMapFetch {
    /// No map entries.
    Skip,
    /// The entries of every storage map.
    All,
    /// The entries of the named slots.
    Slots(AccountStorageRequirements),
}

/// The message that requests map data.
#[derive(Debug)]
pub enum StorageRequest {
    AllStorageMaps,
    StorageMaps(Vec<StorageMapDetailRequest>),
}

impl StorageMapFetch {
    /// The message requests this.
    pub open spec fn is_requested_by(self, request: Option<StorageRequest>) -> bool {
        match self {
            StorageMapFetch::Skip => request is None,
            StorageMapFetch::All => request == Some(StorageRequest::AllStorageMaps),
            StorageMapFetch::Slots(requirements) => request matches Some(
                StorageRequest::StorageMaps(maps),
            ) && are_requests_of(maps@, requirements.slots.listing()),
        }
    }

    /// Returns the message that requests this.
    pub fn to_request(&self) -> (request: Option<StorageRequest>)
        ensures
            self.is_requested_by(request),
    {
        match self {
            StorageMapFetch::Skip => None,
            StorageMapFetch::All => Some(StorageRequest::AllStorageMaps),
            StorageMapFetch::Slots(requirements) => Some(
                StorageRequest::StorageMaps(requirements.to_requests()),
            ),
        }
    }
}

/// What is requested of an account.
#[derive(Debug)]
pub struct GetAccountRequest {
    pub storage: StorageMapFetch,
    pub at: AccountStateAt,
    /// Code the client holds. If the account has it, the node does not send it again.
    pub known_code: Option<AccountCode>,
    pub vault: VaultFetch,
}

impl GetAccountRequest {
    /// Requests the least: the commitment and the slot headers at the chain tip.
    pub fn new() -> (request: Self)
        ensures
            request == (GetAccountRequest {
                storage: StorageMapFetch::Skip,
                at: AccountStateAt::ChainTip,
                known_code: None,
                vault: VaultFetch::Skip,
            }),
    {
        GetAccountRequest {
            storage: StorageMapFetch::Skip,
            at: AccountStateAt::ChainTip,
            known_code: None,
            vault: VaultFetch::Skip,
        }
    }

    /// Sets which storage map entries are requested.
    pub fn with_storage(self, storage: StorageMapFetch) -> (request: Self)
        ensures
            request == (GetAccountRequest { storage, ..self }),
    {
        GetAccountRequest { storage, ..self }
    }

    /// Sets the block at which the account is requested.
    pub fn at(self, at: AccountStateAt) -> (request: Self)
        ensures
            request == (GetAccountRequest { at, ..self }),
    {
        GetAccountRequest { at, ..self }
    }

    /// Sets the code the client holds.
    pub fn with_known_code(self, known_code: Option<AccountCode>) -> (request: Self)
        ensures
            request == (GetAccountRequest { known_code, ..self }),
    {
        GetAccountRequest { known_code, ..self }
    }

    /// Sets whether vault data is requested.
    pub fn with_vault(self, vault: VaultFetch) -> (request: Self)
        ensures
            request == (GetAccountRequest { vault, ..self }),
    {
        GetAccountRequest { vault, ..self }
    }
}

} // verus!
