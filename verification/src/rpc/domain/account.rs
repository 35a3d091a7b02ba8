//! Accounts as a node reports them: proofs, details, and the requests for them.
use miden_protocol::account::{StorageMap, StorageMapKey, StorageSlotName};
use miden_protocol::asset::AssetVault;
use miden_protocol::block::account_tree::AccountWitness;
use miden_protocol::crypto::merkle::smt::PartialSmt;
use miden_protocol::crypto::merkle::{MerklePath, SparseMerklePath};
use miden_protocol::utils::serde::Deserializable;
use miden_protocol::Felt;
use vstd::prelude::*;

use crate::collections::OrdMap;
use crate::types::{AccountId, Word};

verus! {

/// Id of a storage slot, derived from the name of the slot, as the 128-bit integer that orders
/// slots.
pub type SlotId = u128;

/// The maximum number of keys the node covers with a single partial map. The node counts this
/// across all slots of a request, so honouring it per slot is a conservative bound.
pub const MAX_PARTIAL_MAP_KEYS: usize = 64;

/// The maximum number of storage slots of an account.
pub const MAX_STORAGE_SLOTS: usize = 255;

/// Depth of the tree that holds the state commitments of all accounts.
pub const ACCOUNT_TREE_DEPTH: usize = 64;

#[verifier::external_type_specification]
#[verifier::external_body]
pub struct ExPartialSmt(PartialSmt);

/// Root of the tree a partial tree is a part of.
pub uninterp spec fn smt_root(smt: PartialSmt) -> Word;

/// The storage map keys whose values a partial tree carries.
pub uninterp spec fn smt_keys(smt: PartialSmt) -> Set<Word>;

/// The id of the slot with the given name; `None` if it is not a valid slot name.
pub uninterp spec fn slot_id_of(name: Seq<char>) -> Option<SlotId>;

/// Root of the storage map with the given entries; `None` if a key occurs twice.
pub uninterp spec fn storage_map_root_of(entries: Seq<StorageMapEntry>) -> Option<Word>;

/// Root of the vault with the given assets; `None` if they do not make a vault.
pub uninterp spec fn vault_root_of(assets: Seq<Asset>) -> Option<Word>;

/// Commitment to the state of the account with this header; `None` if the id is not an account id.
pub uninterp spec fn header_commitment_of(header: AccountHeader) -> Option<Word>;

/// Commitment to the code with the given serialization; `None` if it is not one.
pub uninterp spec fn code_commitment_of(serialized: Seq<u8>) -> Option<Word>;

/// Root of the account tree in which an account has the given state; `None` if the id is not an
/// account id.
pub uninterp spec fn witness_root_of(
    id: AccountId,
    state_commitment: Word,
    path: Seq<Word>,
) -> Option<Word>;

// ACCOUNT VALUES
// ================================================================================================
/// What a storage slot holds.
#[derive(Clone, Copy, Debug, PartialEq, Eq, Structural)]
pub enum StorageSlotType {
    Value,
    MapRoot,
}

/// Header of a storage slot: its value, or the root of its map.
#[derive(Clone, Copy, Debug, PartialEq, Eq, Structural)]
pub struct StorageSlotHeader {
    pub slot_name: SlotId,
    pub slot_type: StorageSlotType,
    pub value: Word,
}

/// Header of an account.
#[derive(Clone, Copy, Debug, PartialEq, Eq, Structural)]
pub struct AccountHeader {
    pub id: AccountId,
    pub nonce: u64,
    pub vault_root: Word,
    pub storage_commitment: Word,
    pub code_commitment: Word,
}

/// Code of an account, in serialized form, with the commitment to it.
#[derive(Debug)]
pub struct AccountCode {
    pub commitment: Word,
    pub serialized: Vec<u8>,
}

/// An asset: its key in a vault, and its value.
#[derive(Clone, Copy, Debug, PartialEq, Eq, Structural)]
pub struct Asset {
    pub key: Word,
    pub value: Word,
}

/// An entry of a storage map.
#[derive(Clone, Copy, Debug, PartialEq, Eq, Structural)]
pub struct StorageMapEntry {
    pub key: Word,
    pub value: Word,
}

/// The content of a storage slot.
#[derive(Debug)]
pub enum StorageSlotContent {
    Value(Word),
    MapEntries { root: Word, entries: Vec<StorageMapEntry> },
}

/// The whole state of an account.
#[derive(Debug)]
pub struct Account {
    pub id: AccountId,
    pub nonce: u64,
    pub vault_root: Word,
    pub assets: Vec<Asset>,
    pub storage: OrdMap<SlotId, StorageSlotContent>,
    pub code: AccountCode,
}

/// The two are the same code.
pub open spec fn same_code(a: AccountCode, b: AccountCode) -> bool {
    a.commitment == b.commitment && a.serialized@ == b.serialized@
}

impl AccountCode {
    /// Returns a copy of the code.
    pub fn copy(&self) -> (code: AccountCode)
        ensures
            same_code(code, *self),
    {
        AccountCode { commitment: self.commitment, serialized: self.serialized.clone() }
    }

    /// Reads code from its serialization.
    pub fn from_serialized(serialized: Vec<u8>) -> (code: Option<AccountCode>)
        ensures
            match code_commitment_of(serialized@) {
                Some(commitment) => code == Some(AccountCode { commitment, serialized }),
                None => code is None,
            },
    {
        match code_commitment(&serialized) {
            Some(commitment) => Some(AccountCode { commitment, serialized }),
            None => None,
        }
    }
}

// ERRORS
// ================================================================================================
/// How the parts of an account proof disagree.
#[derive(Clone, Copy, Debug, PartialEq, Eq, Structural)]
pub enum AccountProofError {
    /// The received account commitment is not that of the received account header.
    InconsistentAccountCommitment,
    /// The received account id is not that of the received account header.
    InconsistentAccountId,
    /// The received code commitment is not that of the received account header.
    InconsistentCodeCommitment,
}

/// What is wrong with an answer to a request for an account.
#[derive(Clone, Copy, Debug, PartialEq, Eq, Structural)]
pub enum AccountResponseError {
    /// The vault was left out because it has too many assets.
    VaultTooLarge,
    /// A storage map was left out because it has too many entries.
    MapTooLarge { slot_name: SlotId },
    /// A slot is a map, and no details of it were sent.
    MissingMapDetails { slot_name: SlotId },
    /// A storage map did not come back with all its entries.
    IncompleteMap { slot_name: SlotId },
    /// The entries of a storage map do not make a map.
    InvalidMapEntries { slot_name: SlotId },
    /// The assets do not make a vault.
    InvalidAssets,
    /// The slots do not make a storage.
    InvalidStorageSlots,
    /// The account is new, so that it cannot exist without a seed.
    MissingSeed,
    /// The name of a slot is not a valid slot name.
    InvalidSlotName,
    /// The flag for too many entries was sent and not set.
    TooManyEntriesUnset,
    /// A partial map has more keys than the node covers with one.
    TooManyPartialKeys { slot_name: SlotId, count: usize },
    /// A partial map names a key twice.
    RepeatedKey { slot_name: SlotId, key: Word },
    /// A partial map was sent without its tree.
    MissingPartialTree { slot_name: SlotId },
    /// The tree of a partial map does not carry the value of one of its keys.
    UntrackedKey { slot_name: SlotId, key: Word },
    /// The details of a map carry no result.
    MissingMapResult { slot_name: SlotId },
    /// An entry has no key.
    MissingEntryKey,
    /// An entry has no value.
    MissingEntryValue,
    /// A partial map is for a slot that the storage does not have.
    UnknownSlot { slot_name: SlotId },
    /// A partial map is for a slot that is not a map.
    NotAMap { slot_name: SlotId },
    /// The tree of a partial map is not part of the map of its slot.
    RootMismatch { slot_name: SlotId, received: Word, expected: Word },
    /// A partial map does not cover a key that was requested.
    UncoveredKey { slot_name: SlotId, key: Word },
    /// A partial map covers a key that was not requested.
    UnrequestedKey { slot_name: SlotId, key: Word },
    /// A part of the answer is missing.
    MissingField,
    /// The code was not sent, and is not known.
    MissingCode,
    /// The account was sent without a witness.
    MissingWitness,
    /// The account was sent without the block it is from.
    MissingBlockNum,
    /// A public account was sent without its details.
    MissingDetails,
    /// The parts of the proof disagree.
    InconsistentProof(AccountProofError),
}

impl AccountResponseError {
    /// A part of the answer that was expected is not there, was left out for its size, or has no valid
    /// name.
    pub open spec fn spec_is_data_missing(self) -> bool {
        ||| self is VaultTooLarge
        ||| self is MapTooLarge
        ||| self is MissingMapDetails
        ||| self is IncompleteMap
        ||| self is InvalidSlotName
        ||| self is MissingEntryKey
        ||| self is MissingEntryValue
        ||| self is MissingWitness
        ||| self is MissingBlockNum
        ||| self is MissingDetails
    }

    /// Returns true if a part of the answer that was expected is not there, was left out for its size,
    /// or has no valid name.
    pub fn is_data_missing(&self) -> (missing: bool)
        ensures
            missing == self.spec_is_data_missing(),
    {
        match self {
            AccountResponseError::VaultTooLarge => true,
            AccountResponseError::MapTooLarge { .. } => true,
            AccountResponseError::MissingMapDetails { .. } => true,
            AccountResponseError::IncompleteMap { .. } => true,
            AccountResponseError::InvalidSlotName => true,
            AccountResponseError::MissingEntryKey => true,
            AccountResponseError::MissingEntryValue => true,
            AccountResponseError::MissingWitness => true,
            AccountResponseError::MissingBlockNum => true,
            AccountResponseError::MissingDetails => true,
            _ => false,
        }
    }

    /// The message of the answer lacks a field, so that it cannot be read.
    pub open spec fn spec_is_unreadable(self) -> bool {
        self is MissingField || self is MissingPartialTree
    }

    /// Returns true if the message of the answer lacks a field, so that it cannot be read.
    pub fn is_unreadable(&self) -> (unreadable: bool)
        ensures
            unreadable == self.spec_is_unreadable(),
    {
        match self {
            AccountResponseError::MissingField => true,
            AccountResponseError::MissingPartialTree { .. } => true,
            _ => false,
        }
    }
}

// OUTSIDE OPERATIONS
// ================================================================================================
/// `PartialSmt::root`: the root of the tree.
#[verifier::external_body]
pub(crate) fn root_of(smt: &PartialSmt) -> (root: Word)
    ensures
        root == smt_root(*smt),
{
    Word::from_elements(smt.root().into_elements().map(|e| e.as_canonical_u64()))
}

/// `PartialSmt::get_value` at the hash of the key: true if it finds that the tree carries a value
/// for the key. The value is not returned.
#[verifier::external_body]
pub(crate) fn tracks_key(smt: &PartialSmt, key: Word) -> (found: bool)
    ensures
        found == smt_keys(*smt).contains(key),
{
    let key = StorageMapKey::new(miden_protocol::Word::new(key.elements().map(Felt::new_unchecked)));
    smt.get_value(&key.hash().as_word()).is_ok()
}

/// `StorageSlotName::new` and `StorageSlotName::id`: the id of the slot with the name, or `None`
/// if the name is not valid. Which names are valid, and their ids, is only named.
#[verifier::external_body]
pub(crate) fn slot_id(name: &String) -> (id: Option<SlotId>)
    ensures
        id == slot_id_of(name@),
{
    let id = StorageSlotName::new(name.as_str()).ok()?.id();
    let prefix = u128::from(id.prefix().as_canonical_u64());
    Some((prefix << 64) | u128::from(id.suffix().as_canonical_u64()))
}

/// `StorageMap::with_entries` and `StorageMap::root`: the root of the map, or `None` if a key
/// occurs twice among the entries. The root is only named.
#[verifier::external_body]
pub(crate) fn storage_map_root(entries: &Vec<StorageMapEntry>) -> (root: Option<Word>)
    ensures
        root == storage_map_root_of(entries@),
{
    let entries: Vec<_> = entries
        .iter()
        .map(|entry| (entry.key.elements(), entry.value.elements()))
        .map(|(k, v)| (k.map(Felt::new_unchecked), v.map(Felt::new_unchecked)))
        .map(|(k, v)| (StorageMapKey::new(k.into()), miden_protocol::Word::new(v)))
        .collect();
    let root = StorageMap::with_entries(entries).ok()?.root();
    Some(Word::from_elements(root.into_elements().map(|e| e.as_canonical_u64())))
}

/// `StorageMap::with_entries`, `StorageMap::open` at each key, and `PartialSmt::from_proofs`: the part
/// of the tree of the map that carries the values of the keys, or `None` if a key occurs twice among
/// the entries. Nothing is said of further keys, which it carries if they share paths with those.
#[verifier::external_body]
pub(crate) fn open_map(entries: &Vec<StorageMapEntry>, keys: &Vec<Word>) -> (opened: Option<PartialSmt>)
    requires
        keys@.len() > 0,
    ensures
        match storage_map_root_of(entries@) {
            Some(root) => {
                &&& opened is Some
                &&& smt_root(opened->0) == root
                &&& forall|i: int|
                    0 <= i < keys@.len() ==> smt_keys(opened->0).contains(#[trigger] keys@[i])
            },
            None => opened is None,
        },
{
    let entries: Vec<_> = entries
        .iter()
        .map(|entry| (entry.key.elements(), entry.value.elements()))
        .map(|(k, v)| (k.map(Felt::new_unchecked), v.map(Felt::new_unchecked)))
        .map(|(k, v)| (StorageMapKey::new(k.into()), miden_protocol::Word::new(v)))
        .collect();
    let map = StorageMap::with_entries(entries).ok()?;
    let keys = keys.iter().map(|key| key.elements().map(Felt::new_unchecked));
    PartialSmt::from_proofs(keys.map(|key| map.open(&StorageMapKey::new(key.into())).into())).ok()
}

/// `AssetVault::new` and `AssetVault::root`: the root of the vault with the assets, or `None` if
/// one of them is not an asset or two of them have the same key. The root is only named.
#[verifier::external_body]
pub(crate) fn vault_root(assets: &Vec<Asset>) -> (root: Option<Word>)
    ensures
        root == vault_root_of(assets@),
{
    let assets: Result<Vec<_>, _> = assets
        .iter()
        .map(|asset| (asset.key.elements(), asset.value.elements()))
        .map(|(k, v)| (k.map(Felt::new_unchecked), v.map(Felt::new_unchecked)))
        .map(|(k, v)| miden_protocol::asset::Asset::from_key_value_words(k.into(), v.into()))
        .collect();
    let root = AssetVault::new(&assets.ok()?).ok()?.root();
    Some(Word::from_elements(root.into_elements().map(|e| e.as_canonical_u64())))
}

/// `AccountHeader::to_commitment`: the commitment to the account's state, or `None` if the id is
/// not an account id. The commitment is only named.
#[verifier::external_body]
pub(crate) fn header_commitment(header: &AccountHeader) -> (commitment: Option<Word>)
    ensures
        commitment == header_commitment_of(*header),
{
    let id = miden_protocol::account::AccountId::try_from(header.id).ok()?;
    let nonce = Felt::new_unchecked(header.nonce);
    let [vault, storage, code] =
        [header.vault_root, header.storage_commitment, header.code_commitment]
            .map(|word| miden_protocol::Word::new(word.elements().map(Felt::new_unchecked)));
    let header = miden_protocol::account::AccountHeader::new(id, nonce, vault, storage, code);
    let commitment = header.to_commitment();
    Some(Word::from_elements(commitment.into_elements().map(|e| e.as_canonical_u64())))
}

/// `AccountCode::commitment` of the code read from its serialization, or `None` if it cannot be
/// read. The commitment is only named.
#[verifier::external_body]
pub(crate) fn code_commitment(serialized: &Vec<u8>) -> (commitment: Option<Word>)
    ensures
        commitment == code_commitment_of(serialized@),
{
    let code = miden_protocol::account::AccountCode::read_from_bytes(serialized).ok()?;
    let commitment = code.commitment();
    Some(Word::from_elements(commitment.into_elements().map(|e| e.as_canonical_u64())))
}

/// `SmtProof::compute_root` of the proof an `AccountWitness` stands for: the root of the account
/// tree, or `None` if the id is not an account id. The root is only named.
#[verifier::external_body]
pub(crate) fn witness_root(id: AccountId, state_commitment: Word, path: &Vec<Word>) -> (root: Option<
    Word,
>)
    requires
        path@.len() == ACCOUNT_TREE_DEPTH,
    ensures
        root == witness_root_of(id, state_commitment, path@),
{
    let id = miden_protocol::account::AccountId::try_from(id).ok()?;
    let state = miden_protocol::Word::new(state_commitment.elements().map(Felt::new_unchecked));
    let nodes = path
        .iter()
        .map(|word| miden_protocol::Word::new(word.elements().map(Felt::new_unchecked)))
        .collect();
    let path = SparseMerklePath::try_from(MerklePath::new(nodes)).ok()?;
    let root = AccountWitness::new(id, state, path).ok()?.into_proof().compute_root();
    Some(Word::from_elements(root.into_elements().map(|e| e.as_canonical_u64())))
}

} // verus!
