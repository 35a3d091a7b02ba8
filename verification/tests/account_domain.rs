//! Tests of reading accounts from the answers of a node.
use miden_client::collections::OrdMap;
use miden_client::rpc::domain::account::{
    Account, AccountCode, AccountHeader, AccountResponseError, Asset, StorageMapEntry,
    StorageSlotContent, StorageSlotHeader, StorageSlotType, MAX_PARTIAL_MAP_KEYS,
};
use miden_client::rpc::domain::account_proof::{
    AccountDetails, AccountDetailsMessage, AccountProof, AccountVaultDetails, AccountWitness,
    StorageDetailsMessage, StorageMapFetch, StorageRequest, VaultFetch,
};
use miden_client::rpc::domain::account_storage::{
    AccountStorageDetails, AccountStorageMapDetails, AccountStorageRequirements, MapDetailsMessage,
    MapEntryMessage, MapResultMessage, StorageMapEntries,
};
use miden_client::sync::account_sync::{build_full_update, build_patch_update};
use miden_client::sync::account_updates::{
    AccountPatchError, AccountVaultPatch, PublicAccountUpdate,
};
use miden_client::types::Word;
use miden_protocol::account::{StorageMap, StorageMapKey, StorageSlotName};
use miden_protocol::crypto::merkle::smt::PartialSmt;
use miden_protocol::Felt;

fn word(n: u64) -> Word {
    Word { e0: n, e1: 0, e2: 0, e3: 0 }
}

fn protocol(word: Word) -> miden_protocol::Word {
    miden_protocol::Word::new(word.elements().map(Felt::new_unchecked))
}

fn plain(word: miden_protocol::Word) -> Word {
    Word::from_elements(word.into_elements().map(|e| e.as_canonical_u64()))
}

const NAME: &str = "miden::test::map";

fn slot(name: &str) -> u128 {
    let id = StorageSlotName::new(name).unwrap().id();
    let prefix = u128::from(id.prefix().as_canonical_u64());
    (prefix << 64) | u128::from(id.suffix().as_canonical_u64())
}

fn map() -> StorageMap {
    StorageMap::with_entries(vec![
        (StorageMapKey::new(protocol(word(1))), protocol(word(10))),
        (StorageMapKey::new(protocol(word(2))), protocol(word(20))),
    ])
    .unwrap()
}

fn part_of_map(keys: &[u64]) -> PartialSmt {
    PartialSmt::from_proofs(
        keys.iter().map(|n| map().open(&StorageMapKey::new(protocol(word(*n)))).into()),
    )
    .unwrap()
}

fn map_message(result: Option<MapResultMessage>) -> MapDetailsMessage {
    MapDetailsMessage { slot_name: NAME.to_string(), result }
}

fn partial(keys: Vec<Word>, partial_smt: Option<PartialSmt>) -> MapDetailsMessage {
    map_message(Some(MapResultMessage::PartialMap { map_keys: keys, partial_smt }))
}

fn error(message: MapDetailsMessage) -> AccountResponseError {
    AccountStorageMapDetails::try_from_message(message).err().unwrap()
}

#[test]
fn map_details_are_read() {
    let entry = |key, value| MapEntryMessage { key, value };
    let all = |entries| map_message(Some(MapResultMessage::AllEntries(entries)));
    let read = AccountStorageMapDetails::try_from_message(all(vec![entry(
        Some(word(1)),
        Some(word(10)),
    )]))
    .unwrap();
    assert_eq!(read.slot_name, slot(NAME));
    assert!(matches!(
        &read.entries,
        StorageMapEntries::AllEntries(entries)
            if *entries == vec![StorageMapEntry { key: word(1), value: word(10) }]
    ));

    let slot_name = slot(NAME);
    let name = |slot_name: &str| MapDetailsMessage {
        slot_name: slot_name.to_string(),
        result: Some(MapResultMessage::TooManyEntries(true)),
    };
    assert!(AccountStorageMapDetails::try_from_message(name(NAME)).unwrap().is_limit_exceeded());
    assert_eq!(error(name("not a name")), AccountResponseError::InvalidSlotName);
    assert_eq!(
        error(map_message(None)),
        AccountResponseError::MissingMapResult { slot_name }
    );
    assert_eq!(
        error(map_message(Some(MapResultMessage::TooManyEntries(false)))),
        AccountResponseError::TooManyEntriesUnset
    );
    assert_eq!(
        error(all(vec![entry(None, Some(word(1)))])),
        AccountResponseError::MissingEntryKey
    );
    assert_eq!(
        error(all(vec![entry(Some(word(1)), None)])),
        AccountResponseError::MissingEntryValue
    );
}

#[test]
fn a_partial_map_carries_its_keys() {
    let slot_name = slot(NAME);
    let read =
        AccountStorageMapDetails::try_from_message(partial(vec![word(1)], Some(part_of_map(&[1]))));
    assert!(matches!(
        read.unwrap().entries,
        StorageMapEntries::PartialMap { map_keys, .. } if map_keys == vec![word(1)]
    ));

    let many: Vec<_> = (0..=MAX_PARTIAL_MAP_KEYS as u64).map(word).collect();
    assert_eq!(
        error(partial(many, None)),
        AccountResponseError::TooManyPartialKeys { slot_name, count: MAX_PARTIAL_MAP_KEYS + 1 }
    );
    assert_eq!(
        error(partial(vec![word(1), word(2), word(1)], None)),
        AccountResponseError::RepeatedKey { slot_name, key: word(1) }
    );
    assert_eq!(
        error(partial(vec![word(1)], None)),
        AccountResponseError::MissingPartialTree { slot_name }
    );
    assert_eq!(
        error(partial(vec![word(1), word(2)], Some(part_of_map(&[1])))),
        AccountResponseError::UntrackedKey { slot_name, key: word(2) }
    );
}

fn slot_headers(value: Word, slot_type: StorageSlotType) -> Vec<StorageSlotHeader> {
    vec![StorageSlotHeader { slot_name: slot(NAME), slot_type, value }]
}

#[test]
fn a_partial_map_belongs_to_its_slot() {
    let slot_name = slot(NAME);
    let message = || vec![partial(vec![word(1)], Some(part_of_map(&[1])))];
    let root = plain(map().root());
    let read = |header| AccountStorageDetails::try_from_message(header, message());

    assert!(read(Some(slot_headers(root, StorageSlotType::MapRoot))).is_ok());
    assert_eq!(read(None).err(), Some(AccountResponseError::MissingField));
    assert_eq!(
        read(Some(vec![])).err(),
        Some(AccountResponseError::UnknownSlot { slot_name })
    );
    assert_eq!(
        read(Some(slot_headers(root, StorageSlotType::Value))).err(),
        Some(AccountResponseError::NotAMap { slot_name })
    );
    assert_eq!(
        read(Some(slot_headers(word(1), StorageSlotType::MapRoot))).err(),
        Some(AccountResponseError::RootMismatch { slot_name, received: root, expected: word(1) })
    );

    let storage = read(Some(slot_headers(root, StorageSlotType::MapRoot))).unwrap();
    let check = |keys: Vec<Word>| {
        let requirements = AccountStorageRequirements::new(&vec![(slot_name, keys)]);
        storage.validate_against_request(&requirements)
    };
    assert_eq!(check(vec![word(1)]), Ok(()));
    assert_eq!(
        check(vec![word(1), word(2)]),
        Err(AccountResponseError::UncoveredKey { slot_name, key: word(2) })
    );
    assert_eq!(storage.find_slot_header(slot_name).unwrap().value, root);
    assert!(storage.find_map_details(slot_name).is_some());
    assert!(storage.find_map_details(5).is_none());
}

#[test]
fn requirements_name_each_key_once() {
    let requirements =
        AccountStorageRequirements::new(&vec![(5, vec![word(1), word(2), word(1)]), (6, vec![])]);
    assert_eq!(requirements.keys_for_slot(5), vec![word(1), word(2)]);
    assert!(requirements.keys_for_slot(6).is_empty() && requirements.keys_for_slot(7).is_empty());
    assert_eq!(requirements.inner().keys(), vec![5, 6]);
    assert_eq!(AccountStorageRequirements::all_entries(&vec![9, 8]).inner().keys(), vec![8, 9]);

    assert!(StorageMapFetch::Skip.to_request().is_none());
    assert!(matches!(StorageMapFetch::All.to_request(), Some(StorageRequest::AllStorageMaps)));
    assert_eq!(VaultFetch::Skip.commitment(), None);
    assert_eq!(VaultFetch::Always.commitment(), Some(Word::empty()));
    assert_eq!(VaultFetch::IfChangedFrom(word(4)).commitment(), Some(word(4)));
}

fn header() -> AccountHeader {
    AccountHeader {
        id: 3,
        nonce: 2,
        vault_root: word(1),
        storage_commitment: word(2),
        code_commitment: word(7),
    }
}

fn details(entries: StorageMapEntries) -> AccountDetails {
    AccountDetails {
        header: header(),
        storage_details: AccountStorageDetails {
            header: slot_headers(plain(map().root()), StorageSlotType::MapRoot),
            map_details: vec![AccountStorageMapDetails { slot_name: slot(NAME), entries }],
        },
        code: AccountCode { commitment: word(7), serialized: vec![1] },
        vault_details: AccountVaultDetails { too_many_assets: false, assets: vec![] },
    }
}

fn all_entries() -> StorageMapEntries {
    StorageMapEntries::AllEntries(vec![
        StorageMapEntry { key: word(1), value: word(10) },
        StorageMapEntry { key: word(2), value: word(20) },
    ])
}

#[test]
fn an_account_is_built_from_complete_details() {
    let slot_name = slot(NAME);
    let account = Account::try_from_details(&details(all_entries())).unwrap();
    assert_eq!((account.id, account.nonce), (3, 2));
    assert!(matches!(
        account.storage.get(&slot_name),
        Some(StorageSlotContent::MapEntries { root, .. }) if *root == plain(map().root())
    ));
    assert_eq!(account.code.serialized, vec![1]);

    let error = |details: AccountDetails| Account::try_from_details(&details).err().unwrap();
    let mut large = details(all_entries());
    large.vault_details.too_many_assets = true;
    assert_eq!(error(large), AccountResponseError::VaultTooLarge);
    assert_eq!(
        error(details(StorageMapEntries::LimitExceeded)),
        AccountResponseError::MapTooLarge { slot_name }
    );
    let part = StorageMapEntries::PartialMap {
        map_keys: vec![word(1)],
        partial_smt: part_of_map(&[1]),
    };
    assert_eq!(error(details(part)), AccountResponseError::IncompleteMap { slot_name });
    let mut missing = details(all_entries());
    missing.storage_details.map_details = vec![];
    assert_eq!(error(missing), AccountResponseError::MissingMapDetails { slot_name });
    let twice = StorageMapEntry { key: word(1), value: word(10) };
    assert_eq!(
        error(details(StorageMapEntries::AllEntries(vec![twice, twice]))),
        AccountResponseError::InvalidMapEntries { slot_name }
    );
    let mut broken = details(all_entries());
    broken.vault_details.assets = vec![Asset { key: word(1), value: word(1) }];
    assert_eq!(error(broken), AccountResponseError::InvalidAssets);
    let mut repeated = details(all_entries());
    let first = repeated.storage_details.header[0];
    repeated.storage_details.header.push(first);
    assert_eq!(error(repeated), AccountResponseError::InvalidStorageSlots);
    let mut new = details(all_entries());
    new.header.nonce = 0;
    assert_eq!(error(new), AccountResponseError::MissingSeed);
}

#[test]
fn updates_are_built_from_details() {
    assert!(matches!(
        build_full_update(&details(all_entries())),
        Ok(PublicAccountUpdate::Full(account)) if account.nonce == 2
    ));
    let patch = || AccountVaultPatch { assets: OrdMap::new() };
    assert!(matches!(
        build_patch_update(&details(all_entries()), OrdMap::new(), patch()),
        Ok(PublicAccountUpdate::Patch { new_header, .. }) if new_header.nonce == 2
    ));
    let mut new = details(all_entries());
    new.header.nonce = 0;
    assert!(matches!(
        build_patch_update(&new, OrdMap::new(), patch()),
        Err(AccountPatchError::ZeroNonce)
    ));
}

#[test]
fn known_code_is_not_sent_again() {
    let message = |code| AccountDetailsMessage {
        header: Some(header()),
        storage_details: Some(StorageDetailsMessage { header: Some(vec![]), map_details: vec![] }),
        code,
        vault_details: Some(AccountVaultDetails { too_many_assets: false, assets: vec![] }),
    };
    let requirements = AccountStorageRequirements::new(&vec![]);
    let mut known = OrdMap::new();
    assert_eq!(
        message(None).into_domain(&known, &requirements).err(),
        Some(AccountResponseError::MissingCode)
    );
    known.insert(word(7), AccountCode { commitment: word(7), serialized: vec![5] });
    let read = message(None).into_domain(&known, &requirements).unwrap();
    assert_eq!(read.code.serialized, vec![5]);
    let sent = AccountCode { commitment: word(7), serialized: vec![6] };
    let read = message(Some(sent)).into_domain(&known, &requirements).unwrap();
    assert_eq!(read.code.serialized, vec![6]);

    let mut without = message(None);
    without.vault_details = None;
    assert_eq!(
        without.into_domain(&known, &requirements).err(),
        Some(AccountResponseError::MissingField)
    );
}

#[test]
fn a_private_account_has_a_witness_only() {
    let witness = || AccountWitness { id: 3, state_commitment: word(4), path: vec![] };
    let read = AccountProof::try_from_message(Some(witness()), None).unwrap();
    assert_eq!((read.account_id(), read.account_commitment()), (3, word(4)));
    assert!(read.account_header().is_none() && read.account_code().is_none());
    assert!(matches!(
        AccountProof::try_from_message(None, None),
        Err(AccountResponseError::MissingWitness)
    ));
}

#[test]
fn code_is_read_from_its_serialization() {
    assert!(AccountCode::from_serialized(vec![1, 2, 3]).is_none());
}

#[test]
fn data_that_are_missing_are_told_from_data_that_make_no_sense() {
    let slot_name = 1;
    for error in [
        AccountResponseError::VaultTooLarge,
        AccountResponseError::MapTooLarge { slot_name },
        AccountResponseError::MissingMapDetails { slot_name },
        AccountResponseError::IncompleteMap { slot_name },
        AccountResponseError::InvalidSlotName,
        AccountResponseError::MissingEntryKey,
        AccountResponseError::MissingEntryValue,
        AccountResponseError::MissingWitness,
        AccountResponseError::MissingBlockNum,
        AccountResponseError::MissingDetails,
    ] {
        assert!(error.is_data_missing(), "{error:?}");
    }
    assert!(!AccountResponseError::TooManyEntriesUnset.is_data_missing());
    assert!(!AccountResponseError::MissingMapResult { slot_name }.is_data_missing());
    assert!(!AccountResponseError::MissingCode.is_data_missing());
    assert!(!AccountResponseError::InvalidAssets.is_data_missing());
    assert!(!AccountResponseError::InvalidAssets.is_unreadable());
    for error in
        [AccountResponseError::MissingField, AccountResponseError::MissingPartialTree { slot_name }]
    {
        assert!(error.is_unreadable() && !error.is_data_missing());
    }
}
