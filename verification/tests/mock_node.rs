//! Tests of a node in memory, and of a client that follows accounts on it.
use miden_client::account::{build_wallet_id, AccountVisibility};
use miden_client::collections::OrdMap;
use miden_client::errors::{ChainValidationError, SyncError};
use miden_client::rpc::domain::account::{
    AccountCode, AccountHeader, AccountProofError, Asset, StorageMapEntry, StorageSlotContent,
    StorageSlotHeader, StorageSlotType,
};
use miden_client::rpc::domain::account_proof::{
    AccountProof, AccountStateAt, AccountWitness, GetAccountRequest, StorageMapFetch, VaultFetch,
};
use miden_client::rpc::domain::account_storage::{
    AccountStorageRequirements, StorageMapEntries, StorageMapError,
};
use miden_client::rpc::domain::note::{
    AttachmentSchemes, FetchedNote, NoteInclusionProof, NoteMetadata, NoteScript, NoteType,
    NullifierUpdate,
};
use miden_client::rpc::domain::sync::{ProtocolConfig, SyncTarget};
use miden_client::rpc::domain::transaction::TransactionHeader;
use miden_client::rpc::endpoint::RpcEndpoint;
use miden_client::rpc::errors::rpc_error::RpcError;
use miden_client::sync::account_sync::{
    build_full_update, classify_public_account, diverging_private_accounts,
    diverging_public_accounts, fold_private_accounts, fold_public_accounts,
    private_account_mismatch, private_account_request, public_account_request,
    validate_account_proof, verify_private_account_mismatch, PublicAccountAction,
    PublicAccountSync,
};
use miden_client::sync::account_updates::{
    AccountUpdates, AccountVaultPatch, PublicAccountUpdate,
};
use miden_client::sync::chain_sync::validate_chain_mmr_response;
use miden_client::test_utils::mock::MockRpcApi;
use miden_client::test_utils::mock_account::{MockAccount, MockAccountError, MockAccountState};
use miden_client::test_utils::mock_answers::ProvenBlock;
use miden_client::test_utils::mock_chain::{
    MockAccountUpdate, MockBlock, MockChain, MockChainNote, MockPatch, MockPublicNote,
};
use miden_client::test_utils::mock_sync::MockOutputNote;
use miden_client::types::{AccountId, BlockHeader, Word};
use miden_protocol::account::{StorageMap, StorageMapKey};
use miden_protocol::block::account_tree::AccountTree;
use miden_protocol::crypto::merkle::mmr::{Forest, Mmr};
use miden_protocol::crypto::merkle::MerklePath;
use miden_protocol::Felt;

fn word(n: u64) -> Word {
    Word { e0: n, e1: 0, e2: 0, e3: 0 }
}

fn protocol(word: Word) -> miden_protocol::Word {
    miden_protocol::Word::new(word.elements().map(Felt::new_unchecked))
}

fn plain(word: miden_protocol::Word) -> Word {
    Word::from_elements(word.into_elements().map(|e| e.as_canonical_u64()))
}

const VALUE_SLOT: u128 = 1;
const MAP_SLOT: u128 = 2;

fn account_id(seed: u8, visibility: AccountVisibility) -> AccountId {
    build_wallet_id([seed; 32], word(1), 2, visibility).unwrap()
}

fn commitment_of(header: &AccountHeader) -> Word {
    let id = miden_protocol::account::AccountId::try_from(header.id).unwrap();
    let outside = miden_protocol::account::AccountHeader::new(
        id,
        Felt::new_unchecked(header.nonce),
        protocol(header.vault_root),
        protocol(header.storage_commitment),
        protocol(header.code_commitment),
    );
    plain(outside.to_commitment())
}

fn map_entries() -> Vec<StorageMapEntry> {
    vec![
        StorageMapEntry { key: word(1), value: word(10) },
        StorageMapEntry { key: word(2), value: word(20) },
    ]
}

fn map_root(entries: &[StorageMapEntry]) -> Word {
    let entries: Vec<_> = entries
        .iter()
        .map(|entry| (StorageMapKey::new(protocol(entry.key)), protocol(entry.value)))
        .collect();
    plain(StorageMap::with_entries(entries).unwrap().root())
}

fn public_account(seed: u8, nonce: u64) -> MockAccount {
    let mut maps = OrdMap::new();
    maps.insert(MAP_SLOT, map_entries());
    MockAccount {
        header: AccountHeader {
            id: account_id(seed, AccountVisibility::Public),
            nonce,
            vault_root: word(5),
            storage_commitment: word(6),
            code_commitment: word(7),
        },
        code: AccountCode { commitment: word(7), serialized: vec![1, 2] },
        slots: vec![
            StorageSlotHeader {
                slot_name: VALUE_SLOT,
                slot_type: StorageSlotType::Value,
                value: word(99),
            },
            StorageSlotHeader {
                slot_name: MAP_SLOT,
                slot_type: StorageSlotType::MapRoot,
                value: map_root(&map_entries()),
            },
        ],
        maps,
        assets: vec![Asset { key: word(8), value: word(9) }],
    }
}

/// Puts accounts into a tree, and returns its root.
fn account_states(accounts: Vec<MockAccount>) -> (OrdMap<AccountId, MockAccountState>, Word) {
    let tree = AccountTree::with_entries(accounts.iter().map(|account| {
        let id = miden_protocol::account::AccountId::try_from(account.header.id).unwrap();
        (id, protocol(commitment_of(&account.header)))
    }).collect::<Vec<_>>())
    .unwrap();
    let mut states = OrdMap::new();
    for account in accounts {
        let id = miden_protocol::account::AccountId::try_from(account.header.id).unwrap();
        let witness = tree.open(id);
        let path = MerklePath::from(witness.path().clone());
        let witness = AccountWitness {
            id: account.header.id,
            state_commitment: plain(witness.state_commitment()),
            path: path.nodes().iter().map(|node| plain(*node)).collect(),
        };
        let id = account.header.id;
        states.insert(id, MockAccountState::new(witness, Some(account)).unwrap());
    }
    (states, plain(tree.root()))
}

fn block(block_num: u32, account_root: Word) -> MockBlock {
    MockBlock {
        header: BlockHeader {
            block_num,
            commitment: word(1000 + u64::from(block_num)),
            chain_commitment: word(0),
            account_root,
            note_root: word(0),
            protocol_config_commitment: word(50),
            verification_base_fee: 0,
            timestamp: 0,
        },
        serialized: vec![block_num as u8],
        signatures: vec![vec![block_num as u8]],
        block_proof: vec![200],
        transactions: vec![],
        updated_accounts: vec![],
    }
}

fn api(accounts: Vec<MockAccount>) -> MockRpcApi {
    let (accounts, root) = account_states(accounts);
    MockRpcApi::new(MockChain {
        blocks: vec![block(0, root)],
        accounts,
        notes: OrdMap::new(),
        nullifiers: vec![],
        protocol_config: ProtocolConfig { commitment: word(50), serialized: vec![5] },
    })
}

fn proven(block: MockBlock) -> ProvenBlock {
    ProvenBlock { block, accounts: OrdMap::new(), notes: OrdMap::new(), nullifiers: vec![] }
}

// ACCOUNTS
// ================================================================================================

#[test]
fn an_account_that_the_tree_does_not_hold_is_refused() {
    let witness = |id: AccountId, state_commitment: Word| AccountWitness {
        id,
        state_commitment,
        path: vec![],
    };
    let account = || public_account(1, 1);
    let id = account().header.id;
    let commitment = commitment_of(&account().header);
    let error = |witness, account| MockAccountState::new(witness, Some(account)).err().unwrap();

    assert_eq!(
        error(witness(id, word(1)), account()),
        MockAccountError::Inconsistent(AccountProofError::InconsistentAccountCommitment)
    );
    assert_eq!(
        error(witness(3, commitment), account()),
        MockAccountError::Inconsistent(AccountProofError::InconsistentAccountId)
    );
    let mut other_code = account();
    other_code.code.commitment = word(1);
    assert_eq!(
        error(witness(id, commitment), other_code),
        MockAccountError::Inconsistent(AccountProofError::InconsistentCodeCommitment)
    );
    let mut other_map = account();
    other_map.maps.insert(MAP_SLOT, vec![]);
    assert_eq!(
        error(witness(id, commitment), other_map),
        MockAccountError::InvalidMap(MAP_SLOT)
    );
    assert!(MockAccountState::new(witness(3, word(1)), None).is_ok());
}

#[test]
fn an_account_is_served_as_requested() {
    let api = api(vec![public_account(1, 1)]);
    let id = account_id(1, AccountVisibility::Public);

    let (block_num, answer) = api.get_account(id, &GetAccountRequest::new()).unwrap();
    assert_eq!((block_num, answer.account_id()), (0, id));
    assert!(answer.account_witness().verify(&api.chain.blocks[0].header.account_root));
    assert!(!answer.account_witness().verify(&word(1)));
    assert_eq!(answer.storage_header().unwrap().len(), 2);
    assert!(answer.storage_details().unwrap().map_details.is_empty());
    // What is requested of the vault makes no difference.
    assert_eq!(answer.vault_details().unwrap().assets.len(), 1);

    let all = GetAccountRequest::new()
        .with_storage(StorageMapFetch::All)
        .with_vault(VaultFetch::Always);
    let (_, answer) = api.get_account(id, &all).unwrap();
    let details = answer.find_map_details(MAP_SLOT).unwrap();
    assert!(matches!(&details.entries, StorageMapEntries::AllEntries(e) if *e == map_entries()));
    assert!(answer.find_map_details(VALUE_SLOT).is_none());
    let vault = answer.vault_details().unwrap();
    assert_eq!(vault.assets, vec![Asset { key: word(8), value: word(9) }]);
    assert!(!vault.too_many_assets);

    let vault_of = |root| {
        let request = GetAccountRequest::new().with_vault(VaultFetch::IfChangedFrom(root));
        api.get_account(id, &request).unwrap().1.vault_details().unwrap().assets.len()
    };
    assert_eq!(vault_of(word(5)), 1);
    assert_eq!(vault_of(word(4)), 1);
}

#[test]
fn an_account_that_is_not_on_the_chain_is_proven_to_be_absent() {
    let api = api(vec![public_account(1, 1)]);
    let id = account_id(9, AccountVisibility::Private);
    let (block_num, answer) = api.get_account(id, &GetAccountRequest::new()).unwrap();
    assert_eq!((block_num, answer.account_id()), (0, id));
    assert_eq!(answer.account_commitment(), Word::empty());
    assert!(answer.account_header().is_none());
    let tip = api.chain.blocks[0].header;
    assert!(answer.account_witness().verify(&tip.account_root));
    // The client takes no notice of such an answer.
    let local = word(3);
    assert_eq!(
        verify_private_account_mismatch(id, local, &tip, block_num, &answer).unwrap(),
        None
    );
    assert!(matches!(
        api.get_account(5, &GetAccountRequest::new()),
        Err(RpcError::InvalidResponse(_))
    ));
}

#[test]
fn accounts_at_a_block_that_was_not_kept_are_not_served() {
    let api = api(vec![]);
    let id = account_id(9, AccountVisibility::Private);
    for (number, text) in [(7, "7"), (10, "10"), (4_294_967_295, "4294967295")] {
        let request = GetAccountRequest::new().at(AccountStateAt::Block(number));
        let Err(RpcError::InvalidResponse(message)) = api.get_account(id, &request) else {
            panic!("the accounts were not kept");
        };
        assert_eq!(message, format!("no mock chain snapshot at block {text}"));
    }
}

#[test]
fn named_keys_are_served_as_a_part_of_the_map() {
    let api = api(vec![public_account(1, 1)]);
    let id = account_id(1, AccountVisibility::Public);
    let requirements = AccountStorageRequirements::new(&vec![(MAP_SLOT, vec![word(1), word(3)])]);
    let request = GetAccountRequest::new().with_storage(StorageMapFetch::Slots(requirements));
    let (_, answer) = api.get_account(id, &request).unwrap();

    let details = answer.find_map_details(MAP_SLOT).unwrap();
    let StorageMapEntries::PartialMap { map_keys, partial_smt } = &details.entries else {
        panic!("named keys come back as a partial map");
    };
    assert_eq!(*map_keys, vec![word(1), word(3)]);
    assert_eq!(plain(partial_smt.root()), map_root(&map_entries()));
    let key = StorageMapKey::new(protocol(word(1))).hash().as_word();
    assert_eq!(partial_smt.get_value(&key).unwrap(), protocol(word(10)));
    // The answer is what the request asks for.
    let requirements = AccountStorageRequirements::new(&vec![(MAP_SLOT, vec![word(1), word(3)])]);
    assert!(answer.storage_details().unwrap().validate_against_request(&requirements).is_ok());
    let more = AccountStorageRequirements::new(&vec![(MAP_SLOT, vec![word(1), word(2)])]);
    assert!(answer.storage_details().unwrap().validate_against_request(&more).is_err());
}

#[test]
fn a_large_account_is_flagged() {
    let api = api(vec![public_account(1, 1)]).with_oversize_threshold(0);
    let id = account_id(1, AccountVisibility::Public);
    let request = GetAccountRequest::new()
        .with_storage(StorageMapFetch::All)
        .with_vault(VaultFetch::Always);
    let (_, answer) = api.get_account(id, &request).unwrap();
    let details = answer.find_map_details(MAP_SLOT).unwrap();
    assert!(matches!(details.entries, StorageMapEntries::LimitExceeded));
    assert!(details.is_limit_exceeded());
    assert!(answer.vault_details().unwrap().too_many_assets);
}

#[test]
fn only_all_entries_make_a_map() {
    let root = map_root(&map_entries());
    let map = StorageMapEntries::AllEntries(map_entries()).into_storage_map();
    assert!(matches!(
        map,
        Some(Ok(StorageSlotContent::MapEntries { root: found, .. })) if found == root
    ));
    let twice = vec![map_entries()[0], map_entries()[0]];
    assert!(matches!(
        StorageMapEntries::AllEntries(twice).into_storage_map(),
        Some(Err(StorageMapError {}))
    ));
    assert!(StorageMapEntries::LimitExceeded.into_storage_map().is_none());
}

#[test]
fn an_account_at_an_earlier_block_is_served_from_what_was_kept() {
    let mut api = api(vec![public_account(1, 1)]);
    let id = account_id(1, AccountVisibility::Public);
    let (accounts, root) = account_states(vec![public_account(1, 2)]);
    api.prove_block(ProvenBlock { accounts, ..proven(block(1, root)) });

    let nonce_at = |at| {
        let request = GetAccountRequest::new().at(at);
        api.get_account(id, &request).map(|(_, answer)| answer.account_header().unwrap().nonce)
    };
    assert_eq!(nonce_at(AccountStateAt::ChainTip).unwrap(), 2);
    assert_eq!(nonce_at(AccountStateAt::Block(1)).unwrap(), 2);
    assert_eq!(nonce_at(AccountStateAt::Block(0)).unwrap(), 1);
    assert!(matches!(nonce_at(AccountStateAt::Block(7)), Err(RpcError::InvalidResponse(_))));
}

#[test]
fn blocks_that_are_advanced_keep_the_first_state_only() {
    let mut api = api(vec![public_account(1, 1)]);
    let id = account_id(1, AccountVisibility::Public);
    let (accounts, root) = account_states(vec![public_account(1, 3)]);
    api.advance_blocks(vec![
        proven(block(1, word(0))),
        ProvenBlock { accounts, ..proven(block(2, root)) },
    ]);
    assert_eq!(api.get_chain_tip_block_num(), 2);
    let nonce_at = |at| {
        let request = GetAccountRequest::new().at(at);
        api.get_account(id, &request).map(|(_, answer)| answer.account_header().unwrap().nonce)
    };
    assert_eq!(nonce_at(AccountStateAt::Block(0)).unwrap(), 1);
    assert_eq!(nonce_at(AccountStateAt::ChainTip).unwrap(), 3);
    assert!(nonce_at(AccountStateAt::Block(1)).is_err());
}

// FOLLOWING ACCOUNTS
// ================================================================================================

fn full_account(api: &MockRpcApi, id: AccountId) -> (u32, AccountProof) {
    let request = GetAccountRequest::new()
        .with_storage(StorageMapFetch::All)
        .with_vault(VaultFetch::Always);
    api.get_account(id, &request).unwrap()
}

/// Follows one public account, and returns what changes and which local states are superseded.
fn sync_public_account(
    api: &MockRpcApi,
    local: AccountHeader,
    tip: &BlockHeader,
) -> (AccountUpdates, Vec<Word>) {
    let (_, answer) = api.get_account(local.id, &GetAccountRequest::new()).unwrap();
    sync_reported_account(api, local, answer.account_commitment(), tip)
}

/// Follows one public account for which a commitment was reported.
fn sync_reported_account(
    api: &MockRpcApi,
    local: AccountHeader,
    reported: Word,
    tip: &BlockHeader,
) -> (AccountUpdates, Vec<Word>) {
    let diverging = diverging_public_accounts(&vec![local], &vec![(local.id, reported)]);
    let mut synced = Vec::new();
    for header in &diverging {
        let (block_num, answer) = api.get_account(header.id, &public_account_request(tip)).unwrap();
        let details = validate_account_proof(answer, block_num, header.id, tip).unwrap();
        synced.push(match classify_public_account(&details, header) {
            PublicAccountAction::Ignore => PublicAccountSync::Ignore,
            PublicAccountAction::Superseded => PublicAccountSync::Superseded,
            PublicAccountAction::AdoptState => {
                PublicAccountSync::Apply(build_full_update(&details).unwrap())
            },
            PublicAccountAction::AdoptPatch => panic!("the account is small"),
        });
    }
    let mut updates = AccountUpdates::new(vec![], vec![]);
    let superseded = fold_public_accounts(&mut updates, &diverging, synced);
    (updates, superseded)
}

fn local_header(seed: u8, nonce: u64) -> AccountHeader {
    AccountHeader {
        id: account_id(seed, AccountVisibility::Public),
        nonce,
        vault_root: word(0),
        storage_commitment: word(0),
        code_commitment: word(0),
    }
}

#[test]
fn sync_public_accounts_ignores_older_node_snapshot() {
    let api = api(vec![public_account(1, 1)]);
    let tip = api.chain.blocks[0].header;

    // Local state is at a higher nonce than the node's snapshot (our own tx isn't committed
    // there yet), so the node snapshot must be ignored.
    let (updates, superseded) = sync_public_account(&api, local_header(1, 2), &tip);

    assert!(
        updates.updated_public_accounts().is_empty(),
        "public account sync should ignore node snapshots that are older than local"
    );
    assert!(superseded.is_empty(), "an older node snapshot must not supersede the local state");
}

#[test]
fn sync_public_accounts_marks_same_nonce_mismatch_as_superseded() {
    let api = api(vec![public_account(1, 1)]);
    let tip = api.chain.blocks[0].header;

    // Local state is at the same nonce as the node's but with a different commitment: a fork
    // where the local transaction lost the race and must be discarded.
    let local = local_header(1, 1);
    let (updates, superseded) = sync_public_account(&api, local, &tip);

    assert!(
        updates.updated_public_accounts().is_empty(),
        "a same-nonce fork must not overwrite the account while its tx is still pending"
    );
    assert_eq!(
        superseded,
        vec![commitment_of(&local)],
        "the superseded local state should be reported so its transaction is discarded"
    );
}

#[test]
fn sync_public_accounts_pins_account_fetch_to_sync_target() {
    let mut api = api(vec![public_account(1, 1)]);
    // The sync target predates this block.
    let sync_target_header = api.chain.blocks[0].header;
    let committed = public_account(1, 2);
    let local = committed.header;
    let (accounts, root) = account_states(vec![committed]);
    api.prove_block(ProvenBlock { accounts, ..proven(block(1, root)) });

    let reported = commitment_of(&public_account(1, 1).header);
    assert_ne!(commitment_of(&local), reported);
    let (_, latest) = api.get_account(local.id, &GetAccountRequest::new()).unwrap();
    assert_eq!(latest.account_commitment(), commitment_of(&local));

    let (updates, superseded) =
        sync_reported_account(&api, local, reported, &sync_target_header);

    assert!(superseded.is_empty(), "the transaction must not be superseded");
    assert!(
        updates.updated_public_accounts().is_empty(),
        "the target state must not overwrite the local account"
    );
}

#[test]
fn a_newer_state_is_adopted() {
    let api = api(vec![public_account(1, 4)]);
    let tip = api.chain.blocks[0].header;
    let (block_num, answer) =
        api.get_account(local_header(1, 3).id, &public_account_request(&tip)).unwrap();
    let details = validate_account_proof(answer, block_num, local_header(1, 3).id, &tip).unwrap();
    assert_eq!(
        classify_public_account(&details, &local_header(1, 3)),
        PublicAccountAction::AdoptState
    );

    let large = api.with_oversize_threshold(0);
    let (block_num, answer) =
        large.get_account(local_header(1, 3).id, &public_account_request(&tip)).unwrap();
    let details = validate_account_proof(answer, block_num, local_header(1, 3).id, &tip).unwrap();
    assert_eq!(
        classify_public_account(&details, &local_header(1, 3)),
        PublicAccountAction::AdoptPatch
    );
}

/// A forged commitment must not lock the account when the witness proves the on-chain commitment
/// still matches the local one.
#[test]
fn verify_private_account_mismatch_ignores_forged_commitment() {
    let api = api(vec![public_account(1, 1)]);
    let tip = api.chain.blocks[0].header;
    let id = account_id(1, AccountVisibility::Public);
    let (block_num, answer) = api.get_account(id, &private_account_request(&tip)).unwrap();
    let on_chain_commitment = commitment_of(&public_account(1, 1).header);

    let result =
        verify_private_account_mismatch(id, on_chain_commitment, &tip, block_num, &answer).unwrap();

    assert!(
        result.is_none(),
        "an unproven commitment must not lock an account whose on-chain state matches local"
    );
}

/// When the witness proves a commitment that differs from the local one, the account is
/// reported as mismatched with the proven commitment.
#[test]
fn verify_private_account_mismatch_reports_proven_divergence() {
    let api = api(vec![public_account(1, 1)]);
    let tip = api.chain.blocks[0].header;
    let id = account_id(1, AccountVisibility::Public);
    let (block_num, answer) = api.get_account(id, &private_account_request(&tip)).unwrap();
    let stale_local_commitment = word(0xdead_beef);

    let result =
        verify_private_account_mismatch(id, stale_local_commitment, &tip, block_num, &answer)
            .unwrap();

    assert_eq!(
        result,
        Some(commitment_of(&public_account(1, 1).header)),
        "a proven divergence should return the proven commitment to lock with"
    );
}

/// A witness that doesn't verify against the chain tip's account root is a misbehaving node and
/// must abort the sync rather than lock the account.
#[test]
fn verify_private_account_mismatch_rejects_unverifiable_proof() {
    let api = api(vec![public_account(1, 1)]);
    let id = account_id(1, AccountVisibility::Public);
    let tampered = BlockHeader { account_root: word(0xbad0_bad0), ..api.chain.blocks[0].header };
    let (block_num, answer) = api.get_account(id, &private_account_request(&tampered)).unwrap();

    let result = verify_private_account_mismatch(
        id,
        commitment_of(&public_account(1, 1).header),
        &tampered,
        block_num,
        &answer,
    );
    assert!(matches!(
        result,
        Err(SyncError::Validation(ChainValidationError::ProofNotUnderRoot { .. }))
    ));
}

#[test]
fn the_state_of_a_header_is_compared_with_the_proven_one() {
    let api = api(vec![public_account(1, 1)]);
    let tip = api.chain.blocks[0].header;
    let same = public_account(1, 1).header;
    let (block_num, answer) = api.get_account(same.id, &private_account_request(&tip)).unwrap();
    assert_eq!(private_account_mismatch(&same, &tip, block_num, &answer).unwrap(), None);

    let stale = AccountHeader { nonce: 0, ..public_account(1, 1).header };
    let proven = private_account_mismatch(&stale, &tip, block_num, &answer).unwrap();
    assert_eq!(proven, Some(commitment_of(&same)));
    assert!(private_account_mismatch(&stale, &tip, block_num + 1, &answer).is_err());
}

/// `validate_account_proof` rejects a proof whose account differs from the requested one.
#[test]
fn validate_account_proof_rejects_mismatched_account() {
    let api = api(vec![public_account(1, 1), public_account(2, 1)]);
    let tip = api.chain.blocks[0].header;
    let [a, b] = [1, 2].map(|seed| account_id(seed, AccountVisibility::Public));

    // An honest proof for B, validated as if A had been requested.
    let (block_num, answer) = full_account(&api, b);
    let result = validate_account_proof(answer, block_num, a, &tip);

    assert!(matches!(
        result,
        Err(SyncError::Validation(ChainValidationError::ProofAccountMismatch { .. }))
    ));
}

/// `validate_account_proof` rejects a witness that doesn't open under the target account root.
#[test]
fn validate_account_proof_rejects_wrong_account_root() {
    let api = api(vec![public_account(1, 1)]);
    let id = account_id(1, AccountVisibility::Public);
    let wrong_header = BlockHeader { account_root: word(999), ..api.chain.blocks[0].header };

    let (block_num, answer) = full_account(&api, id);
    let result = validate_account_proof(answer, block_num, id, &wrong_header);

    assert!(matches!(
        result,
        Err(SyncError::Validation(ChainValidationError::ProofNotUnderRoot { .. }))
    ));
}

/// `validate_account_proof` rejects a proof that carries no account details.
#[test]
fn validate_account_proof_rejects_missing_details() {
    let api = api(vec![public_account(1, 1)]);
    let tip = api.chain.blocks[0].header;
    let id = account_id(1, AccountVisibility::Public);

    // An otherwise honest proof, but with the account details stripped.
    let (block_num, answer) = full_account(&api, id);
    let (witness, _) = answer.into_parts();
    let answer = AccountProof::new(witness, None).unwrap();
    let result = validate_account_proof(answer, block_num, id, &tip);

    assert!(matches!(
        result,
        Err(SyncError::Validation(ChainValidationError::MissingAccountDetails { .. }))
    ));
}

/// `validate_account_proof` rejects a proof reported for a block other than the sync target.
#[test]
fn validate_account_proof_rejects_wrong_block() {
    let api = api(vec![public_account(1, 1)]);
    let tip = api.chain.blocks[0].header;
    let id = account_id(1, AccountVisibility::Public);

    // An honest proof, but reported at a block other than the target.
    let (block_num, answer) = full_account(&api, id);
    let result = validate_account_proof(answer, block_num + 1, id, &tip);

    assert!(matches!(
        result,
        Err(SyncError::Validation(ChainValidationError::ProofBlockMismatch { .. }))
    ));
}

#[test]
fn private_accounts_are_compared_by_their_commitments() {
    let private = AccountHeader {
        id: account_id(3, AccountVisibility::Private),
        ..local_header(1, 1)
    };
    let public = local_header(1, 1);
    let accounts = vec![private, public];
    let updates = vec![(private.id, word(1)), (public.id, word(2))];
    assert_eq!(diverging_private_accounts(&accounts, &updates), vec![private]);
    assert_eq!(diverging_public_accounts(&accounts, &updates), vec![public]);
    let same = vec![(private.id, commitment_of(&private))];
    assert!(diverging_private_accounts(&accounts, &same).is_empty());

    let mut folded = AccountUpdates::new(vec![], vec![]);
    fold_private_accounts(&mut folded, &vec![private, public], &vec![Some(word(4)), None]);
    assert_eq!(folded.mismatched_private_accounts(), &vec![(private.id, word(4))]);
    let full = PublicAccountUpdate::Patch {
        new_header: public,
        patch: miden_client::sync::account_updates::AccountPatch {
            id: public.id,
            storage: OrdMap::new(),
            vault: AccountVaultPatch { assets: OrdMap::new() },
            code: None,
            final_nonce: 1,
        },
    };
    assert_eq!(full.id(), public.id);
}

// CHANGES OF ACCOUNTS
// ================================================================================================

fn changing_block(block_num: u32, account_id: AccountId, asset: u64, value: u64) -> MockBlock {
    let mut assets = OrdMap::new();
    assets.insert(word(asset), word(value));
    let mut entries = OrdMap::new();
    entries.insert(word(asset), word(value));
    let mut maps = OrdMap::new();
    maps.insert(MAP_SLOT, entries);
    MockBlock {
        updated_accounts: vec![MockAccountUpdate {
            account_id,
            final_state_commitment: word(value),
            public_patch: Some(MockPatch { vault: AccountVaultPatch { assets }, maps }),
        }],
        ..block(block_num, word(0))
    }
}

/// A chain of twenty blocks in which an account changes in every fourth one.
fn changing_api() -> MockRpcApi {
    let mut api = api(vec![]);
    for number in 1..20u32 {
        let block = if number % 4 == 0 {
            changing_block(number, 7, u64::from(number % 8), u64::from(number))
        } else {
            block(number, word(0))
        };
        api.prove_block(proven(block));
    }
    api
}

#[test]
fn changes_are_the_same_page_by_page() {
    let api = changing_api();
    let (tip, page_end, page) = api.get_sync_account_vault_request(0, 30, 7);
    assert_eq!((tip, page_end), (19, 5));
    assert_eq!(*page.assets.entries(), vec![(word(4), word(4))]);

    let info = api.sync_account_vault(0, 30, 7);
    assert_eq!((info.chain_tip, info.block_number), (19, 19));
    // Blocks 4 and 12 change one asset, and blocks 8 and 16 the other one: the later ones win.
    assert_eq!(*info.vault_patch.assets.entries(), vec![(word(0), word(16)), (word(4), word(12))]);

    let part = api.sync_account_vault(9, 13, 7);
    assert_eq!(part.block_number, 13);
    assert_eq!(*part.vault_patch.assets.entries(), vec![(word(4), word(12))]);
    assert!(api.sync_account_vault(0, 30, 8).vault_patch.assets.entries().is_empty());
    assert!(api.sync_account_vault(25, 30, 7).vault_patch.assets.entries().is_empty());

    let maps = api.sync_storage_maps(0, 30, 7);
    assert_eq!(maps.map_entries.keys(), vec![MAP_SLOT]);
    assert_eq!(
        *maps.map_entries.get(&MAP_SLOT).unwrap().entries(),
        vec![(word(0), word(16)), (word(4), word(12))]
    );
}

#[test]
fn updates_are_listed_by_block() {
    let api = changing_api();
    assert_eq!(api.account_commitment_updates.keys(), vec![4, 8, 12, 16]);
    assert_eq!(
        *api.account_commitment_updates.get(&12).unwrap().entries(),
        vec![(7, word(12))]
    );
    assert_eq!(api.first_account_id(), 7);
    let rebuilt = MockRpcApi::new(api.chain);
    assert_eq!(rebuilt.account_commitment_updates.keys(), vec![4, 8, 12, 16]);
}

// CHAIN
// ================================================================================================

fn outside_range(api: &MockRpcApi) -> Mmr {
    let mut mmr = Mmr::new();
    for block in &api.chain.blocks {
        mmr.add(protocol(block.header.commitment)).unwrap();
    }
    mmr
}

#[test]
fn the_chain_is_served_up_to_its_tip() {
    let api = changing_api();
    let info = api.sync_chain_mmr(0, SyncTarget::CommittedChainTip);
    assert_eq!((info.block_from, info.block_to), (0, 19));
    let delta = outside_range(&api)
        .get_delta(Forest::new(1).unwrap(), Forest::new(19).unwrap())
        .unwrap();
    assert_eq!(info.mmr_delta.forest, 19);
    assert_eq!(info.mmr_delta.data, delta.data.into_iter().map(plain).collect::<Vec<_>>());
    assert_eq!(info.block_header, api.chain.blocks[19].header);
    assert_eq!(info.block_signatures, vec![vec![19]]);
    assert_eq!(info.protocol_config.unwrap().serialized, vec![5]);

    assert!(api.sync_chain_mmr(5, SyncTarget::ProvenChainTip).protocol_config.is_none());
    let at_tip = api.sync_chain_mmr(19, SyncTarget::ProvenChainTip);
    assert!(at_tip.protocol_config.is_none() && at_tip.mmr_delta.data.is_empty());
}

#[test]
fn a_changed_configuration_is_served() {
    let mut api = api(vec![]);
    api.prove_block(proven(block(1, word(0))));
    let mut changed = block(2, word(0));
    changed.header.protocol_config_commitment = word(51);
    api.prove_block(proven(changed));
    assert!(api.sync_chain_mmr(1, SyncTarget::CommittedChainTip).protocol_config.is_some());
    assert!(api.sync_chain_mmr(2, SyncTarget::CommittedChainTip).protocol_config.is_none());
}

/// Verifies the validations performed on answers for the chain: a genuine answer passes, while
/// each tampered variant is rejected.
#[test]
fn validate_chain_mmr_response_rejects_tampered_responses() {
    let api = changing_api();
    let answer = || api.sync_chain_mmr(0, SyncTarget::CommittedChainTip);
    let problem = |result| match result {
        Err(SyncError::Validation(error)) => error,
        _ => panic!("the answer must be rejected"),
    };

    // Sanity check: the untampered response passes validation.
    validate_chain_mmr_response(&answer(), 0, true).unwrap();

    // The returned block header doesn't correspond to `block_to`.
    let mut tampered = answer();
    tampered.block_header = api.chain.blocks[18].header;
    assert!(matches!(
        problem(validate_chain_mmr_response(&tampered, 0, true)),
        ChainValidationError::HeaderNotAtTarget { header: 18, block_to: 19 }
    ));

    // `block_from` doesn't match the block the sync was requested from.
    let mut tampered = answer();
    tampered.block_from = 1;
    assert!(matches!(
        problem(validate_chain_mmr_response(&tampered, 0, true)),
        ChainValidationError::StartMismatch { expected: 0, received: 1 }
    ));

    // `block_to` (and its header) regress behind the client's current block.
    let mut tampered = answer();
    tampered.block_from = 19;
    tampered.block_to = 0;
    tampered.block_header = api.chain.blocks[0].header;
    assert!(matches!(
        problem(validate_chain_mmr_response(&tampered, 19, true)),
        ChainValidationError::BehindCurrent { current: 19, block_to: 0 }
    ));
}

#[test]
fn validate_chain_mmr_response_rejects_chain_tip_without_valid_signatures() {
    let api = changing_api();
    let info = api.sync_chain_mmr(0, SyncTarget::CommittedChainTip);
    validate_chain_mmr_response(&info, 0, true).unwrap();
    assert!(matches!(
        validate_chain_mmr_response(&info, 0, false),
        Err(SyncError::Validation(ChainValidationError::InvalidSignatures { block_num: 19 }))
    ));
}

#[test]
fn blocks_are_served_by_their_numbers() {
    let api = changing_api();
    let (tip, opening) = api.get_block_header_by_number(None, false);
    assert_eq!(tip.block_num, 19);
    assert!(opening.is_none());

    let (header, opening) = api.get_block_header_by_number(Some(6), true);
    assert_eq!(header.block_num, 6);
    let opening = opening.unwrap();
    let outside = outside_range(&api).open(6).unwrap();
    assert_eq!((opening.forest, opening.position, opening.leaf), (20, 6, header.commitment));
    assert_eq!(
        opening.path,
        outside.merkle_path().nodes().iter().map(|node| plain(*node)).collect::<Vec<_>>()
    );

    let (signed, block_proof) = api.get_block_by_number(6, true);
    assert_eq!((signed.header.block_num, signed.serialized), (6, vec![6]));
    assert_eq!(block_proof, Some(vec![200]));
    assert_eq!(api.get_block_by_number(6, false).1, None);
}

// NOTES, TRANSACTIONS, NULLIFIERS
// ================================================================================================

fn note(block_num: u32, tag: u32, words: Vec<u32>, script: Option<u64>) -> MockChainNote {
    MockChainNote {
        metadata: NoteMetadata {
            sender: 1,
            note_type: NoteType::Public,
            tag,
            attachment_schemes: AttachmentSchemes::none(),
            attachments_commitment: word(0),
        },
        inclusion_proof: NoteInclusionProof { block_num, node_index: 3, note_path: vec![word(4)] },
        attachments: vec![77],
        attachment_words: words,
        public: script.map(|root| MockPublicNote {
            nullifier: word(500),
            script: NoteScript { root: word(root), serialized: vec![root as u8] },
        }),
    }
}

fn api_with_notes() -> MockRpcApi {
    let mut api = api(vec![]);
    let mut notes = OrdMap::new();
    notes.insert(word(1), note(1, 7, vec![1, 1], Some(30)));
    notes.insert(word(2), note(1, 7, vec![1, 2], None));
    notes.insert(word(3), note(2, 8, vec![], Some(31)));
    notes.insert(word(4), note(3, 7, vec![], Some(30)));
    api.prove_block(ProvenBlock { notes, ..proven(block(1, word(0))) });
    api.prove_block(proven(block(2, word(0))));
    api.prove_block(proven(block(3, word(0))));
    api
}

#[test]
fn notes_are_served_by_block() {
    let mut api = api_with_notes();
    api.set_sync_notes_mmr_path(3, vec![word(123)]);

    let blocks = api.sync_notes(0, 3, &vec![7]);
    assert_eq!(blocks.iter().map(|b| b.block_header.block_num).collect::<Vec<_>>(), vec![1, 3]);
    assert_eq!(blocks[0].notes.keys(), vec![word(1), word(2)]);
    let path = outside_range(&api).open(1).unwrap();
    let path: Vec<_> = path.merkle_path().nodes().iter().map(|node| plain(*node)).collect();
    assert_eq!(blocks[0].mmr_path, path);
    assert_eq!(blocks[1].mmr_path, vec![word(123)]);

    // Attachments of one word each come with the note.
    assert_eq!(blocks[0].notes.get(&word(1)).unwrap().attachments, Some(vec![77]));
    assert_eq!(blocks[0].notes.get(&word(2)).unwrap().attachments, None);
    assert_eq!(blocks[0].notes.get(&word(1)).unwrap().inclusion_proof.node_index, 3);

    assert_eq!(api.sync_notes(2, 2, &vec![7, 8]).len(), 1);
    assert!(api.sync_notes(0, 3, &vec![9]).is_empty());
}

#[test]
fn notes_are_served_by_id() {
    let mut api = api_with_notes();
    api.register_private_note_attachments(word(2), vec![5, 6]);

    let served = api.get_notes_by_id(&vec![word(2), word(9), word(1)]);
    assert_eq!(api.get_notes_by_id_call_count(), 1);
    assert_eq!(served.len(), 2);
    assert_eq!(served[0].note, FetchedNote::Private { note_id: word(2), block_num: 1 });
    assert_eq!(served[0].attachments, vec![5, 6]);
    assert_eq!(
        served[1].note,
        FetchedNote::Public { note_id: word(1), nullifier: word(500), block_num: 1 }
    );

    assert_eq!(api.get_available_notes().len(), 4);
    assert_eq!(api.get_public_available_notes(), vec![word(1), word(3), word(4)]);
    assert_eq!(api.get_private_available_notes(), vec![word(2)]);
    assert_eq!(api.get_note_script_by_root(word(31)).unwrap().serialized, vec![31]);
    assert!(api.get_note_script_by_root(word(32)).is_none());
}

#[test]
fn transactions_and_nullifiers_are_served_by_range() {
    let mut api = api(vec![]);
    let header = |id: u64, account_id| TransactionHeader {
        id: word(id),
        account_id,
        initial_state_commitment: word(1),
        final_state_commitment: word(2),
        input_nullifiers: vec![word(id)],
    };
    let prefixed = |prefix: u64, block_num| NullifierUpdate {
        nullifier: Word { e0: 0, e1: 0, e2: 0, e3: prefix << 48 },
        block_num,
    };
    let first = MockBlock { transactions: vec![header(1, 7), header(2, 8)], ..block(1, word(0)) };
    let second = MockBlock { transactions: vec![header(3, 7)], ..block(2, word(0)) };
    api.prove_block(ProvenBlock { nullifiers: vec![prefixed(0xaa, 1)], ..proven(first) });
    api.prove_block(ProvenBlock {
        nullifiers: vec![prefixed(0xaa, 2), prefixed(0xbb, 2)],
        ..proven(second)
    });
    api.mark_note_as_erased(word(60));

    let ids = |from, to, accounts: Vec<AccountId>| {
        let records = api.sync_transactions(from, to, &accounts);
        records.iter().map(|r| (r.block_num, r.transaction_header.id)).collect::<Vec<_>>()
    };
    assert_eq!(ids(0, 2, vec![7]), vec![(1, word(1)), (2, word(3))]);
    assert_eq!(ids(2, 2, vec![7, 8]), vec![(2, word(3))]);
    assert_eq!(ids(0, 2, vec![]), vec![]);
    let records = api.sync_transactions(1, 1, &vec![8]);
    assert_eq!(records[0].erased_output_notes, vec![word(60)]);
    assert_eq!(records[0].transaction_header.input_nullifiers, vec![word(2)]);

    assert_eq!(api.sync_nullifiers(&vec![0xaa], 0, 2), vec![prefixed(0xaa, 1), prefixed(0xaa, 2)]);
    assert_eq!(api.sync_nullifiers(&vec![0xaa, 0xbb], 2, 9).len(), 2);
    assert!(api.sync_nullifiers(&vec![], 0, 2).is_empty());
}

#[test]
fn a_staged_failure_is_served_once() {
    let mut api = api(vec![]);
    api.fail_next_call(RpcEndpoint::SubmitProvenTx, RpcError::ConnectionError("x".to_string()));
    let private = |id: u64, attachments: Vec<u8>| MockOutputNote {
        note_id: word(id),
        note_type: NoteType::Private,
        attachments,
    };
    let notes = vec![private(1, vec![9]), private(2, vec![]), MockOutputNote {
        note_type: NoteType::Public,
        ..private(3, vec![8])
    }];

    let proven = |number| ProvenBlock {
        block: block(number, word(0)),
        accounts: OrdMap::new(),
        notes: OrdMap::new(),
        nullifiers: vec![],
    };
    let failed = api.submit_proven_transaction(&notes, proven(1));
    assert!(matches!(failed, Err(RpcError::ConnectionError(_))));
    assert!(api.private_note_attachments.entries().is_empty());
    assert_eq!(api.get_chain_tip_block_num(), 0);
    assert_eq!(api.submit_proven_transaction(&notes, proven(1)).unwrap(), 1);
    assert_eq!(api.get_chain_tip_block_num(), 1);
    assert_eq!(api.private_note_attachments.keys(), vec![word(1)]);

    api.fail_next_call(RpcEndpoint::SubmitProvenBatch, RpcError::ConnectionError("y".to_string()));
    assert!(api.submit_proven_batch(vec![vec![1]]).is_err());
    assert_eq!(api.submit_proven_batch(vec![vec![2]]).unwrap(), 1);
    assert_eq!(api.submitted_batch_sealed_inputs, vec![vec![vec![1]], vec![vec![2]]]);
    assert!(api.take_failure(RpcEndpoint::SubmitProvenBatch).is_none());
}

#[test]
fn the_node_serves_no_encryption_key() {
    let Err(RpcError::TransactionEncryptionKeyRejected(text)) =
        api(vec![]).get_transaction_encryption_key()
    else {
        panic!("there is no key");
    };
    assert_eq!(text, "the mock RPC client does not serve a transaction encryption key");
}
