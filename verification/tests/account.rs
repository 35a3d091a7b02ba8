//! Tests of the accounts that the client tracks.
use miden_client::account::{
    build_token_config, build_wallet_id, check_network_commitment,
    faucet_metadata_from_token_config, fetched_public_account, metadata_of_token, plan_add_account,
    plan_add_address, remote_token_metadata, tag_to_remove, AccountVisibility, AddAccountAction,
    AddAccountError, AddAddressError, Address, ClientAccountType, FaucetMetadata,
    FetchAccountError, NewAccount, TrackedAccount, WalletBuildError, DEFAULT_TAG_LENGTH,
    MAX_ASSET_AMOUNT, MAX_DECIMALS, TOKEN_CONFIG_SLOT,
};
use miden_client::rpc::domain::account::{
    AccountCode, AccountHeader, SlotId, StorageSlotHeader, StorageSlotType,
};
use miden_client::rpc::domain::account_proof::{
    AccountDetails, AccountProof, AccountVaultDetails, AccountWitness,
};
use miden_client::rpc::domain::account_storage::AccountStorageDetails;
use miden_client::rpc::endpoint::RpcEndpoint;
use miden_client::rpc::errors::node::{EndpointError, GetAccountError};
use miden_client::rpc::errors::rpc_error::{GrpcError, RpcError};
use miden_client::types::Word;
use miden_protocol::account::StorageSlotName;
use miden_protocol::asset::TokenSymbol;
use miden_protocol::utils::serde::Deserializable;
use miden_standards::account::faucets::FungibleFaucet;

fn word(n: u64) -> Word {
    Word { e0: n, e1: 0, e2: 0, e3: 0 }
}

/// Builds a token config slot value carrying the given decimals and the symbol "TST".
fn token_config(decimals: u32) -> Word {
    let symbol = TokenSymbol::new("TST").unwrap().as_element().as_canonical_u64();
    Word::from_elements([0, 0, u64::from(decimals), symbol])
}

#[test]
fn decodes_a_config_within_the_protocol_bounds() {
    let metadata = faucet_metadata_from_token_config(token_config(8)).unwrap();

    assert_eq!(metadata.symbol, "TST");
    assert_eq!(metadata.decimals, 8);
}

#[test]
fn accepts_the_maximum_supported_decimals() {
    let max = u32::from(FungibleFaucet::MAX_DECIMALS);
    let metadata = faucet_metadata_from_token_config(token_config(max)).unwrap();

    assert_eq!(metadata.decimals, FungibleFaucet::MAX_DECIMALS);
    assert_eq!(MAX_DECIMALS, FungibleFaucet::MAX_DECIMALS);
}

#[test]
fn rejects_decimals_above_the_maximum() {
    let above_max = u32::from(FungibleFaucet::MAX_DECIMALS) + 1;

    assert!(faucet_metadata_from_token_config(token_config(above_max)).is_none());
    assert!(faucet_metadata_from_token_config(token_config(200)).is_none());
}

#[test]
fn rejects_decimals_that_do_not_fit_a_u8() {
    assert!(faucet_metadata_from_token_config(token_config(300)).is_none());
}

#[test]
fn rejects_a_symbol_that_is_not_a_token_symbol() {
    let mut config = token_config(8);
    config.e3 = 0;

    assert!(faucet_metadata_from_token_config(config).is_none());
}

#[test]
fn a_token_without_a_symbol_has_no_metadata() {
    assert!(metadata_of_token(None, 8).is_none());
    let metadata = metadata_of_token(Some("ABC".to_string()), 12).unwrap();
    assert_eq!((metadata.symbol.as_str(), metadata.decimals), ("ABC", 12));
    assert!(metadata_of_token(Some("ABC".to_string()), 13).is_none());
}

#[test]
fn a_faucet_is_displayed_as_it_was_made() {
    for symbol in ["A", "AAB", "TEST", "ZZZZZZZZZZZZ"] {
        let config = build_token_config(symbol, 10, 500).unwrap();
        assert_eq!((config.e0, config.e1, config.e2), (0, 500, 10));
        let metadata = faucet_metadata_from_token_config(config).unwrap();
        assert_eq!((metadata.symbol.as_str(), metadata.decimals), (symbol, 10));
    }
    assert_eq!(build_token_config("AB", 0, 0).unwrap().e3, 26 + 2);

    assert!(build_token_config("TEST", MAX_DECIMALS, MAX_ASSET_AMOUNT).is_some());
    assert!(build_token_config("TEST", MAX_DECIMALS + 1, 500).is_none());
    assert!(build_token_config("TEST", 10, MAX_ASSET_AMOUNT + 1).is_none());
    for symbol in ["", "test", "TEST1", "ABCDEFGHIJKLM"] {
        assert!(build_token_config(symbol, 10, 500).is_none());
    }
}

#[test]
fn the_token_config_slot_is_that_of_a_fungible_faucet() {
    assert_eq!(TOKEN_CONFIG_SLOT, FungibleFaucet::token_config_slot().as_str());
}

fn token_config_slot() -> SlotId {
    let id = StorageSlotName::new(TOKEN_CONFIG_SLOT).unwrap().id();
    let prefix = u128::from(id.prefix().as_canonical_u64());
    (prefix << 64) | u128::from(id.suffix().as_canonical_u64())
}

fn faucet_answer(slot_name: SlotId) -> AccountProof {
    let header = AccountHeader {
        id: 7,
        nonce: 1,
        vault_root: word(1),
        storage_commitment: word(2),
        code_commitment: word(3),
    };
    AccountProof {
        account_witness: AccountWitness { id: 7, state_commitment: word(9), path: Vec::new() },
        state_headers: Some(AccountDetails {
            header,
            storage_details: AccountStorageDetails {
                header: vec![StorageSlotHeader {
                    slot_name,
                    slot_type: StorageSlotType::Value,
                    value: token_config(6),
                }],
                map_details: Vec::new(),
            },
            code: AccountCode { commitment: word(3), serialized: Vec::new() },
            vault_details: AccountVaultDetails { too_many_assets: false, assets: Vec::new() },
        }),
    }
}

fn account_error(error: GetAccountError) -> RpcError {
    RpcError::RequestError {
        endpoint: RpcEndpoint::GetAccount,
        error_kind: GrpcError::NotFound,
        endpoint_error: Some(EndpointError::GetAccount(error)),
        source: Vec::new(),
    }
}

#[test]
fn remote_metadata_are_read_from_the_token_config_slot() {
    let metadata = remote_token_metadata(Ok(faucet_answer(token_config_slot()))).unwrap().unwrap();
    assert_eq!((metadata.symbol.as_str(), metadata.decimals), ("TST", 6));

    assert!(remote_token_metadata(Ok(faucet_answer(1))).unwrap().is_none());

    let mut private = faucet_answer(token_config_slot());
    private.state_headers = None;
    assert!(remote_token_metadata(Ok(private)).unwrap().is_none());
}

#[test]
fn an_unavailable_faucet_has_no_metadata() {
    let not_found = remote_token_metadata(Err(account_error(GetAccountError::AccountNotFound)));
    assert!(not_found.unwrap().is_none());
    let not_public = remote_token_metadata(Err(account_error(GetAccountError::AccountNotPublic)));
    assert!(not_public.unwrap().is_none());

    let pruned = remote_token_metadata(Err(account_error(GetAccountError::BlockPruned)));
    assert!(matches!(pruned, Err(RpcError::RequestError { .. })));
    let down = remote_token_metadata(Err(RpcError::ConnectionError("down".to_string())));
    assert!(matches!(down, Err(RpcError::ConnectionError(_))));
}

#[test]
fn metadata_are_read_back_from_their_bytes() {
    let metadata = FaucetMetadata { symbol: "TST".to_string(), decimals: 8 };
    let mut bytes = vec![1, 2];
    metadata.write_into(&mut bytes);
    // A length of 3 takes one byte: the number, shifted left, with the lowest bit set.
    assert_eq!(bytes, vec![1, 2, 7, b'T', b'S', b'T', 8]);
    bytes.push(9);
    let (read, end) = FaucetMetadata::read_from(&bytes, 2).unwrap();
    assert_eq!((read.symbol.as_str(), read.decimals, end), ("TST", 8, 7));

    // The length of a symbol is that of its bytes.
    let mut bytes = Vec::new();
    FaucetMetadata { symbol: "\u{20ac}".to_string(), decimals: 2 }.write_into(&mut bytes);
    assert_eq!(bytes, vec![7, 0xe2, 0x82, 0xac, 2]);
    assert_eq!(FaucetMetadata::read_from(&bytes, 0).unwrap().0.symbol, "\u{20ac}");
    assert_eq!(String::read_from_bytes(&bytes).unwrap(), "\u{20ac}");
}

#[test]
fn metadata_without_length_symbol_or_decimals_are_not_read() {
    let read = |bytes: Vec<u8>| FaucetMetadata::read_from(&bytes, 0);
    assert!(read(vec![]).is_none());
    assert!(read(vec![2]).is_none());
    assert!(read(vec![7, b'T', b'S']).is_none());
    assert!(read(vec![7, b'T', b'S', b'T']).is_none());
    // A symbol is UTF-8.
    assert!(read(vec![3, 255, 8]).is_none());
    assert!(read(vec![5, 0xc0, 0x80, 8]).is_none());
    assert!(read(vec![3, 127, 8]).is_some());
}

#[test]
fn a_public_account_is_fetched() {
    assert!(matches!(fetched_public_account(3, Ok(Some(11))), Ok(11)));
    assert!(matches!(
        fetched_public_account::<u8>(3, Ok(None)),
        Err(FetchAccountError::AccountIsPrivate(3))
    ));
    assert!(matches!(
        fetched_public_account::<u8>(3, Err(account_error(GetAccountError::AccountNotFound))),
        Err(FetchAccountError::AccountNotFoundOnChain(3))
    ));
    assert!(matches!(
        fetched_public_account::<u8>(3, Err(account_error(GetAccountError::AccountNotPublic))),
        Err(FetchAccountError::Rpc(_))
    ));
}

fn new_account() -> NewAccount {
    NewAccount { id: 5, nonce: 3, commitment: word(30), is_new: false, has_seed: false }
}

fn wallet_id(seed: u8) -> u128 {
    build_wallet_id([seed; 32], word(1), 2, AccountVisibility::Private).unwrap()
}

fn tracked_account() -> TrackedAccount {
    TrackedAccount { client_account_type: ClientAccountType::Native, nonce: 3, is_locked: false }
}

#[test]
fn an_unknown_account_is_inserted() {
    let account = NewAccount { id: wallet_id(1), ..new_account() };
    let protocol_id = miden_protocol::account::AccountId::try_from(account.id).unwrap();
    let tag = miden_protocol::note::NoteTag::with_account_target(protocol_id).as_u32();
    let native = plan_add_account(&account, ClientAccountType::Native, None, false);
    assert_eq!(native, Ok(AddAccountAction::Insert { note_tag: Some(tag) }));
    let watched = plan_add_account(&account, ClientAccountType::Watched, None, true);
    assert_eq!(watched, Ok(AddAccountAction::Insert { note_tag: None }));
}

#[test]
fn a_new_account_needs_its_seed() {
    let account = NewAccount { id: wallet_id(1), is_new: true, ..new_account() };
    let refused = plan_add_account(&account, ClientAccountType::Native, None, false);
    assert_eq!(refused, Err(AddAccountError::AddNewAccountWithoutSeed));

    let account = NewAccount { has_seed: true, ..account };
    let added = plan_add_account(&account, ClientAccountType::Native, None, false);
    assert!(matches!(added, Ok(AddAccountAction::Insert { note_tag: Some(_) })));
}

#[test]
fn a_tracked_account_is_replaced_by_a_later_state_only() {
    let native = ClientAccountType::Native;
    let plan = |account: NewAccount, kind, overwrite| {
        plan_add_account(&account, kind, Some(tracked_account()), overwrite)
    };
    assert_eq!(
        plan(new_account(), native, false),
        Err(AddAccountError::AccountAlreadyTracked(5))
    );
    assert_eq!(
        plan(new_account(), ClientAccountType::Watched, true),
        Err(AddAccountError::AccountWatchedMismatch(5))
    );
    assert_eq!(
        plan(NewAccount { nonce: 2, ..new_account() }, native, true),
        Err(AddAccountError::AccountNonceTooLow)
    );
    assert_eq!(plan(new_account(), native, true), Ok(AddAccountAction::UpdateIfOnNetwork));

    let watched = TrackedAccount { client_account_type: ClientAccountType::Watched, ..tracked_account() };
    let plan = plan_add_account(&new_account(), ClientAccountType::Watched, Some(watched), true);
    assert_eq!(plan, Ok(AddAccountAction::Update));
}

#[test]
fn an_account_is_replaced_by_the_state_of_the_network() {
    let locked = TrackedAccount { is_locked: true, ..tracked_account() };
    let plan = plan_add_account(&new_account(), ClientAccountType::Native, Some(locked), true);
    assert_eq!(plan, Ok(AddAccountAction::UpdateIfOnNetwork));

    assert_eq!(check_network_commitment(&new_account(), word(30)), Ok(()));
    assert_eq!(
        check_network_commitment(&new_account(), word(31)),
        Err(AddAccountError::AccountCommitmentMismatch(word(31)))
    );
}

fn address(text: &str, account_id: u128, note_tag_len: Option<u8>) -> Address {
    Address { text: text.to_string(), account_id, note_tag_len }
}

#[test]
fn an_address_is_added_once() {
    let id = wallet_id(1);
    let (one, two) = (address("one", id, None), address("two", id, Some(8)));
    let tag = two.to_note_tag();
    assert!(tag.is_some());
    let known = vec![one];
    let native = Some(ClientAccountType::Native);
    assert_eq!(
        plan_add_address(&known, &known[0], id, native),
        Err(AddAddressError::AddressAlreadyTracked)
    );
    assert_eq!(plan_add_address(&known, &two, id, native), Ok(tag));
    let watched = Some(ClientAccountType::Watched);
    assert_eq!(plan_add_address(&known, &two, id, watched), Ok(None));
    assert_eq!(
        plan_add_address(&known, &two, id, None),
        Err(AddAddressError::AccountDataNotFound(id))
    );
}

#[test]
fn the_tag_of_an_address_holds_the_first_bits_of_the_account_id() {
    let id = wallet_id(1);
    let high_bits = (id >> 96) as u32;
    assert_eq!(address("all", id, Some(32)).to_note_tag(), Some(high_bits));
    assert_eq!(address("none", id, Some(0)).to_note_tag(), Some(0));
    assert_eq!(address("byte", id, Some(8)).to_note_tag(), Some(high_bits >> 24 << 24));
    assert_eq!(address("default", id, None).to_note_tag(), Some(high_bits >> 18 << 18));
    assert_eq!(DEFAULT_TAG_LENGTH, 14);
    assert_eq!(address("too long", id, Some(33)).to_note_tag(), None);
    assert_eq!(address("no account", 5, None).to_note_tag(), None);
}

#[test]
fn a_tag_is_kept_while_an_address_has_it() {
    let id = wallet_id(1);
    let removed = address("removed", id, None);
    let tag = removed.to_note_tag();
    assert_eq!(tag_to_remove(&vec![], &removed), tag);
    assert_eq!(tag_to_remove(&vec![address("other", id, Some(32))], &removed), tag);
    let remaining = vec![address("other", id, Some(32)), address("same tag", id, Some(14))];
    assert_eq!(tag_to_remove(&remaining, &removed), None);
    assert_eq!(tag_to_remove(&vec![], &address("no account", 5, None)), None);
}

#[test]
fn a_wallet_id_depends_on_everything_it_is_made_from() {
    let id = build_wallet_id([2u8; 32], word(1), 2, AccountVisibility::Private).unwrap();
    let account_id = miden_protocol::account::AccountId::try_from(id).unwrap();
    assert!(account_id.is_private());
    assert_eq!(build_wallet_id([2u8; 32], word(1), 2, AccountVisibility::Private), Ok(id));

    let public = build_wallet_id([2u8; 32], word(1), 2, AccountVisibility::Public).unwrap();
    assert!(miden_protocol::account::AccountId::try_from(public).unwrap().is_public());
    assert_ne!(build_wallet_id([3u8; 32], word(1), 2, AccountVisibility::Private), Ok(id));
    assert_ne!(build_wallet_id([2u8; 32], word(2), 2, AccountVisibility::Private), Ok(id));
    assert_ne!(build_wallet_id([2u8; 32], word(1), 1, AccountVisibility::Private), Ok(id));
    assert_eq!(
        build_wallet_id([2u8; 32], word(1), 77, AccountVisibility::Private),
        Err(WalletBuildError {})
    );
}
