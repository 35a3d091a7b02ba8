//! Tests of the collections, the byte formats, and the helpers that tests use.
use miden_client::account::{faucet_metadata_from_token_config, AccountVisibility};
use miden_client::bytes::{read_le, read_length, write_le, write_length};
use miden_client::collections::{chunks, contains_key, first_duplicate_key, OrdMap};
use miden_client::protocol_config::{
    load_protocol_config, protocol_config_setting_key, ProtocolConfigError,
};
use miden_client::rpc::domain::sync::ProtocolConfig;
use miden_client::rpc::endpoint::RpcEndpoint;
use miden_client::rpc::errors::rpc_error::{GrpcError, RpcError};
use miden_client::test_utils::common::{
    check_clean_state, components_of, fungible_faucet_component, wait_for_tx, AccountKind,
    AccountSetup, AuthSchemeId, BlockWait, Component, NodeWait, NodeWaitStep, NotCleanError,
    NoteWait, StandardComponents, TestClient, TransactionWait, NUMBER_OF_NODE_ATTEMPTS,
};
use miden_client::test_utils::fee::{
    chain_charges_fees, fund_if_needed, undeployed_accounts, FundingStep,
};
use miden_client::text::{chars_of, contains, parse_number, starts_with};
use miden_client::transaction::{
    DiscardCause, TransactionDetails, TransactionRecord, TransactionStatus,
};
use miden_client::types::{BlockHeader, Word};
use miden_protocol::utils::serde::{ByteWriter, Deserializable, Serializable};

fn word(n: u64) -> Word {
    Word { e0: n, e1: 0, e2: 0, e3: 0 }
}

// COLLECTIONS
// ================================================================================================

#[test]
fn a_map_lists_its_keys_in_order() {
    let mut map = OrdMap::new();
    for key in [5u32, 1, 9, 5] {
        map.insert(key, key * 10);
    }
    assert_eq!(map.keys(), vec![1, 5, 9]);
    assert_eq!(map.get(&5), Some(&50));
    assert_eq!(map.remove(&5), Some(50));
    assert_eq!(map.remove(&5), None);
    assert!(!map.contains(&5));

    let mut other = OrdMap::new();
    other.insert(1, 11);
    other.insert(2, 22);
    let mut missing = map.copy();
    missing.insert_missing(other.copy());
    assert_eq!(*missing.entries(), vec![(1, 10), (2, 22), (9, 90)]);
    map.insert_all(other);
    assert_eq!(*map.entries(), vec![(1, 11), (2, 22), (9, 90)]);
}

#[test]
fn words_are_ordered_by_their_highest_elements() {
    let mut map = OrdMap::new();
    map.insert(Word { e0: 9, e1: 0, e2: 0, e3: 1 }, 1);
    map.insert(Word { e0: 1, e1: 0, e2: 0, e3: 2 }, 2);
    map.insert(Word { e0: 1, e1: 7, e2: 0, e3: 1 }, 3);
    let values: Vec<_> = map.entries().iter().map(|(_, value)| *value).collect();
    assert_eq!(values, vec![1, 3, 2]);
}

#[test]
fn keys_are_cut_into_parts() {
    assert_eq!(chunks(&vec![1, 2, 3, 4, 5], 2), vec![vec![1, 2], vec![3, 4], vec![5]]);
    assert!(chunks(&Vec::<u8>::new(), 2).is_empty());
    assert!(contains_key(&vec![1u32, 2], &2));
    assert!(!contains_key(&vec![1u32, 2], &3));
    assert_eq!(first_duplicate_key(&vec![1u32, 2, 3, 2, 1]), Some(2));
    assert_eq!(first_duplicate_key(&vec![1u32, 2, 3]), None);
}

// BYTES AND TEXT
// ================================================================================================

#[test]
fn numbers_are_read_back_from_their_bytes() {
    let mut bytes = Vec::new();
    write_le(&mut bytes, 0x0102_0304, 4);
    assert_eq!(bytes, vec![4, 3, 2, 1]);
    assert_eq!(read_le(&bytes, 0, 4), Some(0x0102_0304));
    assert_eq!(read_le(&bytes, 1, 4), None);
}

#[test]
fn lengths_are_written_as_the_protocol_writes_them() {
    for length in [0usize, 1, 127, 128, 16_383, 16_384, 1 << 30, 1 << 56, usize::MAX] {
        let mut bytes = Vec::new();
        write_length(&mut bytes, length);
        let mut outside = Vec::new();
        outside.write_usize(length);
        assert_eq!(bytes, outside);
        assert_eq!(read_length(&bytes, 0), Some((length, bytes.len())));
        assert_eq!(usize::read_from_bytes(&length.to_bytes()).unwrap(), length);
    }
    assert_eq!(read_length(&Vec::new(), 0), None);
}

#[test]
fn text_is_searched() {
    assert_eq!(chars_of("ab"), vec!['a', 'b']);
    assert!(contains("one two", "e t"));
    assert!(!contains("one", "one two"));
    assert!(contains("one", ""));
    assert!(starts_with("0x12", "0x1"));
    assert!(!starts_with("0x12", "x"));
    assert_eq!(parse_number("042"), Some(42));
    assert_eq!(parse_number(""), None);
    assert_eq!(parse_number("4 2"), None);
}

#[test]
fn protocol_configurations_are_stored_by_their_commitments() {
    let hex = miden_protocol::Word::empty().to_hex();
    assert_eq!(protocol_config_setting_key(word(0)), format!("protocol_config:{hex}"));
    let keys = [word(1), word(2), Word { e0: 0, e1: 1, e2: 0, e3: 0 }].map(protocol_config_setting_key);
    assert!(keys[0] != keys[1] && keys[1] != keys[2] && keys[0] != keys[2]);
    // The least significant byte of an element comes first.
    assert_eq!(keys[0], format!("protocol_config:0x01{}", "0".repeat(62)));
    let config = |n| ProtocolConfig { commitment: word(n), serialized: vec![1] };
    assert_eq!(load_protocol_config(word(1), Some(Some(config(1)))).unwrap().serialized, vec![1]);
    let error = |stored| load_protocol_config(word(1), stored).err();
    assert_eq!(error(None), Some(ProtocolConfigError::NotFound(word(1))));
    assert_eq!(error(Some(None)), Some(ProtocolConfigError::Unreadable));
    assert_eq!(
        error(Some(Some(config(2)))),
        Some(ProtocolConfigError::CommitmentMismatch(word(1)))
    );
}

#[test]
fn a_transaction_is_decided_once() {
    let mut record = TransactionRecord {
        id: word(1),
        details: TransactionDetails {
            account_id: 1,
            init_account_state: word(1),
            final_account_state: word(2),
            input_note_nullifiers: vec![],
            submission_height: 0,
            expiration_block_num: 9,
        },
        status: TransactionStatus::Pending,
    };
    assert!(record.commit_transaction(4, 5));
    assert!(!record.discard_transaction(DiscardCause::Stale));
    assert!(!record.commit_transaction(6, 7));
    assert_eq!(
        record.status,
        TransactionStatus::Committed { block_number: 4, commit_timestamp: 5 }
    );
}

// TEST CLIENT
// ================================================================================================

#[test]
fn funding_is_spent_once() {
    let mut client: TestClient<&str, &str, u8> = TestClient::new("client");
    client.stash_funding(vec![(1, 10), (2, 20), (1, 11)]);
    assert_eq!(client.fund_request(1, vec![5]), vec![5, 11]);
    assert_eq!(client.fund_request(1, vec![5]), vec![5]);
    assert_eq!(client.take_funding(2), Some(20));
    assert_eq!(client.take_funding(2), None);

    assert!(client.fee_funder().is_none());
    let client = client.with_fee_funder(Some("funder"));
    assert_eq!(client.fee_funder(), Some(&"funder"));
    assert_eq!(client.client, "client");
}

#[test]
fn accounts_without_funding_are_told_apart() {
    let mut client: TestClient<(), (), u8> = TestClient::new(());
    client.stash_funding(vec![(1, 10), (3, 30), (4, 40)]);
    let (funded, unfunded) = client.split_funding(&vec![1, 2, 3, 1]);
    assert_eq!(funded, vec![(1, 10), (3, 30)]);
    assert_eq!(unfunded, vec![2, 1]);
    assert_eq!(client.pending_funding.keys(), vec![4]);
}

#[test]
fn accounts_are_set_up() {
    let wallet: AccountSetup<(), ()> = AccountSetup::wallet(AccountVisibility::Public);
    assert!(wallet.funded && wallet.invitation_code.is_none());
    let wallet = wallet
        .auth_scheme(AuthSchemeId::Falcon512Poseidon2)
        .unfunded()
        .invitation_code("code");
    assert!(!wallet.funded);
    assert_eq!(wallet.invitation_code.as_deref(), Some("code"));
    assert!(matches!(
        wallet.kind,
        AccountKind::Standard {
            components: StandardComponents::Wallet,
            account_type: AccountVisibility::Public,
            auth_scheme: AuthSchemeId::Falcon512Poseidon2,
        }
    ));
    let given = AccountSetup::prebuilt(1, 2).auth_scheme(AuthSchemeId::Falcon512Poseidon2);
    assert!(matches!(given.kind, AccountKind::Prebuilt { account: 1, key: 2 }));
    let faucet: AccountSetup<(), ()> = AccountSetup::faucet(AccountVisibility::Private);
    assert!(matches!(
        faucet.kind,
        AccountKind::Standard { auth_scheme: AuthSchemeId::EcdsaK256Keccak, .. }
    ));

    let scheme = AuthSchemeId::EcdsaK256Keccak;
    assert_eq!(
        components_of(StandardComponents::Wallet, scheme),
        vec![Component::SingleSignature(scheme), Component::BasicWallet]
    );
    assert_eq!(components_of(StandardComponents::Faucet, scheme).len(), 4);

    let token = fungible_faucet_component().unwrap();
    assert_eq!((token.e0, token.e1, token.e2), (0, 9_999_999, 10));
    let metadata = faucet_metadata_from_token_config(token).unwrap();
    assert_eq!((metadata.symbol.as_str(), metadata.decimals), ("TEST", 10));
}

#[test]
fn a_clean_client_has_nothing() {
    assert_eq!(check_clean_state(0, 0, 0), Ok(()));
    assert_eq!(check_clean_state(1, 1, 1), Err(NotCleanError::Accounts));
    assert_eq!(check_clean_state(0, 1, 1), Err(NotCleanError::Transactions));
    assert_eq!(check_clean_state(0, 0, 1), Err(NotCleanError::InputNotes));
}

#[test]
fn waits_end() {
    assert_eq!(wait_for_tx(TransactionStatus::Pending), TransactionWait::PollAgain);
    assert_eq!(
        wait_for_tx(TransactionStatus::Committed { block_number: 3, commit_timestamp: 0 }),
        TransactionWait::Committed(3)
    );
    assert_eq!(
        wait_for_tx(TransactionStatus::Discarded(DiscardCause::Expired)),
        TransactionWait::Discarded(DiscardCause::Expired)
    );

    let wait = BlockWait::new(5, 2);
    assert!(!wait.is_over(6));
    assert!(wait.is_over(7));
    assert_eq!(wait.wait_for_notes(1, 99), NoteWait::Found);
    assert_eq!(wait.wait_for_notes(0, 6), NoteWait::PollAgain);
    assert_eq!(wait.wait_for_notes(0, 7), NoteWait::TooLate);

    let mut wait = NodeWait::new();
    assert_eq!(wait.advance(Ok(())), NodeWaitStep::Connected);
    let other = RpcError::InvalidResponse("x".to_string());
    assert_eq!(wait.advance(Err(&other)), NodeWaitStep::UnexpectedError);
    let down = RpcError::RequestError {
        endpoint: RpcEndpoint::Status,
        error_kind: GrpcError::Unavailable,
        endpoint_error: None,
        source: vec![],
    };
    for _ in 1..NUMBER_OF_NODE_ATTEMPTS {
        assert_eq!(wait.advance(Err(&down)), NodeWaitStep::PollAgain);
    }
    let down = RpcError::ConnectionError("x".to_string());
    assert_eq!(wait.advance(Err(&down)), NodeWaitStep::Unreachable);
}

#[test]
fn accounts_are_funded_where_there_are_fees() {
    let header = |verification_base_fee| BlockHeader {
        block_num: 0,
        commitment: word(0),
        chain_commitment: word(0),
        account_root: word(0),
        note_root: word(0),
        protocol_config_commitment: word(0),
        verification_base_fee,
        timestamp: 0,
    };
    assert_eq!(chain_charges_fees(Some(&header(1))), Some(true));
    assert_eq!(chain_charges_fees(Some(&header(0))), Some(false));
    assert_eq!(chain_charges_fees(None), None);
    assert_eq!(fund_if_needed(false, false), FundingStep::Nothing);
    assert_eq!(fund_if_needed(true, true), FundingStep::Fund);
    assert_eq!(fund_if_needed(true, false), FundingStep::MissingFunder);
    assert_eq!(undeployed_accounts(&vec![(1, 0), (2, 3), (3, 0)]), vec![1, 3]);
}
