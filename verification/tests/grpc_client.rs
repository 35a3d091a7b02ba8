//! Tests of the requests to a node, and of reading its answers.
use miden_client::collections::OrdMap;
use miden_client::mmr::MmrDelta;
use miden_client::rpc::domain::account::{
    AccountCode, AccountHeader, AccountProofError, AccountResponseError, StorageSlotHeader,
    StorageSlotType,
};
use miden_client::rpc::domain::account_proof::{
    AccountDetailsMessage, AccountStateAt, AccountVaultDetails, AccountWitness,
    GetAccountRequest, StorageDetailsMessage, StorageMapFetch, StorageRequest, VaultFetch,
};
use miden_client::rpc::domain::account_storage::{AccountStorageRequirements, SlotData};
use miden_client::rpc::domain::note::{
    nullifier_prefix, AttachmentSchemes, CommittedNote, NoteInclusionProof, NoteMetadata, NoteType,
    NullifierUpdate, SyncNotesBlock,
};
use miden_client::rpc::domain::sync::{
    BlockRange, ChainMmrInfo, ChainMmrMessage, FinalityLevel,
    ProtocolConfig, SyncTarget,
};
use miden_client::rpc::errors::rpc_error::{PaginationError, RpcError};
use miden_client::rpc::grpc_client::{
    account_request, check_block_response, decode_block_response, merge_note_block,
    merge_nullifiers, merge_storage_page, merge_vault_page, read_account_answer,
    read_block_header_answer, read_encryption_key, AccountAnswer, AccountVaultInfo,
    BlockHeaderAnswer, EncryptionKeyMessage, GrpcClient, NextKeyMessage,
    RpcLimits, SignedBlock, StorageMapInfo, ValidatorAttestation, DEFAULT_MAX_RESPONSE_SIZE_BYTES,
};
use miden_client::rpc::paged_requests::{
    take_storage_page, take_vault_page, PageError, PageInfo, PagedRequests,
};
use miden_client::rpc::pagination::{BlockPagination, PaginationResult, MAX_ITERATIONS};
use miden_client::sync::account_updates::AccountVaultPatch;
use miden_client::types::{BlockHeader, Word};
use miden_protocol::Felt;

fn word(n: u64) -> Word {
    Word { e0: n, e1: 0, e2: 0, e3: 0 }
}

fn header(block_num: u32, commitment: u64) -> BlockHeader {
    BlockHeader {
        block_num,
        commitment: word(commitment),
        chain_commitment: word(0),
        account_root: word(0),
        note_root: word(0),
        protocol_config_commitment: word(50),
        verification_base_fee: 0,
        timestamp: 0,
    }
}

fn config(commitment: u64) -> ProtocolConfig {
    ProtocolConfig { commitment: word(commitment), serialized: vec![commitment as u8] }
}

/// Builds a response whose header commits to a configuration, carrying another one or the same.
fn response(returned: Option<ProtocolConfig>) -> ChainMmrMessage {
    ChainMmrMessage {
        block_range: Some(BlockRange { block_from: 0, block_to: 0 }),
        mmr_delta: Some(MmrDelta { forest: 0, data: Vec::new() }),
        block_header: Some(header(0, 1)),
        protocol_config: returned,
        block_signatures: Vec::new(),
    }
}

#[test]
fn a_protocol_config_must_match_the_header_it_arrives_with() {
    let matching = ChainMmrInfo::try_from_message(response(Some(config(50)))).unwrap();
    assert_eq!(matching.protocol_config.unwrap().commitment, word(50));

    let absent = ChainMmrInfo::try_from_message(response(None)).unwrap();
    assert!(absent.protocol_config.is_none());

    // The message names both commitments.
    let Err(RpcError::InvalidResponse(message)) =
        ChainMmrInfo::try_from_message(response(Some(config(51))))
    else {
        panic!("a mismatched configuration must be rejected as an invalid response");
    };
    let commitment =
        |n| miden_protocol::Word::new([n, 0, 0, 0].map(Felt::new_unchecked)).to_string();
    assert!(message.contains(&commitment(51)), "{message}");
    assert!(message.contains(&commitment(50)), "{message}");
    let (returned, expected) = ("33".to_owned() + &"0".repeat(62), "32".to_owned() + &"0".repeat(62));
    assert_eq!(
        message,
        format!(
            "node returned a protocol configuration with commitment 0x{returned} for a block \
             header that commits to 0x{expected}"
        )
    );
}

#[test]
fn a_chain_answer_has_all_its_parts() {
    let missing = |message| match ChainMmrInfo::try_from_message(message) {
        Err(RpcError::DeserializationError(text)) => text,
        other => panic!("the answer cannot be read, not {other:?}"),
    };
    let no_range = ChainMmrMessage { block_range: None, mmr_delta: None, ..response(None) };
    assert_eq!(missing(no_range), "missing block_range");
    let no_delta = ChainMmrMessage { mmr_delta: None, ..response(None) };
    assert_eq!(missing(no_delta), "missing mmr_delta");
    let no_header = ChainMmrMessage { block_header: None, ..response(None) };
    assert_eq!(missing(no_header), "missing block_header");
}

#[test]
fn sync_targets_have_finality_levels() {
    assert_eq!(SyncTarget::CommittedChainTip.finality_level(), FinalityLevel::Committed);
    assert_eq!(SyncTarget::ProvenChainTip.finality_level(), FinalityLevel::Proven);
}

// BLOCKS
// ================================================================================================

fn signed_block() -> SignedBlock {
    SignedBlock { header: header(0, 1), serialized: vec![1, 2, 3] }
}

#[test]
fn decode_block_response_reads_a_requested_proof() {
    // A proof of three bytes, its hash function, and no requests.
    let proof_message = vec![7, 1, 2, 3, 1, 1];
    let outside = miden_protocol::vm::ExecutionProof::from_bytes(&proof_message).unwrap();
    assert_eq!(outside.to_bytes(), proof_message);

    let (block, proof) =
        decode_block_response(Some(signed_block()), Some(proof_message.clone())).unwrap();

    let decoded = proof.expect("the response carries a proof");
    assert_eq!(decoded, proof_message);
    assert_eq!(block.serialized, vec![1, 2, 3]);
}

#[test]
fn decode_block_response_omits_an_absent_proof() {
    let (_block, proof) = decode_block_response(Some(signed_block()), None).unwrap();

    assert!(proof.is_none());
}

#[test]
fn decode_block_response_rejects_malformed_proof_bytes() {
    let res = decode_block_response(Some(signed_block()), Some(vec![0xff; 32]));

    assert!(matches!(res, Err(RpcError::DeserializationError(_))));
}

#[test]
fn decode_block_response_rejects_an_absent_block() {
    let res = decode_block_response(None, None);

    assert!(matches!(res, Err(RpcError::ExpectedDataMissing(_))));
}

#[test]
fn an_unreadable_proof_is_rejected() {
    let read = check_block_response(Some(signed_block()), Some(vec![1]), false);
    assert!(matches!(read, Err(RpcError::DeserializationError(_))));
    assert!(check_block_response(Some(signed_block()), Some(vec![1]), true).is_ok());
    assert!(check_block_response(Some(signed_block()), None, false).is_ok());
}

#[test]
fn a_block_header_answer_is_read() {
    let answer = || BlockHeaderAnswer {
        block_header: Some(header(4, 44)),
        chain_length: Some(9),
        mmr_path: Some(vec![word(1)]),
    };
    let (read, opening) = read_block_header_answer(answer(), true).unwrap();
    assert_eq!(read, header(4, 44));
    let opening = opening.unwrap();
    assert_eq!((opening.forest, opening.position, opening.leaf), (9, 4, word(44)));
    assert_eq!(opening.path, vec![word(1)]);

    assert!(read_block_header_answer(answer(), false).unwrap().1.is_none());

    let missing = |answer| match read_block_header_answer(answer, true) {
        Err(RpcError::ExpectedDataMissing(name)) => name,
        other => panic!("a part is missing, not {other:?}"),
    };
    assert_eq!(missing(BlockHeaderAnswer { block_header: None, ..answer() }), "BlockHeader");
    assert_eq!(missing(BlockHeaderAnswer { chain_length: None, ..answer() }), "ChainLength");
    assert_eq!(missing(BlockHeaderAnswer { mmr_path: None, ..answer() }), "MmrPath");
    let too_long = BlockHeaderAnswer { chain_length: Some(u64::MAX), ..answer() };
    let Err(RpcError::InvalidResponse(text)) = read_block_header_answer(too_long, true) else {
        panic!("no mountain range has so many leaves");
    };
    assert_eq!(text, "invalid forest size: 18446744073709551615");
}

// PAGES
// ================================================================================================

#[test]
fn block_pagination_errors_when_block_num_goes_backwards() {
    let mut pagination = BlockPagination::new(10, 20);

    let res = pagination.advance(9, 20);
    assert!(matches!(res, Err(PaginationError::WentBackwards)));
}

#[test]
fn block_pagination_errors_after_max_iterations() {
    let mut pagination = BlockPagination::new(0, 10_000);
    let chain_tip = 10_000;

    for _ in 0..MAX_ITERATIONS {
        let current = pagination.current_block_from();
        let res = pagination
            .advance(current, chain_tip)
            .expect("expected pagination to continue within iteration limit");
        assert!(matches!(res, PaginationResult::Continue));
    }

    let res = pagination.advance(pagination.current_block_from(), chain_tip);
    assert!(matches!(res, Err(PaginationError::TooManyPages)));
}

#[test]
fn block_pagination_stops_at_min_of_block_to_and_chain_tip() {
    // block_to is beyond chain tip, so target should be chain_tip.
    let mut pagination = BlockPagination::new(0, 50);

    let res = pagination.advance(30, 30).expect("expected pagination to succeed");

    assert!(matches!(
        res,
        PaginationResult::Done {
            chain_tip,
            block_num
        } if chain_tip == 30 && block_num == 30
    ));
}

#[test]
fn block_pagination_advances_cursor_by_one() {
    let mut pagination = BlockPagination::new(5, 100);

    let res = pagination.advance(5, 100).expect("expected pagination to succeed");
    assert!(matches!(res, PaginationResult::Continue));
    assert_eq!(pagination.current_block_from(), 6);
    assert_eq!(pagination.block_to(), 100);
}

#[test]
fn requests_are_sent_part_by_part_and_page_by_page() {
    let mut requests = PagedRequests::new(&vec![1u32, 2, 3], 2, 10, 20);
    let range = |block_from| BlockRange { block_from, block_to: 20 };
    assert_eq!(requests.next_request(), Some((&vec![1, 2], range(10))));

    requests.advance(PageInfo { chain_tip: 30, block_num: 15 }).unwrap();
    assert_eq!(requests.next_request(), Some((&vec![1, 2], range(16))));
    requests.advance(PageInfo { chain_tip: 30, block_num: 20 }).unwrap();
    assert_eq!(requests.next_request(), Some((&vec![3], range(10))));

    let error = requests.advance(PageInfo { chain_tip: 30, block_num: 9 });
    assert!(matches!(error, Err(PageError::Pagination(PaginationError::WentBackwards))));
    requests.advance(PageInfo { chain_tip: 30, block_num: 20 }).unwrap();
    assert_eq!(requests.next_request(), None);
}

#[test]
fn a_page_says_where_it_ends() {
    let mut requests = PagedRequests::new(&vec![1u32], 2, 10, 20);
    let mut nullifiers = OrdMap::new();
    let missing = requests.take_nullifier_page(&mut nullifiers, None, &Vec::new());
    assert!(matches!(missing, Err(PageError::MissingPageInfo)));

    let found = NullifierUpdate { nullifier: word(1), block_num: 11 };
    let page = Some(PageInfo { chain_tip: 30, block_num: 20 });
    requests.take_nullifier_page(&mut nullifiers, page, &vec![found, found]).unwrap();
    assert_eq!(nullifiers.keys(), vec![found]);
    assert_eq!(requests.next_request(), None);
}

#[test]
fn the_prefix_of_a_nullifier_is_its_highest_bits() {
    let nullifier = Word { e0: 1, e1: 2, e2: 3, e3: 0xabcd_0000_0000_0001 };
    assert_eq!(nullifier_prefix(&nullifier), 0xabcd);
    let outside = miden_protocol::note::Nullifier::from_raw(miden_protocol::Word::new(
        nullifier.elements().map(Felt::new_unchecked),
    ));
    assert_eq!(nullifier_prefix(&nullifier), outside.prefix());
}

fn committed_note(id: u64, block_num: u32) -> CommittedNote {
    CommittedNote {
        note_id: word(id),
        metadata: NoteMetadata {
            sender: 1,
            note_type: NoteType::Public,
            tag: 7,
            attachment_schemes: AttachmentSchemes::none(),
            attachments_commitment: word(0),
        },
        inclusion_proof: NoteInclusionProof { block_num, node_index: 0, note_path: Vec::new() },
        attachments: None,
    }
}

fn notes_block(block_num: u32, ids: &[u64]) -> SyncNotesBlock {
    let mut notes = OrdMap::new();
    for id in ids {
        notes.insert(word(*id), committed_note(*id, block_num));
    }
    SyncNotesBlock { block_header: header(block_num, 1), mmr_path: Vec::new(), notes }
}

#[test]
fn note_blocks_are_merged_by_their_numbers() {
    let mut merged = OrdMap::new();
    merge_note_block(&mut merged, notes_block(5, &[1]));
    merge_note_block(&mut merged, notes_block(3, &[2]));
    merge_note_block(&mut merged, notes_block(5, &[1, 4]));

    assert_eq!(merged.keys(), vec![3, 5]);
    assert_eq!(merged.get(&5).unwrap().notes.keys(), vec![word(1), word(4)]);
}

#[test]
fn repeated_nullifiers_are_merged() {
    let update = |n, block_num| NullifierUpdate { nullifier: word(n), block_num };
    let mut all = OrdMap::new();
    merge_nullifiers(&mut all, &vec![update(1, 5), update(2, 5)]);
    merge_nullifiers(&mut all, &vec![update(1, 5), update(1, 6)]);
    assert_eq!(all.entries().len(), 3);
}

#[test]
fn later_pages_replace_earlier_entries() {
    let mut maps = OrdMap::new();
    let page = |slot: u128, key: u64, value: u64| {
        let mut entries = OrdMap::new();
        entries.insert(word(key), word(value));
        let mut page = OrdMap::new();
        page.insert(slot, entries);
        page
    };
    merge_storage_page(&mut maps, page(1, 1, 10));
    merge_storage_page(&mut maps, page(1, 1, 11));
    merge_storage_page(&mut maps, page(1, 2, 12));
    merge_storage_page(&mut maps, page(9, 1, 13));
    assert_eq!(maps.keys(), vec![1, 9]);
    assert_eq!(*maps.get(&1).unwrap().entries(), vec![(word(1), word(11)), (word(2), word(12))]);

    let mut vault = AccountVaultPatch { assets: OrdMap::new() };
    let mut assets = OrdMap::new();
    assets.insert(word(1), word(5));
    merge_vault_page(&mut vault, AccountVaultPatch { assets });
    let mut assets = OrdMap::new();
    assets.insert(word(1), word(6));
    merge_vault_page(&mut vault, AccountVaultPatch { assets });
    assert_eq!(*vault.assets.entries(), vec![(word(1), word(6))]);
}

#[test]
fn the_pages_of_an_account_are_taken_up_to_the_end_of_the_range() {
    let page = |block_number, value| {
        let mut entries = OrdMap::new();
        entries.insert(word(1), word(value));
        let mut map_entries = OrdMap::new();
        map_entries.insert(7, entries);
        StorageMapInfo { chain_tip: 20, block_number, map_entries }
    };
    let mut pagination = BlockPagination::new(3, 10);
    let mut maps = OrdMap::new();
    assert_eq!(
        take_storage_page(&mut pagination, &mut maps, page(5, 50)),
        Ok(PaginationResult::Continue)
    );
    assert_eq!(pagination.current_block_from(), 6);
    assert_eq!(
        take_storage_page(&mut pagination, &mut maps, page(4, 51)),
        Err(PaginationError::WentBackwards)
    );
    assert_eq!(
        take_storage_page(&mut pagination, &mut maps, page(10, 52)),
        Ok(PaginationResult::Done { chain_tip: 20, block_num: 10 })
    );
    assert_eq!(maps.get(&7).unwrap().get(&word(1)), Some(&word(52)));

    let mut vault = AccountVaultPatch { assets: OrdMap::new() };
    let mut pagination = BlockPagination::new(3, 10);
    let mut assets = OrdMap::new();
    assets.insert(word(2), word(9));
    let page = AccountVaultInfo {
        chain_tip: 8,
        block_number: 8,
        vault_patch: AccountVaultPatch { assets },
    };
    assert_eq!(
        take_vault_page(&mut pagination, &mut vault, page),
        Ok(PaginationResult::Done { chain_tip: 8, block_num: 8 })
    );
    assert_eq!(vault.assets.get(&word(2)), Some(&word(9)));
}

// CLIENT
// ================================================================================================

#[test]
fn set_genesis_commitment_sets_the_commitment_when_its_not_already_set() {
    let mut client = GrpcClient::new("https://rpc.devnet.miden.io", 10000);
    assert!(client.has_genesis_commitment().is_none());
    assert_eq!(client.genesis_text(), "none");

    assert!(client.set_genesis_commitment(word(0)));

    assert_eq!(client.has_genesis_commitment().unwrap(), word(0));
    assert_eq!(client.genesis_text(), miden_protocol::Word::empty().to_hex());
}

#[test]
fn set_genesis_commitment_does_nothing_if_the_commitment_is_already_set() {
    let mut client = GrpcClient::new("https://rpc.devnet.miden.io", 10000);

    let initial_commitment = word(0);
    client.set_genesis_commitment(initial_commitment);

    let new_commitment = Word::from_elements([1, 2, 3, 4]);
    assert!(!client.set_genesis_commitment(new_commitment));

    assert_eq!(client.has_genesis_commitment().unwrap(), initial_commitment);
}

#[test]
fn with_bearer_auth_stores_token() {
    let client = GrpcClient::new("https://rpc.devnet.miden.io", 10000)
        .with_bearer_auth("token-one".to_string());

    assert_eq!(client.bearer_token.as_deref(), Some("token-one"));
}

#[test]
fn with_bearer_auth_surfaces_invalid_ascii_value_at_connect_time() {
    let client = GrpcClient::new("https://rpc.devnet.miden.io", 10000).with_bearer_auth("bad\nvalue".to_string());
    let err = client.authorization().expect_err("expected invalid token to fail connect");
    assert!(
        matches!(err, RpcError::ConnectionError(_)),
        "expected ConnectionError, got {err:?}",
    );

    let client = GrpcClient::new("https://rpc.devnet.miden.io", 10000).with_bearer_auth("a token~".to_string());
    assert_eq!(client.authorization().unwrap().as_deref(), Some("Bearer a token~"));
    assert!(GrpcClient::new("https://rpc.devnet.miden.io", 10000).authorization().unwrap().is_none());
    let client = GrpcClient::new("https://rpc.devnet.miden.io", 10000).with_bearer_auth("caf\u{e9}".to_string());
    assert!(client.authorization().is_err());
}

#[test]
fn with_bearer_auth_overwrites_on_repeat_call() {
    let client = GrpcClient::new("https://rpc.devnet.miden.io", 10000)
        .with_bearer_auth("token-one".to_string())
        .with_bearer_auth("token-two".to_string());

    // Second call replaces the first.
    assert_eq!(client.bearer_token.as_deref(), Some("token-two"));
}

#[test]
fn with_bearer_auth_is_preserved_across_set_genesis_commitment() {
    let mut client = GrpcClient::new("https://rpc.devnet.miden.io", 10000)
        .with_bearer_auth("token".to_string());

    client.set_genesis_commitment(word(0));

    assert_eq!(client.bearer_token.as_deref(), Some("token"));
}

#[test]
fn with_max_decoding_message_size_overrides_default() {
    // A fresh client uses the default decode ceiling.
    let default_client = GrpcClient::new("https://rpc.devnet.miden.io", 10_000);
    assert_eq!(default_client.max_decoding_message_size, DEFAULT_MAX_RESPONSE_SIZE_BYTES);

    // The knob overrides it for callers that hit responses above the default.
    let custom = GrpcClient::new("https://rpc.devnet.miden.io", 10_000)
        .with_max_decoding_message_size(8 * 1024 * 1024);
    assert_eq!(custom.max_decoding_message_size, 8 * 1024 * 1024);
}

fn assert_send_sync<T: Send + Sync>() {}

#[test]
fn is_send_sync() {
    assert_send_sync::<GrpcClient>();
}

#[test]
fn limits_are_kept() {
    let mut client = GrpcClient::new("https://rpc.devnet.miden.io", 10_000)
        .with_max_retries(9)
        .with_retry_interval_ms(7);
    assert_eq!((client.max_retries, client.retry_interval_ms), (9, 7));
    assert!(client.has_rpc_limits().is_none());
    let limits = RpcLimits {
        note_ids_limit: 1,
        nullifiers_limit: 2,
        account_ids_limit: 3,
        note_tags_limit: 4,
    };
    client.set_rpc_limits(limits);
    assert_eq!(client.has_rpc_limits(), Some(limits));
}

// ACCOUNTS
// ================================================================================================

#[test]
fn an_account_request_names_what_is_wanted() {
    let requirements = AccountStorageRequirements::new(&vec![(5, vec![word(1)]), (6, vec![])]);
    let request = GetAccountRequest::new()
        .with_storage(StorageMapFetch::Slots(requirements))
        .at(AccountStateAt::Block(8))
        .with_vault(VaultFetch::Always)
        .with_known_code(Some(AccountCode { commitment: word(3), serialized: vec![1] }));
    let public = account_id(miden_client::account::AccountVisibility::Public);
    let (message, context) = account_request(public, request);

    assert_eq!((message.account_id, message.block_num), (public, Some(8)));
    let details = message.details.unwrap();
    assert_eq!(details.code_commitment, word(3));
    assert_eq!(details.asset_vault_commitment, Some(word(0)));
    let Some(StorageRequest::StorageMaps(maps)) = details.storage_request else {
        panic!("named slots are requested");
    };
    assert_eq!((maps[0].slot_name, maps[1].slot_name), (5, 6));
    assert!(matches!(&maps[0].slot_data, SlotData::MapKeys(keys) if *keys == vec![word(1)]));
    assert!(matches!(maps[1].slot_data, SlotData::AllEntries));
    assert_eq!(context.known_codes.keys(), vec![word(3)]);
}

#[test]
fn a_private_account_is_requested_without_details() {
    let private = account_id(miden_client::account::AccountVisibility::Private);
    let (message, _) = account_request(private, GetAccountRequest::new());
    assert!(message.details.is_none());
    assert_eq!(message.block_num, None);
}

#[test]
fn an_account_is_private_by_a_bit_of_its_id() {
    let outside = |id: u128| {
        miden_protocol::account::AccountId::try_from(id).is_ok_and(|id| id.is_private())
    };
    let details = |id: u128| account_request(id, GetAccountRequest::new()).0.details;
    // The last byte does not belong to the id.
    for id in [0x01 << 64, 0x21 << 64, (0x01 << 64) | 0xff, (0x01 << 64) | ((1 << 63) - 1)] {
        assert!(outside(id) && details(id).is_none(), "{id:#x}");
    }
    // Public, of no version, with a second half that starts with a one, and no field element.
    for id in [0x11 << 64, 0x02 << 64, (0x01 << 64) | (1 << 63), 0xffff_ffff_0000_0041 << 64] {
        assert!(!outside(id) && details(id).is_some(), "{id:#x}");
    }
}

fn account_id(visibility: miden_client::account::AccountVisibility) -> u128 {
    miden_client::account::build_wallet_id([4u8; 32], word(1), 2, visibility).unwrap()
}

#[test]
fn an_account_answer_must_be_consistent() {
    let public = account_id(miden_client::account::AccountVisibility::Public);
    let context = || account_request(public, GetAccountRequest::new()).1;
    let header = AccountHeader {
        id: public,
        nonce: 1,
        vault_root: word(1),
        storage_commitment: word(2),
        code_commitment: word(3),
    };
    let commitment = {
        let [vault, storage, code] = [1u64, 2, 3].map(|n| {
            miden_protocol::Word::new([n, 0, 0, 0].map(Felt::new_unchecked))
        });
        let id = miden_protocol::account::AccountId::try_from(public).unwrap();
        let nonce = Felt::new_unchecked(1);
        miden_protocol::account::AccountHeader::new(id, nonce, vault, storage, code).to_commitment()
    };
    let commitment =
        Word::from_elements(commitment.into_elements().map(|e| e.as_canonical_u64()));
    let answer = |state_commitment: Word, block_num: Option<u32>| AccountAnswer {
        witness: Some(AccountWitness { id: public, state_commitment, path: Vec::new() }),
        block_num,
        details: Some(AccountDetailsMessage {
            header: Some(header),
            storage_details: Some(StorageDetailsMessage {
                header: Some(vec![StorageSlotHeader {
                    slot_name: 5,
                    slot_type: StorageSlotType::Value,
                    value: word(9),
                }]),
                map_details: Vec::new(),
            }),
            code: Some(AccountCode { commitment: word(3), serialized: vec![1] }),
            vault_details: Some(AccountVaultDetails {
                too_many_assets: false,
                assets: Vec::new(),
            }),
        }),
    };

    let (block_num, found) = read_account_answer(answer(commitment, Some(8)), &context()).unwrap();
    assert_eq!((block_num, found.account_id()), (8, public));
    assert_eq!(found.account_header(), Some(header));
    assert_eq!(found.code_commitment(), Some(word(3)));
    assert_eq!(found.account_commitment(), commitment);

    assert!(matches!(
        read_account_answer(answer(commitment, None), &context()),
        Err(AccountResponseError::MissingBlockNum)
    ));
    assert!(matches!(
        read_account_answer(answer(word(1), Some(8)), &context()),
        Err(AccountResponseError::InconsistentProof(
            AccountProofError::InconsistentAccountCommitment
        ))
    ));
    let mut without = answer(commitment, Some(8));
    without.witness = None;
    assert!(matches!(
        read_account_answer(without, &context()),
        Err(AccountResponseError::MissingWitness)
    ));
    let mut without = answer(commitment, Some(8));
    without.details = None;
    assert!(matches!(
        read_account_answer(without, &context()),
        Err(AccountResponseError::MissingDetails)
    ));
    let mut without = answer(commitment, Some(8));
    without.details.as_mut().unwrap().code = None;
    assert!(matches!(
        read_account_answer(without, &context()),
        Err(AccountResponseError::MissingCode)
    ));
}

// ENCRYPTION KEY
// ================================================================================================

#[test]
fn an_encryption_key_is_read() {
    let message = |scheme: i32, next: i32| EncryptionKeyMessage {
        scheme,
        key_id: vec![1],
        public_key: vec![2],
        attestations: vec![
            Some(ValidatorAttestation { validator_key: vec![3], signature: vec![4] }),
            None,
        ],
        next_key: Some(NextKeyMessage {
            scheme: next,
            key_id: vec![5],
            public_key: vec![6],
            rotation_block_num: 7,
        }),
    };
    let key = read_encryption_key(message(1, 2)).unwrap();
    assert_eq!((key.scheme, key.key_id, key.public_key), (1, vec![1], vec![2]));
    let next = key.next_key.unwrap();
    assert_eq!((next.scheme, next.rotation_block_num), (2, 7));

    let text = |message| match read_encryption_key(message) {
        Err(RpcError::InvalidResponse(text)) => text,
        other => panic!("the answer is refused, not {other:?}"),
    };
    assert_eq!(text(message(-1, 2)), "negative IES scheme '-1'");
    assert_eq!(text(message(-1, -2)), "negative IES scheme '-2'");
    assert_eq!(text(message(i32::MIN, 2)), "negative IES scheme '-2147483648'");
}
