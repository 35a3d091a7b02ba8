//! Tests of the checks that an answer is about what was asked.
use miden_client::account::{build_wallet_id, AccountVisibility};
use miden_client::collections::OrdMap;
use miden_client::rpc::domain::account_proof::{AccountProof, AccountStateAt, AccountWitness};
use miden_client::rpc::domain::note::{
    AttachmentSchemes, CommittedNote, FetchedNote, NoteInclusionProof, NoteMetadata, NoteScript,
    NoteType, NullifierUpdate, SyncNotesBlock,
};
use miden_client::rpc::domain::transaction::{TransactionHeader, TransactionRecord};
use miden_client::rpc::errors::rpc_error::RpcError;
use miden_client::rpc::verifying_client::{
    verify_account, verify_account_ids, verify_block_num, verify_note_ids,
    verify_note_script_root, verify_note_tags, verify_nullifier_prefixes, VerifyingRpcClient,
};
use miden_client::types::{BlockHeader, Word};

fn word(n: u64) -> Word {
    Word { e0: n, e1: 0, e2: 0, e3: 0 }
}

fn hex(n: u64) -> String {
    miden_protocol::Word::new([n, 0, 0, 0].map(miden_protocol::Felt::new_unchecked)).to_hex()
}

fn assert_refused(checked: Result<(), RpcError>, text: &str) {
    let Err(RpcError::InvalidResponse(message)) = checked else {
        panic!("the answer is not about what was asked");
    };
    assert_eq!(message, text);
}

#[test]
fn get_block_header_by_number_verifies_block_num() {
    // A chain tip request must accept a header for any block.
    assert!(verify_block_num(None, 5).is_ok());
    // A header for the requested block must be accepted.
    assert!(verify_block_num(Some(5), 5).is_ok());
    // A header for another block must be rejected.
    let refused = "node returned block 5 but block 6 was requested";
    assert_refused(verify_block_num(Some(6), 5), refused);
}

#[test]
fn get_block_by_number_verifies_block_num() {
    // The requested block must be accepted.
    assert!(verify_block_num(Some(5), 5).is_ok());
    // A block with another number must be rejected.
    let refused = "node returned block 5 but block 6 was requested";
    assert_refused(verify_block_num(Some(6), 5), refused);
}

fn fetched(id: u64) -> FetchedNote {
    FetchedNote::Private { note_id: word(id), block_num: 1 }
}

#[test]
fn get_notes_by_id_verifies_note_ids() {
    let notes = vec![fetched(1)];
    assert!(verify_note_ids(&vec![word(1)], &notes).is_ok());

    // A requested note the node does not hold is simply absent from the response.
    assert!(verify_note_ids(&vec![word(1), word(2)], &notes).is_ok());

    let unrequested = |list| format!("node returned note {} but [{list}] were requested", hex(1));
    assert_refused(verify_note_ids(&vec![word(2)], &notes), &unrequested(hex(2)));
    let requested = vec![word(3), word(2), word(3)];
    let list = format!("{}, {}", hex(2), hex(3));
    assert_refused(verify_note_ids(&requested, &notes), &unrequested(list));
    assert_refused(verify_note_ids(&vec![], &notes), &unrequested(String::new()));
}

#[test]
fn get_notes_by_id_accepts_empty_and_repeated_responses() {
    assert!(verify_note_ids(&vec![word(1)], &vec![]).is_ok());

    // The check is membership only, so a node repeating a requested note is not rejected.
    assert!(verify_note_ids(&vec![word(1)], &vec![fetched(1), fetched(1)]).is_ok());
}

fn sync_notes_block(block_num: u32, tags: &[u32]) -> SyncNotesBlock {
    let mut notes = OrdMap::new();
    for (i, tag) in tags.iter().enumerate() {
        let note_id = word(i as u64);
        let metadata = NoteMetadata {
            sender: 1,
            note_type: NoteType::Public,
            tag: *tag,
            attachment_schemes: AttachmentSchemes::none(),
            attachments_commitment: word(0),
        };
        let inclusion_proof = NoteInclusionProof { block_num, node_index: 0, note_path: vec![] };
        notes.insert(note_id, CommittedNote { note_id, metadata, inclusion_proof, attachments: None });
    }
    let block_header = BlockHeader {
        block_num,
        commitment: word(0),
        chain_commitment: word(0),
        account_root: word(0),
        note_root: word(0),
        protocol_config_commitment: word(0),
        verification_base_fee: 0,
        timestamp: 0,
    };
    SyncNotesBlock { block_header, mmr_path: vec![], notes }
}

#[test]
fn sync_notes_verifies_note_tags() {
    let blocks = vec![sync_notes_block(1, &[1]), sync_notes_block(2, &[])];
    assert!(verify_note_tags(&vec![1], &blocks).is_ok());

    // The offending tag sits in the second block, so the check must span every returned block.
    let blocks = vec![sync_notes_block(1, &[1]), sync_notes_block(2, &[2])];
    let unrequested = "node returned note with tag 2 but [1] were requested";
    assert_refused(verify_note_tags(&vec![1], &blocks), unrequested);
}

#[test]
fn sync_nullifiers_verifies_prefixes() {
    let nullifier = Word { e0: 0, e1: 0, e2: 0, e3: 0xabcd << 48 };
    let batch = vec![NullifierUpdate { nullifier, block_num: 1 }];

    assert!(verify_nullifier_prefixes(&vec![0xabcd], &batch).is_ok());
    let refused = "node returned nullifier with prefix 43981 but [16, 4660] were requested";
    assert_refused(verify_nullifier_prefixes(&vec![0x1234, 0x10], &batch), refused);
    let refused = "node returned nullifier with prefix 43981 but [] were requested";
    assert_refused(verify_nullifier_prefixes(&vec![], &batch), refused);
}

fn account_proof(id: u128) -> AccountProof {
    AccountProof {
        account_witness: AccountWitness { id, state_commitment: word(1), path: vec![] },
        state_headers: None,
    }
}

#[test]
fn get_account_verifies_block_num_only_for_pinned_requests() {
    let answer = account_proof(9);
    assert!(verify_account(9, AccountStateAt::ChainTip, 5, &answer).is_ok());
    assert!(verify_account(9, AccountStateAt::Block(5), 5, &answer).is_ok());
    let refused = "node returned block 5 but block 6 was requested";
    assert_refused(verify_account(9, AccountStateAt::Block(6), 5, &answer), refused);
}

#[test]
fn get_account_rejects_proof_for_wrong_account_id() {
    let [requested, returned] = [1, 2].map(|seed| {
        build_wallet_id([seed; 32], word(1), 2, AccountVisibility::Private).unwrap()
    });
    let [asked, got] = [requested, returned]
        .map(|id| miden_protocol::account::AccountId::try_from(id).unwrap().to_hex());
    assert_refused(
        verify_account(requested, AccountStateAt::ChainTip, 1, &account_proof(returned)),
        &format!("node returned proof for account {got} but {asked} was requested"),
    );
}

#[test]
fn get_note_script_by_root_verifies_script_root() {
    let script = NoteScript { root: word(1), serialized: vec![] };
    assert!(verify_note_script_root(word(1), &script).is_ok());
    assert_refused(
        verify_note_script_root(word(2), &script),
        &format!("node returned note script with root {} for requested root {}", hex(1), hex(2)),
    );
}

fn transaction_record(account_id: u128) -> TransactionRecord {
    TransactionRecord {
        block_num: 1,
        transaction_header: TransactionHeader {
            id: word(1),
            account_id,
            initial_state_commitment: word(1),
            final_state_commitment: word(2),
            input_nullifiers: vec![],
        },
        output_notes: vec![],
        erased_output_notes: vec![],
        consumed_note_refs: vec![],
    }
}

#[test]
fn sync_transactions_verifies_account_ids() {
    let records = vec![transaction_record(9)];
    assert!(verify_account_ids(&vec![9], &records).is_ok());
    // A superset request that includes the returned account is fine.
    assert!(verify_account_ids(&vec![9, 8], &records).is_ok());
    let text = |list: &str| {
        let id = "0".repeat(30);
        format!("node returned transaction for account 0x{id} but [{list}] were requested")
    };
    assert_refused(verify_account_ids(&vec![256], &records), &text(&format!("0x{:030x}", 1)));
    assert_refused(verify_account_ids(&vec![], &records), &text(""));
}

#[test]
fn sync_transactions_accepts_empty_response() {
    assert!(verify_account_ids(&vec![9], &vec![]).is_ok());
}

#[test]
fn the_verifying_client_holds_its_inner_client() {
    assert_eq!(*VerifyingRpcClient::new(4).inner(), 4);
}
