//! Tests of importing and finding notes, and of the note transport layer.
use miden_client::account::{build_wallet_id, AccountVisibility};
use miden_client::collections::OrdMap;
use miden_client::errors::NoteImportError;
use miden_client::note::import::{
    consumption_request, decide_by_proof, decide_fetched_note, ensure_fetched,
    ensure_not_processing, expected_notes_range, expected_notes_request, expected_record,
    externally_consumed, find_committed_note, import_requests, imported_commitments,
    is_record_returned, matched_blocks, proof_nullifier_request, tag_to_track, DetailsRequest,
    FetchedNoteAction, ImportPlan, ImportedNote, NoteFile, ProofAction, ProofRequest,
    RecordChanges,
};
use miden_client::note::retrieval::{consumable_notes, find_by_id_prefix, IdPrefixFetchError};
use miden_client::note_transport::backfill::{
    backfill_candidate_tags, load_covered_tags, plan_backfill, save_covered_tags,
    tracked_account_tags, BackfillRun, BackfillStep, NoteTagRecord, NoteTagSource,
    MAX_BACKFILL_ITERATIONS, MAX_BACKFILL_TAGS_PER_SYNC,
};
use miden_client::note_transport::cursor::NoteTransportCursor;
use miden_client::note_transport::fetch::{
    fits_header, imported_ids, keep_notes, note_files, notes_to_screen, receive_notes,
    NoteInfo, ReceivedNote,
};
use miden_client::note_transport::relay::{
    add_entry, decode_outbox, encode_outbox, flushed, load_outbox, proof_block_num, remove_entry,
    save_outbox, DeliveryReadError, RelayDelivery, RelayOutboxEntry, SettingUpdate,
};
use miden_client::note_transport::wire::NoteHeaderInfo;
use miden_client::rpc::domain::note::{
    AttachmentSchemes, CommittedNote, FetchedNote, NoteInclusionProof, NoteMetadata, NoteType,
    SyncNotesBlock,
};
use miden_client::rpc::domain::sync::BlockRange;
use miden_client::store::{InputNoteRecord, InputNoteState};
use miden_client::types::{BlockHeader, Word};
use miden_protocol::crypto::merkle::SparseMerklePath;
use miden_protocol::note::{
    NoteAssets, NoteAttachmentHeader, NoteDetails, NoteDetailsCommitment, NoteHeader, NoteId,
    NoteRecipient, NoteStorage, PartialNoteMetadata,
};
use miden_protocol::utils::serde::Serializable;
use miden_protocol::Felt;
use miden_standards::note::P2idNote;

fn word(n: u64) -> Word {
    Word { e0: n, e1: 0, e2: 0, e3: 0 }
}

fn protocol(word: Word) -> miden_protocol::Word {
    miden_protocol::Word::new(word.elements().map(Felt::new_unchecked))
}

fn plain(word: miden_protocol::Word) -> Word {
    Word::from_elements(word.into_elements().map(|e| e.as_canonical_u64()))
}

fn sender() -> u128 {
    build_wallet_id([9u8; 32], word(1), 2, AccountVisibility::Public).unwrap()
}

fn metadata(tag: u32) -> NoteMetadata {
    NoteMetadata {
        sender: sender(),
        note_type: NoteType::Private,
        tag,
        attachment_schemes: AttachmentSchemes::none(),
        attachments_commitment: word(3),
    }
}

fn outside_header(details_commitment: u64, tag: u32) -> NoteHeader {
    let sender = miden_protocol::account::AccountId::try_from(sender()).unwrap();
    let partial = PartialNoteMetadata::new(sender, miden_protocol::note::NoteType::Private)
        .with_tag(tag.into());
    let headers = [0; 4].map(|_| NoteAttachmentHeader::new_maybe(None));
    let metadata =
        miden_protocol::note::NoteMetadata::from_parts(partial, headers, protocol(word(3)));
    NoteHeader::new(NoteDetailsCommitment::from_raw(protocol(word(details_commitment))), metadata)
}

fn id_of(header: &NoteHeader) -> Word {
    plain(NoteId::as_word(&header.id()))
}

fn record(commitment: u64, state: InputNoteState) -> InputNoteRecord {
    InputNoteRecord {
        details_commitment: word(commitment),
        note_id: Some(word(commitment + 1)),
        nullifier: Some(word(commitment + 2)),
        inclusion_block: None,
        state,
    }
}

fn imported(commitment: u64) -> ImportedNote {
    ImportedNote {
        note_id: word(commitment + 1),
        details_commitment: word(commitment),
        nullifier: word(commitment + 2),
        metadata: metadata(7),
    }
}

// IMPORT
// ================================================================================================

fn files() -> Vec<NoteFile> {
    let expected = |after_block_num| NoteFile::ExpectedNote {
        details_commitment: word(20),
        after_block_num,
        tag: 7,
    };
    vec![
        NoteFile::ById(word(1)),
        NoteFile::ById(word(1)),
        expected(3),
        expected(4),
        NoteFile::Committed { note: imported(10), proof_block: 5 },
    ]
}

#[test]
fn each_note_is_imported_once() {
    let plan = ImportPlan::new(&files());
    assert_eq!(plan.ids.keys(), vec![word(1)]);
    let requests = import_requests(&plan, &OrdMap::new(), &OrdMap::new()).unwrap();
    assert_eq!(requests.by_id, vec![(word(1), None)]);
    assert_eq!(requests.by_details.len(), 1);
    // Of two files for one note the last one counts.
    assert_eq!(requests.by_details[0].after_block_num, 4);
    assert_eq!(requests.by_proof, vec![ProofRequest {
        previous: None,
        note: imported(10),
        proof_block: 5,
    }]);
}

#[test]
fn a_note_that_is_being_consumed_is_not_imported() {
    let plan = ImportPlan::new(&files());
    let processing = record(20, InputNoteState::Processing);
    let mut stored = OrdMap::new();
    stored.insert(word(20), processing);
    let refused = NoteImportError::NoteIsProcessing { details_commitment: word(20) };
    assert_eq!(import_requests(&plan, &OrdMap::new(), &stored).err(), Some(refused));

    let mut by_id = OrdMap::new();
    by_id.insert(word(1), processing);
    assert_eq!(import_requests(&plan, &by_id, &OrdMap::new()).err(), Some(refused));

    assert_eq!(ensure_not_processing(Some(&processing)), Err(refused));
    assert_eq!(ensure_not_processing(Some(&record(20, InputNoteState::Committed))), Ok(()));
    assert_eq!(ensure_not_processing(None), Ok(()));
}

#[test]
fn fetched_notes_are_decided_about() {
    let public = FetchedNote::Public { note_id: word(1), nullifier: word(2), block_num: 3 };
    let private = FetchedNote::Private { note_id: word(1), block_num: 3 };
    let mut requests = OrdMap::new();
    assert_eq!(
        decide_fetched_note(&requests, &public),
        Err(NoteImportError::NotRequested { note_id: word(1) })
    );
    requests.insert(word(1), None);
    assert_eq!(decide_fetched_note(&requests, &public), Ok(FetchedNoteAction::ImportByProof));
    assert_eq!(
        decide_fetched_note(&requests, &private),
        Err(NoteImportError::NoteIsPrivate { note_id: word(1) })
    );
    let stored = record(5, InputNoteState::Unverified);
    requests.insert(word(1), Some(stored));
    assert_eq!(
        decide_fetched_note(&requests, &private),
        Ok(FetchedNoteAction::UpdateStored(stored))
    );
}

#[test]
fn a_note_that_the_node_does_not_have_is_named() {
    let note = |id| FetchedNote::Private { note_id: word(id), block_num: 3 };
    let mut requests = OrdMap::new();
    for id in [3, 1, 2] {
        requests.insert(word(id), None);
    }
    let missing = |id| Err(NoteImportError::NotFoundOnChain { note_id: word(id) });
    assert_eq!(ensure_fetched(&requests, &vec![]), Err(NoteImportError::NothingFetched));
    assert_eq!(ensure_fetched(&requests, &vec![note(1)]), missing(2));
    assert_eq!(ensure_fetched(&requests, &vec![note(3), note(2)]), missing(1));
    assert_eq!(ensure_fetched(&requests, &vec![note(3), note(1), note(2)]), Ok(()));
}

#[test]
fn a_note_with_a_proof_is_verified_or_awaited() {
    let request = |proof_block| ProofRequest { previous: None, note: imported(10), proof_block };
    let (nullifiers, lowest) = proof_nullifier_request(&vec![request(8), request(5)]);
    assert_eq!((nullifiers.keys(), lowest), (vec![word(12)], 5));

    let mut heights = OrdMap::new();
    heights.insert(word(12), None);
    let (started, action) = decide_by_proof(&request(5), &heights, 9);
    assert_eq!(action, ProofAction::VerifyAt(5));
    assert_eq!(started.state, InputNoteState::Expected { after_block_num: 5, tag: Some(7) });
    let (_, action) = decide_by_proof(&request(10), &heights, 9);
    assert_eq!(action, ProofAction::TrackTag { tag: 7, details_commitment: word(10) });

    heights.insert(word(12), Some(8));
    let (_, action) = decide_by_proof(&request(5), &heights, 9);
    assert_eq!(action, ProofAction::MarkConsumed { nullifier: word(12), block_height: 8 });

    let mut stored = request(5);
    stored.previous = Some(record(10, InputNoteState::Unverified));
    assert_eq!(decide_by_proof(&stored, &OrdMap::new(), 9).0, stored.previous.unwrap());
}

fn details_request(commitment: u64, after_block_num: u32, tag: u32) -> DetailsRequest {
    DetailsRequest { previous: None, details_commitment: word(commitment), after_block_num, tag }
}

#[test]
fn expected_notes_are_looked_for_in_known_blocks() {
    let (tags, lowest) =
        expected_notes_request(&vec![details_request(1, 9, 7), details_request(2, 4, 8)]);
    assert_eq!((tags.keys(), lowest), (vec![7, 8], 4));
    assert_eq!(expected_notes_range(4, 9), Some(BlockRange { block_from: 4, block_to: 9 }));
    assert_eq!(expected_notes_range(10, 9), None);

    let expected = expected_record(&details_request(1, 9, 7));
    assert_eq!(expected.state, InputNoteState::Expected { after_block_num: 9, tag: Some(7) });
    assert_eq!(tag_to_track(&expected), Some(7));
    assert_eq!(tag_to_track(&record(1, InputNoteState::Committed)), None);
    assert_eq!(imported_commitments(&vec![expected]), vec![word(1)]);
}

fn notes_block(block_num: u32, notes: Vec<CommittedNote>) -> SyncNotesBlock {
    let mut by_id = OrdMap::new();
    for note in notes {
        by_id.insert(note.note_id, note);
    }
    let block_header = BlockHeader {
        block_num,
        commitment: word(0),
        chain_commitment: word(0),
        account_root: word(0),
        note_root: word(0),
        protocol_config_commitment: word(0),
        verification_base_fee: 0,
        timestamp: 0,
    };
    SyncNotesBlock { block_header, mmr_path: vec![], notes: by_id }
}

fn committed(note_id: Word, tag: u32, block_num: u32) -> CommittedNote {
    CommittedNote {
        note_id,
        metadata: metadata(tag),
        inclusion_proof: NoteInclusionProof { block_num, node_index: 0, note_path: vec![] },
        attachments: None,
    }
}

#[test]
fn a_committed_note_is_found_by_its_details() {
    // The id of a note is made from its details and its metadata.
    let id = id_of(&outside_header(20, 7));
    let blocks = || vec![
        notes_block(3, vec![committed(word(1), 7, 3)]),
        notes_block(5, vec![committed(id, 7, 5)]),
        notes_block(12, vec![committed(id, 7, 12)]),
    ];
    let matched = matched_blocks(blocks(), &vec![word(20)], 9);
    assert_eq!(matched.len(), 1);
    assert_eq!(matched[0].block_header.block_num, 5);

    let (block, note) = find_committed_note(&blocks(), word(20)).unwrap();
    assert_eq!((block, blocks()[block].notes.entries()[note].0), (1, id));
    assert_eq!(find_committed_note(&blocks(), word(21)), None);
    let other_tag = vec![notes_block(5, vec![committed(id, 8, 5)])];
    assert_eq!(find_committed_note(&other_tag, word(20)), None);
}

#[test]
fn imported_notes_may_have_been_consumed() {
    let mut included = record(10, InputNoteState::Committed);
    included.inclusion_block = Some(4);
    let (nullifiers, from) = consumption_request(&vec![included]).unwrap();
    assert_eq!((nullifiers.keys(), from), (vec![word(12)], 4));
    assert!(consumption_request(&vec![]).is_none());

    let mut heights = OrdMap::new();
    heights.insert(word(12), Some(6));
    assert_eq!(externally_consumed(&included, &heights, 9), Some((word(12), 6)));
    assert_eq!(externally_consumed(&included, &heights, 5), None);
    assert_eq!(externally_consumed(&included, &OrdMap::new(), 9), None);
}

// RETRIEVAL
// ================================================================================================

#[test]
fn a_record_is_returned_if_it_changed_or_its_note_was_not_found() {
    assert!(is_record_returned(None));
    let none = RecordChanges::none();
    assert!(!is_record_returned(Some(none)));
    assert!(!none.is_changed());
    assert!(is_record_returned(Some(RecordChanges { consumed: true, ..none })));
    assert!(is_record_returned(Some(RecordChanges { inclusion_proof: true, ..none })));
    assert!(is_record_returned(Some(RecordChanges { attachments: true, ..none })));
    assert!(is_record_returned(Some(RecordChanges { block_header: true, ..none })));
}

#[test]
fn a_note_is_found_by_the_beginning_of_its_id() {
    let records = vec![
        record(1, InputNoteState::Committed),
        record(2, InputNoteState::Committed),
        InputNoteRecord { note_id: None, ..record(3, InputNoteState::Unverified) },
    ];
    let hex = protocol(word(2)).to_hex();
    assert_eq!(find_by_id_prefix(&records, &hex).unwrap(), 0);
    assert_eq!(find_by_id_prefix(&records, &hex[..6]).unwrap(), 0);
    assert!(matches!(
        find_by_id_prefix(&records, "0x0"),
        Err(IdPrefixFetchError::MultipleMatches(text)) if text == "note ID prefix 0x0"
    ));
    assert!(matches!(
        find_by_id_prefix(&records, "0xff"),
        Err(IdPrefixFetchError::NoMatch(text)) if text == "note ID prefix 0xff"
    ));
}

#[test]
fn notes_with_a_consumer_are_consumable() {
    let records =
        vec![record(1, InputNoteState::Committed), record(5, InputNoteState::Committed)];
    let mut relevances = OrdMap::new();
    relevances.insert(word(6), "account");
    assert_eq!(consumable_notes(&records, relevances), vec![(records[1], "account")]);
}

// CURSOR
// ================================================================================================

#[test]
fn a_cursor_is_read_back_from_its_bytes() {
    for cursor in [NoteTransportCursor::init(), NoteTransportCursor::from_parts(7, 300)] {
        let bytes = cursor.to_bytes();
        assert_eq!(NoteTransportCursor::read_from_bytes(&bytes), Some(cursor));
        let cut = bytes[..bytes.len() - 1].to_vec();
        assert_eq!(NoteTransportCursor::read_from_bytes(&cut), None);
    }
    assert_eq!(NoteTransportCursor::from_parts(7, 300).parts(), Some((7, 300)));
    assert_eq!(NoteTransportCursor::init().parts(), None);
}

#[test]
fn cursors_are_ordered() {
    let at = NoteTransportCursor::from_parts;
    assert!(NoteTransportCursor::init().is_not_after(&at(0, 0)));
    assert!(at(1, 5).is_not_after(&at(1, 5)));
    assert!(at(1, 5).is_not_after(&at(1, 6)));
    assert!(!at(1, 6).is_not_after(&at(1, 5)));
}

// OUTBOX
// ================================================================================================

fn proof_bytes() -> Vec<u8> {
    let path = SparseMerklePath::from_sized_iter(vec![protocol(word(1)); 16]).unwrap();
    miden_protocol::note::NoteInclusionProof::new(5u32.into(), 3, path).unwrap().to_bytes()
}

fn entries() -> Vec<RelayOutboxEntry> {
    vec![
        RelayOutboxEntry::plain(outside_header(1, 7).to_bytes(), vec![1, 2, 3]).unwrap(),
        RelayOutboxEntry::with_block_hint(outside_header(2, 7).to_bytes(), vec![4], 99).unwrap(),
        RelayOutboxEntry::with_proof(outside_header(3, 7).to_bytes(), vec![], proof_bytes())
            .unwrap(),
    ]
}

fn ids(entries: &[RelayOutboxEntry]) -> Vec<Word> {
    entries.iter().map(|entry| entry.note_id).collect()
}

#[test]
fn the_outbox_is_read_back_from_its_bytes() {
    let bytes = encode_outbox(&entries());
    let decoded = decode_outbox(&bytes).unwrap();
    assert_eq!(ids(&decoded), [1, 2, 3].map(|n| id_of(&outside_header(n, 7))).to_vec());
    assert_eq!(decoded[0].details_bytes, vec![1, 2, 3]);
    assert!(matches!(decoded[0].delivery, RelayDelivery::Plain));
    assert!(matches!(decoded[1].delivery, RelayDelivery::BlockHint(99)));
    assert!(matches!(
        &decoded[2].delivery,
        RelayDelivery::InclusionProof(bytes) if *bytes == proof_bytes()
    ));
    assert_eq!(decoded[1].header, outside_header(2, 7).to_bytes());

    assert!(decode_outbox(&bytes[..bytes.len() - 1].to_vec()).is_none());
}

#[test]
fn bytes_that_hold_no_note_are_refused() {
    assert!(RelayOutboxEntry::plain(vec![1, 2], vec![]).is_none());
    let mut long = outside_header(1, 7).to_bytes();
    long.push(0);
    assert!(RelayOutboxEntry::plain(long, vec![]).is_none());
    let header = outside_header(1, 7).to_bytes();
    assert!(RelayOutboxEntry::with_proof(header, vec![], vec![1]).is_none());
    assert_eq!(proof_block_num(&proof_bytes()), Some(5));
    assert_eq!(proof_block_num(&vec![1]), None);
}

#[test]
fn the_outbox_is_stored_while_there_is_something_in_it() {
    assert!(matches!(save_outbox(&vec![]), SettingUpdate::Remove));
    let SettingUpdate::Store(bytes) = save_outbox(&entries()) else {
        panic!("pending notes are stored");
    };
    let (loaded, corrupt) = load_outbox(Some(bytes));
    assert_eq!((ids(&loaded), corrupt), (ids(&entries()), false));
    assert_eq!(load_outbox(None).0.len(), 0);
    let (loaded, corrupt) = load_outbox(Some(vec![0xff]));
    assert_eq!((loaded.len(), corrupt), (0, true));
}

#[test]
fn a_note_is_in_the_outbox_once() {
    let again = RelayOutboxEntry::with_block_hint(outside_header(1, 7).to_bytes(), vec![9], 4);
    let added = add_entry(entries(), again.unwrap());
    assert_eq!(added.len(), 3);
    let first = id_of(&outside_header(1, 7));
    assert_eq!(added.last().unwrap().note_id, first);
    assert_eq!(remove_entry(added, first).len(), 2);
}

#[test]
fn delivered_notes_leave_the_outbox() {
    let (left, error) = flushed(entries(), vec![None, Some("down"), None]);
    assert_eq!(ids(&left), vec![id_of(&outside_header(2, 7))]);
    assert_eq!(error, Some("down"));
    let (left, error) = flushed::<u8>(entries(), vec![None, None, None]);
    assert!(left.is_empty() && error.is_none());
}

// BACKFILL
// ================================================================================================

#[test]
fn tags_are_backfilled_once() {
    let tag = |tag, source| NoteTagRecord { tag, source };
    let records = vec![
        tag(1, NoteTagSource::Account(5)),
        tag(2, NoteTagSource::User),
        tag(3, NoteTagSource::Note(word(1))),
    ];
    let candidates = backfill_candidate_tags(&records);
    assert_eq!(candidates.keys(), vec![1, 2]);
    assert_eq!(tracked_account_tags(&records).keys(), vec![1]);

    let mut covered = OrdMap::new();
    covered.insert(1, ());
    covered.insert(9, ());
    let plan = plan_backfill(&candidates, &covered);
    assert_eq!((plan.covered.keys(), plan.pruned, plan.new_tags.clone()), (vec![1], true, vec![2]));
    assert_eq!(plan.covered_after().unwrap().keys(), vec![1, 2]);

    let mut many = OrdMap::new();
    for number in 0..100u32 {
        many.insert(number, ());
    }
    let plan = plan_backfill(&many, &OrdMap::new());
    assert_eq!(plan.new_tags.len(), MAX_BACKFILL_TAGS_PER_SYNC);
}

#[test]
fn a_backfill_ends() {
    let mut run = BackfillRun::new();
    assert!(matches!(run.advance(NoteTransportCursor::from_parts(0, 5)), BackfillStep::Continue));
    assert!(matches!(run.advance(NoteTransportCursor::from_parts(0, 5)), BackfillStep::Done));

    let mut run = BackfillRun::new();
    let mut pages = 0;
    loop {
        pages += 1;
        match run.advance(NoteTransportCursor::from_parts(0, pages)) {
            BackfillStep::Continue => {},
            BackfillStep::Done => panic!("the cursor goes on"),
            BackfillStep::DidNotTerminate => break,
        }
    }
    assert_eq!(pages, MAX_BACKFILL_ITERATIONS as u64);
}

#[test]
fn covered_tags_are_read_back() {
    let mut tags = OrdMap::new();
    tags.insert(1, ());
    tags.insert(0xdead_beef, ());
    let SettingUpdate::Store(bytes) = save_covered_tags(&tags) else {
        panic!("covered tags are stored");
    };
    assert_eq!(load_covered_tags(Some(bytes)).0.keys(), vec![1, 0xdead_beef]);
    assert_eq!(load_covered_tags(None).0.keys(), vec![]);
    assert!(load_covered_tags(Some(vec![0])).1);
}

// FETCH
// ================================================================================================

fn details() -> NoteDetails {
    let recipient = NoteRecipient::new(
        protocol(word(1)),
        P2idNote::script(),
        NoteStorage::new(vec![]).unwrap(),
    );
    NoteDetails::new(NoteAssets::new(vec![]).unwrap(), recipient)
}

#[test]
fn tags_that_wait_are_recovered_by_later_syncs() {
    let mut candidates = OrdMap::new();
    for tag in 0..130u32 {
        candidates.insert(tag, ());
    }
    let mut covered = OrdMap::new();
    let mut recovered = Vec::new();
    for _ in 0..3 {
        let plan = plan_backfill(&candidates, &covered);
        recovered.push(plan.new_tags.len());
        covered = plan.covered_after().unwrap();
    }
    assert_eq!(recovered, vec![64, 64, 2]);
    assert_eq!(covered.keys(), candidates.keys());
    assert!(plan_backfill(&candidates, &covered).covered_after().is_none());
}

#[test]
fn a_delivery_is_read_back() {
    let written = |delivery: &RelayDelivery| {
        let mut bytes = vec![];
        delivery.write_into(&mut bytes);
        bytes
    };
    // The first two look like an optional block number.
    assert_eq!(written(&RelayDelivery::Plain), vec![0]);
    assert_eq!(written(&RelayDelivery::BlockHint(258)), vec![1, 2, 1, 0, 0]);
    let proof = RelayDelivery::with_proof(proof_bytes()).unwrap();
    for delivery in [RelayDelivery::Plain, RelayDelivery::BlockHint(258), proof] {
        let bytes = written(&delivery);
        let (read, end) = RelayDelivery::read_from(&bytes, 0).unwrap();
        assert_eq!((written(&read), end), (bytes.clone(), bytes.len()));
    }
    let refused = |bytes: Vec<u8>| RelayDelivery::read_from(&bytes, 0).err();
    assert_eq!(refused(vec![3, 0]), Some(DeliveryReadError::InvalidValue(3)));
    assert_eq!(refused(vec![]), Some(DeliveryReadError::Unreadable));
    assert_eq!(refused(vec![1, 2, 3]), Some(DeliveryReadError::Unreadable));
    assert_eq!(refused(vec![2, 1]), Some(DeliveryReadError::Unreadable));
}

#[test]
fn a_transported_note_is_read_back_from_its_bytes() {
    let outside = outside_header(5, 7);
    let header =
        NoteHeaderInfo { note_id: id_of(&outside), details_commitment: word(5), tag: 7 };
    for block_hint in [None, Some(300)] {
        let info = NoteInfo { header, details_bytes: vec![1, 2, 3], block_hint };
        let bytes = info.to_bytes(&outside.to_bytes());
        let expected = (vec![1u8, 2, 3], block_hint).to_bytes();
        assert_eq!(bytes, [outside.to_bytes(), expected].concat());

        let read = NoteInfo::read_from_bytes(&bytes).unwrap();
        assert_eq!(read.header, header);
        assert_eq!((read.details_bytes, read.block_hint), (vec![1, 2, 3], block_hint));
        assert!(NoteInfo::read_from_bytes(&bytes[..bytes.len() - 1].to_vec()).is_none());
    }
    let mut broken = NoteInfo::new(header, vec![]).to_bytes(&outside.to_bytes());
    *broken.last_mut().unwrap() = 2;
    assert!(NoteInfo::read_from_bytes(&broken).is_none());
}

#[test]
fn a_note_is_received_if_its_details_fit_its_header() {
    let commitment = plain(details().commitment().as_word());
    let info = |details_commitment, tag, bytes| {
        let header = NoteHeaderInfo { note_id: word(4), details_commitment, tag };
        NoteInfo::new(header, bytes)
    };
    let infos = vec![
        info(commitment, 7, details().to_bytes()),
        info(word(1), 7, details().to_bytes()),
        info(commitment, 8, details().to_bytes()),
        info(commitment, 7, vec![1, 2]),
    ];
    let mut ids = OrdMap::new();
    let received = receive_notes(&infos, &vec![7], &mut ids);
    assert_eq!(received, vec![ReceivedNote {
        note_id: word(4),
        details_commitment: commitment,
        tag: 7,
        block_hint: None,
    }]);
    assert_eq!(imported_ids(&vec![commitment, word(9)], &ids), vec![word(4)]);

    let header = infos[0].header;
    assert!(fits_header(&header, Some(commitment)));
    assert!(!fits_header(&header, Some(word(1))));
    assert!(!fits_header(&header, None));
}

#[test]
fn notes_for_accounts_are_kept_if_they_can_be_consumed() {
    let note = |n: u64, tag, block_hint| ReceivedNote {
        note_id: word(n),
        details_commitment: word(n),
        tag,
        block_hint,
    };
    let notes = vec![note(1, 7, None), note(2, 7, None), note(3, 8, Some(4)), note(5, 8, None)];
    let mut account_tags = OrdMap::new();
    account_tags.insert(7, ());
    assert_eq!(notes_to_screen(&notes, &account_tags), vec![0, 1]);

    let mut processing = OrdMap::new();
    processing.insert(word(5), ());
    let kept = keep_notes(&notes, &account_tags, &vec![true, false, false, false], &processing);
    assert_eq!(kept, vec![notes[0], notes[2]]);

    let expected = |n: u64, after_block_num, tag| NoteFile::ExpectedNote {
        details_commitment: word(n),
        after_block_num,
        tag,
    };
    assert_eq!(note_files(&kept, 100), vec![expected(1, 80, 7), expected(3, 4, 8)]);
    assert_eq!(note_files(&vec![notes[0]], 10), vec![expected(1, 0, 7)]);
}
