//! What the steps of an import return, stated of their calls.
use vstd::prelude::*;

use crate::collections::OrdMap;
use crate::errors::NoteImportError;
use crate::note::import::{
    committed_nullifier, consumption_request, decide_by_proof, decide_fetched_note, ensure_fetched,
    expected_notes_range, expected_notes_request, expected_record, externally_consumed,
    imported_commitments, is_record_returned, nullifier_of, proof_nullifier_request, tag_to_track,
    DetailsRequest, FetchedNoteAction, ImportPlan, NoteFile, ProofAction, ProofRequest,
    RecordChanges,
};
use crate::note::import_laws::{
    law_committed_nullifier, law_consumption_search_starts_in_time, law_every_id_is_imported,
    law_is_fetched, law_lowest_block, law_nullifier_looked_up, law_occurring,
};
use crate::rpc::domain::note::FetchedNote;
use crate::rpc::domain::sync::BlockRange;
use crate::store::{InputNoteRecord, InputNoteState};
use crate::types::{BlockNumber, NoteDetailsCommitment, NoteId, NoteTag, Nullifier};

verus! {

/// The notes of a plan are the ids that were given, wherever they stand among the files.
pub proof fn law_plan_has_every_id(files: Vec<NoteFile>, plan: ImportPlan, note_id: NoteId)
    requires
        call_ensures(ImportPlan::new, (&files,), plan),
    ensures
        plan.ids@.contains_key(note_id) <==> exists|i: int|
            0 <= i < files@.len() && #[trigger] files@[i] == NoteFile::ById(note_id),
{
    law_every_id_is_imported(files@, note_id);
    assert(plan.ids@.dom().contains(note_id) == plan.ids@.contains_key(note_id));
}

/// Expected notes are looked for under the tag of each of them, and from a block on that is not after
/// the block of any of them; where there are notes, it is the block of one of them.
pub proof fn law_expected_notes_are_asked_for(
    requests: Vec<DetailsRequest>,
    made: (OrdMap<NoteTag, ()>, BlockNumber),
    tag: NoteTag,
)
    requires
        call_ensures(expected_notes_request, (&requests,), made),
    ensures
        forall|i: int|
            0 <= i < requests@.len() ==> made.1 <= (#[trigger] requests@[i]).after_block_num,
        requests@.len() > 0 ==> exists|i: int|
            0 <= i < requests@.len() && (#[trigger] requests@[i]).after_block_num == made.1,
        made.0@.contains_key(tag) <==> exists|i: int|
            0 <= i < requests@.len() && (#[trigger] requests@[i]).tag == tag,
{
    let blocks = requests@.map_values(|request: DetailsRequest| request.after_block_num);
    let tags = requests@.map_values(|request: DetailsRequest| request.tag);
    law_lowest_block(blocks);
    assert forall|i: int| 0 <= i < requests@.len() implies made.1 <= (
    #[trigger] requests@[i]).after_block_num by {
        assert(blocks[i] == requests@[i].after_block_num);
    }
    if requests@.len() > 0 {
        let i = choose|i: int| 0 <= i < blocks.len() && #[trigger] blocks[i] == made.1;
        assert(requests@[i].after_block_num == made.1);
    }
    assert(made.0@.dom().contains(tag) == tags.contains(tag));
    if tags.contains(tag) {
        let i = choose|i: int| 0 <= i < tags.len() && tags[i] == tag;
        assert(requests@[i].tag == tag);
    }
    if exists|i: int| 0 <= i < requests@.len() && (#[trigger] requests@[i]).tag == tag {
        let i = choose|i: int| 0 <= i < requests@.len() && (#[trigger] requests@[i]).tag == tag;
        assert(tags[i] == tag);
    }
}

/// The nullifiers of notes with a proof are looked up from a block on that is not after the block of any
/// of the proofs; where there are notes, it is the block of one of them. Every nullifier that is known is
/// looked up.
pub proof fn law_proven_notes_are_asked_for(
    requests: Vec<ProofRequest>,
    made: (OrdMap<Nullifier, ()>, BlockNumber),
    nullifier: Nullifier,
)
    requires
        call_ensures(proof_nullifier_request, (&requests,), made),
    ensures
        forall|i: int| 0 <= i < requests@.len() ==> made.1 <= (#[trigger] requests@[i]).proof_block,
        requests@.len() > 0 ==> exists|i: int|
            0 <= i < requests@.len() && (#[trigger] requests@[i]).proof_block == made.1,
        made.0@.contains_key(nullifier) <==> exists|i: int|
            0 <= i < requests@.len() && match (#[trigger] requests@[i]).previous {
                Some(previous) => previous.nullifier == Some(nullifier),
                None => requests@[i].note.nullifier == nullifier,
            },
{
    let blocks = requests@.map_values(|request: ProofRequest| request.proof_block);
    let all = requests@.map_values(|request: ProofRequest| nullifier_of(request));
    law_lowest_block(blocks);
    law_occurring(all, nullifier);
    assert forall|i: int| 0 <= i < requests@.len() implies made.1 <= (
    #[trigger] requests@[i]).proof_block by {
        assert(blocks[i] == requests@[i].proof_block);
    }
    if requests@.len() > 0 {
        let i = choose|i: int| 0 <= i < blocks.len() && #[trigger] blocks[i] == made.1;
        assert(requests@[i].proof_block == made.1);
    }
    assert(made.0@.dom().contains(nullifier) == made.0@.contains_key(nullifier));
    if made.0@.contains_key(nullifier) {
        let i = choose|i: int| 0 <= i < all.len() && #[trigger] all[i] == Some(nullifier);
        law_nullifier_looked_up(requests@[i]);
        assert(match requests@[i].previous {
            Some(previous) => previous.nullifier == Some(nullifier),
            None => requests@[i].note.nullifier == nullifier,
        });
    }
    assert forall|i: int|
        0 <= i < requests@.len() && match (#[trigger] requests@[i]).previous {
            Some(previous) => previous.nullifier == Some(nullifier),
            None => requests@[i].note.nullifier == nullifier,
        } implies made.0@.contains_key(nullifier) by {
        law_nullifier_looked_up(requests@[i]);
        assert(all[i] == Some(nullifier));
    }
}

/// Records are looked up if one of them has a nullifier and a block, and then from a block on that is not
/// after that of any such record, and is that of one of them.
pub proof fn law_created_notes_are_asked_for(
    records: Vec<InputNoteRecord>,
    made: Option<(OrdMap<Nullifier, ()>, BlockNumber)>,
    i: int,
)
    requires
        call_ensures(consumption_request, (&records,), made),
    ensures
        0 <= i < records@.len() && records@[i].nullifier is Some
            && records@[i].inclusion_block is Some ==> (made matches Some((nullifiers, lowest))
            && lowest <= records@[i].inclusion_block->0 && nullifiers@.contains_key(
            records@[i].nullifier->0,
        ) && exists|k: int|
            0 <= k < records@.len() && (#[trigger] records@[k]).nullifier is Some
                && records@[k].inclusion_block == Some(lowest)),
        (forall|k: int|
            0 <= k < records@.len() ==> (#[trigger] records@[k]).nullifier is None
                || records@[k].inclusion_block is None) ==> made is None,
{
    let all = records@.map_values(|record: InputNoteRecord| committed_nullifier(record));
    if 0 <= i < records@.len() && records@[i].nullifier is Some
        && records@[i].inclusion_block is Some {
        let nullifier = records@[i].nullifier->0;
        law_committed_nullifier(records@[i]);
        law_consumption_search_starts_in_time(records@, i);
        law_occurring(all, nullifier);
        assert(all[i] == Some(nullifier));
        if let Some((nullifiers, lowest)) = made {
            assert(nullifiers@.dom().contains(nullifier));
        }
    }
    if forall|k: int|
        0 <= k < records@.len() ==> (#[trigger] records@[k]).nullifier is None
            || records@[k].inclusion_block is None {
        if let Some((nullifiers, lowest)) = made {
            let first = nullifiers.listing()[0].0;
            assert(nullifiers@.contains_key(first));
            assert(nullifiers@.dom().contains(first));
            law_occurring(all, first);
            let k = choose|k: int| 0 <= k < all.len() && #[trigger] all[k] == Some(first);
            law_committed_nullifier(records@[k]);
            assert(records@[k].nullifier is None || records@[k].inclusion_block is None);
        }
    }
}

/// A note whose nullifier was recorded is marked as consumed. Any other is checked if its block is known,
/// and waits for its block under its tag if not.
pub proof fn law_proof_decides(
    request: ProofRequest,
    heights: OrdMap<Nullifier, Option<BlockNumber>>,
    current: BlockNumber,
    decision: (InputNoteRecord, ProofAction),
)
    requires
        call_ensures(decide_by_proof, (&request, &heights, current), decision),
    ensures
        ({
            let nullifier = match request.previous {
                Some(previous) => previous.nullifier,
                None => Some(request.note.nullifier),
            };
            let spent = nullifier is Some && heights@.contains_key(nullifier->0)
                && heights@[nullifier->0] is Some;
            &&& request.previous matches Some(previous) ==> decision.0 == previous
            &&& decision.0.nullifier == nullifier
            &&& spent ==> decision.1 == (ProofAction::MarkConsumed {
                nullifier: nullifier->0,
                block_height: heights@[nullifier->0]->0,
            })
            &&& !spent && request.proof_block <= current ==> decision.1 == ProofAction::VerifyAt(
                request.proof_block,
            )
            &&& !spent && request.proof_block > current ==> (decision.1 matches ProofAction::TrackTag {
                tag,
                details_commitment,
            } && tag == request.note.metadata.tag && details_commitment
                == decision.0.details_commitment)
        }),
{
}

/// The range of blocks that is looked at holds every block from the first one to the current one; there
/// is none if there is no such block.
pub proof fn law_expected_range(
    first: BlockNumber,
    current: BlockNumber,
    range: Option<BlockRange>,
    block_num: BlockNumber,
)
    requires
        call_ensures(expected_notes_range, (first, current), range),
    ensures
        first <= block_num <= current <==> range is Some && range->0.block_from <= block_num
            <= range->0.block_to,
{
}

/// A note was consumed by others if its nullifier was recorded in a block that is known; it is reported
/// with both.
pub proof fn law_consumed_by_others(
    record: InputNoteRecord,
    heights: OrdMap<Nullifier, Option<BlockNumber>>,
    sync_height: BlockNumber,
    consumed: Option<(Nullifier, BlockNumber)>,
    nullifier: Nullifier,
    block_num: BlockNumber,
)
    requires
        call_ensures(externally_consumed, (&record, &heights, sync_height), consumed),
    ensures
        consumed == Some((nullifier, block_num)) <==> record.nullifier == Some(nullifier)
            && heights@.contains_key(nullifier) && heights@[nullifier] == Some(block_num)
            && block_num <= sync_height,
{
}

/// An answer without notes is refused as such. A note that is named as missing was asked for, and is not
/// among those that came.
pub proof fn law_missing_note_is_named(
    requests: OrdMap<NoteId, Option<InputNoteRecord>>,
    fetched: Vec<FetchedNote>,
    checked: Result<(), NoteImportError>,
    k: int,
)
    requires
        call_ensures(ensure_fetched, (&requests, &fetched), checked),
    ensures
        fetched@.len() == 0 <==> checked == Err::<(), _>(NoteImportError::NothingFetched),
        checked matches Err(NoteImportError::NotFoundOnChain { note_id: missing }) ==> {
            &&& requests@.contains_key(missing)
            &&& 0 <= k < fetched@.len() ==> match fetched@[k] {
                FetchedNote::Public { note_id, .. } => note_id != missing,
                FetchedNote::Private { note_id, .. } => note_id != missing,
            }
        },
{
    if let Err(NoteImportError::NotFoundOnChain { note_id: missing }) = checked {
        if 0 <= k < fetched@.len() {
            law_is_fetched(fetched@, missing, k);
        }
    }
}

/// A fetched note is stored again if it was stored, imported if it is public, and refused if it was not
/// asked for, or is private and not stored.
pub proof fn law_fetched_note(
    requests: OrdMap<NoteId, Option<InputNoteRecord>>,
    fetched: FetchedNote,
    action: Result<FetchedNoteAction, NoteImportError>,
)
    requires
        call_ensures(decide_fetched_note, (&requests, &fetched), action),
    ensures
        ({
            let note_id = match fetched {
                FetchedNote::Public { note_id, .. } => note_id,
                FetchedNote::Private { note_id, .. } => note_id,
            };
            let asked = requests@.contains_key(note_id);
            &&& !asked <==> action == Err::<FetchedNoteAction, _>(
                NoteImportError::NotRequested { note_id },
            )
            &&& asked && requests@[note_id] is Some ==> action == Ok::<_, NoteImportError>(
                FetchedNoteAction::UpdateStored(requests@[note_id]->0),
            )
            &&& asked && requests@[note_id] is None && fetched is Public ==> action == Ok::<
                _,
                NoteImportError,
            >(FetchedNoteAction::ImportByProof)
            &&& asked && requests@[note_id] is None && fetched is Private ==> action == Err::<
                FetchedNoteAction,
                _,
            >(NoteImportError::NoteIsPrivate { note_id })
        }),
{
}

/// What is stored of an expected note is kept; the record of a new one knows the details, the tag and the
/// block, and nothing else.
pub proof fn law_expected_record(request: DetailsRequest, record: InputNoteRecord)
    requires
        call_ensures(expected_record, (&request,), record),
    ensures
        request.previous matches Some(previous) ==> record == previous,
        request.previous is None ==> record.details_commitment == request.details_commitment
            && record.note_id is None && record.nullifier is None && record.inclusion_block is None
            && (record.state matches InputNoteState::Expected { after_block_num, tag }
            && after_block_num == request.after_block_num && tag == Some(request.tag)),
{
}

/// A record is returned if its note was not found on the chain, or if any step changed it. The tag of a
/// note is tracked only while the note is expected. Commitments are those of the records, in order.
pub proof fn law_import_result(
    found: Option<RecordChanges>,
    returned: bool,
    record: InputNoteRecord,
    tag: Option<NoteTag>,
    records: Vec<InputNoteRecord>,
    commitments: Vec<NoteDetailsCommitment>,
    i: int,
)
    requires
        call_ensures(is_record_returned, (found,), returned),
        call_ensures(tag_to_track, (&record,), tag),
        call_ensures(imported_commitments, (&records,), commitments),
    ensures
        found is None ==> returned,
        found matches Some(changes) ==> (returned <==> changes.consumed || changes.inclusion_proof
            || changes.attachments || changes.block_header),
        tag is Some ==> record.state is Expected,
        record.state matches InputNoteState::Expected { tag: own, .. } ==> tag == own,
        commitments@.len() == records@.len(),
        0 <= i < records@.len() ==> commitments@[i] == records@[i].details_commitment,
{
}

} // verus!
