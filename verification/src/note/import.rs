//! Importing notes into the store.
//!
//! A note can be given by its id, by its details, or as a whole together with a proof that it was
//! created. What is stored already is updated. A note that a transaction of the client is consuming
//! is not touched.
use vstd::prelude::*;

use crate::collections::{
    first_some, lemma_entry_of, lemma_first_some_at, lemma_first_some_none, lemma_first_some_step,
    present, OrdKey, OrdMap,
};
use crate::errors::NoteImportError;
use crate::rpc::domain::note::{
    note_id, note_id_of, CommittedNote, FetchedNote, NoteMetadata, SyncNotesBlock,
};
use crate::rpc::domain::sync::BlockRange;
use crate::store::{InputNoteRecord, InputNoteState};
use crate::types::{BlockNumber, NoteDetailsCommitment, NoteId, NoteTag, Nullifier};

verus! {

// FILES
// ================================================================================================
/// A note as a whole, by what importing it depends on.
#[derive(Clone, Copy, Debug, PartialEq, Eq, Structural)]
pub struct ImportedNote {
    pub note_id: NoteId,
    pub details_commitment: NoteDetailsCommitment,
    pub nullifier: Nullifier,
    pub metadata: NoteMetadata,
}

/// A note to be imported.
#[derive(Clone, Copy, Debug, PartialEq, Eq, Structural)]
pub enum NoteFile {
    /// The node is asked for the note.
    ById(NoteId),
    /// The note is expected to be created after a block, under a tag.
    ExpectedNote {
        details_commitment: NoteDetailsCommitment,
        after_block_num: BlockNumber,
        tag: NoteTag,
    },
    /// The note was created in a block.
    Committed { note: ImportedNote, proof_block: BlockNumber },
}

/// The notes to be imported, each of them once.
#[derive(Debug)]
pub struct ImportPlan {
    /// Notes that are given by their ids.
    pub ids: OrdMap<NoteId, ()>,
    /// Notes that are given by their details, by the commitments to these. They may have no id yet.
    pub files_by_commitment: OrdMap<NoteDetailsCommitment, NoteFile>,
}

/// The ids among the files.
pub open spec fn ids_in(files: Seq<NoteFile>) -> Set<NoteId>
    decreases files.len(),
{
    if files.len() == 0 {
        Set::empty()
    } else {
        match files.last() {
            NoteFile::ById(id) => ids_in(files.drop_last()).insert(id),
            _ => ids_in(files.drop_last()),
        }
    }
}

/// The files with details, by the commitments to these. Of several for one note the last one counts.
pub open spec fn files_in(files: Seq<NoteFile>) -> Map<NoteDetailsCommitment, NoteFile>
    decreases files.len(),
{
    if files.len() == 0 {
        Map::empty()
    } else {
        let rest = files_in(files.drop_last());
        match files.last() {
            NoteFile::ById(_) => rest,
            NoteFile::ExpectedNote { details_commitment, .. } => rest.insert(
                details_commitment,
                files.last(),
            ),
            NoteFile::Committed { note, .. } => rest.insert(note.details_commitment, files.last()),
        }
    }
}

impl ImportPlan {
    /// Files with details are not given by ids.
    pub open spec fn wf(self) -> bool {
        forall|commitment: NoteDetailsCommitment| #[trigger]
            self.files_by_commitment@.contains_key(commitment)
                ==> !(self.files_by_commitment@[commitment] is ById)
    }

    /// Collects the notes to be imported.
    pub fn new(note_files: &Vec<NoteFile>) -> (plan: Self)
        ensures
            plan.wf(),
            plan.ids@.dom() == ids_in(note_files@),
            plan.files_by_commitment@ == files_in(note_files@),
    {
        let mut ids: OrdMap<NoteId, ()> = OrdMap::new();
        let mut files: OrdMap<NoteDetailsCommitment, NoteFile> = OrdMap::new();
        let mut i: usize = 0;
        assert(ids@.dom() =~= Set::<NoteId>::empty());
        while i < note_files.len()
            invariant
                i <= note_files.len(),
                ids@.dom() == ids_in(note_files@.take(i as int)),
                files@ == files_in(note_files@.take(i as int)),
                forall|commitment: NoteDetailsCommitment| #[trigger]
                    files@.contains_key(commitment) ==> !(files@[commitment] is ById),
            decreases note_files.len() - i,
        {
            proof {
                assert(note_files@.take(i + 1).drop_last() =~= note_files@.take(i as int));
                assert(note_files@.take(i + 1).last() == note_files@[i as int]);
            }
            let ghost before = ids@.dom();
            let file = note_files[i];
            match file {
                NoteFile::ById(id) => {
                    ids.insert(id, ());
                    assert(ids@.dom() =~= before.insert(id));
                },
                NoteFile::ExpectedNote { details_commitment, .. } => {
                    files.insert(details_commitment, file);
                },
                NoteFile::Committed { note, .. } => {
                    files.insert(note.details_commitment, file);
                },
            }
            i += 1;
        }
        assert(note_files@.take(i as int) =~= note_files@);
        ImportPlan { ids, files_by_commitment: files }
    }
}

// REQUESTS
// ================================================================================================
/// Refuses to overwrite a note that a transaction of the client is consuming.
pub fn ensure_not_processing(previous_note: Option<&InputNoteRecord>) -> (checked: Result<
    (),
    NoteImportError,
>)
    ensures
        checked == match previous_note {
            Some(note) => match processing_problem(Some(*note)) {
                Some(error) => Err::<(), _>(error),
                None => Ok::<_, NoteImportError>(()),
            },
            None => Ok::<_, NoteImportError>(()),
        },
{
    if let Some(note) = previous_note {
        if note.is_processing() {
            return Err(
                NoteImportError::NoteIsProcessing { details_commitment: note.details_commitment },
            );
        }
    }
    Ok(())
}

/// Why the stored note is not overwritten.
pub open spec fn processing_problem(previous: Option<InputNoteRecord>) -> Option<NoteImportError> {
    match previous {
        Some(note) if note.state is Processing => Some(
            NoteImportError::NoteIsProcessing { details_commitment: note.details_commitment },
        ),
        _ => None,
    }
}

/// A note that is imported by its details.
#[derive(Clone, Copy, Debug, PartialEq, Eq, Structural)]
pub struct DetailsRequest {
    pub previous: Option<InputNoteRecord>,
    pub details_commitment: NoteDetailsCommitment,
    pub after_block_num: BlockNumber,
    pub tag: NoteTag,
}

/// A note that is imported with a proof.
#[derive(Clone, Copy, Debug, PartialEq, Eq, Structural)]
pub struct ProofRequest {
    pub previous: Option<InputNoteRecord>,
    pub note: ImportedNote,
    pub proof_block: BlockNumber,
}

/// The notes to be imported, together with what is stored of them.
#[derive(Debug)]
pub struct ImportRequests {
    pub by_id: Vec<(NoteId, Option<InputNoteRecord>)>,
    pub by_details: Vec<DetailsRequest>,
    pub by_proof: Vec<ProofRequest>,
}

/// What the map holds under the key.
pub open spec fn lookup<K, V>(map: Map<K, V>, key: K) -> Option<V> {
    if map.contains_key(key) {
        Some(map[key])
    } else {
        None
    }
}

/// Why the ids cannot be imported, one by one.
pub open spec fn id_problems(
    ids: Seq<(NoteId, ())>,
    previous: Map<NoteId, InputNoteRecord>,
) -> Seq<Option<NoteImportError>> {
    ids.map_values(|entry: (NoteId, ())| processing_problem(lookup(previous, entry.0)))
}

/// Why the files cannot be imported, one by one.
pub open spec fn file_problems(
    files: Seq<(NoteDetailsCommitment, NoteFile)>,
    previous: Map<NoteDetailsCommitment, InputNoteRecord>,
) -> Seq<Option<NoteImportError>> {
    files.map_values(
        |entry: (NoteDetailsCommitment, NoteFile)| processing_problem(lookup(previous, entry.0)),
    )
}

/// The ids with what is stored of them.
pub open spec fn id_requests(
    ids: Seq<(NoteId, ())>,
    previous: Map<NoteId, InputNoteRecord>,
) -> Seq<(NoteId, Option<InputNoteRecord>)> {
    ids.map_values(|entry: (NoteId, ())| (entry.0, lookup(previous, entry.0)))
}

/// The request that an expected note makes.
pub open spec fn details_request_of(
    entry: (NoteDetailsCommitment, NoteFile),
    previous: Map<NoteDetailsCommitment, InputNoteRecord>,
) -> Option<DetailsRequest> {
    match entry.1 {
        NoteFile::ExpectedNote { details_commitment, after_block_num, tag } => Some(
            DetailsRequest {
                previous: lookup(previous, entry.0),
                details_commitment,
                after_block_num,
                tag,
            },
        ),
        _ => None,
    }
}

/// The request that a committed note makes.
pub open spec fn proof_request_of(
    entry: (NoteDetailsCommitment, NoteFile),
    previous: Map<NoteDetailsCommitment, InputNoteRecord>,
) -> Option<ProofRequest> {
    match entry.1 {
        NoteFile::Committed { note, proof_block } => Some(
            ProofRequest { previous: lookup(previous, entry.0), note, proof_block },
        ),
        _ => None,
    }
}

/// Puts the notes to be imported together with what is stored of them. Nothing is imported if a
/// transaction of the client is consuming one of them.
pub fn import_requests(
    plan: &ImportPlan,
    previous_by_id: &OrdMap<NoteId, InputNoteRecord>,
    previous_by_commitment: &OrdMap<NoteDetailsCommitment, InputNoteRecord>,
) -> (requests: Result<ImportRequests, NoteImportError>)
    requires
        plan.wf(),
    ensures
        ({
            let ids = plan.ids.listing();
            let files = plan.files_by_commitment.listing();
            let by_id = first_some(id_problems(ids, previous_by_id@));
            let by_file = first_some(file_problems(files, previous_by_commitment@));
            match (by_id, by_file) {
                (Some(error), _) => requests == Err::<ImportRequests, _>(error),
                (None, Some(error)) => requests == Err::<ImportRequests, _>(error),
                (None, None) => {
                    &&& requests is Ok
                    &&& requests->Ok_0.by_id@ == id_requests(ids, previous_by_id@)
                    &&& requests->Ok_0.by_details@ == present(
                        files.map_values(
                            |entry: (NoteDetailsCommitment, NoteFile)|
                                details_request_of(entry, previous_by_commitment@),
                        ),
                    )
                    &&& requests->Ok_0.by_proof@ == present(
                        files.map_values(
                            |entry: (NoteDetailsCommitment, NoteFile)|
                                proof_request_of(entry, previous_by_commitment@),
                        ),
                    )
                },
            }
        }),
{
    let ghost ids = plan.ids.listing();
    let ghost problems = id_problems(ids, previous_by_id@);
    let mut by_id: Vec<(NoteId, Option<InputNoteRecord>)> = Vec::new();
    let mut i: usize = 0;
    while i < plan.ids.len()
        invariant
            i <= plan.ids.listing().len(),
            ids == plan.ids.listing(),
            problems == id_problems(ids, previous_by_id@),
            first_some(problems.take(i as int)) is None,
            by_id@.len() == i,
            forall|k: int|
                0 <= k < i ==> #[trigger] by_id@[k] == (ids[k].0, lookup(previous_by_id@, ids[k].0)),
        decreases plan.ids.listing().len() - i,
    {
        let id = plan.ids.entries()[i].0;
        let previous = previous_by_id.get(&id);
        assert(problems[i as int] == processing_problem(lookup(previous_by_id@, id)));
        if let Err(error) = ensure_not_processing(previous) {
            proof {
                lemma_first_some_at(problems, i as int);
            }
            return Err(error);
        }
        proof {
            lemma_first_some_step(problems, i as int);
        }
        let previous = match previous {
            Some(note) => Some(*note),
            None => None,
        };
        by_id.push((id, previous));
        i += 1;
    }
    proof {
        assert(problems.take(i as int) =~= problems);
        assert(by_id@ =~= id_requests(ids, previous_by_id@));
    }

    let ghost files = plan.files_by_commitment.listing();
    let ghost problems = file_problems(files, previous_by_commitment@);
    let ghost details = files.map_values(
        |entry: (NoteDetailsCommitment, NoteFile)|
            details_request_of(entry, previous_by_commitment@),
    );
    let ghost proofs = files.map_values(
        |entry: (NoteDetailsCommitment, NoteFile)| proof_request_of(entry, previous_by_commitment@),
    );
    let mut by_details: Vec<DetailsRequest> = Vec::new();
    let mut by_proof: Vec<ProofRequest> = Vec::new();
    let mut i: usize = 0;
    while i < plan.files_by_commitment.len()
        invariant
            i <= plan.files_by_commitment.listing().len(),
            first_some(id_problems(plan.ids.listing(), previous_by_id@)) is None,
            files == plan.files_by_commitment.listing(),
            problems == file_problems(files, previous_by_commitment@),
            details == files.map_values(
                |entry: (NoteDetailsCommitment, NoteFile)|
                    details_request_of(entry, previous_by_commitment@),
            ),
            proofs == files.map_values(
                |entry: (NoteDetailsCommitment, NoteFile)|
                    proof_request_of(entry, previous_by_commitment@),
            ),
            first_some(problems.take(i as int)) is None,
            by_details@ == present(details.take(i as int)),
            by_proof@ == present(proofs.take(i as int)),
        decreases plan.files_by_commitment.listing().len() - i,
    {
        let (commitment, file) = plan.files_by_commitment.entries()[i];
        proof {
            assert(problems[i as int] == processing_problem(
                lookup(previous_by_commitment@, commitment),
            ));
            assert(details.take(i + 1).drop_last() =~= details.take(i as int));
            assert(details.take(i + 1).last() == details[i as int]);
            assert(proofs.take(i + 1).drop_last() =~= proofs.take(i as int));
            assert(proofs.take(i + 1).last() == proofs[i as int]);
        }
        let previous = previous_by_commitment.get(&commitment);
        if let Err(error) = ensure_not_processing(previous) {
            proof {
                lemma_first_some_at(problems, i as int);
            }
            return Err(error);
        }
        proof {
            lemma_first_some_step(problems, i as int);
        }
        let previous = match previous {
            Some(note) => Some(*note),
            None => None,
        };
        match file {
            NoteFile::ExpectedNote { details_commitment, after_block_num, tag } => {
                by_details.push(
                    DetailsRequest { previous, details_commitment, after_block_num, tag },
                );
            },
            NoteFile::Committed { note, proof_block } => {
                by_proof.push(ProofRequest { previous, note, proof_block });
            },
            NoteFile::ById(_) => {},
        }
        i += 1;
    }
    proof {
        assert(problems.take(i as int) =~= problems);
        assert(details.take(i as int) =~= details);
        assert(proofs.take(i as int) =~= proofs);
    }
    Ok(ImportRequests { by_id, by_details, by_proof })
}

/// Where the notes can be imported, none of them is one that is being consumed, whichever way it
/// was given.
pub proof fn law_no_processing_note_is_imported(
    ids: Seq<(NoteId, ())>,
    files: Seq<(NoteDetailsCommitment, NoteFile)>,
    previous_by_id: Map<NoteId, InputNoteRecord>,
    previous_by_commitment: Map<NoteDetailsCommitment, InputNoteRecord>,
)
    requires
        first_some(id_problems(ids, previous_by_id)) is None,
        first_some(file_problems(files, previous_by_commitment)) is None,
    ensures
        forall|i: int|
            0 <= i < ids.len() ==> ((#[trigger] id_requests(ids, previous_by_id)[i]).1 matches Some(
                note,
            ) ==> !(note.state is Processing)),
        forall|i: int|
            0 <= i < files.len() ==> (#[trigger] details_request_of(
                files[i],
                previous_by_commitment,
            ) matches Some(request) ==> (request.previous matches Some(note) ==> !(
            note.state is Processing))),
        forall|i: int|
            0 <= i < files.len() ==> (#[trigger] proof_request_of(
                files[i],
                previous_by_commitment,
            ) matches Some(request) ==> (request.previous matches Some(note) ==> !(
            note.state is Processing))),
{
    let by_id = id_problems(ids, previous_by_id);
    let by_file = file_problems(files, previous_by_commitment);
    lemma_first_some_none(by_id);
    lemma_first_some_none(by_file);
    assert forall|i: int| 0 <= i < ids.len() implies (#[trigger] id_requests(
        ids,
        previous_by_id,
    )[i]).1 matches Some(note) ==> !(note.state is Processing) by {
        assert(by_id[i] is None);
    }
    assert forall|i: int| 0 <= i < files.len() implies processing_problem(
        lookup(previous_by_commitment, (#[trigger] files[i]).0),
    ) is None by {
        assert(by_file[i] is None);
    }
}

// NOTES BY ID
// ================================================================================================
/// What is done with a fetched note.
#[derive(Clone, Copy, Debug, PartialEq, Eq, Structural)]
pub enum FetchedNoteAction {
    /// The stored note is told of its inclusion proof.
    UpdateStored(InputNoteRecord),
    /// The note is imported with its inclusion proof.
    ImportByProof,
}

/// The note with the id is among those that were fetched.
pub open spec fn is_fetched(fetched: Seq<FetchedNote>, note_id: NoteId) -> bool {
    exists|i: int| 0 <= i < fetched.len() && (#[trigger] fetched[i]).note_id() == note_id
}

/// Returns true if the note with the id is among those that were fetched.
fn contains_note(fetched: &Vec<FetchedNote>, note_id: &NoteId) -> (found: bool)
    ensures
        found == is_fetched(fetched@, *note_id),
{
    let mut i: usize = 0;
    while i < fetched.len()
        invariant
            i <= fetched.len(),
            forall|k: int| 0 <= k < i ==> (#[trigger] fetched@[k]).note_id() != *note_id,
        decreases fetched.len() - i,
    {
        if fetched[i].id() == *note_id {
            assert(fetched@[i as int].note_id() == *note_id);
            return true;
        }
        i += 1;
    }
    false
}

/// Refuses an answer without notes, and one that lacks a note that was asked for. The note with the
/// lowest id among those that are missing is named.
pub fn ensure_fetched(
    requests: &OrdMap<NoteId, Option<InputNoteRecord>>,
    fetched: &Vec<FetchedNote>,
) -> (checked: Result<(), NoteImportError>)
    ensures
        match checked {
            Ok(_) => {
                &&& fetched@.len() > 0
                &&& forall|note_id: NoteId| #[trigger]
                    requests@.contains_key(note_id) ==> is_fetched(fetched@, note_id)
            },
            Err(NoteImportError::NothingFetched) => fetched@.len() == 0,
            Err(NoteImportError::NotFoundOnChain { note_id }) => {
                &&& fetched@.len() > 0
                &&& requests@.contains_key(note_id)
                &&& !is_fetched(fetched@, note_id)
                &&& forall|lower: NoteId| #[trigger]
                    requests@.contains_key(lower) && lower.rank() < note_id.rank() ==> is_fetched(
                        fetched@,
                        lower,
                    )
            },
            Err(_) => false,
        },
{
    if fetched.len() == 0 {
        return Err(NoteImportError::NothingFetched);
    }
    let mut i: usize = 0;
    while i < requests.len()
        invariant
            i <= requests.listing().len(),
            fetched@.len() > 0,
            forall|k: int|
                0 <= k < i ==> is_fetched(fetched@, (#[trigger] requests.listing()[k]).0),
        decreases requests.listing().len() - i,
    {
        let note_id = requests.entries()[i].0;
        if !contains_note(fetched, &note_id) {
            proof {
                lemma_entry_of(requests.listing(), i as int);
                assert forall|lower: NoteId| #[trigger]
                    requests@.contains_key(lower) && lower.rank()
                        < note_id.rank() implies is_fetched(fetched@, lower) by {
                    let k = choose|k: int|
                        0 <= k < requests.listing().len() && (#[trigger] requests.listing()[k]).0
                            == lower;
                    if i < k {
                        assert(requests.listing()[i as int].0.rank() < requests.listing()[k].0.rank());
                    }
                }
            }
            return Err(NoteImportError::NotFoundOnChain { note_id });
        }
        i += 1;
    }
    proof {
        assert forall|note_id: NoteId| #[trigger]
            requests@.contains_key(note_id) implies is_fetched(fetched@, note_id) by {
            let k = choose|k: int|
                0 <= k < requests.listing().len() && (#[trigger] requests.listing()[k]).0 == note_id;
            assert(is_fetched(fetched@, requests.listing()[k].0));
        }
    }
    Ok(())
}

/// Decides about a note that was fetched by its id. It has to be one that was asked for, and a
/// private note can be imported only if its details are stored.
pub fn decide_fetched_note(
    requests: &OrdMap<NoteId, Option<InputNoteRecord>>,
    fetched: &FetchedNote,
) -> (action: Result<FetchedNoteAction, NoteImportError>)
    ensures
        action == match lookup(requests@, fetched.note_id()) {
            None => Err::<FetchedNoteAction, _>(
                NoteImportError::NotRequested { note_id: fetched.note_id() },
            ),
            Some(Some(stored)) => Ok::<_, NoteImportError>(FetchedNoteAction::UpdateStored(stored)),
            Some(None) => match *fetched {
                FetchedNote::Public { .. } => Ok::<_, NoteImportError>(
                    FetchedNoteAction::ImportByProof,
                ),
                FetchedNote::Private { note_id, .. } => Err::<FetchedNoteAction, _>(
                    NoteImportError::NoteIsPrivate { note_id },
                ),
            },
        },
{
    let note_id = fetched.id();
    match requests.get(&note_id) {
        None => Err(NoteImportError::NotRequested { note_id }),
        Some(Some(stored)) => Ok(FetchedNoteAction::UpdateStored(*stored)),
        Some(None) => match fetched {
            FetchedNote::Public { .. } => Ok(FetchedNoteAction::ImportByProof),
            FetchedNote::Private { .. } => Err(NoteImportError::NoteIsPrivate { note_id }),
        },
    }
}

// NOTES WITH A PROOF
// ================================================================================================
/// The nullifier to be looked up for a note: that of the stored record if there is one, and that of
/// the note otherwise.
pub open spec fn nullifier_of(request: ProofRequest) -> Option<Nullifier> {
    match request.previous {
        Some(previous) => previous.nullifier,
        None => Some(request.note.nullifier),
    }
}

/// The lowest of the blocks, or the largest block number if there are none.
pub open spec fn lowest_block(blocks: Seq<BlockNumber>) -> BlockNumber
    decreases blocks.len(),
{
    if blocks.len() == 0 {
        u32::MAX
    } else {
        let rest = lowest_block(blocks.drop_last());
        if blocks.last() < rest {
            blocks.last()
        } else {
            rest
        }
    }
}

/// The values that occur among the options.
pub open spec fn occurring<T>(options: Seq<Option<T>>) -> Set<T> {
    Set::new(|value: T| options.contains(Some(value)))
}

/// One more option adds its value to those that occur.
proof fn lemma_occurring_next<T>(options: Seq<Option<T>>, i: int)
    requires
        0 <= i < options.len(),
    ensures
        occurring(options.take(i + 1)) == match options[i] {
            Some(value) => occurring(options.take(i)).insert(value),
            None => occurring(options.take(i)),
        },
{
    let shorter = options.take(i);
    let longer = options.take(i + 1);
    assert(longer =~= shorter.push(options[i]));
    assert forall|value: T|
        longer.contains(Some(value)) <==> shorter.contains(Some(value)) || options[i] == Some(
            value,
        ) by {
        if shorter.contains(Some(value)) {
            let k = choose|k: int| 0 <= k < i && shorter[k] == Some(value);
            assert(longer[k] == Some(value));
        }
        assert(longer[i] == options[i]);
    }
    match options[i] {
        Some(value) => {
            assert(occurring(longer) =~= occurring(shorter).insert(value));
        },
        None => {
            assert(occurring(longer) =~= occurring(shorter));
        },
    }
}

/// Returns the nullifiers to be looked up, and the lowest block in which one of them can have been
/// recorded.
pub fn proof_nullifier_request(requests: &Vec<ProofRequest>) -> (made: (
    OrdMap<Nullifier, ()>,
    BlockNumber,
))
    ensures
        made.0@.dom() == occurring(
            requests@.map_values(|request: ProofRequest| nullifier_of(request)),
        ),
        made.1 == lowest_block(
            requests@.map_values(|request: ProofRequest| request.proof_block),
        ),
{
    let ghost all = requests@.map_values(|request: ProofRequest| nullifier_of(request));
    let ghost blocks = requests@.map_values(|request: ProofRequest| request.proof_block);
    let mut nullifiers: OrdMap<Nullifier, ()> = OrdMap::new();
    let mut lowest: BlockNumber = u32::MAX;
    let mut i: usize = 0;
    assert(nullifiers@.dom() =~= occurring(all.take(0)));
    while i < requests.len()
        invariant
            i <= requests.len(),
            all == requests@.map_values(|request: ProofRequest| nullifier_of(request)),
            blocks == requests@.map_values(|request: ProofRequest| request.proof_block),
            nullifiers@.dom() == occurring(all.take(i as int)),
            lowest == lowest_block(blocks.take(i as int)),
        decreases requests.len() - i,
    {
        let request = requests[i];
        proof {
            lemma_occurring_next(all, i as int);
            assert(blocks.take(i + 1).drop_last() =~= blocks.take(i as int));
            assert(blocks.take(i + 1).last() == request.proof_block);
        }
        let ghost before = nullifiers@.dom();
        let nullifier = match request.previous {
            Some(previous) => previous.nullifier,
            None => Some(request.note.nullifier),
        };
        if let Some(nullifier) = nullifier {
            nullifiers.insert(nullifier, ());
            assert(nullifiers@.dom() =~= before.insert(nullifier));
        }
        if request.proof_block < lowest {
            lowest = request.proof_block;
        }
        i += 1;
    }
    proof {
        assert(all.take(i as int) =~= all);
        assert(blocks.take(i as int) =~= blocks);
    }
    (nullifiers, lowest)
}

/// The record a note starts with: the stored one, or a new one that expects the note.
pub open spec fn starting_record(request: ProofRequest) -> InputNoteRecord {
    match request.previous {
        Some(previous) => previous,
        None => InputNoteRecord {
            details_commitment: request.note.details_commitment,
            note_id: Some(request.note.note_id),
            nullifier: Some(request.note.nullifier),
            inclusion_block: None,
            state: InputNoteState::Expected {
                after_block_num: request.proof_block,
                tag: Some(request.note.metadata.tag),
            },
        },
    }
}

/// What is done with a note that comes with a proof.
#[derive(Clone, Copy, Debug, PartialEq, Eq, Structural)]
pub enum ProofAction {
    /// The note was consumed in a block.
    MarkConsumed { nullifier: Nullifier, block_height: BlockNumber },
    /// The note was created in a block the client knows of: the record gets the proof, and the header
    /// of the block is fetched and authenticated to check it.
    VerifyAt(BlockNumber),
    /// The note was created in a block that is still to come: the record gets the proof, and the tag
    /// is tracked, so that the note is checked by a later sync.
    TrackTag { tag: NoteTag, details_commitment: NoteDetailsCommitment },
}

/// The block in which the nullifier of the record was recorded.
pub open spec fn consumed_at(
    record: InputNoteRecord,
    heights: Map<Nullifier, Option<BlockNumber>>,
) -> Option<BlockNumber> {
    match record.nullifier {
        Some(nullifier) => match lookup(heights, nullifier) {
            Some(height) => height,
            None => None,
        },
        None => None,
    }
}

/// Decides about a note that comes with a proof. Returns the record it starts with, and what is done.
pub fn decide_by_proof(
    request: &ProofRequest,
    nullifier_commit_heights: &OrdMap<Nullifier, Option<BlockNumber>>,
    current_block_num: BlockNumber,
) -> (decision: (InputNoteRecord, ProofAction))
    ensures
        decision.0 == starting_record(*request),
        match consumed_at(decision.0, nullifier_commit_heights@) {
            Some(block_height) => decision.1 == (ProofAction::MarkConsumed {
                nullifier: decision.0.nullifier->0,
                block_height,
            }),
            None => if request.proof_block <= current_block_num {
                decision.1 == ProofAction::VerifyAt(request.proof_block)
            } else {
                decision.1 == (ProofAction::TrackTag {
                    tag: request.note.metadata.tag,
                    details_commitment: decision.0.details_commitment,
                })
            },
        },
{
    let record = match request.previous {
        Some(previous) => previous,
        None => InputNoteRecord {
            details_commitment: request.note.details_commitment,
            note_id: Some(request.note.note_id),
            nullifier: Some(request.note.nullifier),
            inclusion_block: None,
            state: InputNoteState::Expected {
                after_block_num: request.proof_block,
                tag: Some(request.note.metadata.tag),
            },
        },
    };
    if let Some(nullifier) = record.nullifier {
        if let Some(Some(block_height)) = nullifier_commit_heights.get(&nullifier) {
            return (record, ProofAction::MarkConsumed { nullifier, block_height: *block_height });
        }
    }
    if request.proof_block <= current_block_num {
        (record, ProofAction::VerifyAt(request.proof_block))
    } else {
        (
            record,
            ProofAction::TrackTag {
                tag: request.note.metadata.tag,
                details_commitment: record.details_commitment,
            },
        )
    }
}

// NOTES BY DETAILS
// ================================================================================================
/// Returns the tags to be looked under, and the lowest block after which one of the notes is
/// expected.
pub fn expected_notes_request(requests: &Vec<DetailsRequest>) -> (made: (
    OrdMap<NoteTag, ()>,
    BlockNumber,
))
    ensures
        made.0@.dom() == requests@.map_values(|request: DetailsRequest| request.tag).to_set(),
        made.1 == lowest_block(
            requests@.map_values(|request: DetailsRequest| request.after_block_num),
        ),
{
    let ghost tags = requests@.map_values(|request: DetailsRequest| request.tag);
    let ghost blocks = requests@.map_values(|request: DetailsRequest| request.after_block_num);
    let mut sync_tags: OrdMap<NoteTag, ()> = OrdMap::new();
    let mut lowest: BlockNumber = u32::MAX;
    let mut i: usize = 0;
    assert(sync_tags@.dom() =~= tags.take(0).to_set());
    while i < requests.len()
        invariant
            i <= requests.len(),
            tags == requests@.map_values(|request: DetailsRequest| request.tag),
            blocks == requests@.map_values(|request: DetailsRequest| request.after_block_num),
            sync_tags@.dom() == tags.take(i as int).to_set(),
            lowest == lowest_block(blocks.take(i as int)),
        decreases requests.len() - i,
    {
        let request = requests[i];
        let ghost before = sync_tags@.dom();
        sync_tags.insert(request.tag, ());
        proof {
            let shorter = tags.take(i as int);
            let longer = tags.take(i + 1);
            assert(longer =~= shorter.push(request.tag));
            assert forall|tag: NoteTag|
                longer.to_set().contains(tag) <==> shorter.to_set().contains(tag) || tag
                    == request.tag by {
                if shorter.contains(tag) {
                    let k = choose|k: int| 0 <= k < i && shorter[k] == tag;
                    assert(longer[k] == tag);
                }
                assert(longer[i as int] == request.tag);
            }
            assert(sync_tags@.dom() =~= longer.to_set());
            assert(blocks.take(i + 1).drop_last() =~= blocks.take(i as int));
            assert(blocks.take(i + 1).last() == request.after_block_num);
        }
        if request.after_block_num < lowest {
            lowest = request.after_block_num;
        }
        i += 1;
    }
    proof {
        assert(tags.take(i as int) =~= tags);
        assert(blocks.take(i as int) =~= blocks);
    }
    (sync_tags, lowest)
}

/// Returns the range of blocks to be looked at. There is none if the notes are expected only after
/// the blocks the client knows of.
pub fn expected_notes_range(request_block_num: BlockNumber, current_block_num: BlockNumber) -> (range:
    Option<BlockRange>)
    ensures
        range == if request_block_num > current_block_num {
            None
        } else {
            Some(BlockRange { block_from: request_block_num, block_to: current_block_num })
        },
{
    if request_block_num > current_block_num {
        return None;
    }
    Some(BlockRange { block_from: request_block_num, block_to: current_block_num })
}

/// The note has the details.
pub open spec fn has_details(note: CommittedNote, commitment: NoteDetailsCommitment) -> bool {
    note_id_of(commitment, note.metadata) == Some(note.note_id)
}

/// The note is one of those that are expected, and its proof is for a block the client knows of.
pub open spec fn is_expected(
    note: CommittedNote,
    expected: Seq<NoteDetailsCommitment>,
    current_block_num: BlockNumber,
) -> bool {
    &&& note.inclusion_proof.block_num <= current_block_num
    &&& exists|k: int| 0 <= k < expected.len() && has_details(note, #[trigger] expected[k])
}

/// The block holds a note that is expected.
pub open spec fn holds_expected(
    block: SyncNotesBlock,
    expected: Seq<NoteDetailsCommitment>,
    current_block_num: BlockNumber,
) -> bool {
    exists|i: int|
        0 <= i < block.notes.listing().len() && is_expected(
            (#[trigger] block.notes.listing()[i]).1,
            expected,
            current_block_num,
        )
}

/// The blocks before the first one the client does not know of.
pub open spec fn known_blocks(
    blocks: Seq<SyncNotesBlock>,
    current_block_num: BlockNumber,
) -> Seq<SyncNotesBlock>
    decreases blocks.len(),
{
    if blocks.len() == 0 || blocks[0].block_header.block_num > current_block_num {
        Seq::empty()
    } else {
        seq![blocks[0]] + known_blocks(blocks.skip(1), current_block_num)
    }
}

/// The blocks that hold a note that is expected.
pub open spec fn matching_blocks(
    blocks: Seq<SyncNotesBlock>,
    expected: Seq<NoteDetailsCommitment>,
    current_block_num: BlockNumber,
) -> Seq<SyncNotesBlock> {
    known_blocks(blocks, current_block_num).filter(
        |block: SyncNotesBlock| holds_expected(block, expected, current_block_num),
    )
}

/// Returns true if the note has one of the details.
fn has_expected_details(note: &CommittedNote, expected: &Vec<NoteDetailsCommitment>) -> (found: bool)
    ensures
        found == exists|k: int|
            0 <= k < expected@.len() && has_details(*note, #[trigger] expected@[k]),
{
    let mut k: usize = 0;
    while k < expected.len()
        invariant
            k <= expected.len(),
            forall|j: int| 0 <= j < k ==> !has_details(*note, #[trigger] expected@[j]),
        decreases expected.len() - k,
    {
        if let Some(id) = note_id(expected[k], &note.metadata) {
            if id == note.note_id {
                assert(has_details(*note, expected@[k as int]));
                return true;
            }
        }
        k += 1;
    }
    false
}

/// Returns true if the block holds a note that is expected.
fn has_expected_note(
    block: &SyncNotesBlock,
    expected: &Vec<NoteDetailsCommitment>,
    current_block_num: BlockNumber,
) -> (found: bool)
    ensures
        found == holds_expected(*block, expected@, current_block_num),
{
    let mut i: usize = 0;
    while i < block.notes.len()
        invariant
            i <= block.notes.listing().len(),
            forall|j: int|
                0 <= j < i ==> !is_expected(
                    (#[trigger] block.notes.listing()[j]).1,
                    expected@,
                    current_block_num,
                ),
        decreases block.notes.listing().len() - i,
    {
        let note = &block.notes.entries()[i].1;
        if note.inclusion_proof.block_num <= current_block_num && has_expected_details(
            note,
            expected,
        ) {
            assert(is_expected(block.notes.listing()[i as int].1, expected@, current_block_num));
            return true;
        }
        i += 1;
    }
    false
}

/// Returns the blocks that hold a note that is expected. Blocks and notes beyond what the client
/// knows of are dropped, whatever the node says of them.
pub fn matched_blocks(
    blocks: Vec<SyncNotesBlock>,
    expected: &Vec<NoteDetailsCommitment>,
    current_block_num: BlockNumber,
) -> (matched: Vec<SyncNotesBlock>)
    ensures
        matched@ == matching_blocks(blocks@, expected@, current_block_num),
{
    let ghost all = blocks@;
    let ghost pred = |block: SyncNotesBlock| holds_expected(block, expected@, current_block_num);
    let ghost mut n: int = 0;
    let mut open = true;
    let mut matched: Vec<SyncNotesBlock> = Vec::new();
    assert(all.skip(0) =~= all);
    assert(Seq::<SyncNotesBlock>::empty() + known_blocks(all, current_block_num) =~= known_blocks(
        all,
        current_block_num,
    ));
    let ghost mut seen: Seq<SyncNotesBlock> = Seq::empty();
    reveal(Seq::filter);
    for block in iter: blocks
        invariant
            iter.seq() == all,
            n == iter.index(),
            pred == (|block: SyncNotesBlock| holds_expected(block, expected@, current_block_num)),
            open ==> seen + known_blocks(all.skip(n), current_block_num) == known_blocks(
                all,
                current_block_num,
            ),
            !open ==> seen == known_blocks(all, current_block_num),
            matched@ == seen.filter(pred),
    {
        proof {
            assert(all.skip(n)[0] == block);
            assert(all.skip(n).skip(1) =~= all.skip(n + 1));
            n = n + 1;
        }
        if open {
            if block.block_header.block_num > current_block_num {
                open = false;
                assert(seen + Seq::<SyncNotesBlock>::empty() =~= seen);
            } else {
                proof {
                    let rest = known_blocks(all.skip(n), current_block_num);
                    assert(seen + (seq![block] + rest) =~= seen.push(block) + rest);
                    assert(seen.push(block).drop_last() =~= seen);
                    reveal(Seq::filter);
                    seen = seen.push(block);
                }
                if has_expected_note(&block, expected, current_block_num) {
                    matched.push(block);
                }
            }
        }
    }
    proof {
        if open {
            assert(all.skip(n) =~= Seq::<SyncNotesBlock>::empty());
            assert(seen + Seq::<SyncNotesBlock>::empty() =~= seen);
        }
    }
    matched
}

/// Where a note with the details is: the position of its block, and its position in the block.
pub open spec fn is_first_with_details(
    blocks: Seq<SyncNotesBlock>,
    commitment: NoteDetailsCommitment,
    b: int,
    n: int,
) -> bool {
    &&& 0 <= b < blocks.len()
    &&& 0 <= n < blocks[b].notes.listing().len()
    &&& has_details(blocks[b].notes.listing()[n].1, commitment)
    &&& forall|k: int| 0 <= k < n ==> !has_details((#[trigger] blocks[b].notes.listing()[k]).1, commitment)
    &&& forall|c: int| 0 <= c < b ==> !block_has_details(#[trigger] blocks[c], commitment)
}

/// The block holds a note with the details.
pub open spec fn block_has_details(
    block: SyncNotesBlock,
    commitment: NoteDetailsCommitment,
) -> bool {
    exists|n: int|
        0 <= n < block.notes.listing().len() && has_details(
            (#[trigger] block.notes.listing()[n]).1,
            commitment,
        )
}

/// Returns where the first note with the details is. If there is none, the note was not created yet,
/// and its record stays as it is.
pub fn find_committed_note(
    blocks: &Vec<SyncNotesBlock>,
    commitment: NoteDetailsCommitment,
) -> (found: Option<(usize, usize)>)
    ensures
        match found {
            Some((b, n)) => is_first_with_details(blocks@, commitment, b as int, n as int),
            None => forall|b: int|
                0 <= b < blocks@.len() ==> !block_has_details(#[trigger] blocks@[b], commitment),
        },
{
    let mut b: usize = 0;
    while b < blocks.len()
        invariant
            b <= blocks.len(),
            forall|c: int| 0 <= c < b ==> !block_has_details(#[trigger] blocks@[c], commitment),
        decreases blocks.len() - b,
    {
        let block = &blocks[b];
        let mut n: usize = 0;
        while n < block.notes.len()
            invariant
                b < blocks.len(),
                *block == blocks@[b as int],
                n <= block.notes.listing().len(),
                forall|c: int| 0 <= c < b ==> !block_has_details(#[trigger] blocks@[c], commitment),
                forall|k: int|
                    0 <= k < n ==> !has_details(
                        (#[trigger] block.notes.listing()[k]).1,
                        commitment,
                    ),
            decreases block.notes.listing().len() - n,
        {
            let note = &block.notes.entries()[n].1;
            if let Some(id) = note_id(commitment, &note.metadata) {
                if id == note.note_id {
                    assert(is_first_with_details(blocks@, commitment, b as int, n as int));
                    return Some((b, n));
                }
            }
            n += 1;
        }
        b += 1;
    }
    None
}

/// Returns the record a note starts with: the stored one, or a new one that expects the note.
pub fn expected_record(request: &DetailsRequest) -> (record: InputNoteRecord)
    ensures
        record == match request.previous {
            Some(previous) => previous,
            None => InputNoteRecord {
                details_commitment: request.details_commitment,
                note_id: None,
                nullifier: None,
                inclusion_block: None,
                state: InputNoteState::Expected {
                    after_block_num: request.after_block_num,
                    tag: Some(request.tag),
                },
            },
        },
{
    match request.previous {
        Some(previous) => previous,
        None => InputNoteRecord {
            details_commitment: request.details_commitment,
            note_id: None,
            nullifier: None,
            inclusion_block: None,
            state: InputNoteState::Expected {
                after_block_num: request.after_block_num,
                tag: Some(request.tag),
            },
        },
    }
}

// CONSUMED NOTES
// ================================================================================================
/// The nullifier to be looked up for a record. A note that was not created has no inclusion proof, and
/// cannot have been consumed.
pub open spec fn committed_nullifier(record: InputNoteRecord) -> Option<Nullifier> {
    match (record.nullifier, record.inclusion_block) {
        (Some(nullifier), Some(_)) => Some(nullifier),
        _ => None,
    }
}

/// The blocks of the records whose nullifiers are looked up.
pub open spec fn committed_blocks(records: Seq<InputNoteRecord>) -> Seq<BlockNumber> {
    present(
        records.map_values(
            |record: InputNoteRecord|
                if record.nullifier is Some {
                    record.inclusion_block
                } else {
                    None
                },
        ),
    )
}

/// Returns the nullifiers to be looked up, and the lowest block in which one of them can have been
/// recorded; nothing if there are none.
pub fn consumption_request(records: &Vec<InputNoteRecord>) -> (made: Option<
    (OrdMap<Nullifier, ()>, BlockNumber),
>)
    ensures
        ({
            let nullifiers = occurring(
                records@.map_values(|record: InputNoteRecord| committed_nullifier(record)),
            );
            match made {
                Some((found, lowest)) => {
                    &&& found@.dom() == nullifiers
                    &&& found.listing().len() > 0
                    &&& lowest == lowest_block(committed_blocks(records@))
                },
                None => nullifiers == Set::<Nullifier>::empty(),
            }
        }),
{
    let ghost all = records@.map_values(|record: InputNoteRecord| committed_nullifier(record));
    let ghost blocks = records@.map_values(
        |record: InputNoteRecord|
            if record.nullifier is Some {
                record.inclusion_block
            } else {
                None
            },
    );
    let mut nullifiers: OrdMap<Nullifier, ()> = OrdMap::new();
    let mut lowest: BlockNumber = u32::MAX;
    let mut i: usize = 0;
    assert(nullifiers@.dom() =~= occurring(all.take(0)));
    while i < records.len()
        invariant
            i <= records.len(),
            all == records@.map_values(|record: InputNoteRecord| committed_nullifier(record)),
            blocks == records@.map_values(
                |record: InputNoteRecord|
                    if record.nullifier is Some {
                        record.inclusion_block
                    } else {
                        None
                    },
            ),
            nullifiers@.dom() == occurring(all.take(i as int)),
            lowest == lowest_block(present(blocks.take(i as int))),
        decreases records.len() - i,
    {
        let record = records[i];
        proof {
            lemma_occurring_next(all, i as int);
            assert(blocks.take(i + 1).drop_last() =~= blocks.take(i as int));
            assert(blocks.take(i + 1).last() == blocks[i as int]);
        }
        let ghost before = nullifiers@.dom();
        let ghost earlier = present(blocks.take(i as int));
        if let Some(nullifier) = record.nullifier {
            if let Some(block_num) = record.inclusion_block {
                nullifiers.insert(nullifier, ());
                proof {
                    assert(nullifiers@.dom() =~= before.insert(nullifier));
                    assert(earlier.push(block_num).drop_last() =~= earlier);
                }
                if block_num < lowest {
                    lowest = block_num;
                }
            }
        }
        i += 1;
    }
    proof {
        assert(all.take(i as int) =~= all);
        assert(blocks.take(i as int) =~= blocks);
    }
    if nullifiers.len() == 0 {
        assert(nullifiers@.dom() =~= Set::<Nullifier>::empty());
        return None;
    }
    Some((nullifiers, lowest))
}

/// Returns the nullifier of the note and the block it was recorded in, if that is a block the client
/// knows of.
pub fn externally_consumed(
    record: &InputNoteRecord,
    spent_heights: &OrdMap<Nullifier, Option<BlockNumber>>,
    sync_height: BlockNumber,
) -> (consumed: Option<(Nullifier, BlockNumber)>)
    ensures
        consumed == match consumed_at(*record, spent_heights@) {
            Some(spent_at) => if spent_at <= sync_height {
                Some((record.nullifier->0, spent_at))
            } else {
                None
            },
            None => None,
        },
{
    if let Some(nullifier) = record.nullifier {
        if let Some(Some(spent_at)) = spent_heights.get(&nullifier) {
            if *spent_at <= sync_height {
                return Some((nullifier, *spent_at));
            }
        }
    }
    None
}

// RESULT
// ================================================================================================
/// Which steps of an import changed a record. A step that was not taken changed nothing.
#[derive(Clone, Copy, Debug, PartialEq, Eq, Structural)]
pub struct RecordChanges {
    /// The note was marked as consumed.
    pub consumed: bool,
    /// The inclusion proof of the note was received.
    pub inclusion_proof: bool,
    /// The attachments of the note were received.
    pub attachments: bool,
    /// The header of the block of the note was received.
    pub block_header: bool,
}

impl RecordChanges {
    /// Some step changed the record.
    pub open spec fn spec_is_changed(self) -> bool {
        self.consumed || self.inclusion_proof || self.attachments || self.block_header
    }

    /// Returns the changes of an import that has taken no step yet.
    pub fn none() -> (changes: Self)
        ensures
            !changes.spec_is_changed(),
    {
        RecordChanges {
            consumed: false,
            inclusion_proof: false,
            attachments: false,
            block_header: false,
        }
    }

    /// Returns true if some step changed the record. The tag by which a committed note was expected is
    /// then no longer needed.
    pub fn is_changed(&self) -> (changed: bool)
        ensures
            changed == self.spec_is_changed(),
    {
        self.consumed || self.inclusion_proof || self.attachments || self.block_header
    }
}

/// Decides whether an import returns a record, so that it is stored: always if the note was not found on
/// the chain, and otherwise if some step changed the record.
pub fn is_record_returned(found: Option<RecordChanges>) -> (returned: bool)
    ensures
        returned == match found {
            Some(changes) => changes.spec_is_changed(),
            None => true,
        },
{
    match found {
        Some(changes) => changes.is_changed(),
        None => true,
    }
}

/// Returns the tag to be tracked for an imported note: that of a note that is still expected.
pub fn tag_to_track(record: &InputNoteRecord) -> (tag: Option<NoteTag>)
    ensures
        tag == match record.state {
            InputNoteState::Expected { tag, .. } => tag,
            _ => None,
        },
{
    match record.state {
        InputNoteState::Expected { tag, .. } => tag,
        _ => None,
    }
}

/// Returns the commitments to the details of the imported notes. Unlike the ids, they are always
/// there.
pub fn imported_commitments(records: &Vec<InputNoteRecord>) -> (commitments: Vec<
    NoteDetailsCommitment,
>)
    ensures
        commitments@ == records@.map_values(
            |record: InputNoteRecord| record.details_commitment,
        ),
{
    let mut commitments: Vec<NoteDetailsCommitment> = Vec::new();
    let mut i: usize = 0;
    while i < records.len()
        invariant
            i <= records.len(),
            commitments@.len() == i,
            forall|k: int|
                0 <= k < i ==> #[trigger] commitments@[k] == records@[k].details_commitment,
        decreases records.len() - i,
    {
        commitments.push(records[i].details_commitment);
        i += 1;
    }
    commitments
}

} // verus!
