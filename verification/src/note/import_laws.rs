//! What importing notes comes to, over all files, records and answers.
use vstd::prelude::*;

use crate::collections::{
    first_some, law_first_some, law_present, lemma_picks_filter, lemma_picks_same, picks, picks_at,
    present,
};
use crate::errors::NoteImportError;
use crate::note::import::{
    block_has_details, committed_blocks, committed_nullifier, consumed_at, details_request_of,
    file_problems, files_in, has_details, holds_expected, id_problems, id_requests, ids_in,
    is_expected, is_fetched, is_first_with_details, known_blocks, lookup, lowest_block,
    matching_blocks, nullifier_of, occurring, proof_request_of, starting_record, NoteFile,
    ProofRequest, RecordChanges,
};
use crate::rpc::domain::note::{note_id_of, CommittedNote, FetchedNote, SyncNotesBlock};
use crate::store::{InputNoteRecord, InputNoteState};
use crate::types::{BlockNumber, NoteDetailsCommitment, NoteId, Nullifier};

verus! {

// FILES
// ================================================================================================
/// Every id that is given is imported, wherever it stands among the files, and no other id is.
pub proof fn law_every_id_is_imported(files: Seq<NoteFile>, note_id: NoteId)
    ensures
        ids_in(files).contains(note_id) <==> exists|i: int|
            0 <= i < files.len() && #[trigger] files[i] == NoteFile::ById(note_id),
    decreases files.len(),
{
    if files.len() > 0 {
        let before = files.drop_last();
        let last = files.len() - 1;
        law_every_id_is_imported(before, note_id);
        assert forall|i: int| 0 <= i < last implies before[i] == files[i] by {}
        if ids_in(before).contains(note_id) {
            let i = choose|i: int|
                0 <= i < before.len() && #[trigger] before[i] == NoteFile::ById(note_id);
            assert(files[i] == NoteFile::ById(note_id));
        }
        if files.last() == NoteFile::ById(note_id) {
            assert(files[last] == NoteFile::ById(note_id));
        }
        if exists|i: int| 0 <= i < files.len() && #[trigger] files[i] == NoteFile::ById(note_id) {
            let i = choose|i: int|
                0 <= i < files.len() && #[trigger] files[i] == NoteFile::ById(note_id);
            if i < last {
                assert(before[i] == NoteFile::ById(note_id));
            }
        }
    }
}

/// The file gives the details of the note with the commitment.
pub open spec fn gives_details(file: NoteFile, commitment: NoteDetailsCommitment) -> bool {
    match file {
        NoteFile::ById(_) => false,
        NoteFile::ExpectedNote { details_commitment, .. } => details_commitment == commitment,
        NoteFile::Committed { note, .. } => note.details_commitment == commitment,
    }
}

/// Every note whose details are given is imported, from the last of the files that give them.
pub proof fn law_last_file_is_imported(
    files: Seq<NoteFile>,
    commitment: NoteDetailsCommitment,
    i: int,
)
    requires
        0 <= i < files.len(),
        gives_details(files[i], commitment),
        forall|j: int| i < j < files.len() ==> !gives_details(#[trigger] files[j], commitment),
    ensures
        files_in(files).contains_key(commitment),
        files_in(files)[commitment] == files[i],
    decreases files.len(),
{
    if i < files.len() - 1 {
        assert(!gives_details(files[files.len() - 1], commitment));
        law_last_file_is_imported(files.drop_last(), commitment, i);
    }
}

/// No other note is imported.
pub proof fn law_no_other_file_is_imported(
    files: Seq<NoteFile>,
    commitment: NoteDetailsCommitment,
)
    requires
        forall|i: int| 0 <= i < files.len() ==> !gives_details(#[trigger] files[i], commitment),
    ensures
        !files_in(files).contains_key(commitment),
    decreases files.len(),
{
    if files.len() > 0 {
        assert(!gives_details(files[files.len() - 1], commitment));
        law_no_other_file_is_imported(files.drop_last(), commitment);
    }
}

// REQUESTS
// ================================================================================================
/// Ids are refused if and only if one of them is of a note that is being consumed; the first such
/// note is named.
pub proof fn law_ids_being_consumed_are_refused(
    ids: Seq<(NoteId, ())>,
    previous: Map<NoteId, InputNoteRecord>,
)
    ensures
        first_some(id_problems(ids, previous)) is None <==> forall|i: int|
            0 <= i < ids.len() && previous.contains_key((#[trigger] ids[i]).0) ==> !(
            previous[ids[i].0].state is Processing),
        first_some(id_problems(ids, previous)) matches Some(error) ==> exists|i: int|
            {
                &&& 0 <= i < ids.len()
                &&& previous.contains_key((#[trigger] ids[i]).0)
                &&& previous[ids[i].0].state is Processing
                &&& error == NoteImportError::NoteIsProcessing {
                    details_commitment: previous[ids[i].0].details_commitment,
                }
                &&& forall|j: int|
                    0 <= j < i && previous.contains_key((#[trigger] ids[j]).0) ==> !(
                    previous[ids[j].0].state is Processing)
            },
{
    let problems = id_problems(ids, previous);
    law_first_some(problems);
    assert(problems.len() == ids.len());
    if first_some(problems) is Some {
        let i = choose|i: int|
            0 <= i < problems.len() && #[trigger] problems[i] == first_some(problems) && forall|
                j: int,
            |
                0 <= j < i ==> #[trigger] problems[j] is None;
        assert(previous.contains_key(ids[i].0) && previous[ids[i].0].state is Processing);
        assert forall|j: int| 0 <= j < i && previous.contains_key((#[trigger] ids[j]).0) implies !(
        previous[ids[j].0].state is Processing) by {
            assert(problems[j] is None);
        }
    } else {
        assert forall|i: int|
            0 <= i < ids.len() && previous.contains_key((#[trigger] ids[i]).0) implies !(
        previous[ids[i].0].state is Processing) by {
            assert(problems[i] is None);
        }
    }
}

/// Files are refused if and only if one of them is of a note that is being consumed; the first such
/// note is named.
pub proof fn law_files_being_consumed_are_refused(
    files: Seq<(NoteDetailsCommitment, NoteFile)>,
    previous: Map<NoteDetailsCommitment, InputNoteRecord>,
)
    ensures
        first_some(file_problems(files, previous)) is None <==> forall|i: int|
            0 <= i < files.len() && previous.contains_key((#[trigger] files[i]).0) ==> !(
            previous[files[i].0].state is Processing),
        first_some(file_problems(files, previous)) matches Some(error) ==> exists|i: int|
            {
                &&& 0 <= i < files.len()
                &&& previous.contains_key((#[trigger] files[i]).0)
                &&& previous[files[i].0].state is Processing
                &&& error == NoteImportError::NoteIsProcessing {
                    details_commitment: previous[files[i].0].details_commitment,
                }
                &&& forall|j: int|
                    0 <= j < i && previous.contains_key((#[trigger] files[j]).0) ==> !(
                    previous[files[j].0].state is Processing)
            },
{
    let problems = file_problems(files, previous);
    law_first_some(problems);
    assert(problems.len() == files.len());
    if first_some(problems) is Some {
        let i = choose|i: int|
            0 <= i < problems.len() && #[trigger] problems[i] == first_some(problems) && forall|
                j: int,
            |
                0 <= j < i ==> #[trigger] problems[j] is None;
        assert(previous.contains_key(files[i].0) && previous[files[i].0].state is Processing);
        assert forall|j: int|
            0 <= j < i && previous.contains_key((#[trigger] files[j]).0) implies !(
        previous[files[j].0].state is Processing) by {
            assert(problems[j] is None);
        }
    } else {
        assert forall|i: int|
            0 <= i < files.len() && previous.contains_key((#[trigger] files[i]).0) implies !(
        previous[files[i].0].state is Processing) by {
            assert(problems[i] is None);
        }
    }
}

/// Every id is asked for together with what is stored under it.
pub proof fn law_id_requests(ids: Seq<(NoteId, ())>, previous: Map<NoteId, InputNoteRecord>, i: int)
    requires
        0 <= i < ids.len(),
    ensures
        id_requests(ids, previous).len() == ids.len(),
        id_requests(ids, previous)[i].0 == ids[i].0,
        id_requests(ids, previous)[i].1 is Some <==> previous.contains_key(ids[i].0),
        previous.contains_key(ids[i].0) ==> id_requests(ids, previous)[i].1 == Some(
            previous[ids[i].0],
        ),
{
}

/// A file makes one request: one for its details if the note is expected, and one with its proof if
/// the note was created. The request holds what the file says, and what is stored of the note.
pub proof fn law_file_request(
    entry: (NoteDetailsCommitment, NoteFile),
    previous: Map<NoteDetailsCommitment, InputNoteRecord>,
)
    ensures
        entry.1 is ExpectedNote <==> details_request_of(entry, previous) is Some,
        entry.1 is Committed <==> proof_request_of(entry, previous) is Some,
        details_request_of(entry, previous) matches Some(request) ==> {
            &&& entry.1 == NoteFile::ExpectedNote {
                details_commitment: request.details_commitment,
                after_block_num: request.after_block_num,
                tag: request.tag,
            }
            &&& request.previous is Some <==> previous.contains_key(entry.0)
            &&& request.previous is Some ==> request.previous == Some(previous[entry.0])
        },
        proof_request_of(entry, previous) matches Some(request) ==> {
            &&& entry.1 == NoteFile::Committed {
                note: request.note,
                proof_block: request.proof_block,
            }
            &&& request.previous is Some <==> previous.contains_key(entry.0)
            &&& request.previous is Some ==> request.previous == Some(previous[entry.0])
        },
{
}

/// What is found under a key is what the map holds there; nothing is found under any other key.
pub proof fn law_lookup<K, V>(map: Map<K, V>, key: K)
    ensures
        map.contains_key(key) <==> lookup(map, key) is Some,
        map.contains_key(key) ==> lookup(map, key)->0 == map[key],
{
}

// NOTES BY ID
// ================================================================================================
/// A note is among the fetched ones if any of them, public or private, has its id.
pub proof fn law_is_fetched(fetched: Seq<FetchedNote>, note_id: NoteId, i: int)
    requires
        0 <= i < fetched.len(),
    ensures
        fetched[i] matches FetchedNote::Public { note_id: id, .. } ==> is_fetched(fetched, id),
        fetched[i] matches FetchedNote::Private { note_id: id, .. } ==> is_fetched(fetched, id),
        is_fetched(fetched, note_id) ==> exists|k: int|
            0 <= k < fetched.len() && match #[trigger] fetched[k] {
                FetchedNote::Public { note_id: id, .. } => id == note_id,
                FetchedNote::Private { note_id: id, .. } => id == note_id,
            },
{
    assert(is_fetched(fetched, fetched[i].note_id()));
    if is_fetched(fetched, note_id) {
        let k = choose|k: int| 0 <= k < fetched.len() && (#[trigger] fetched[k]).note_id() == note_id;
        assert(match fetched[k] {
            FetchedNote::Public { note_id: id, .. } => id == note_id,
            FetchedNote::Private { note_id: id, .. } => id == note_id,
        });
    }
}

// NOTES WITH A PROOF
// ================================================================================================
/// The lowest block is not above any of the blocks and, where there are blocks, is one of them. So a
/// search that starts there misses none of them, and starts no earlier than it has to.
pub proof fn law_lowest_block(blocks: Seq<BlockNumber>)
    ensures
        forall|i: int| 0 <= i < blocks.len() ==> lowest_block(blocks) <= #[trigger] blocks[i],
        blocks.len() > 0 ==> exists|i: int|
            0 <= i < blocks.len() && #[trigger] blocks[i] == lowest_block(blocks),
        blocks.len() == 0 ==> lowest_block(blocks) == u32::MAX,
    decreases blocks.len(),
{
    if blocks.len() > 0 {
        let before = blocks.drop_last();
        let last = blocks.len() - 1;
        law_lowest_block(before);
        assert forall|i: int| 0 <= i < blocks.len() implies lowest_block(blocks)
            <= #[trigger] blocks[i] by {
            if i < last {
                assert(before[i] == blocks[i]);
            }
        }
        if blocks.last() < lowest_block(before) || before.len() == 0 {
            assert(blocks[last] == lowest_block(blocks));
        } else {
            let i = choose|i: int|
                0 <= i < before.len() && #[trigger] before[i] == lowest_block(before);
            assert(blocks[i] == lowest_block(blocks));
        }
    }
}

/// The order of the blocks does not matter to which is the lowest, and neither does how often one
/// occurs.
pub proof fn law_lowest_block_ignores_order(blocks: Seq<BlockNumber>, others: Seq<BlockNumber>)
    requires
        blocks.to_set() == others.to_set(),
    ensures
        lowest_block(blocks) == lowest_block(others),
{
    law_lowest_block(blocks);
    law_lowest_block(others);
    assert forall|i: int| 0 <= i < blocks.len() implies others.contains(#[trigger] blocks[i]) by {
        assert(blocks.to_set().contains(blocks[i]));
    }
    assert forall|i: int| 0 <= i < others.len() implies blocks.contains(#[trigger] others[i]) by {
        assert(others.to_set().contains(others[i]));
    }
    if blocks.len() > 0 {
        assert(others.contains(blocks[0]));
    }
    if others.len() > 0 {
        assert(blocks.contains(others[0]));
    }
}

/// A value occurs if it stands at any position.
pub proof fn law_occurring<T>(options: Seq<Option<T>>, value: T)
    ensures
        occurring(options).contains(value) <==> exists|i: int|
            0 <= i < options.len() && #[trigger] options[i] == Some(value),
{
    if options.contains(Some(value)) {
        let i = choose|i: int| 0 <= i < options.len() && options[i] == Some(value);
        assert(options[i] == Some(value));
    }
}

/// A note that is stored is looked up by the nullifier that is stored, if any is; any other by its
/// own. The record to start with has the nullifier that is looked up.
pub proof fn law_nullifier_looked_up(request: ProofRequest)
    ensures
        request.previous is None ==> nullifier_of(request) == Some(request.note.nullifier),
        request.previous matches Some(previous) ==> nullifier_of(request) == previous.nullifier,
        starting_record(request).nullifier == nullifier_of(request),
{
}

/// What is stored of a note is kept. The record of a new note has the commitment, the id and the
/// nullifier of the note, no proof yet, and expects the note in the block of the proof, under its
/// tag.
pub proof fn law_starting_record(request: ProofRequest)
    ensures
        request.previous matches Some(previous) ==> starting_record(request) == previous,
        request.previous is None ==> {
            let record = starting_record(request);
            &&& record.details_commitment == request.note.details_commitment
            &&& record.note_id == Some(request.note.note_id)
            &&& record.nullifier == Some(request.note.nullifier)
            &&& record.inclusion_block is None
            &&& record.state matches InputNoteState::Expected { after_block_num, tag }
                && after_block_num == request.proof_block && tag == Some(
                request.note.metadata.tag,
            )
        },
{
}

/// A note was consumed in a block if and only if that block was found for its nullifier.
pub proof fn law_consumed_at(
    record: InputNoteRecord,
    heights: Map<Nullifier, Option<BlockNumber>>,
    block_num: BlockNumber,
)
    ensures
        consumed_at(record, heights) == Some(block_num) <==> {
            &&& record.nullifier is Some
            &&& heights.contains_key(record.nullifier->0)
            &&& heights[record.nullifier->0] == Some(block_num)
        },
{
}

// NOTES BY DETAILS
// ================================================================================================
/// A note is expected if and only if its id is that of some expected details with its metadata, and
/// its proof is not for a block after the current one. Where the details stand among the expected
/// ones does not matter.
pub proof fn law_is_expected(
    note: CommittedNote,
    expected: Seq<NoteDetailsCommitment>,
    current_block_num: BlockNumber,
    k: int,
)
    ensures
        0 <= k < expected.len() && note_id_of(expected[k], note.metadata) == Some(note.note_id)
            && note.inclusion_proof.block_num <= current_block_num ==> is_expected(
            note,
            expected,
            current_block_num,
        ),
        is_expected(note, expected, current_block_num) ==> note.inclusion_proof.block_num
            <= current_block_num && exists|j: int|
            0 <= j < expected.len() && note_id_of(#[trigger] expected[j], note.metadata) == Some(
                note.note_id,
            ),
{
    if 0 <= k < expected.len() && note_id_of(expected[k], note.metadata) == Some(note.note_id) {
        assert(has_details(note, expected[k]));
    }
    if is_expected(note, expected, current_block_num) {
        let j = choose|j: int| 0 <= j < expected.len() && has_details(note, #[trigger] expected[j]);
        assert(note_id_of(expected[j], note.metadata) == Some(note.note_id));
    }
}

/// The blocks that the client knows of are the longest part at the beginning in which no block comes
/// after the current one.
pub proof fn law_known_blocks(blocks: Seq<SyncNotesBlock>, current_block_num: BlockNumber)
    ensures
        ({
            let n = known_blocks(blocks, current_block_num).len();
            &&& n <= blocks.len()
            &&& known_blocks(blocks, current_block_num) == blocks.take(n as int)
            &&& forall|i: int|
                0 <= i < n ==> (#[trigger] blocks[i]).block_header.block_num <= current_block_num
            &&& n < blocks.len() ==> blocks[n as int].block_header.block_num > current_block_num
        }),
    decreases blocks.len(),
{
    let known = known_blocks(blocks, current_block_num);
    if blocks.len() == 0 || blocks[0].block_header.block_num > current_block_num {
        assert(known =~= blocks.take(0));
    } else {
        let rest = blocks.skip(1);
        law_known_blocks(rest, current_block_num);
        let n = known_blocks(rest, current_block_num).len();
        assert(known =~= blocks.take((n + 1) as int));
        assert forall|i: int| 0 <= i < n + 1 implies (
        #[trigger] blocks[i]).block_header.block_num <= current_block_num by {
            if i > 0 {
                assert(rest[i - 1] == blocks[i]);
            }
        }
        if n + 1 < blocks.len() {
            assert(rest[n as int] == blocks[(n + 1) as int]);
        }
    }
}

/// The blocks that are returned are those among the known ones that hold a note with expected
/// details, all of them, in order. The known ones are those before the first block that comes after
/// the current one.
pub proof fn law_matching_blocks(
    blocks: Seq<SyncNotesBlock>,
    expected: Seq<NoteDetailsCommitment>,
    current_block_num: BlockNumber,
    n: int,
)
    requires
        0 <= n <= blocks.len(),
        forall|i: int|
            0 <= i < n ==> (#[trigger] blocks[i]).block_header.block_num <= current_block_num,
        n < blocks.len() ==> blocks[n].block_header.block_num > current_block_num,
    ensures
        picks(
            matching_blocks(blocks, expected, current_block_num),
            n,
            |b: int| holds_expected(blocks[b], expected, current_block_num),
            |b: int| blocks[b],
        ),
{
    let pass = |block: SyncNotesBlock| holds_expected(block, expected, current_block_num);
    let known = known_blocks(blocks, current_block_num);
    law_known_blocks(blocks, current_block_num);
    assert(known.len() == n) by {
        if known.len() < n {
            assert(blocks[known.len() as int].block_header.block_num <= current_block_num);
        }
    }
    lemma_picks_filter(known, pass);
    lemma_picks_same(
        known.filter(pass),
        n,
        |i: int| pass(known[i]),
        |i: int| known[i],
        |b: int| holds_expected(blocks[b], expected, current_block_num),
        |b: int| blocks[b],
    );
}

/// A block holds an expected note if and only if it has an entry that is one.
pub proof fn law_holds_expected(
    block: SyncNotesBlock,
    expected: Seq<NoteDetailsCommitment>,
    current_block_num: BlockNumber,
)
    ensures
        holds_expected(block, expected, current_block_num) <==> exists|i: int, k: int|
            #![trigger block.notes.listing()[i], expected[k]]
            {
                let note = block.notes.listing()[i].1;
                &&& 0 <= i < block.notes.listing().len()
                &&& 0 <= k < expected.len()
                &&& note.inclusion_proof.block_num <= current_block_num
                &&& note_id_of(expected[k], note.metadata) == Some(note.note_id)
            },
{
    if holds_expected(block, expected, current_block_num) {
        let i = choose|i: int|
            0 <= i < block.notes.listing().len() && is_expected(
                (#[trigger] block.notes.listing()[i]).1,
                expected,
                current_block_num,
            );
        let note = block.notes.listing()[i].1;
        let k = choose|k: int| 0 <= k < expected.len() && has_details(note, #[trigger] expected[k]);
        assert(note_id_of(expected[k], note.metadata) == Some(note.note_id));
    }
    if exists|i: int, k: int|
        #![trigger block.notes.listing()[i], expected[k]]
        {
            let note = block.notes.listing()[i].1;
            &&& 0 <= i < block.notes.listing().len()
            &&& 0 <= k < expected.len()
            &&& note.inclusion_proof.block_num <= current_block_num
            &&& note_id_of(expected[k], note.metadata) == Some(note.note_id)
        } {
        let (i, k) = choose|i: int, k: int|
            #![trigger block.notes.listing()[i], expected[k]]
            {
                let note = block.notes.listing()[i].1;
                &&& 0 <= i < block.notes.listing().len()
                &&& 0 <= k < expected.len()
                &&& note.inclusion_proof.block_num <= current_block_num
                &&& note_id_of(expected[k], note.metadata) == Some(note.note_id)
            };
        law_is_expected(block.notes.listing()[i].1, expected, current_block_num, k);
    }
}

/// The first note with the details has the id they give with its metadata, and no note before it, in
/// its block or in an earlier one, has.
pub proof fn law_first_with_details(
    blocks: Seq<SyncNotesBlock>,
    commitment: NoteDetailsCommitment,
    b: int,
    n: int,
)
    requires
        is_first_with_details(blocks, commitment, b, n),
    ensures
        0 <= b < blocks.len(),
        0 <= n < blocks[b].notes.listing().len(),
        ({
            let note = blocks[b].notes.listing()[n].1;
            note_id_of(commitment, note.metadata) == Some(note.note_id)
        }),
        forall|c: int, m: int|
            #![trigger blocks[c].notes.listing()[m]]
            {
                let note = blocks[c].notes.listing()[m].1;
                &&& 0 <= c < blocks.len()
                &&& 0 <= m < blocks[c].notes.listing().len()
                &&& c < b || (c == b && m < n)
            } ==> note_id_of(commitment, blocks[c].notes.listing()[m].1.metadata) != Some(
                blocks[c].notes.listing()[m].1.note_id,
            ),
{
    assert forall|c: int, m: int|
        #![trigger blocks[c].notes.listing()[m]]
        {
            &&& 0 <= c < blocks.len()
            &&& 0 <= m < blocks[c].notes.listing().len()
            &&& c < b || (c == b && m < n)
        } implies note_id_of(commitment, blocks[c].notes.listing()[m].1.metadata) != Some(
        blocks[c].notes.listing()[m].1.note_id,
    ) by {
        if c < b {
            assert(!block_has_details(blocks[c], commitment));
            assert(!has_details(blocks[c].notes.listing()[m].1, commitment));
        } else {
            assert(!has_details(blocks[b].notes.listing()[m].1, commitment));
        }
    }
}

/// A block has a note with the details if and only if one of its notes has the id they give with its
/// metadata.
pub proof fn law_block_has_details(
    block: SyncNotesBlock,
    commitment: NoteDetailsCommitment,
    m: int,
)
    ensures
        0 <= m < block.notes.listing().len() && note_id_of(
            commitment,
            block.notes.listing()[m].1.metadata,
        ) == Some(block.notes.listing()[m].1.note_id) ==> block_has_details(block, commitment),
        block_has_details(block, commitment) ==> exists|n: int|
            0 <= n < block.notes.listing().len() && note_id_of(
                commitment,
                (#[trigger] block.notes.listing()[n]).1.metadata,
            ) == Some(block.notes.listing()[n].1.note_id),
{
    if 0 <= m < block.notes.listing().len() && note_id_of(
        commitment,
        block.notes.listing()[m].1.metadata,
    ) == Some(block.notes.listing()[m].1.note_id) {
        assert(has_details(block.notes.listing()[m].1, commitment));
    }
    if block_has_details(block, commitment) {
        let n = choose|n: int|
            0 <= n < block.notes.listing().len() && has_details(
                (#[trigger] block.notes.listing()[n]).1,
                commitment,
            );
        assert(note_id_of(commitment, block.notes.listing()[n].1.metadata) == Some(
            block.notes.listing()[n].1.note_id,
        ));
    }
}

// CONSUMED NOTES
// ================================================================================================
/// The nullifier of a record is looked up if and only if the record has one and was proven to be
/// created.
pub proof fn law_committed_nullifier(record: InputNoteRecord)
    ensures
        record.nullifier is Some && record.inclusion_block is Some ==> committed_nullifier(record)
            == record.nullifier,
        record.nullifier is None || record.inclusion_block is None ==> committed_nullifier(record)
            is None,
{
}

/// The search for consumed notes starts no later than the block of any record that is looked up, and
/// at the block of one of them.
pub proof fn law_consumption_search_starts_in_time(records: Seq<InputNoteRecord>, i: int)
    requires
        0 <= i < records.len(),
        records[i].nullifier is Some,
        records[i].inclusion_block is Some,
    ensures
        lowest_block(committed_blocks(records)) <= records[i].inclusion_block->0,
        exists|k: int|
            0 <= k < records.len() && (#[trigger] records[k]).nullifier is Some
                && records[k].inclusion_block == Some(lowest_block(committed_blocks(records))),
{
    let options = records.map_values(
        |record: InputNoteRecord|
            if record.nullifier is Some {
                record.inclusion_block
            } else {
                None
            },
    );
    let blocks = committed_blocks(records);
    assert(blocks == present(options));
    law_present(options);
    law_lowest_block(blocks);
    let wanted = |k: int| options[k] is Some;
    let value = |k: int| options[k]->0;
    let at = choose|at: Seq<int>| #[trigger]
        picks_at(blocks, at, options.len() as int, wanted, value);
    assert(wanted(i));
    let k = choose|k: int| 0 <= k < at.len() && at[k] == i;
    assert(blocks[k] == options[i]->0);
    let low = choose|low: int|
        0 <= low < blocks.len() && #[trigger] blocks[low] == lowest_block(blocks);
    let position = at[low];
    assert(wanted(position) && blocks[low] == value(position));
    assert(records[position].nullifier is Some);
}

// RESULT
// ================================================================================================
/// A record is stored again if and only if at least one step changed it, whichever step that is.
pub proof fn law_any_change_counts(changes: RecordChanges)
    ensures
        changes.consumed ==> changes.spec_is_changed(),
        changes.inclusion_proof ==> changes.spec_is_changed(),
        changes.attachments ==> changes.spec_is_changed(),
        changes.block_header ==> changes.spec_is_changed(),
        changes.spec_is_changed() ==> changes.consumed || changes.inclusion_proof
            || changes.attachments || changes.block_header,
{
}

} // verus!
