//! What a sync does to the notes of the client.
use vstd::prelude::*;

use crate::collections::{
    contains_key, entries_map, first_some, lemma_first_some_at, lemma_first_some_step, lemma_insert,
    OrdKey, OrdMap,
};
use crate::errors::ClientError;
use crate::protocol_config::{word_hex, word_hex_of};
use crate::rpc::domain::note::{
    nullifier_prefix, prefix_of, CommittedNote, FetchedNote, NullifierUpdate, SyncNotesBlock,
};
use crate::rpc::domain::transaction::{ConsumedNoteRef, TransactionRecord};
use crate::rpc::errors::rpc_error::RpcError;
use crate::store::{InputNoteRecord, InputNoteState};
use crate::sync::chain_sync::RelevantNoteBlock;
use crate::sync::transaction_updates::{all_nullified, TransactionUpdateTracker};
use crate::types::{
    AccountId, BlockHeader, BlockNumber, NoteDetailsCommitment, NoteId, Nullifier, Word,
};

verus! {

// SCREENING
// ================================================================================================
/// What is to be done about a note that a sync received.
#[derive(Debug)]
pub enum NoteUpdateAction {
    /// The note is relevant, and a tracked note is to be marked as committed.
    Commit(CommittedNote),
    /// The public note is relevant, and is to be stored.
    Insert(InputNoteRecord),
    /// The note is not relevant.
    Discard,
}

/// Decides about the notes that a sync receives.
pub trait OnNoteReceived {
    /// Returns what is to be done about a note. The record is that of the note in the network, and
    /// is there for public notes only.
    fn on_note_received(
        &self,
        committed_note: CommittedNote,
        public_note: Option<InputNoteRecord>,
    ) -> Result<NoteUpdateAction, ClientError>;
}

/// What is known of a public note beside what a sync says of every note.
#[derive(Clone, Copy, Debug, PartialEq, Eq, Structural)]
pub struct PublicDetails {
    pub details_commitment: NoteDetailsCommitment,
    pub nullifier: Nullifier,
}

/// Returns the record of a public note that a sync received: it comes with an inclusion proof that has
/// not been checked. There is none for a private note, whose details are not known.
pub fn public_note_record(note: &CommittedNote, details: Option<PublicDetails>) -> (record: Option<
    InputNoteRecord,
>)
    ensures
        record == match details {
            Some(details) => Some(
                InputNoteRecord {
                    details_commitment: details.details_commitment,
                    note_id: Some(note.note_id),
                    nullifier: Some(details.nullifier),
                    inclusion_block: Some(note.inclusion_proof.block_num),
                    state: InputNoteState::Unverified,
                },
            ),
            None => None,
        },
{
    match details {
        Some(details) => Some(
            InputNoteRecord {
                details_commitment: details.details_commitment,
                note_id: Some(note.note_id),
                nullifier: Some(details.nullifier),
                inclusion_block: Some(note.inclusion_proof.block_num),
                state: InputNoteState::Unverified,
            },
        ),
        None => None,
    }
}

/// The decision about a note can be this one.
pub open spec fn can_decide<S: OnNoteReceived>(
    note_screener: &S,
    note: (CommittedNote, Option<InputNoteRecord>),
    decision: Result<NoteUpdateAction, ClientError>,
) -> bool {
    call_ensures(S::on_note_received, (note_screener, note.0, note.1), decision)
}

/// There was a decision about each of the notes up to the position, at which it failed.
pub open spec fn first_failure<S: OnNoteReceived>(
    note_screener: &S,
    notes: Seq<(CommittedNote, Option<InputNoteRecord>)>,
    i: int,
    error: ClientError,
) -> bool {
    &&& 0 <= i < notes.len()
    &&& can_decide(note_screener, notes[i], Err(error))
    &&& forall|j: int| 0 <= j < i ==> is_decided(note_screener, #[trigger] notes[j])
}

/// There can be a decision about a note.
pub open spec fn is_decided<S: OnNoteReceived>(
    note_screener: &S,
    note: (CommittedNote, Option<InputNoteRecord>),
) -> bool {
    exists|action: NoteUpdateAction| can_decide(note_screener, note, Ok(action))
}

/// Asks for a decision about every note of a block, in order, up to the first failure.
pub fn screen_notes<S: OnNoteReceived>(
    note_screener: &S,
    notes: Vec<(CommittedNote, Option<InputNoteRecord>)>,
) -> (actions: Result<Vec<NoteUpdateAction>, ClientError>)
    requires
        forall|i: int|
            0 <= i < notes@.len() ==> call_requires(
                S::on_note_received,
                (note_screener, (#[trigger] notes@[i]).0, notes@[i].1),
            ),
    ensures
        match actions {
            Ok(actions) => {
                &&& actions@.len() == notes@.len()
                &&& forall|i: int|
                    0 <= i < notes@.len() ==> can_decide(
                        note_screener,
                        notes@[i],
                        Ok(#[trigger] actions@[i]),
                    )
            },
            Err(error) => exists|i: int| first_failure(note_screener, notes@, i, error),
        },
{
    let ghost all = notes@;
    let mut actions: Vec<NoteUpdateAction> = Vec::new();
    for note in iter: notes
        invariant
            iter.seq() == all,
            all == notes@,
            actions@.len() == iter.index(),
            forall|i: int|
                0 <= i < all.len() ==> call_requires(
                    S::on_note_received,
                    (note_screener, (#[trigger] all[i]).0, all[i].1),
                ),
            forall|i: int|
                0 <= i < actions@.len() ==> can_decide(
                    note_screener,
                    all[i],
                    Ok(#[trigger] actions@[i]),
                ),
    {
        let ghost n = actions@.len() as int;
        assert(note == all[n]);
        match note_screener.on_note_received(note.0, note.1) {
            Ok(action) => {
                actions.push(action);
            },
            Err(error) => {
                proof {
                    assert forall|j: int| 0 <= j < n implies is_decided(
                        note_screener,
                        #[trigger] all[j],
                    ) by {
                        assert(can_decide(note_screener, all[j], Ok(actions@[j])));
                    }
                    assert(first_failure(note_screener, all, n, error));
                }
                return Err(error);
            },
        }
    }
    Ok(actions)
}

/// What became of a note of a block.
#[derive(Clone, Copy, Debug, PartialEq, Eq, Structural)]
pub enum NoteOutcome {
    /// A tracked note was marked as committed; it may be an input note of the client.
    Committed { is_input_note: bool },
    /// The note was stored as a new one.
    Inserted,
    /// The note is not relevant.
    Discarded,
}

/// What was found out about a note of a block.
#[derive(Debug)]
pub struct NoteVerdict {
    /// What each observer said: whether it requires the block, or nothing if it failed.
    pub observers: Vec<Option<bool>>,
    pub outcome: NoteOutcome,
}

impl NoteVerdict {
    /// An observer requires the block. An observer that failed does not.
    pub open spec fn is_required(self) -> bool {
        self.observers@.contains(Some(true))
    }

    /// The note is an input note of the client.
    pub open spec fn is_client_note(self) -> bool {
        match self.outcome {
            NoteOutcome::Committed { is_input_note } => is_input_note,
            NoteOutcome::Inserted => true,
            NoteOutcome::Discarded => false,
        }
    }
}

/// Why a note block matters: because of an input note of the client, or because of an observer.
#[derive(Clone, Copy, Debug, PartialEq, Eq, Structural)]
pub struct NoteBlockRelevance {
    pub has_client_note: bool,
    pub observer_requires_block: bool,
}

impl NoteBlockRelevance {
    /// The block matters for one of the two reasons.
    pub open spec fn relevant(self) -> bool {
        self.has_client_note || self.observer_requires_block
    }

    /// Returns true if the block matters for one of the two reasons.
    pub fn is_relevant(&self) -> (relevant: bool)
        ensures
            relevant == self.relevant(),
    {
        self.has_client_note || self.observer_requires_block
    }

    /// Returns why a block matters, given what was found out about its notes.
    pub fn of_notes(notes: &Vec<NoteVerdict>) -> (relevance: Self)
        ensures
            relevance.has_client_note == exists|i: int|
                0 <= i < notes@.len() && (#[trigger] notes@[i]).is_client_note(),
            relevance.observer_requires_block == exists|i: int|
                0 <= i < notes@.len() && (#[trigger] notes@[i]).is_required(),
    {
        let mut relevance = NoteBlockRelevance {
            has_client_note: false,
            observer_requires_block: false,
        };
        let mut i: usize = 0;
        while i < notes.len()
            invariant
                i <= notes.len(),
                relevance.has_client_note == exists|k: int|
                    0 <= k < i && (#[trigger] notes@[k]).is_client_note(),
                relevance.observer_requires_block == exists|k: int|
                    0 <= k < i && (#[trigger] notes@[k]).is_required(),
            decreases notes.len() - i,
        {
            let note = &notes[i];
            let required = requires_block(&note.observers);
            let is_client_note = match note.outcome {
                NoteOutcome::Committed { is_input_note } => is_input_note,
                NoteOutcome::Inserted => true,
                NoteOutcome::Discarded => false,
            };
            proof {
                assert(notes@[i as int].is_client_note() == is_client_note);
                assert(notes@[i as int].is_required() == required);
            }
            if required {
                relevance.observer_requires_block = true;
            }
            if is_client_note {
                relevance.has_client_note = true;
            }
            i += 1;
        }
        relevance
    }
}

/// Returns true if an observer requires the block.
fn requires_block(observers: &Vec<Option<bool>>) -> (required: bool)
    ensures
        required == observers@.contains(Some(true)),
{
    let mut i: usize = 0;
    while i < observers.len()
        invariant
            i <= observers.len(),
            forall|k: int| 0 <= k < i ==> observers@[k] != Some(true),
        decreases observers.len() - i,
    {
        if let Some(verdict) = observers[i] {
            if verdict {
                assert(observers@[i as int] == Some(true));
                return true;
            }
        }
        i += 1;
    }
    false
}

/// The relevant ones among the blocks.
pub open spec fn relevant_of(
    blocks: Seq<SyncNotesBlock>,
    relevances: Seq<NoteBlockRelevance>,
) -> Seq<(BlockHeader, Seq<Word>, bool)>
    decreases blocks.len(),
{
    if blocks.len() == 0 {
        Seq::empty()
    } else {
        let rest = relevant_of(blocks.drop_last(), relevances.drop_last());
        if relevances.last().relevant() {
            rest.push(
                (
                    blocks.last().block_header,
                    blocks.last().mmr_path@,
                    relevances.last().observer_requires_block,
                ),
            )
        } else {
            rest
        }
    }
}

/// The header, the path and the requirement of each block.
pub open spec fn relevant_parts(blocks: Seq<RelevantNoteBlock>) -> Seq<
    (BlockHeader, Seq<Word>, bool),
> {
    blocks.map_values(
        |block: RelevantNoteBlock|
            (block.block_header, block.mmr_path@, block.observer_requires_block),
    )
}

/// Returns the relevant ones among the blocks. Whether they are kept depends on which of their notes
/// turn out to be consumed.
pub fn relevant_note_blocks(
    note_blocks: Vec<SyncNotesBlock>,
    relevances: &Vec<NoteBlockRelevance>,
) -> (relevant_blocks: Vec<RelevantNoteBlock>)
    requires
        note_blocks@.len() == relevances@.len(),
    ensures
        relevant_parts(relevant_blocks@) == relevant_of(note_blocks@, relevances@),
{
    let ghost all = note_blocks@;
    let mut relevant_blocks: Vec<RelevantNoteBlock> = Vec::new();
    let mut i: usize = 0;
    for block in iter: note_blocks
        invariant
            iter.seq() == all,
            i == iter.index(),
            all.len() == relevances@.len(),
            relevant_parts(relevant_blocks@) == relevant_of(
                all.take(i as int),
                relevances@.take(i as int),
            ),
    {
        proof {
            assert(all.take(i + 1).drop_last() =~= all.take(i as int));
            assert(all.take(i + 1).last() == all[i as int]);
            assert(relevances@.take(i + 1).drop_last() =~= relevances@.take(i as int));
            assert(relevances@.take(i + 1).last() == relevances@[i as int]);
        }
        if relevances[i].is_relevant() {
            let ghost before = relevant_blocks@;
            relevant_blocks.push(
                RelevantNoteBlock {
                    block_header: block.block_header,
                    mmr_path: block.mmr_path,
                    observer_requires_block: relevances[i].observer_requires_block,
                },
            );
            assert(relevant_parts(relevant_blocks@) =~= relevant_parts(before).push(
                (
                    block.block_header,
                    block.mmr_path@,
                    relevances@[i as int].observer_requires_block,
                ),
            ));
        }
        assert(i < relevances.len());
        i += 1;
    }
    proof {
        assert(all.take(i as int) =~= all);
        assert(relevances@.take(i as int) =~= relevances@);
    }
    relevant_blocks
}

// TRANSACTIONS
// ================================================================================================
/// A step that the transactions of a sync ask for.
#[derive(Clone, Copy, Debug, PartialEq, Eq, Structural)]
pub enum OutputNoteStep {
    /// The output note carries an inclusion proof, and is to be marked as committed.
    Commit { note_id: NoteId },
    /// The output note was consumed within the batch that created it, and left no trace in the
    /// block. It is to be marked as consumed, if the client knows it.
    ConsumeErased { note_id: NoteId, block_num: BlockNumber },
}

/// The steps a transaction asks for: first its inclusion proofs, then its erased notes.
pub open spec fn steps_of(record: TransactionRecord) -> Seq<OutputNoteStep> {
    record.output_notes@.map_values(|note_id: NoteId| OutputNoteStep::Commit { note_id })
        + record.erased_output_notes@.map_values(
        |note_id: NoteId| OutputNoteStep::ConsumeErased { note_id, block_num: record.block_num },
    )
}

/// The steps the transactions ask for, one transaction after the other.
pub open spec fn all_steps(records: Seq<TransactionRecord>) -> Seq<OutputNoteStep>
    decreases records.len(),
{
    if records.len() == 0 {
        Seq::empty()
    } else {
        all_steps(records.drop_last()) + steps_of(records.last())
    }
}

/// Returns what the transactions of a sync mean for the output notes of the client.
pub fn output_note_steps(records: &Vec<TransactionRecord>) -> (steps: Vec<OutputNoteStep>)
    ensures
        steps@ == all_steps(records@),
{
    let mut steps: Vec<OutputNoteStep> = Vec::new();
    let mut i: usize = 0;
    while i < records.len()
        invariant
            i <= records.len(),
            steps@ == all_steps(records@.take(i as int)),
        decreases records.len() - i,
    {
        let record = &records[i];
        let ghost before = steps@;
        let ghost commits = record.output_notes@.map_values(
            |note_id: NoteId| OutputNoteStep::Commit { note_id },
        );
        let ghost erased = record.erased_output_notes@.map_values(
            |note_id: NoteId|
                OutputNoteStep::ConsumeErased { note_id, block_num: record.block_num },
        );
        let mut k: usize = 0;
        while k < record.output_notes.len()
            invariant
                k <= record.output_notes.len(),
                commits == record.output_notes@.map_values(
                    |note_id: NoteId| OutputNoteStep::Commit { note_id },
                ),
                steps@ == before + commits.take(k as int),
            decreases record.output_notes.len() - k,
        {
            steps.push(OutputNoteStep::Commit { note_id: record.output_notes[k] });
            assert(commits.take(k + 1) =~= commits.take(k as int).push(commits[k as int]));
            k += 1;
        }
        assert(commits.take(k as int) =~= commits);
        let ghost committed = steps@;
        let mut k: usize = 0;
        while k < record.erased_output_notes.len()
            invariant
                k <= record.erased_output_notes.len(),
                erased == record.erased_output_notes@.map_values(
                    |note_id: NoteId|
                        OutputNoteStep::ConsumeErased { note_id, block_num: record.block_num },
                ),
                steps@ == committed + erased.take(k as int),
            decreases record.erased_output_notes.len() - k,
        {
            steps.push(
                OutputNoteStep::ConsumeErased {
                    note_id: record.erased_output_notes[k],
                    block_num: record.block_num,
                },
            );
            assert(erased.take(k + 1) =~= erased.take(k as int).push(erased[k as int]));
            k += 1;
        }
        proof {
            assert(erased.take(k as int) =~= erased);
            assert(records@.take(i + 1).drop_last() =~= records@.take(i as int));
            assert(records@.take(i + 1).last() == records@[i as int]);
            assert(steps@ =~= before + steps_of(records@[i as int]));
        }
        i += 1;
    }
    assert(records@.take(i as int) =~= records@);
    steps
}

// CONSUMED PUBLIC NOTES
// ================================================================================================
/// How a note was consumed that the client may not know.
#[derive(Clone, Copy, Debug, PartialEq, Eq, Structural)]
pub struct RecoverableConsumedNote {
    pub nullifier: Nullifier,
    pub consumer: AccountId,
    pub block_num: BlockNumber,
}

/// How the transaction consumed the note of the reference.
pub open spec fn consumed_by(
    record: TransactionRecord,
    reference: ConsumedNoteRef,
) -> RecoverableConsumedNote {
    RecoverableConsumedNote {
        nullifier: reference.nullifier,
        consumer: record.transaction_header.account_id,
        block_num: record.block_num,
    }
}

/// The references with the first `n` ones of a transaction added.
pub open spec fn with_refs(
    refs: Map<NoteId, RecoverableConsumedNote>,
    record: TransactionRecord,
    n: int,
) -> Map<NoteId, RecoverableConsumedNote>
    decreases n,
{
    if n <= 0 {
        refs
    } else {
        let reference = record.consumed_note_refs@[n - 1];
        with_refs(refs, record, n - 1).insert(reference.note_id, consumed_by(record, reference))
    }
}

/// The references of all transactions. Of several for one note the last one counts.
pub open spec fn all_refs(records: Seq<TransactionRecord>) -> Map<NoteId, RecoverableConsumedNote>
    decreases records.len(),
{
    if records.len() == 0 {
        Map::empty()
    } else {
        with_refs(
            all_refs(records.drop_last()),
            records.last(),
            records.last().consumed_note_refs@.len() as int,
        )
    }
}

/// The references to the notes that the client does not track.
pub open spec fn untracked_refs(
    refs: Map<NoteId, RecoverableConsumedNote>,
    tracked_notes: Seq<NoteId>,
) -> Map<NoteId, RecoverableConsumedNote> {
    Map::new(
        |note_id: NoteId| refs.contains_key(note_id) && !tracked_notes.contains(note_id),
        |note_id: NoteId| refs[note_id],
    )
}

/// Returns the consumed public notes that are to be recovered. Notes that the client tracks are left
/// out, since it knows more of them than the references say.
pub fn recoverable_notes(
    transactions: &Vec<TransactionRecord>,
    tracked_notes: &Vec<NoteId>,
) -> (recoverable: OrdMap<NoteId, RecoverableConsumedNote>)
    ensures
        recoverable@ == untracked_refs(all_refs(transactions@), tracked_notes@),
{
    let ghost records = transactions@;
    let mut refs: OrdMap<NoteId, RecoverableConsumedNote> = OrdMap::new();
    let mut i: usize = 0;
    while i < transactions.len()
        invariant
            i <= transactions.len(),
            records == transactions@,
            refs@ == all_refs(records.take(i as int)),
        decreases transactions.len() - i,
    {
        let record = &transactions[i];
        let ghost before = refs@;
        let mut k: usize = 0;
        while k < record.consumed_note_refs.len()
            invariant
                k <= record.consumed_note_refs.len(),
                refs@ == with_refs(before, *record, k as int),
            decreases record.consumed_note_refs.len() - k,
        {
            let reference = record.consumed_note_refs[k];
            refs.insert(
                reference.note_id,
                RecoverableConsumedNote {
                    nullifier: reference.nullifier,
                    consumer: record.transaction_header.account_id,
                    block_num: record.block_num,
                },
            );
            k += 1;
        }
        proof {
            assert(records.take(i + 1).drop_last() =~= records.take(i as int));
            assert(records.take(i + 1).last() == records[i as int]);
        }
        i += 1;
    }
    assert(records.take(i as int) =~= records);

    let mut recoverable: OrdMap<NoteId, RecoverableConsumedNote> = OrdMap::new();
    let mut i: usize = 0;
    while i < refs.len()
        invariant
            i <= refs.listing().len(),
            recoverable@ == untracked_refs(
                entries_map(refs.listing().take(i as int)),
                tracked_notes@,
            ),
        decreases refs.listing().len() - i,
    {
        let (note_id, reference) = refs.entries()[i];
        let ghost shorter = refs.listing().take(i as int);
        let ghost longer = refs.listing().take(i + 1);
        proof {
            assert(longer =~= shorter.insert(i as int, (note_id, reference)));
            assert forall|k: int| 0 <= k < i implies (#[trigger] shorter[k]).0.rank()
                < note_id.rank() by {
                assert(refs.listing()[k].0.rank() < refs.listing()[i as int].0.rank());
            }
            lemma_insert(shorter, i as int, note_id, reference);
        }
        if !contains_key(tracked_notes, &note_id) {
            recoverable.insert(note_id, reference);
        }
        assert(recoverable@ =~= untracked_refs(entries_map(longer), tracked_notes@));
        i += 1;
    }
    assert(refs.listing().take(i as int) =~= refs.listing());
    recoverable
}

/// What is said of a note that does not have the nullifier that the transaction consumed.
pub open spec fn nullifier_mismatch_text(note_id: NoteId) -> Seq<char> {
    "node returned note "@ + word_hex_of(note_id)
        + " whose nullifier doesn't match the consumed reference"@
}

/// What is said of a private note that was sent for a public one.
pub open spec fn private_note_text(note_id: NoteId) -> Seq<char> {
    "node returned private note "@ + word_hex_of(note_id)
        + " for a public consumed-note reference"@
}

/// Why a note that was fetched for recovery is refused. A note that was not asked for is ignored,
/// unless it is private.
pub open spec fn recovery_problem(
    refs: Map<NoteId, RecoverableConsumedNote>,
    fetched: FetchedNote,
) -> Option<Seq<char>> {
    match fetched {
        FetchedNote::Public { note_id, nullifier, .. } => if refs.contains_key(note_id)
            && refs[note_id].nullifier != nullifier {
            Some(nullifier_mismatch_text(note_id))
        } else {
            None
        },
        FetchedNote::Private { note_id, .. } => Some(private_note_text(note_id)),
    }
}

/// Why the fetched notes are refused, one by one.
pub open spec fn recovery_problems(
    refs: Map<NoteId, RecoverableConsumedNote>,
    fetched: Seq<FetchedNote>,
) -> Seq<Option<Seq<char>>> {
    fetched.map_values(|note: FetchedNote| recovery_problem(refs, note))
}

/// A public note that was recovered: its position among the fetched notes, and how it was consumed.
#[derive(Clone, Copy, Debug, PartialEq, Eq, Structural)]
pub struct RecoveredNote {
    pub fetched_at: usize,
    pub note_id: NoteId,
    pub consumer: AccountId,
    pub block_num: BlockNumber,
}

/// The notes that are recovered from the fetched ones.
pub open spec fn recovered_of(
    refs: Map<NoteId, RecoverableConsumedNote>,
    fetched: Seq<FetchedNote>,
) -> Seq<RecoveredNote>
    decreases fetched.len(),
{
    if fetched.len() == 0 {
        Seq::empty()
    } else {
        let rest = recovered_of(refs, fetched.drop_last());
        let note_id = fetched.last().note_id();
        if refs.contains_key(note_id) {
            rest.push(
                RecoveredNote {
                    fetched_at: (fetched.len() - 1) as usize,
                    note_id,
                    consumer: refs[note_id].consumer,
                    block_num: refs[note_id].block_num,
                },
            )
        } else {
            rest
        }
    }
}

/// Checks the notes that were fetched for recovery, and returns those that are to be stored as
/// consumed.
///
/// A fetched note has to have the nullifier that the transaction consumed, so that no other note can
/// be attributed to it.
pub fn check_recovered_notes(
    recoverable: &OrdMap<NoteId, RecoverableConsumedNote>,
    fetched: &Vec<FetchedNote>,
) -> (recovered: Result<Vec<RecoveredNote>, RpcError>)
    ensures
        match first_some(recovery_problems(recoverable@, fetched@)) {
            Some(problem) => recovered matches Err(RpcError::InvalidResponse(text)) && text@
                == problem,
            None => recovered is Ok && recovered->Ok_0@ == recovered_of(recoverable@, fetched@),
        },
{
    let ghost problems = recovery_problems(recoverable@, fetched@);
    let mut recovered: Vec<RecoveredNote> = Vec::new();
    let mut i: usize = 0;
    while i < fetched.len()
        invariant
            i <= fetched.len(),
            problems == recovery_problems(recoverable@, fetched@),
            first_some(problems.take(i as int)) is None,
            recovered@ == recovered_of(recoverable@, fetched@.take(i as int)),
        decreases fetched.len() - i,
    {
        proof {
            assert(problems.len() == fetched@.len());
            assert(problems[i as int] == recovery_problem(recoverable@, fetched@[i as int]));
            assert(fetched@.take(i + 1).drop_last() =~= fetched@.take(i as int));
            assert(fetched@.take(i + 1).last() == fetched@[i as int]);
        }
        match fetched[i] {
            FetchedNote::Public { note_id, nullifier, .. } => {
                if let Some(reference) = recoverable.get(&note_id) {
                    if nullifier != reference.nullifier {
                        proof {
                            lemma_first_some_at(problems, i as int);
                        }
                        let text = "node returned note ".to_owned().concat(
                            word_hex(note_id).as_str(),
                        );
                        return Err(
                            RpcError::InvalidResponse(
                                text.concat(
                                    " whose nullifier doesn't match the consumed reference",
                                ),
                            ),
                        );
                    }
                    recovered.push(
                        RecoveredNote {
                            fetched_at: i,
                            note_id,
                            consumer: reference.consumer,
                            block_num: reference.block_num,
                        },
                    );
                }
            },
            FetchedNote::Private { note_id, .. } => {
                proof {
                    lemma_first_some_at(problems, i as int);
                }
                let text = "node returned private note ".to_owned().concat(
                    word_hex(note_id).as_str(),
                );
                return Err(
                    RpcError::InvalidResponse(text.concat(" for a public consumed-note reference")),
                );
            },
        }
        proof {
            lemma_first_some_step(problems, i as int);
        }
        i += 1;
    }
    proof {
        assert(problems.take(i as int) =~= problems);
        assert(fetched@.take(i as int) =~= fetched@);
    }
    Ok(recovered)
}

// NULLIFIERS
// ================================================================================================
/// A request for the nullifiers that were recorded in a range of blocks, both ends included.
#[derive(Debug)]
pub struct NullifierRequest {
    pub prefixes: Vec<u16>,
    pub block_from: BlockNumber,
    pub block_to: BlockNumber,
}

/// Returns the request for the nullifiers of the unspent notes. A node is told only their prefixes.
pub fn nullifier_request(
    unspent_nullifiers: &Vec<Nullifier>,
    current_block_num: BlockNumber,
    chain_tip: BlockNumber,
) -> (request: NullifierRequest)
    requires
        current_block_num < chain_tip,
    ensures
        request.prefixes@ == unspent_nullifiers@.map_values(|nullifier: Nullifier| prefix_of(nullifier)),
        request.block_from == current_block_num + 1,
        request.block_to == chain_tip,
{
    let mut prefixes: Vec<u16> = Vec::new();
    let mut i: usize = 0;
    while i < unspent_nullifiers.len()
        invariant
            i <= unspent_nullifiers.len(),
            prefixes@.len() == i,
            forall|k: int| 0 <= k < i ==> #[trigger] prefixes@[k] == prefix_of(unspent_nullifiers@[k]),
        decreases unspent_nullifiers.len() - i,
    {
        prefixes.push(nullifier_prefix(&unspent_nullifiers[i]));
        i += 1;
    }
    NullifierRequest { prefixes, block_from: current_block_num + 1, block_to: chain_tip }
}

/// A note that was consumed, and the tracked account that consumed it with a transaction this client
/// did not submit, if that is known.
#[derive(Clone, Copy, Debug, PartialEq, Eq, Structural)]
pub struct NoteConsumption {
    pub external_consumer: Option<AccountId>,
    pub nullifier: Nullifier,
    pub block_num: BlockNumber,
}

/// The consumption that a recorded nullifier stands for.
pub open spec fn consumption_of(
    consumers: Map<Nullifier, AccountId>,
    update: NullifierUpdate,
) -> NoteConsumption {
    NoteConsumption {
        external_consumer: if consumers.contains_key(update.nullifier) {
            Some(consumers[update.nullifier])
        } else {
            None
        },
        nullifier: update.nullifier,
        block_num: update.block_num,
    }
}

/// The consumptions that the recorded nullifiers stand for. Those after the chain tip do not count;
/// the chain may have grown between two requests.
pub open spec fn consumptions_of(
    consumers: Map<Nullifier, AccountId>,
    updates: Seq<NullifierUpdate>,
    chain_tip: BlockNumber,
) -> Seq<NoteConsumption>
    decreases updates.len(),
{
    if updates.len() == 0 {
        Seq::empty()
    } else {
        let rest = consumptions_of(consumers, updates.drop_last(), chain_tip);
        if updates.last().block_num <= chain_tip {
            rest.push(consumption_of(consumers, updates.last()))
        } else {
            rest
        }
    }
}

/// The nullifiers of the consumptions.
pub open spec fn nullifiers_of(consumptions: Seq<NoteConsumption>) -> Seq<Nullifier> {
    consumptions.map_values(|consumption: NoteConsumption| consumption.nullifier)
}

/// Applies the nullifiers that a node reported: gives up the transactions that consume notes others
/// consumed, and returns the consumptions for the notes of the client.
pub fn apply_nullifiers(
    transaction_updates: &mut TransactionUpdateTracker,
    new_nullifiers: &Vec<NullifierUpdate>,
    chain_tip: BlockNumber,
) -> (consumptions: Vec<NoteConsumption>)
    ensures
        consumptions@ == consumptions_of(
            old(transaction_updates).external_nullifier_accounts@,
            new_nullifiers@,
            chain_tip,
        ),
        final(transaction_updates).txs() == all_nullified(
            old(transaction_updates).txs(),
            nullifiers_of(consumptions@),
        ),
        final(transaction_updates).external_nullifier_accounts == old(transaction_updates).external_nullifier_accounts,
{
    let ghost consumers = transaction_updates.external_nullifier_accounts@;
    let ghost txs = transaction_updates.txs();
    let mut consumptions: Vec<NoteConsumption> = Vec::new();
    let mut i: usize = 0;
    while i < new_nullifiers.len()
        invariant
            i <= new_nullifiers.len(),
            transaction_updates.external_nullifier_accounts == old(transaction_updates).external_nullifier_accounts,
            consumers == transaction_updates.external_nullifier_accounts@,
            consumptions@ == consumptions_of(consumers, new_nullifiers@.take(i as int), chain_tip),
            transaction_updates.txs() == all_nullified(txs, nullifiers_of(consumptions@)),
        decreases new_nullifiers.len() - i,
    {
        let update = new_nullifiers[i];
        proof {
            assert(new_nullifiers@.take(i + 1).drop_last() =~= new_nullifiers@.take(i as int));
            assert(new_nullifiers@.take(i + 1).last() == update);
        }
        if update.block_num <= chain_tip {
            let ghost before = consumptions@;
            consumptions.push(
                NoteConsumption {
                    external_consumer: transaction_updates.external_nullifier_account(
                        &update.nullifier,
                    ),
                    nullifier: update.nullifier,
                    block_num: update.block_num,
                },
            );
            transaction_updates.apply_input_note_nullified(update.nullifier);
            proof {
                assert(nullifiers_of(consumptions@).drop_last() =~= nullifiers_of(before));
                assert(nullifiers_of(consumptions@).last() == update.nullifier);
            }
        }
        i += 1;
    }
    assert(new_nullifiers@.take(i as int) =~= new_nullifiers@);
    consumptions
}

} // verus!
