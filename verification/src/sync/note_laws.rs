//! What a sync does with the notes of the client, over all answers of a node.
use vstd::prelude::*;

use crate::collections::{first_some, law_first_some, lemma_picks_next, lemma_picks_none, picks};
use crate::errors::ClientError;
use crate::rpc::domain::note::{CommittedNote, FetchedNote, NullifierUpdate, SyncNotesBlock};
use crate::rpc::domain::transaction::TransactionRecord;
use crate::store::InputNoteRecord;
use crate::sync::chain_sync::RelevantNoteBlock;
use crate::sync::note_sync::{
    all_refs, all_steps, consumptions_of, first_failure, nullifiers_of, recovered_of,
    recovery_problem, recovery_problems, relevant_of, relevant_parts, untracked_refs, with_refs,
    NoteBlockRelevance, NoteConsumption, NoteOutcome, NoteUpdateAction, NoteVerdict, OnNoteReceived,
    OutputNoteStep, RecoverableConsumedNote, RecoveredNote,
};
use crate::sync::transaction_laws::law_all_consumed_notes_end_transactions;
use crate::sync::transaction_updates::{all_nullified, Transactions};
use crate::types::{AccountId, BlockNumber, NoteId, Nullifier};

verus! {

// SCREENING
// ================================================================================================
/// Screening fails with what the screener said of the first note it failed on: it decided about
/// every note before.
pub proof fn law_first_failure_is_reported<S: OnNoteReceived>(
    note_screener: &S,
    notes: Seq<(CommittedNote, Option<InputNoteRecord>)>,
    i: int,
    error: ClientError,
)
    requires
        first_failure(note_screener, notes, i, error),
    ensures
        0 <= i < notes.len(),
        call_ensures(
            S::on_note_received,
            (note_screener, notes[i].0, notes[i].1),
            Err::<NoteUpdateAction, ClientError>(error),
        ),
        forall|j: int|
            #![trigger notes[j]]
            0 <= j < i ==> exists|action: NoteUpdateAction| #[trigger]
                call_ensures(
                    S::on_note_received,
                    (note_screener, notes[j].0, notes[j].1),
                    Ok::<NoteUpdateAction, ClientError>(action),
                ),
{
}

/// A note matters to an observer if any of them, at any position, requires its block. It is a note
/// of the client if it was stored, or is an input note that was marked as committed.
pub proof fn law_verdict(verdict: NoteVerdict, k: int)
    ensures
        0 <= k < verdict.observers@.len() && verdict.observers@[k] == Some(true)
            ==> verdict.is_required(),
        (forall|j: int|
            0 <= j < verdict.observers@.len() ==> #[trigger] verdict.observers@[j] is None
                || verdict.observers@[j] == Some(false)) ==> !verdict.is_required(),
        verdict.outcome is Inserted ==> verdict.is_client_note(),
        verdict.outcome is Discarded ==> !verdict.is_client_note(),
        verdict.outcome == (NoteOutcome::Committed { is_input_note: true })
            ==> verdict.is_client_note(),
        verdict.outcome == (NoteOutcome::Committed { is_input_note: false })
            ==> !verdict.is_client_note(),
{
}

/// A block that matters for one reason alone is relevant, whichever the reason is.
pub proof fn law_relevance(relevance: NoteBlockRelevance)
    ensures
        relevance.has_client_note ==> relevance.relevant(),
        relevance.observer_requires_block ==> relevance.relevant(),
        !relevance.has_client_note && !relevance.observer_requires_block ==> !relevance.relevant(),
{
}

/// Every block that holds a note of the client, or that an observer requires, is kept with its header,
/// its path and what the observers said, in order; no other block is.
pub proof fn law_relevant_blocks(
    blocks: Seq<SyncNotesBlock>,
    relevances: Seq<NoteBlockRelevance>,
)
    requires
        blocks.len() == relevances.len(),
    ensures
        picks(
            relevant_of(blocks, relevances),
            blocks.len() as int,
            |i: int| relevances[i].has_client_note || relevances[i].observer_requires_block,
            |i: int| (
                blocks[i].block_header,
                blocks[i].mmr_path@,
                relevances[i].observer_requires_block,
            ),
        ),
    decreases blocks.len(),
{
    let wanted = |i: int| relevances[i].has_client_note || relevances[i].observer_requires_block;
    let value = |i: int| (
                blocks[i].block_header,
                blocks[i].mmr_path@,
                relevances[i].observer_requires_block,
            );
    if blocks.len() == 0 {
        lemma_picks_none(wanted, value);
    } else {
        let blocks_before = blocks.drop_last();
        let relevances_before = relevances.drop_last();
        law_relevant_blocks(blocks_before, relevances_before);
        lemma_picks_next(
            relevant_of(blocks_before, relevances_before),
            |i: int| relevances_before[i].has_client_note || relevances_before[i].observer_requires_block,
            |i: int| (
                blocks_before[i].block_header,
                blocks_before[i].mmr_path@,
                relevances_before[i].observer_requires_block,
            ),
            relevant_of(blocks, relevances),
            blocks.len() as int,
            wanted,
            value,
        );
    }
}

/// What is compared of relevant blocks is all of each of them.
pub proof fn law_relevant_parts(blocks: Seq<RelevantNoteBlock>)
    ensures
        relevant_parts(blocks).len() == blocks.len(),
        forall|i: int|
            #![trigger relevant_parts(blocks)[i]]
            0 <= i < blocks.len() ==> {
                &&& relevant_parts(blocks)[i].0 == blocks[i].block_header
                &&& relevant_parts(blocks)[i].1 == blocks[i].mmr_path@
                &&& relevant_parts(blocks)[i].2 == blocks[i].observer_requires_block
            },
{
}

// TRANSACTIONS
// ================================================================================================
/// A transaction asks for its output notes to be marked as committed, each of them, and then for its
/// erased notes to be marked as consumed in its block, each of them. Transactions are taken one after
/// the other.
pub proof fn law_output_note_steps(
    records: Seq<TransactionRecord>,
    others: Seq<TransactionRecord>,
    record: TransactionRecord,
)
    ensures
        all_steps(Seq::empty()) == Seq::<OutputNoteStep>::empty(),
        all_steps(records + others) == all_steps(records) + all_steps(others),
        ({
            let steps = all_steps(seq![record]);
            let proven = record.output_notes@;
            let erased = record.erased_output_notes@;
            &&& steps.len() == proven.len() + erased.len()
            &&& forall|k: int|
                0 <= k < proven.len() ==> #[trigger] steps[k] == (OutputNoteStep::Commit {
                    note_id: proven[k],
                })
            &&& forall|k: int|
                0 <= k < erased.len() ==> #[trigger] steps[proven.len() + k] == (
                OutputNoteStep::ConsumeErased { note_id: erased[k], block_num: record.block_num })
        }),
    decreases others.len(),
{
    if others.len() == 0 {
        assert(records + others =~= records);
        assert(all_steps(records) + all_steps(others) =~= all_steps(records));
    } else {
        law_output_note_steps(records, others.drop_last(), record);
        assert((records + others).drop_last() =~= records + others.drop_last());
        assert(all_steps(records + others) =~= all_steps(records) + all_steps(others));
    }
    assert(seq![record].drop_last() =~= Seq::empty());
    assert(all_steps(Seq::<TransactionRecord>::empty()).len() == 0);
}

// CONSUMED PUBLIC NOTES
// ================================================================================================
/// The reference at the position is the last one to the note among those of the transactions.
pub open spec fn is_last_ref(
    records: Seq<TransactionRecord>,
    i: int,
    k: int,
    note_id: NoteId,
) -> bool {
    &&& 0 <= i < records.len()
    &&& 0 <= k < records[i].consumed_note_refs@.len()
    &&& records[i].consumed_note_refs@[k].note_id == note_id
    &&& forall|h: int|
        k < h < records[i].consumed_note_refs@.len()
            ==> (#[trigger] records[i].consumed_note_refs@[h]).note_id != note_id
    &&& forall|j: int, h: int|
        i < j < records.len() && 0 <= h < records[j].consumed_note_refs@.len() ==> (
        #[trigger] records[j].consumed_note_refs@[h]).note_id != note_id
}

/// The references of one transaction: the last one to a note counts, and other notes stay as they
/// are.
proof fn lemma_with_refs(
    refs: Map<NoteId, RecoverableConsumedNote>,
    record: TransactionRecord,
    n: int,
    note_id: NoteId,
)
    requires
        0 <= n <= record.consumed_note_refs@.len(),
    ensures
        (forall|h: int|
            0 <= h < n ==> (#[trigger] record.consumed_note_refs@[h]).note_id != note_id) ==> (
        with_refs(refs, record, n).contains_key(note_id) == refs.contains_key(note_id) && (
        refs.contains_key(note_id) ==> with_refs(refs, record, n)[note_id] == refs[note_id])),
        forall|k: int|
            0 <= k < n && (#[trigger] record.consumed_note_refs@[k]).note_id == note_id && (forall|
                h: int,
            |
                k < h < n ==> (#[trigger] record.consumed_note_refs@[h]).note_id != note_id) ==> {
                &&& with_refs(refs, record, n).contains_key(note_id)
                &&& with_refs(refs, record, n)[note_id] == RecoverableConsumedNote {
                    nullifier: record.consumed_note_refs@[k].nullifier,
                    consumer: record.transaction_header.account_id,
                    block_num: record.block_num,
                }
            },
    decreases n,
{
    if n > 0 {
        lemma_with_refs(refs, record, n - 1, note_id);
        let last = record.consumed_note_refs@[n - 1];
    }
}

/// A note is recovered from the last reference to it: with the nullifier of the reference, the
/// account of the transaction and its block.
pub proof fn law_last_reference_counts(
    records: Seq<TransactionRecord>,
    i: int,
    k: int,
    note_id: NoteId,
)
    requires
        is_last_ref(records, i, k, note_id),
    ensures
        all_refs(records).contains_key(note_id),
        all_refs(records)[note_id].nullifier == records[i].consumed_note_refs@[k].nullifier,
        all_refs(records)[note_id].consumer == records[i].transaction_header.account_id,
        all_refs(records)[note_id].block_num == records[i].block_num,
    decreases records.len(),
{
    let before = records.drop_last();
    let last = records.last();
    let count = last.consumed_note_refs@.len() as int;
    lemma_with_refs(all_refs(before), last, count, note_id);
    if i < records.len() - 1 {
        assert(before[i] == records[i]);
        assert forall|j: int, h: int|
            i < j < before.len() && 0 <= h < before[j].consumed_note_refs@.len() implies (
        #[trigger] before[j].consumed_note_refs@[h]).note_id != note_id by {
            assert(records[j].consumed_note_refs@[h].note_id != note_id);
        }
        assert(is_last_ref(before, i, k, note_id));
        law_last_reference_counts(before, i, k, note_id);
        assert forall|h: int| 0 <= h < count implies (
        #[trigger] last.consumed_note_refs@[h]).note_id != note_id by {
            assert(records[records.len() - 1].consumed_note_refs@[h].note_id != note_id);
        }
    } else {
        assert(records[i] == last);
    }
}

/// A note without a reference is not recovered.
pub proof fn law_no_reference_no_note(records: Seq<TransactionRecord>, note_id: NoteId)
    requires
        forall|i: int, k: int|
            0 <= i < records.len() && 0 <= k < records[i].consumed_note_refs@.len() ==> (
            #[trigger] records[i].consumed_note_refs@[k]).note_id != note_id,
    ensures
        !all_refs(records).contains_key(note_id),
    decreases records.len(),
{
    if records.len() > 0 {
        let before = records.drop_last();
        let last = records.last();
        assert forall|i: int, k: int|
            0 <= i < before.len() && 0 <= k < before[i].consumed_note_refs@.len() implies (
        #[trigger] before[i].consumed_note_refs@[k]).note_id != note_id by {
            assert(records[i].consumed_note_refs@[k].note_id != note_id);
        }
        law_no_reference_no_note(before, note_id);
        assert forall|h: int| 0 <= h < last.consumed_note_refs@.len() implies (
        #[trigger] last.consumed_note_refs@[h]).note_id != note_id by {
            assert(records[records.len() - 1].consumed_note_refs@[h].note_id != note_id);
        }
        lemma_with_refs(
            all_refs(before),
            last,
            last.consumed_note_refs@.len() as int,
            note_id,
        );
    }
}

/// A reference is followed unless the client tracks the note, wherever the note stands among the
/// tracked ones.
pub proof fn law_tracked_notes_are_not_recovered(
    refs: Map<NoteId, RecoverableConsumedNote>,
    tracked_notes: Seq<NoteId>,
    note_id: NoteId,
)
    ensures
        untracked_refs(refs, tracked_notes).contains_key(note_id) <==> refs.contains_key(note_id)
            && forall|k: int|
            0 <= k < tracked_notes.len() ==> #[trigger] tracked_notes[k] != note_id,
        untracked_refs(refs, tracked_notes).contains_key(note_id) ==> untracked_refs(
            refs,
            tracked_notes,
        )[note_id] == refs[note_id],
{
    if !tracked_notes.contains(note_id) {
        assert forall|k: int| 0 <= k < tracked_notes.len() implies #[trigger] tracked_notes[k]
            != note_id by {
            assert(tracked_notes.contains(tracked_notes[k]));
        }
    }
}

/// Fetched notes are accepted if and only if none of them is private, and each that was asked for has
/// the nullifier that was consumed. The first one that is not accepted is what is reported.
pub proof fn law_recovered_notes_are_checked(
    refs: Map<NoteId, RecoverableConsumedNote>,
    fetched: Seq<FetchedNote>,
)
    ensures
        first_some(recovery_problems(refs, fetched)) is None <==> forall|i: int|
            0 <= i < fetched.len() ==> match #[trigger] fetched[i] {
                FetchedNote::Public { note_id, nullifier, .. } => refs.contains_key(note_id)
                    ==> refs[note_id].nullifier == nullifier,
                FetchedNote::Private { .. } => false,
            },
        first_some(recovery_problems(refs, fetched)) matches Some(text) ==> exists|i: int|
            0 <= i < fetched.len() && recovery_problem(refs, #[trigger] fetched[i]) == Some(text)
                && forall|j: int|
                0 <= j < i ==> match #[trigger] fetched[j] {
                    FetchedNote::Public { note_id, nullifier, .. } => refs.contains_key(note_id)
                        ==> refs[note_id].nullifier == nullifier,
                    FetchedNote::Private { .. } => false,
                },
{
    let problems = recovery_problems(refs, fetched);
    law_first_some(problems);
    assert(problems.len() == fetched.len());
    assert forall|i: int| 0 <= i < fetched.len() implies #[trigger] problems[i]
        == recovery_problem(refs, fetched[i]) by {}
    if first_some(problems) is Some {
        let i = choose|i: int|
            0 <= i < problems.len() && #[trigger] problems[i] == first_some(problems) && forall|
                j: int,
            |
                0 <= j < i ==> #[trigger] problems[j] is None;
        assert(recovery_problem(refs, fetched[i]) == first_some(problems));
        assert forall|j: int| 0 <= j < i implies match #[trigger] fetched[j] {
            FetchedNote::Public { note_id, nullifier, .. } => refs.contains_key(note_id)
                ==> refs[note_id].nullifier == nullifier,
            FetchedNote::Private { .. } => false,
        } by {
            assert(problems[j] is None);
        }
    } else {
        assert forall|i: int| 0 <= i < fetched.len() implies match #[trigger] fetched[i] {
            FetchedNote::Public { note_id, nullifier, .. } => refs.contains_key(note_id)
                ==> refs[note_id].nullifier == nullifier,
            FetchedNote::Private { .. } => false,
        } by {
            assert(problems[i] is None);
        }
    }
}

/// The id of a fetched note, public or private.
pub open spec fn fetched_id(note: FetchedNote) -> NoteId {
    match note {
        FetchedNote::Public { note_id, .. } => note_id,
        FetchedNote::Private { note_id, .. } => note_id,
    }
}

/// Every fetched note that was asked for is recovered, with its position and with how it was consumed,
/// in order; a note that was not asked for is ignored.
pub proof fn law_recovered_notes(
    refs: Map<NoteId, RecoverableConsumedNote>,
    fetched: Seq<FetchedNote>,
)
    ensures
        picks(
            recovered_of(refs, fetched),
            fetched.len() as int,
            |i: int| refs.contains_key(fetched_id(fetched[i])),
            |i: int| RecoveredNote {
                fetched_at: i as usize,
                note_id: fetched_id(fetched[i]),
                consumer: refs[fetched_id(fetched[i])].consumer,
                block_num: refs[fetched_id(fetched[i])].block_num,
            },
        ),
    decreases fetched.len(),
{
    let wanted = |i: int| refs.contains_key(fetched_id(fetched[i]));
    let value = |i: int| RecoveredNote {
                fetched_at: i as usize,
                note_id: fetched_id(fetched[i]),
                consumer: refs[fetched_id(fetched[i])].consumer,
                block_num: refs[fetched_id(fetched[i])].block_num,
            };
    if fetched.len() == 0 {
        lemma_picks_none(wanted, value);
    } else {
        let fetched_before = fetched.drop_last();
        law_recovered_notes(refs, fetched_before);
        lemma_picks_next(
            recovered_of(refs, fetched_before),
            |i: int| refs.contains_key(fetched_id(fetched_before[i])),
            |i: int| RecoveredNote {
                fetched_at: i as usize,
                note_id: fetched_id(fetched_before[i]),
                consumer: refs[fetched_id(fetched_before[i])].consumer,
                block_num: refs[fetched_id(fetched_before[i])].block_num,
            },
            recovered_of(refs, fetched),
            fetched.len() as int,
            wanted,
            value,
        );
    }
}

// NULLIFIERS
// ================================================================================================
/// Every nullifier that was recorded up to the chain tip counts, once and in order, with the account
/// that is known to have consumed the note; those after the tip do not.
pub proof fn law_consumptions(
    consumers: Map<Nullifier, AccountId>,
    updates: Seq<NullifierUpdate>,
    chain_tip: BlockNumber,
)
    ensures
        picks(
            consumptions_of(consumers, updates, chain_tip),
            updates.len() as int,
            |i: int| updates[i].block_num <= chain_tip,
            |i: int| NoteConsumption {
                external_consumer: if consumers.contains_key(updates[i].nullifier) {
                    Some(consumers[updates[i].nullifier])
                } else {
                    None
                },
                nullifier: updates[i].nullifier,
                block_num: updates[i].block_num,
            },
        ),
    decreases updates.len(),
{
    let wanted = |i: int| updates[i].block_num <= chain_tip;
    let value = |i: int| NoteConsumption {
                external_consumer: if consumers.contains_key(updates[i].nullifier) {
                    Some(consumers[updates[i].nullifier])
                } else {
                    None
                },
                nullifier: updates[i].nullifier,
                block_num: updates[i].block_num,
            };
    if updates.len() == 0 {
        lemma_picks_none(wanted, value);
    } else {
        let updates_before = updates.drop_last();
        law_consumptions(consumers, updates_before, chain_tip);
        lemma_picks_next(
            consumptions_of(consumers, updates_before, chain_tip),
            |i: int| updates_before[i].block_num <= chain_tip,
            |i: int| NoteConsumption {
                external_consumer: if consumers.contains_key(updates_before[i].nullifier) {
                    Some(consumers[updates_before[i].nullifier])
                } else {
                    None
                },
                nullifier: updates_before[i].nullifier,
                block_num: updates_before[i].block_num,
            },
            consumptions_of(consumers, updates, chain_tip),
            updates.len() as int,
            wanted,
            value,
        );
    }
}

/// If every nullifier was recorded up to the chain tip, there are as many consumptions as nullifiers,
/// and each has the nullifier and the block of the one at its position.
pub proof fn law_all_consumptions_up_to_the_tip(
    consumers: Map<Nullifier, AccountId>,
    updates: Seq<NullifierUpdate>,
    chain_tip: BlockNumber,
)
    requires
        forall|i: int| 0 <= i < updates.len() ==> (#[trigger] updates[i]).block_num <= chain_tip,
    ensures
        ({
            let consumptions = consumptions_of(consumers, updates, chain_tip);
            &&& consumptions.len() == updates.len()
            &&& forall|i: int|
                #![trigger consumptions[i]]
                0 <= i < updates.len() ==> consumptions[i].nullifier == updates[i].nullifier
                    && consumptions[i].block_num == updates[i].block_num
        }),
    decreases updates.len(),
{
    if updates.len() > 0 {
        let before = updates.drop_last();
        assert(updates[updates.len() - 1].block_num <= chain_tip);
        assert forall|i: int| 0 <= i < before.len() implies (#[trigger] before[i]).block_num
            <= chain_tip by {
            assert(before[i] == updates[i]);
        }
        law_all_consumptions_up_to_the_tip(consumers, before, chain_tip);
    }
}

/// A nullifier that was recorded up to the chain tip leads to a consumption, and leaves no
/// transaction pending that consumes the note.
pub proof fn law_recorded_nullifier_is_applied(
    consumers: Map<Nullifier, AccountId>,
    updates: Seq<NullifierUpdate>,
    chain_tip: BlockNumber,
    u: int,
    txs: Transactions,
    i: int,
    k: int,
)
    requires
        0 <= u < updates.len(),
        updates[u].block_num <= chain_tip,
        0 <= i < txs.len(),
        0 <= k < txs[i].1.details.input_note_nullifiers@.len(),
        txs[i].1.details.input_note_nullifiers@[k] == updates[u].nullifier,
    ensures
        ({
            let consumptions = consumptions_of(consumers, updates, chain_tip);
            &&& exists|c: int|
                0 <= c < consumptions.len() && (#[trigger] consumptions[c]).nullifier
                    == updates[u].nullifier && consumptions[c].block_num == updates[u].block_num
            &&& !(all_nullified(txs, nullifiers_of(consumptions))[i].1.status is Pending)
        }),
{
    let consumptions = consumptions_of(consumers, updates, chain_tip);
    lemma_consumption_at(consumers, updates, chain_tip, u);
    let c = choose|c: int|
        0 <= c < consumptions.len() && (#[trigger] consumptions[c]).nullifier
            == updates[u].nullifier && consumptions[c].block_num == updates[u].block_num;
    let nullifiers = nullifiers_of(consumptions);
    assert(nullifiers[c] == updates[u].nullifier);
    law_all_consumed_notes_end_transactions(txs, nullifiers, i);
}

/// A nullifier up to the chain tip is among the consumptions.
proof fn lemma_consumption_at(
    consumers: Map<Nullifier, AccountId>,
    updates: Seq<NullifierUpdate>,
    chain_tip: BlockNumber,
    u: int,
)
    requires
        0 <= u < updates.len(),
        updates[u].block_num <= chain_tip,
    ensures
        exists|c: int|
            0 <= c < consumptions_of(consumers, updates, chain_tip).len() && (
            #[trigger] consumptions_of(consumers, updates, chain_tip)[c]).nullifier
                == updates[u].nullifier && consumptions_of(
                consumers,
                updates,
                chain_tip,
            )[c].block_num == updates[u].block_num,
    decreases updates.len(),
{
    let now = consumptions_of(consumers, updates, chain_tip);
    let before = updates.drop_last();
    let rest = consumptions_of(consumers, before, chain_tip);
    if u < before.len() {
        lemma_consumption_at(consumers, before, chain_tip, u);
        let c = choose|c: int|
            0 <= c < rest.len() && (#[trigger] rest[c]).nullifier == before[u].nullifier
                && rest[c].block_num == before[u].block_num;
        assert(now[c] == rest[c]);
    } else {
        assert(now[rest.len() as int].nullifier == updates[u].nullifier);
    }
}

} // verus!
